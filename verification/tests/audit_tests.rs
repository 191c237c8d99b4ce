use lead_audit::{audit_website, detect_technologies};

#[test]
fn test_detect_react() {
    let html = r#"<script src="/static/js/react.production.min.js"></script>"#;
    let techs = detect_technologies(html);
    assert!(techs.iter().any(|t| t.name == "React"));
}

#[test]
fn test_detect_wordpress() {
    let html = r#"<link rel="stylesheet" href="/wp-content/themes/mytheme/style.css">"#;
    let techs = detect_technologies(html);
    assert!(techs.iter().any(|t| t.name == "WordPress"));
}

#[test]
fn test_audit_website() {
    let html = r#"
        <!DOCTYPE html>
        <html>
        <head>
            <title>Test Site</title>
            <meta name="description" content="A test website">
        </head>
        <body>
            <script src="/wp-content/plugins/test.js"></script>
        </body>
        </html>
    "#;
    let result = audit_website(html, "https://example.com");
    assert_eq!(result.page_title, Some("Test Site".to_string()));
    assert!(result.has_ssl);
    assert!(result.technologies.iter().any(|t| t.name == "WordPress"));
}

#[test]
fn test_audit_website_no_ssl() {
    let result = audit_website("<html></html>", "http://example.com");
    assert!(!result.has_ssl);
    assert_eq!(result.page_title, None);
    assert_eq!(result.meta_description, None);
}

#[test]
fn test_detect_wordpress_by_generator() {
    let html = r#"<html><head><meta name="generator" content="WordPress 6.2"></head></html>"#;
    let techs = detect_technologies(html);
    assert!(techs.iter().any(|t| t.name == "WordPress" && t.category == "CMS"));
}

#[test]
fn test_detect_vue_and_nextjs() {
    let html = r#"<div v-if="x"></div><script id="__NEXT_DATA__"></script>"#;
    let techs = detect_technologies(html);
    assert!(techs.iter().any(|t| t.name == "Vue.js"));
    assert!(techs.iter().any(|t| t.name == "Next.js"));
}

#[test]
fn test_detect_jquery_versioned() {
    let html = r#"<script src="/js/jquery-3.6.0.min.js"></script>"#;
    let techs = detect_technologies(html);
    assert!(techs.iter().any(|t| t.name == "jQuery"));
}

#[test]
fn test_detect_tailwind_and_bootstrap_classes() {
    let html = r#"<div class="mx-auto p-4"></div><div class="btn-primary large"></div>"#;
    let techs = detect_technologies(html);
    assert!(techs.iter().any(|t| t.name == "Tailwind CSS"));
    assert!(techs.iter().any(|t| t.name == "Bootstrap"));
}

#[test]
fn test_detection_deduplicates() {
    let html = r#"<p>/wp-content/ and /wp-includes/ and svelte</p>"#;
    let techs = detect_technologies(html);
    assert_eq!(techs.iter().filter(|t| t.name == "WordPress").count(), 1);
    assert!(techs.iter().any(|t| t.name == "Svelte"));
    assert!(techs.iter().all(|t| t.version.is_none()));
}

#[test]
fn test_detection_monotone_under_append() {
    let base = r#"<p id="__NUXT__">hello</p>"#;
    let extended = format!("{}{}", base, r#"<i>ng-app</i>"#);
    let before: Vec<String> = detect_technologies(base).into_iter().map(|t| t.name).collect();
    let after: Vec<String> = detect_technologies(&extended).into_iter().map(|t| t.name).collect();
    for name in &before {
        assert!(after.contains(name));
    }
    assert!(after.contains(&"Angular".to_string()));
}

#[test]
fn test_detect_react_inline_script() {
    let html = r#"<script>loadBundle("react-dom.production.min.js");</script>"#;
    let techs = detect_technologies(html);
    assert!(techs.iter().any(|t| t.name == "React"));
}

#[test]
fn test_audit_website_reads_meta_description() {
    let html = r#"<head><meta name="description" content="A test website"></head>"#;
    let result = audit_website(html, "https://example.com");
    assert_eq!(result.meta_description, Some("A test website".to_string()));
}

#[test]
fn test_class_tokens_outside_attribute_do_not_count() {
    let html = r#"<div class="plain">flex and grid are just words here</div>"#;
    let techs = detect_technologies(html);
    assert!(!techs.iter().any(|t| t.name == "Tailwind CSS"));
    assert!(!techs.iter().any(|t| t.name == "Bootstrap"));
}

#[test]
fn test_padding_token_needs_a_digit() {
    let html = r#"<div class="p-wide"></div>"#;
    let techs = detect_technologies(html);
    assert!(!techs.iter().any(|t| t.name == "Tailwind CSS"));
}

#[test]
fn test_jquery_needs_full_version_triple() {
    let html = r#"<script src="/js/jquery-3.6.js"></script>"#;
    let techs = detect_technologies(html);
    assert!(!techs.iter().any(|t| t.name == "jQuery"));
}

#[test]
fn test_jquery_plain_and_min_bundles() {
    let plain = detect_technologies(r#"<script src="jquery.js"></script>"#);
    assert!(plain.iter().any(|t| t.name == "jQuery"));
    let slim = detect_technologies(r#"<script src="jquery.slim.js"></script>"#);
    assert!(!slim.iter().any(|t| t.name == "jQuery"));
}
