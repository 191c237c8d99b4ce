use lead_audit::{extract_emails, extract_phones, is_generic_email, is_valid_phone, normalize_phone};

#[test]
fn test_extract_valid_emails() {
    let html = r#"
        <p>Contact us at info@example.com or support@company.io</p>
        <a href="mailto:john.doe@business.fr">Email John</a>
    "#;
    let emails = extract_emails(html);
    assert!(emails.contains(&"info@example.com".to_string()));
    assert!(emails.contains(&"support@company.io".to_string()));
    assert!(emails.contains(&"john.doe@business.fr".to_string()));
}

#[test]
fn test_filter_invalid_emails() {
    let html = r#"
        <img src="logo@2x.png">
        <p>user@sentry.io</p>
    "#;
    let emails = extract_emails(html);
    assert!(!emails.iter().any(|e| e.ends_with(".png")));
    assert!(!emails.contains(&"user@sentry.io".to_string()));
}

#[test]
fn test_generic_email_detection() {
    assert!(is_generic_email("info@company.com"));
    assert!(is_generic_email("noreply@business.io"));
    assert!(is_generic_email("user@gmail.com"));
    assert!(!is_generic_email("john.smith@company.com"));
}

#[test]
fn test_extract_french_phones() {
    let html = r#"
        <p>Appelez-nous au 01 23 45 67 89</p>
        <p>Mobile: +33 6 12 34 56 78</p>
    "#;
    let phones = extract_phones(html);
    assert!(phones.iter().any(|p| p.contains("123456789")));
    assert!(phones.iter().any(|p| p.contains("+336")));
}

#[test]
fn test_normalize_phone() {
    assert_eq!(normalize_phone("01 23 45 67 89"), "+33123456789");
    assert_eq!(normalize_phone("+33 6 12 34 56 78"), "+33612345678");
    assert_eq!(normalize_phone("0033 1 23 45 67 89"), "+33123456789");
}

#[test]
fn test_filter_invalid_phones() {
    assert!(!is_valid_phone("123"));
    assert!(!is_valid_phone("1234567890"));
    assert!(is_valid_phone("+33123456789"));
}

#[test]
fn test_phone_extraction_exact_values() {
    let text = "Fixe: 01 23 45 67 89, mobile +33 6 12 34 56 78";
    let phones = extract_phones(text);
    assert!(phones.contains(&"+33123456789".to_string()));
    assert!(phones.contains(&"+33612345678".to_string()));
}

#[test]
fn test_extract_emails_lowercases_matches() {
    let emails = extract_emails("Write to John.Doe@Example.COM today");
    assert!(emails.contains(&"john.doe@example.com".to_string()));
    assert_eq!(emails.len(), 1);
}

#[test]
fn test_extract_emails_closed_under_lowercasing() {
    let html = r#"<p>Sales: SALES@ACME.COM, tech: Admin@Acme.Com, see logo@2x.PNG</p>"#;
    let mut a = extract_emails(html);
    let mut b = extract_emails(&html.to_lowercase());
    a.sort();
    b.sort();
    assert_eq!(a, b);
}

#[test]
fn test_extract_emails_is_a_set() {
    let html = "a@b.com a@b.com A@B.COM a@b.com";
    let emails = extract_emails(html);
    assert_eq!(emails.len(), 1);
    assert_eq!(emails[0], "a@b.com");
}

#[test]
fn test_normalize_phone_fixed_point() {
    for raw in ["01 23 45 67 89", "+33 6 12 34 56 78", "0044 20 1234 5678", "00 12"] {
        let once = normalize_phone(raw);
        assert_eq!(normalize_phone(&once), once);
    }
}

#[test]
fn test_strip_html_tags_replaces_markup() {
    let stripped = lead_audit::strip_html_tags("<p>01 23</p><br>45");
    assert_eq!(stripped, " 01 23  45");
}
