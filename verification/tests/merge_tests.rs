use lead_audit::{merge_lead_update, parse_html, AuditResult, Lead, Technology};

fn lead_with(email: Option<&str>, additional: &[&str], phones: &[&str]) -> Lead {
    Lead {
        id: "1".to_string(),
        domain: "example.com".to_string(),
        scrapped_at: None,
        audited_at: None,
        email: email.map(|e| e.to_string()),
        additional_emails: additional.iter().map(|s| s.to_string()).collect(),
        phone_numbers: phones.iter().map(|s| s.to_string()).collect(),
    }
}

fn scrape(emails_html: &str) -> lead_audit::ScrapedData {
    parse_html(emails_html, "https://example.com/")
}

#[test]
fn test_merge_promotes_first_scraped_email() {
    let lead = lead_with(None, &[], &[]);
    let scraped = scrape("<p>zeta@example.com</p>");
    let update = merge_lead_update(&lead, &scraped, None);
    assert_eq!(update.email.as_deref(), Some("zeta@example.com"));
    assert!(!update.additional_emails.contains(&"zeta@example.com".to_string()));
}

#[test]
fn test_merge_keeps_existing_primary() {
    let lead = lead_with(Some("boss@corp.com"), &["old@corp.com"], &[]);
    let scraped = scrape("<p>new@corp.com boss@corp.com</p>");
    let update = merge_lead_update(&lead, &scraped, None);
    assert_eq!(update.email.as_deref(), Some("boss@corp.com"));
    assert!(update.additional_emails.contains(&"new@corp.com".to_string()));
    assert!(update.additional_emails.contains(&"old@corp.com".to_string()));
    assert!(!update.additional_emails.contains(&"boss@corp.com".to_string()));
}

#[test]
fn test_merge_sets_are_sorted_and_deduped() {
    let lead = lead_with(Some("p@c.com"), &["b@c.com", "a@c.com"], &["+33222222222"]);
    let scraped = scrape("<p>a@c.com z@c.com, tel 01 11 11 11 11</p>");
    let update = merge_lead_update(&lead, &scraped, None);
    assert_eq!(
        update.additional_emails,
        vec!["a@c.com".to_string(), "b@c.com".to_string(), "z@c.com".to_string()]
    );
    assert_eq!(
        update.phone_numbers,
        vec!["+33111111111".to_string(), "+33222222222".to_string()]
    );
}

#[test]
fn test_merge_is_idempotent_on_enrichment_sets() {
    let lead = lead_with(None, &["kept@c.com"], &["+33999999999"]);
    let scraped = scrape("<p>b@c.com a@c.com, 01 11 11 11 11</p>");
    let first = merge_lead_update(&lead, &scraped, None);
    let updated = Lead {
        email: first.email.clone().or(lead.email.clone()),
        additional_emails: first.additional_emails.clone(),
        phone_numbers: first.phone_numbers.clone(),
        ..lead
    };
    let second = merge_lead_update(&updated, &scraped, None);
    assert_eq!(first.additional_emails, second.additional_emails);
    assert_eq!(first.phone_numbers, second.phone_numbers);
}

#[test]
fn test_merge_takes_technology_names() {
    let lead = lead_with(None, &[], &[]);
    let scraped = scrape("<p>nothing here</p>");
    let audit = AuditResult {
        url: "https://example.com".to_string(),
        technologies: vec![
            Technology {
                name: "WordPress".to_string(),
                category: "CMS".to_string(),
                version: None,
            },
            Technology {
                name: "jQuery".to_string(),
                category: "JS Library".to_string(),
                version: None,
            },
        ],
        has_ssl: true,
        page_title: None,
        meta_description: None,
        audited_at: 0,
    };
    let update = merge_lead_update(&lead, &scraped, Some(&audit));
    assert_eq!(update.technologies, vec!["WordPress".to_string(), "jQuery".to_string()]);
}
