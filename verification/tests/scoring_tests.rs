use lead_audit::{calculate_lead_score, AuditResult, LeadScore, ScrapedData, Technology};

#[test]
fn test_hot_lead_score() {
    let scraped_data = ScrapedData {
        url: "https://example.com".to_string(),
        html: None,
        emails: vec!["john.doe@company.com".to_string()],
        phones: vec!["+33612345678".to_string()],
        scraped_at: chrono::Utc::now().timestamp_millis(),
    };

    let audit = AuditResult {
        url: "https://example.com".to_string(),
        technologies: vec![Technology {
            name: "React".to_string(),
            category: "Frontend Framework".to_string(),
            version: None,
        }],
        has_ssl: true,
        page_title: None,
        meta_description: None,
        audited_at: chrono::Utc::now().timestamp_millis(),
    };

    let score = calculate_lead_score(&scraped_data, Some(&audit));
    assert_eq!(score, LeadScore::Hot);
}

#[test]
fn test_warm_lead_score() {
    let scraped_data = ScrapedData {
        url: "https://example.com".to_string(),
        html: None,
        emails: vec!["contact@company.com".to_string()],
        phones: vec!["+33612345678".to_string()],
        scraped_at: chrono::Utc::now().timestamp_millis(),
    };

    let score = calculate_lead_score(&scraped_data, None);
    assert_eq!(score, LeadScore::Warm);
}

#[test]
fn test_cold_lead_score() {
    let scraped_data = ScrapedData {
        url: "https://example.com".to_string(),
        html: None,
        emails: vec!["info@company.com".to_string()],
        phones: vec![],
        scraped_at: chrono::Utc::now().timestamp_millis(),
    };

    let score = calculate_lead_score(&scraped_data, None);
    assert_eq!(score, LeadScore::Cold);
}

#[test]
fn test_score_labels() {
    assert_eq!(LeadScore::Hot.as_str(), "HOT");
    assert_eq!(LeadScore::Warm.as_str(), "WARM");
    assert_eq!(LeadScore::Cold.to_string(), "COLD");
}
