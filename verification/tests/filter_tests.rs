use chrono::{Duration, Utc};
use lead_audit::{should_audit_lead, Lead};

#[test]
fn test_should_audit_never_audited() {
    let lead = Lead {
        id: "1".to_string(),
        domain: "example.com".to_string(),
        scrapped_at: None,
        audited_at: None,
        email: None,
        additional_emails: vec![],
        phone_numbers: vec![],
    };

    assert!(should_audit_lead(&lead));
}

#[test]
fn test_should_not_audit_recently_processed() {
    let now = Utc::now().to_rfc3339();
    let lead = Lead {
        id: "1".to_string(),
        domain: "example.com".to_string(),
        scrapped_at: Some(now),
        audited_at: None,
        email: None,
        additional_emails: vec![],
        phone_numbers: vec![],
    };

    assert!(!should_audit_lead(&lead));
}

#[test]
fn test_should_audit_missing_contact_info() {
    let old_date = (Utc::now() - Duration::hours(48)).to_rfc3339();
    let lead = Lead {
        id: "1".to_string(),
        domain: "example.com".to_string(),
        scrapped_at: Some(old_date),
        audited_at: None,
        email: None,
        additional_emails: vec![],
        phone_numbers: vec![],
    };

    assert!(should_audit_lead(&lead));
}

#[test]
fn test_should_not_audit_has_contact_info() {
    let old_date = (Utc::now() - Duration::hours(48)).to_rfc3339();
    let lead = Lead {
        id: "1".to_string(),
        domain: "example.com".to_string(),
        scrapped_at: Some(old_date),
        audited_at: None,
        email: Some("test@example.com".to_string()),
        additional_emails: vec![],
        phone_numbers: vec![],
    };

    assert!(!should_audit_lead(&lead));
}

#[test]
fn test_unparsable_timestamps_read_as_absent() {
    let lead = Lead {
        id: "1".to_string(),
        domain: "example.com".to_string(),
        scrapped_at: Some("not a date".to_string()),
        audited_at: Some("also wrong".to_string()),
        email: Some("test@example.com".to_string()),
        additional_emails: vec![],
        phone_numbers: vec![],
    };

    assert!(should_audit_lead(&lead));
}

#[test]
fn test_recent_audit_blocks_even_without_contact() {
    let now = Utc::now().to_rfc3339();
    let lead = Lead {
        id: "1".to_string(),
        domain: "example.com".to_string(),
        scrapped_at: None,
        audited_at: Some(now),
        email: None,
        additional_emails: vec![],
        phone_numbers: vec![],
    };

    assert!(!should_audit_lead(&lead));
}
