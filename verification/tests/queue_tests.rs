use lead_audit::queue::{job_fields_from_hash, JobHashError};
use lead_audit::{should_audit_lead_at, Lead, QueueState};

fn state(wait: &[&str], priority: &[&str], active: &[&str]) -> QueueState {
    QueueState {
        wait: wait.iter().map(|s| s.to_string()).collect(),
        priority: priority.iter().map(|s| s.to_string()).collect(),
        active: active.iter().map(|s| s.to_string()).collect(),
        completed: vec![],
        paused: false,
    }
}

#[test]
fn test_move_to_active_claims_from_wait() {
    let mut q = state(&["2", "1"], &[], &[]);
    let claimed = q.move_to_active();
    assert_eq!(claimed.as_deref(), Some("1"));
    assert_eq!(q.wait, vec!["2".to_string()]);
    assert_eq!(q.active, vec!["1".to_string()]);
}

#[test]
fn test_move_to_active_falls_back_to_priority() {
    let mut q = state(&[], &["7", "9"], &[]);
    let claimed = q.move_to_active();
    assert_eq!(claimed.as_deref(), Some("7"));
    assert_eq!(q.priority, vec!["9".to_string()]);
    assert_eq!(q.active, vec!["7".to_string()]);
}

#[test]
fn test_move_to_active_respects_pause() {
    let mut q = state(&["1"], &[], &[]);
    q.paused = true;
    assert!(q.move_to_active().is_none());
    assert_eq!(q.wait, vec!["1".to_string()]);
    assert!(q.active.is_empty());
}

#[test]
fn test_acknowledge_completes_job() {
    let mut q = state(&[], &[], &["1", "2"]);
    q.acknowledge(&"1".to_string());
    assert_eq!(q.active, vec!["2".to_string()]);
    assert_eq!(q.completed, vec!["1".to_string()]);
}

#[test]
fn test_requeue_puts_job_back_in_wait() {
    let mut q = state(&["5"], &[], &["3", "4"]);
    q.requeue(&"3".to_string());
    assert_eq!(q.wait, vec!["3".to_string(), "5".to_string()]);
    assert!(!q.active.contains(&"3".to_string()));
    assert_eq!(q.active, vec!["4".to_string()]);
}

#[test]
fn test_job_fields_from_hash() {
    let entries = vec![
        ("name".to_string(), "lead-audit".to_string()),
        ("data".to_string(), "{}".to_string()),
    ];
    let (name, data) = job_fields_from_hash(&entries).expect("both fields present");
    assert_eq!(name, "lead-audit");
    assert_eq!(data, "{}");
}

#[test]
fn test_job_hash_missing_name() {
    let entries = vec![("data".to_string(), "{}".to_string())];
    assert_eq!(job_fields_from_hash(&entries), Err(JobHashError::MissingName));
}

#[test]
fn test_job_hash_missing_data() {
    let entries = vec![("name".to_string(), "lead-audit".to_string())];
    assert_eq!(job_fields_from_hash(&entries), Err(JobHashError::MissingData));
}

#[test]
fn test_should_process_job() {
    assert!(lead_audit::queue::should_process_job("lead-audit"));
    assert!(!lead_audit::queue::should_process_job("email-campaign"));
    assert!(!lead_audit::queue::should_process_job("lead-audit2"));
}

#[test]
fn test_should_audit_lead_at_fixed_clock() {
    let lead = Lead {
        id: "1".to_string(),
        domain: "example.com".to_string(),
        scrapped_at: Some("2020-01-01T00:00:00+00:00".to_string()),
        audited_at: None,
        email: None,
        additional_emails: vec![],
        phone_numbers: vec![],
    };
    let t0 = chrono::DateTime::parse_from_rfc3339("2020-01-01T01:00:00+00:00")
        .unwrap()
        .timestamp_millis();
    assert!(!should_audit_lead_at(&lead, t0));
    let much_later = t0 + 365 * 24 * 60 * 60 * 1000;
    assert!(should_audit_lead_at(&lead, much_later));
}
