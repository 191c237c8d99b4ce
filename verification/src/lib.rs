//! Verified core of a lead-enrichment worker: a queue-protocol model,
//! contact extraction, technology detection, lead filtering and scoring,
//! and the merge rules for persisting enrichment data.
pub mod audit;
pub mod email;
pub mod filters;
pub mod lead;
pub mod phone;
pub mod queue;
pub mod score;
pub mod scrape;
pub mod tech;
pub mod text;
pub mod time;

pub use audit::{audit_website, AuditResult};
pub use email::{extract_emails, is_generic_email, is_invalid_email};
pub use filters::{has_missing_contact_info, should_audit_lead, should_audit_lead_at};
pub use lead::{merge_lead_update, Lead, LeadUpdate};
pub use phone::{extract_phones, is_valid_phone, normalize_phone, strip_html_tags};
pub use queue::{BullMQJob, LeadAuditJobData, QueueState};
pub use scrape::{has_enough_data, normalize_url, parse_html, ScrapedData, ScraperCache};
pub use score::{calculate_lead_score, LeadScore};
pub use tech::{detect_technologies, has_modern_technology, Technology};
