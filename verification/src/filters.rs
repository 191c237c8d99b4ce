//! The lead-eligibility policy: skip leads touched within the last day;
//! otherwise audit new leads, and old ones only when contact data is missing.
use vstd::prelude::*;
use crate::lead::Lead;
use crate::time::{now_millis, parse_rfc3339_millis, rfc3339_millis};

verus! {

/// The recency window in milliseconds: one day.
pub open spec fn recent_window_millis() -> int {
    24int * 60 * 60 * 1000
}

/// The instant a stored timestamp denotes; an absent or unparsable string
/// denotes nothing.
pub open spec fn opt_parsed(o: Option<String>) -> Option<int> {
    match o {
        Some(s) => rfc3339_millis(s@),
        None => None,
    }
}

/// A timestamp within the last day of `now` (a future timestamp counts too).
pub open spec fn recent(t: Option<int>, now: int) -> bool {
    match t {
        Some(v) => now - v < recent_window_millis(),
        None => false,
    }
}

pub open spec fn missing_contact_spec(lead: &Lead) -> bool {
    lead.email is None && lead.additional_emails@.len() == 0 && lead.phone_numbers@.len() == 0
}

/// The policy over parsed timestamps: recently touched leads are skipped;
/// untouched leads are audited; old leads only for missing contact data.
pub open spec fn should_audit_spec(s: Option<int>, a: Option<int>, missing: bool, now: int) -> bool {
    if recent(s, now) || recent(a, now) {
        false
    } else if s is None && a is None {
        true
    } else {
        missing
    }
}

/// Whether the lead carries no contact data at all.
pub fn has_missing_contact_info(lead: &Lead) -> (r: bool)
    ensures
        r == missing_contact_spec(lead),
{
    let no_email: bool = match &lead.email {
        Some(_) => false,
        None => true,
    };
    no_email && lead.additional_emails.len() == 0 && lead.phone_numbers.len() == 0
}

/// The eligibility decision against a given clock reading.
pub fn should_audit_lead_at(lead: &Lead, now_ms: i64) -> (r: bool)
    ensures
        r == should_audit_spec(
            opt_parsed(lead.scrapped_at),
            opt_parsed(lead.audited_at),
            missing_contact_spec(lead),
            now_ms as int,
        ),
{
    let s: Option<i64> = match &lead.scrapped_at {
        Some(x) => parse_rfc3339_millis(x.as_str()),
        None => None,
    };
    let a: Option<i64> = match &lead.audited_at {
        Some(x) => parse_rfc3339_millis(x.as_str()),
        None => None,
    };
    let recent_s: bool = match s {
        Some(v) => (now_ms as i128) - (v as i128) < 86400000i128,
        None => false,
    };
    let recent_a: bool = match a {
        Some(v) => (now_ms as i128) - (v as i128) < 86400000i128,
        None => false,
    };
    if recent_s || recent_a {
        return false;
    }
    let both_absent: bool = match (s, a) {
        (None, None) => true,
        _ => false,
    };
    if both_absent {
        return true;
    }
    has_missing_contact_info(lead)
}

/// The eligibility decision against the wall clock. What does not depend on
/// the clock is pinned down: an untouched lead is audited, and a touched
/// lead with contact data never is.
pub fn should_audit_lead(lead: &Lead) -> (r: bool)
    ensures
        (opt_parsed(lead.scrapped_at) is None && opt_parsed(lead.audited_at) is None) ==> r,
        ((opt_parsed(lead.scrapped_at) is Some || opt_parsed(lead.audited_at) is Some)
            && !missing_contact_spec(lead)) ==> !r,
{
    let now: i64 = now_millis();
    should_audit_lead_at(lead, now)
}

/// Eligibility is monotone in recency: a timestamp within the window forces
/// the decision to `false`, whatever the rest of the record says. Adding a
/// recent `scrapedAt` or `auditedAt` can thus turn an accept into a reject,
/// never the reverse.
pub proof fn lemma_recent_timestamp_blocks(
    s: Option<int>,
    a: Option<int>,
    missing: bool,
    now: int,
    t: int,
)
    requires
        now - t < recent_window_millis(),
    ensures
        !should_audit_spec(Some(t), a, missing, now),
        !should_audit_spec(s, Some(t), missing, now),
{
}

} // verus!
