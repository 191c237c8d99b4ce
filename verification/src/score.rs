//! Hot/Warm/Cold classification of a lead from its scraped contacts and its
//! audit.
use vstd::prelude::*;
use crate::audit::AuditResult;
use crate::email::{is_generic_email, is_generic_email_spec};
use crate::scrape::ScrapedData;
use crate::tech::{has_modern_tech_spec, has_modern_technology};

verus! {

/// A three-valued lead classification.
#[derive(Debug, Clone, Copy, PartialEq, Eq, Structural)]
pub enum LeadScore {
    Hot,
    Warm,
    Cold,
}

impl LeadScore {
    /// The label's fixed spelling.
    pub fn as_str(&self) -> (r: &'static str)
        ensures
            *self == LeadScore::Hot ==> r@ == "HOT"@,
            *self == LeadScore::Warm ==> r@ == "WARM"@,
            *self == LeadScore::Cold ==> r@ == "COLD"@,
    {
        match self {
            LeadScore::Hot => "HOT",
            LeadScore::Warm => "WARM",
            LeadScore::Cold => "COLD",
        }
    }

    /// The label as an owned string.
    pub fn to_string(&self) -> (r: String)
        ensures
            *self == LeadScore::Hot ==> r@ == "HOT"@,
            *self == LeadScore::Warm ==> r@ == "WARM"@,
            *self == LeadScore::Cold ==> r@ == "COLD"@,
    {
        String::from_str(self.as_str())
    }
}

/// Some scraped address is not a shared mailbox.
pub open spec fn has_personal_email_spec(emails: Seq<String>) -> bool {
    exists|i: int| 0 <= i < emails.len() && !is_generic_email_spec((#[trigger] emails[i])@)
}

/// The classification table: everything for Hot, a personal address or a
/// phone for Warm, nothing for Cold.
pub open spec fn score_spec(personal: bool, phone: bool, modern: bool, ssl: bool) -> LeadScore {
    if personal && phone && modern && ssl {
        LeadScore::Hot
    } else if personal || phone {
        LeadScore::Warm
    } else {
        LeadScore::Cold
    }
}

/// Classify one lead from its scrape and optional audit.
pub fn calculate_lead_score(scraped_data: &ScrapedData, audit_result: Option<&AuditResult>) -> (r:
    LeadScore)
    ensures
        r == score_spec(
            has_personal_email_spec(scraped_data.emails@),
            scraped_data.phones@.len() > 0,
            match audit_result {
                Some(a) => has_modern_tech_spec(a.technologies@),
                None => false,
            },
            match audit_result {
                Some(a) => a.has_ssl,
                None => false,
            },
        ),
{
    let n: usize = scraped_data.emails.len();
    let mut has_personal: bool = false;
    let mut i: usize = 0;
    while i < n
        invariant
            0 <= i <= n,
            n == scraped_data.emails@.len(),
            has_personal == exists|k: int|
                0 <= k < i && !is_generic_email_spec((#[trigger] scraped_data.emails@[k])@),
        decreases n - i,
    {
        if !is_generic_email(scraped_data.emails[i].as_str()) {
            has_personal = true;
        }
        i += 1;
    }
    let has_phone: bool = scraped_data.phones.len() > 0;
    let has_modern: bool = match audit_result {
        Some(a) => has_modern_technology(&a.technologies),
        None => false,
    };
    let has_ssl: bool = match audit_result {
        Some(a) => a.has_ssl,
        None => false,
    };
    if has_personal && has_phone && has_modern && has_ssl {
        LeadScore::Hot
    } else if has_personal || has_phone {
        LeadScore::Warm
    } else {
        LeadScore::Cold
    }
}

} // verus!
