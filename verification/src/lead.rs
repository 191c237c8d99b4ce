//! Lead records and the merge rules for writing enrichment back: primary
//! e-mail promotion, and the sorted, duplicate-free unions of the e-mail and
//! phone sets.
use vstd::prelude::*;
use crate::audit::AuditResult;
use crate::scrape::ScrapedData;
use crate::text::{
    contains_string, lemma_sorted_unique_views_eq, sorted_union_excluding,
    strictly_sorted_strings, string_views,
};

verus! {

/// An enrichment target owned by an external writer. Timestamps are RFC 3339
/// strings as the store hands them over.
#[derive(Debug, Clone)]
pub struct Lead {
    pub id: String,
    pub domain: String,
    pub scrapped_at: Option<String>,
    pub audited_at: Option<String>,
    pub email: Option<String>,
    pub additional_emails: Vec<String>,
    pub phone_numbers: Vec<String>,
}

/// The record's invariant: a primary e-mail never sits in the additional set.
pub open spec fn lead_wf(lead: &Lead) -> bool {
    match lead.email {
        Some(e) => !contains_string(lead.additional_emails@, e@),
        None => true,
    }
}

/// The columns one merge-write sets.
#[derive(Debug, Clone)]
pub struct LeadUpdate {
    pub email: Option<String>,
    pub additional_emails: Vec<String>,
    pub phone_numbers: Vec<String>,
    pub technologies: Vec<String>,
}

pub open spec fn opt_view(o: Option<String>) -> Option<Seq<char>> {
    match o {
        Some(s) => Some(s@),
        None => None,
    }
}

/// The primary e-mail after promotion: an existing primary stays; otherwise
/// the first scraped address, if any, is promoted.
pub open spec fn merged_email_ok(
    lead_email: Option<String>,
    scraped: Seq<String>,
    r: Option<String>,
) -> bool {
    match lead_email {
        Some(e) => opt_view(r) == Some(e@),
        None => if scraped.len() > 0 {
            opt_view(r) == Some(scraped[0]@)
        } else {
            r is None
        },
    }
}

/// `r` is the sorted, duplicate-free union of the views of `base` and
/// `extra`, without `excl`.
pub open spec fn merged_set_ok(
    base: Seq<String>,
    extra: Seq<String>,
    excl: Option<Seq<char>>,
    r: Seq<String>,
) -> bool {
    &&& strictly_sorted_strings(r)
    &&& forall|e: Seq<char>|
        contains_string(r, e) <==> ((contains_string(base, e) || contains_string(extra, e))
            && match excl {
            Some(p) => e != p,
            None => true,
        })
}

/// Compute the enrichment columns that one scrape (and optional audit)
/// writes onto a lead.
pub fn merge_lead_update(lead: &Lead, scraped: &ScrapedData, audit: Option<&AuditResult>) -> (r:
    LeadUpdate)
    ensures
        merged_email_ok(lead.email, scraped.emails@, r.email),
        merged_set_ok(
            lead.additional_emails@,
            scraped.emails@,
            opt_view(r.email),
            r.additional_emails@,
        ),
        merged_set_ok(lead.phone_numbers@, scraped.phones@, None, r.phone_numbers@),
        match audit {
            Some(a) => r.technologies@.len() == a.technologies@.len() && forall|i: int|
                0 <= i < a.technologies@.len() ==> r.technologies@[i]@ == a.technologies@[i].name@,
            None => r.technologies@.len() == 0,
        },
        opt_view(r.email) matches Some(p) ==> !contains_string(r.additional_emails@, p),
{
    let email: Option<String> = match &lead.email {
        Some(e) => Some(e.clone()),
        None => if scraped.emails.len() > 0 {
            Some(scraped.emails[0].clone())
        } else {
            None
        },
    };
    let additional_emails: Vec<String> = sorted_union_excluding(
        &lead.additional_emails,
        &scraped.emails,
        email.as_ref(),
    );
    let phone_numbers: Vec<String> = sorted_union_excluding(
        &lead.phone_numbers,
        &scraped.phones,
        None,
    );
    let mut technologies: Vec<String> = Vec::new();
    match audit {
        Some(a) => {
            let n: usize = a.technologies.len();
            let mut i: usize = 0;
            while i < n
                invariant
                    0 <= i <= n,
                    n == a.technologies@.len(),
                    technologies@.len() == i,
                    forall|k: int|
                        0 <= k < i ==> technologies@[k]@ == a.technologies@[k].name@,
                decreases n - i,
            {
                technologies.push(a.technologies[i].name.clone());
                i += 1;
            }
        },
        None => {},
    }
    LeadUpdate { email, additional_emails, phone_numbers, technologies }
}

// ---------- idempotence of the merge ----------

/// Merging the same set of strings a second time into its own result changes
/// nothing: membership is the same, and a strictly sorted, duplicate-free
/// list is determined by its members.
pub proof fn lemma_merged_set_idempotent(
    base: Seq<String>,
    extra: Seq<String>,
    excl: Option<Seq<char>>,
    r1: Seq<String>,
    r2: Seq<String>,
)
    requires
        merged_set_ok(base, extra, excl, r1),
        merged_set_ok(r1, extra, excl, r2),
    ensures
        string_views(r1) == string_views(r2),
{
    assert forall|e: Seq<char>| contains_string(r1, e) <==> contains_string(r2, e) by {
        assert(contains_string(r1, e) <==> ((contains_string(base, e) || contains_string(
            extra,
            e,
        )) && match excl {
            Some(p) => e != p,
            None => true,
        }));
    };
    lemma_sorted_unique_views_eq(r1, r2);
}

/// The primary e-mail settles after one merge: writing the merged primary
/// back and merging the same scrape again names the same primary.
pub proof fn lemma_merged_email_stable(
    lead_email: Option<String>,
    scraped: Seq<String>,
    r1: Option<String>,
    r2: Option<String>,
)
    requires
        merged_email_ok(lead_email, scraped, r1),
        merged_email_ok(
            match r1 {
                Some(e) => Some(e),
                None => lead_email,
            },
            scraped,
            r2,
        ),
    ensures
        opt_view(r1) == opt_view(r2),
{
}

/// Applying the same scrape twice writes the same e-mail and phone sets: the
/// merge-write is idempotent on the enrichment sets.
pub proof fn lemma_merge_write_idempotent(
    lead_email: Option<String>,
    base_emails: Seq<String>,
    base_phones: Seq<String>,
    scraped_emails: Seq<String>,
    scraped_phones: Seq<String>,
    u1_email: Option<String>,
    u1_add: Seq<String>,
    u1_phones: Seq<String>,
    u2_email: Option<String>,
    u2_add: Seq<String>,
    u2_phones: Seq<String>,
)
    requires
        merged_email_ok(lead_email, scraped_emails, u1_email),
        merged_set_ok(base_emails, scraped_emails, opt_view(u1_email), u1_add),
        merged_set_ok(base_phones, scraped_phones, None, u1_phones),
        merged_email_ok(
            match u1_email {
                Some(e) => Some(e),
                None => lead_email,
            },
            scraped_emails,
            u2_email,
        ),
        merged_set_ok(u1_add, scraped_emails, opt_view(u2_email), u2_add),
        merged_set_ok(u1_phones, scraped_phones, None, u2_phones),
    ensures
        string_views(u1_add) == string_views(u2_add),
        string_views(u1_phones) == string_views(u2_phones),
{
    lemma_merged_email_stable(lead_email, scraped_emails, u1_email, u2_email);
    assert(opt_view(u1_email) == opt_view(u2_email));
    lemma_merged_set_idempotent(base_emails, scraped_emails, opt_view(u1_email), u1_add, u2_add);
    lemma_merged_set_idempotent(base_phones, scraped_phones, None, u1_phones, u2_phones);
}

} // verus!
