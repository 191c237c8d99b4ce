//! A verified model of the worker side of the queue protocol: the state a
//! queue's keys hold for one worker, the claim/acknowledge/requeue
//! transitions over it, and the reading of a job hash. The stored script and
//! the key/value commands that realize these transitions over the wire are
//! I/O and live outside the library.
use vstd::prelude::*;
use crate::text::{contains_string, starts_with_exec, chars_of};

verus! {

/// The typed payload of an audit job.
#[derive(Debug, Clone)]
pub struct LeadAuditJobData {
    pub audit_session_id: String,
    pub user_id: String,
}

/// A unit of work lifted from the queue.
#[derive(Debug, Clone)]
pub struct BullMQJob {
    pub id: String,
    pub name: String,
    pub data: LeadAuditJobData,
}

/// One queue's keys as a worker sees them: `wait` and `active` as lists
/// (newest on the left), `priority` ordered by ascending score, `completed`,
/// and the paused flag.
pub struct QueueState {
    pub wait: Vec<String>,
    pub priority: Vec<String>,
    pub active: Vec<String>,
    pub completed: Vec<String>,
    pub paused: bool,
}

/// The list with the first entry reading `id` removed.
pub open spec fn remove_first(s: Seq<String>, id: Seq<char>) -> Seq<String>
    decreases s.len(),
{
    if s.len() == 0 {
        s
    } else if s[0]@ == id {
        s.drop_first()
    } else {
        seq![s[0]] + remove_first(s.drop_first(), id)
    }
}

/// How often `id` is written in the list.
pub open spec fn occurrences(s: Seq<String>, id: Seq<char>) -> nat
    decreases s.len(),
{
    if s.len() == 0 {
        0
    } else {
        occurrences(s.drop_first(), id) + if s[0]@ == id {
            1nat
        } else {
            0nat
        }
    }
}

impl QueueState {
    /// The claim step: unless paused, move one job id out of `wait` (from
    /// the right) or, failing that, the lowest-score entry of `priority`,
    /// onto the left of `active`; the claimed id is returned. No id can
    /// remain in both places.
    pub fn move_to_active(&mut self) -> (r: Option<String>)
        ensures
            old(self).paused ==> r is None && *final(self) == *old(self),
            !old(self).paused && old(self).wait@.len() > 0 ==> {
                &&& r matches Some(id) && id@ == old(self).wait@.last()@
                &&& final(self).wait@ == old(self).wait@.drop_last()
                &&& final(self).active@.len() == old(self).active@.len() + 1
                &&& final(self).active@[0]@ == old(self).wait@.last()@
                &&& forall|i: int|
                    0 <= i < old(self).active@.len() ==> final(self).active@[i + 1] == old(
                        self,
                    ).active@[i]
                &&& final(self).priority@ == old(self).priority@
            },
            !old(self).paused && old(self).wait@.len() == 0 && old(self).priority@.len() > 0 ==> {
                &&& r matches Some(id) && id@ == old(self).priority@[0]@
                &&& final(self).priority@ == old(self).priority@.drop_first()
                &&& final(self).active@.len() == old(self).active@.len() + 1
                &&& final(self).active@[0]@ == old(self).priority@[0]@
                &&& forall|i: int|
                    0 <= i < old(self).active@.len() ==> final(self).active@[i + 1] == old(
                        self,
                    ).active@[i]
                &&& final(self).wait@ == old(self).wait@
            },
            !old(self).paused && old(self).wait@.len() == 0 && old(self).priority@.len() == 0
                ==> r is None && *final(self) == *old(self),
            final(self).completed@ == old(self).completed@,
            final(self).paused == old(self).paused,
    {
        if self.paused {
            return None;
        }
        if self.wait.len() > 0 {
            let id: String = self.wait.pop().unwrap();
            let claimed: String = id.clone();
            self.active.insert(0, id);
            return Some(claimed);
        }
        if self.priority.len() > 0 {
            let id: String = self.priority.remove(0);
            let claimed: String = id.clone();
            self.active.insert(0, id);
            return Some(claimed);
        }
        None
    }

    /// Acknowledgement: drop one occurrence of `id` from `active` and record
    /// it completed.
    pub fn acknowledge(&mut self, id: &String)
        ensures
            final(self).active@ == remove_first(old(self).active@, id@),
            final(self).completed@.len() == old(self).completed@.len() + 1,
            final(self).completed@.last()@ == id@,
            forall|i: int|
                0 <= i < old(self).completed@.len() ==> final(self).completed@[i] == old(
                    self,
                ).completed@[i],
            final(self).wait@ == old(self).wait@,
            final(self).priority@ == old(self).priority@,
            final(self).paused == old(self).paused,
    {
        remove_first_exec(&mut self.active, id);
        self.completed.push(id.clone());
    }

    /// Requeue: drop one occurrence of `id` from `active` and push it back
    /// on the left of `wait`, so another worker can claim it.
    pub fn requeue(&mut self, id: &String)
        ensures
            final(self).active@ == remove_first(old(self).active@, id@),
            final(self).wait@.len() == old(self).wait@.len() + 1,
            final(self).wait@[0]@ == id@,
            contains_string(final(self).wait@, id@),
            forall|i: int|
                0 <= i < old(self).wait@.len() ==> final(self).wait@[i + 1] == old(self).wait@[i],
            final(self).completed@ == old(self).completed@,
            final(self).priority@ == old(self).priority@,
            final(self).paused == old(self).paused,
    {
        remove_first_exec(&mut self.active, id);
        let ghost oldwait = self.wait@;
        self.wait.insert(0, id.clone());
        proof {
            oldwait.insert_ensures(0, final(self).wait@[0]);
            assert(final(self).wait@[0]@ == id@);
        }
    }
}

fn remove_first_exec(v: &mut Vec<String>, id: &String)
    ensures
        final(v)@ == remove_first(old(v)@, id@),
{
    let n: usize = v.len();
    let mut i: usize = 0;
    while i < n
        invariant
            0 <= i <= n,
            n == v@.len(),
            v@ == old(v)@,
            forall|k: int| 0 <= k < i ==> v@[k]@ != id@,
        decreases n - i,
    {
        if v[i].eq(id) {
            let ghost before = v@;
            v.remove(i);
            proof {
                lemma_remove_found(before, id@, i as int);
            }
            return;
        }
        i += 1;
    }
    proof {
        lemma_remove_absent(v@, id@);
    }
}

proof fn lemma_remove_found(s: Seq<String>, id: Seq<char>, i: int)
    requires
        0 <= i < s.len(),
        s[i]@ == id,
        forall|k: int| 0 <= k < i ==> s[k]@ != id,
    ensures
        remove_first(s, id) == s.remove(i),
    decreases i,
{
    if i == 0 {
        assert(s.remove(0) =~= s.drop_first());
    } else {
        lemma_remove_found(s.drop_first(), id, i - 1);
        assert(forall|k: int| 1 <= k < s.len() ==> s[k] == s.drop_first()[k - 1]);
        assert(remove_first(s, id) == seq![s[0]] + remove_first(s.drop_first(), id));
        assert(seq![s[0]] + s.drop_first().remove(i - 1) =~= s.remove(i));
    }
}

proof fn lemma_remove_absent(s: Seq<String>, id: Seq<char>)
    requires
        forall|k: int| 0 <= k < s.len() ==> s[k]@ != id,
    ensures
        remove_first(s, id) == s,
    decreases s.len(),
{
    if s.len() > 0 {
        assert(forall|k: int| 1 <= k < s.len() ==> s[k] == s.drop_first()[k - 1]);
        lemma_remove_absent(s.drop_first(), id);
        assert(seq![s[0]] + s.drop_first() =~= s);
    }
}

// ---------- requeue semantics ----------

/// Removing one occurrence never adds one elsewhere.
proof fn lemma_remove_first_occurrences(s: Seq<String>, id: Seq<char>)
    ensures
        occurrences(s, id) > 0 ==> occurrences(remove_first(s, id), id) == occurrences(s, id) - 1,
        occurrences(s, id) == 0 ==> remove_first(s, id) == s,
    decreases s.len(),
{
    if s.len() > 0 {
        lemma_remove_first_occurrences(s.drop_first(), id);
        if s[0]@ != id {
            if occurrences(s, id) > 0 {
                let t = seq![s[0]] + remove_first(s.drop_first(), id);
                assert(t.drop_first() =~= remove_first(s.drop_first(), id));
                lemma_occurrences_cons(s[0], remove_first(s.drop_first(), id), id);
            } else {
                assert(seq![s[0]] + s.drop_first() =~= s);
            }
        }
    }
}

proof fn lemma_occurrences_cons(x: String, rest: Seq<String>, id: Seq<char>)
    ensures
        occurrences(seq![x] + rest, id) == occurrences(rest, id) + if x@ == id {
            1nat
        } else {
            0nat
        },
{
    let t = seq![x] + rest;
    assert(t.len() == rest.len() + 1);
    assert(t[0] == x);
    assert(t.drop_first() =~= rest);
}

/// A list without `id` written in it does not read `id` anywhere.
proof fn lemma_no_occurrence_not_contains(s: Seq<String>, id: Seq<char>)
    requires
        occurrences(s, id) == 0,
    ensures
        !contains_string(s, id),
    decreases s.len(),
{
    if s.len() > 0 {
        assert(s[0]@ != id);
        lemma_no_occurrence_not_contains(s.drop_first(), id);
        if contains_string(s, id) {
            let k = choose|k: int| 0 <= k < s.len() && s[k]@ == id;
            assert(s.drop_first()[k - 1]@ == id);
            assert(contains_string(s.drop_first(), id));
            assert(false);
        }
    }
}

/// Requeue semantics: starting from a state whose `active` list holds the
/// worker's single claim of `id`, the requeue transition ends with the job
/// written in `wait` and absent from `active`.
pub proof fn lemma_requeue_settles(pre: QueueState, post: QueueState, id: Seq<char>)
    requires
        occurrences(pre.active@, id) <= 1,
        post.active@ == remove_first(pre.active@, id),
        post.wait@.len() == pre.wait@.len() + 1,
        post.wait@[0]@ == id,
    ensures
        contains_string(post.wait@, id),
        !contains_string(post.active@, id),
{
    assert(contains_string(post.wait@, id)) by {
        assert(post.wait@[0]@ == id);
    };
    lemma_remove_first_occurrences(pre.active@, id);
    if occurrences(pre.active@, id) == 0 {
        lemma_no_occurrence_not_contains(pre.active@, id);
        assert(post.active@ == pre.active@);
        if contains_string(post.active@, id) {
            assert(false);
        }
    } else {
        assert(occurrences(post.active@, id) == 0);
        lemma_no_occurrence_not_contains(post.active@, id);
    }
}

// ---------- the job hash and the worker's decision ----------

/// The value under the first pair whose key reads `k`.
pub open spec fn field_of(entries: Seq<(String, String)>, k: Seq<char>) -> Option<Seq<char>>
    decreases entries.len(),
{
    if entries.len() == 0 {
        None
    } else if entries[0].0@ == k {
        Some(entries[0].1@)
    } else {
        field_of(entries.drop_first(), k)
    }
}

/// Why a job hash cannot be read as a job.
#[derive(Debug, Clone, Copy, PartialEq, Eq, Structural)]
pub enum JobHashError {
    MissingName,
    MissingData,
}

fn field_lookup(entries: &Vec<(String, String)>, key: &str) -> (r: Option<String>)
    ensures
        r is Some <==> field_of(entries@, key@) is Some,
        r matches Some(v) ==> field_of(entries@, key@) == Some(v@),
{
    let target: String = String::from_str(key);
    let n: usize = entries.len();
    let mut i: usize = 0;
    assert(entries@.skip(0) =~= entries@);
    while i < n
        invariant
            0 <= i <= n,
            n == entries@.len(),
            target@ == key@,
            field_of(entries@.skip(i as int), key@) == field_of(entries@, key@),
        decreases n - i,
    {
        let ghost rest = entries@.skip(i as int);
        assert(rest[0] == entries@[i as int]);
        let hit: bool = entries[i].0.eq(&target);
        proof {
            assert(rest.drop_first() =~= entries@.skip(i + 1));
            assert(hit == (rest[0].0@ == key@));
        }
        if hit {
            assert(field_of(rest, key@) == Some(rest[0].1@));
            return Some(entries[i].1.clone());
        }
        assert(field_of(rest, key@) == field_of(entries@.skip(i + 1), key@));
        i += 1;
    }
    assert(entries@.skip(n as int) =~= Seq::<(String, String)>::empty());
    None
}

/// Read the `name` and raw `data` fields out of a job hash; each must be
/// present.
pub fn job_fields_from_hash(entries: &Vec<(String, String)>) -> (r: Result<
    (String, String),
    JobHashError,
>)
    ensures
        r matches Ok(p) ==> field_of(entries@, "name"@) == Some(p.0@) && field_of(
            entries@,
            "data"@,
        ) == Some(p.1@),
        r == Err::<(String, String), JobHashError>(JobHashError::MissingName) <==> field_of(
            entries@,
            "name"@,
        ) is None,
        r == Err::<(String, String), JobHashError>(JobHashError::MissingData) <==> (field_of(
            entries@,
            "name"@,
        ) is Some && field_of(entries@, "data"@) is None),
{
    let name: Option<String> = field_lookup(entries, "name");
    match name {
        None => Err(JobHashError::MissingName),
        Some(n) => {
            let data: Option<String> = field_lookup(entries, "data");
            match data {
                None => Err(JobHashError::MissingData),
                Some(d) => Ok((n, d)),
            }
        },
    }
}

/// The worker's only policy decision over a fetched job: process the
/// accepted tag, requeue everything else.
pub fn should_process_job(name: &str) -> (r: bool)
    ensures
        r == (name@ == "lead-audit"@),
{
    let v: Vec<char> = chars_of(name);
    let tag: Vec<char> = chars_of("lead-audit");
    let n: usize = v.len();
    if n != tag.len() {
        proof {
            if name@ == "lead-audit"@ {
                assert(v@.len() == tag@.len());
            }
        }
        return false;
    }
    let eq: bool = starts_with_exec(&v, &tag);
    proof {
        if crate::text::starts_with(v@, tag@) {
            assert(v@ =~= tag@);
        }
        if v@ == tag@ {
            assert(crate::text::starts_with(v@, tag@));
        }
    }
    eq
}

} // verus!
