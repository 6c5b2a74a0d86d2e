use vstd::prelude::*;
use crate::activity::SecondClass;
use crate::status::Status;
use crate::participant::SignInfo;
use crate::text::{is_infix, str_contains};
use crate::time::TimeError;

verus! {

/// The phrase by which the portal reports a scheduling conflict.
pub const CONFLICT_PHRASE: &'static str = "时间冲突";

/// What an application carries.
#[derive(Debug)]
pub enum SignPayload {
    /// An empty body: the activity asks for no details.
    Empty,
    /// The details the caller gave.
    Given(SignInfo),
    /// The participant's own details, to be looked up first.
    OwnProfile,
}

/// The first step of an application.
#[derive(Debug)]
pub enum ApplyPlan {
    /// Nothing is sent: the activity is not open to this participant.
    Skip,
    /// Send an application with this payload.
    Submit(SignPayload),
}

/// What follows a submission.
#[derive(Debug, Clone, PartialEq, Eq)]
pub enum SubmitOutcome {
    /// The portal answered; this is its success flag.
    Done(bool),
    /// The submission failed with this message, which is passed on.
    Fail(String),
    /// A scheduling conflict: cancel the overlapping registrations, then
    /// apply once more without conflict resolution.
    ResolveConflict,
}

/// The message reports a scheduling conflict.
pub open spec fn is_conflict(msg: Seq<char>) -> bool {
    is_infix("时间冲突"@, msg)
}

/// The indices, ascending, of the registrations whose time can be read and
/// meets `ht`.
pub open spec fn overlapping(ps: Seq<SecondClass>, ht: crate::time::TimePeriod) -> Seq<usize>
    decreases ps.len(),
{
    if ps.len() == 0 {
        Seq::empty()
    } else {
        let rest = overlapping(ps.drop_last(), ht);
        match ps.last().hold_time_spec() {
            Ok(p) => if p.overlaps_spec(ht) {
                rest.push((ps.len() - 1) as usize)
            } else {
                rest
            },
            Err(_) => rest,
        }
    }
}

/// What a submission's outcome leads to.
pub open spec fn outcome_spec(outcome: Result<bool, String>, auto_resolve: bool) -> SubmitOutcome {
    match outcome {
        Ok(b) => SubmitOutcome::Done(b),
        Err(m) => if auto_resolve && is_conflict(m@) {
            SubmitOutcome::ResolveConflict
        } else {
            SubmitOutcome::Fail(m)
        },
    }
}

impl SecondClass {
    /// Decides whether to apply and with what: nothing unless forced or the
    /// activity is applyable; an empty body unless the activity needs sign-in
    /// details; else the given details, or the participant's own.
    pub fn apply_plan(&self, force: bool, sign_info: Option<SignInfo>) -> (r: ApplyPlan)
        ensures
            (r is Skip) == (!force && !self.applyable_spec()),
            r matches ApplyPlan::Submit(p) ==> match p {
                SignPayload::Empty => !crate::activity::is_one(self.need_sign_info_str),
                SignPayload::Given(s) => crate::activity::is_one(self.need_sign_info_str)
                    && sign_info == Some(s),
                SignPayload::OwnProfile => crate::activity::is_one(self.need_sign_info_str)
                    && sign_info is None,
            },
    {
        if !force && !self.applyable() {
            return ApplyPlan::Skip;
        }
        if !self.need_sign_info() {
            return ApplyPlan::Submit(SignPayload::Empty);
        }
        match sign_info {
            Some(s) => ApplyPlan::Submit(SignPayload::Given(s)),
            None => ApplyPlan::Submit(SignPayload::OwnProfile),
        }
    }

    /// Reads a submission's outcome: the portal's flag where it answered;
    /// conflict resolution where it reported a scheduling conflict and
    /// resolution is asked for; else the failure is passed on.
    pub fn after_submit(outcome: Result<bool, String>, auto_resolve: bool) -> (r: SubmitOutcome)
        ensures
            r == outcome_spec(outcome, auto_resolve),
    {
        match outcome {
            Ok(b) => SubmitOutcome::Done(b),
            Err(m) => {
                if auto_resolve && str_contains(m.as_str(), CONFLICT_PHRASE) {
                    SubmitOutcome::ResolveConflict
                } else {
                    SubmitOutcome::Fail(m)
                }
            },
        }
    }

    /// The registrations to cancel before retrying: those of `participated`
    /// whose time meets this activity's time. Fails where this activity's time
    /// cannot be read.
    pub fn conflicting(&self, participated: &Vec<SecondClass>) -> (r: Result<Vec<usize>, TimeError>)
        ensures
            match self.hold_time_spec() {
                Ok(ht) => r is Ok && r->Ok_0@ == overlapping(participated@, ht),
                Err(e) => r == Err::<Vec<usize>, TimeError>(e),
            },
    {
        let mine = match self.hold_time() {
            Ok(ht) => ht,
            Err(e) => return Err(e),
        };
        let mut out: Vec<usize> = Vec::new();
        let mut i: usize = 0;
        while i < participated.len()
            invariant
                i <= participated@.len(),
                out@ == overlapping(participated@.subrange(0, i as int), mine),
            decreases participated@.len() - i,
        {
            let ghost pre = participated@.subrange(0, i + 1);
            assert(pre.drop_last() =~= participated@.subrange(0, i as int));
            match participated[i].hold_time() {
                Ok(p) => {
                    if p.is_overlap(&mine) {
                        out.push(i);
                    }
                },
                Err(_) => {},
            }
            i += 1;
        }
        assert(participated@.subrange(0, participated@.len() as int) =~= participated@);
        Ok(out)
    }

    /// The path that applications to this activity are posted to.
    pub fn apply_path(&self) -> (r: String)
        ensures
            r@ == "mobile/item/enter/"@ + self.id@,
    {
        String::from_str("mobile/item/enter/").concat(self.id.as_str())
    }

    /// The path that cancellations of this activity are posted to.
    pub fn cancel_path(&self) -> (r: String)
        ensures
            r@ == "mobile/item/cancellRegistration/"@ + self.id@,
    {
        String::from_str("mobile/item/cancellRegistration/").concat(self.id.as_str())
    }
}

/// A registration still in its application phase: open, or closed for
/// applications but not yet held.
pub open spec fn in_application_phase(c: SecondClass) -> bool {
    c.status_spec() == Status::Applying || c.status_spec() == Status::ApplyEnded
}

/// Splits a participant's activities into those still in their application
/// phase and the rest, each in the order given.
pub fn split_by_phase(all: Vec<SecondClass>) -> (r: (Vec<SecondClass>, Vec<SecondClass>))
    ensures
        r.0@ == all@.filter(|c: SecondClass| in_application_phase(c)),
        r.1@ == all@.filter(|c: SecondClass| !in_application_phase(c)),
{
    let ghost a0 = all@;
    let ghost p = |c: SecondClass| in_application_phase(c);
    let ghost q = |c: SecondClass| !in_application_phase(c);
    let mut all = all;
    let mut registered: Vec<SecondClass> = Vec::new();
    let mut done: Vec<SecondClass> = Vec::new();
    let n = all.len();
    let mut k: usize = 0;
    assert(a0.subrange(0, 0).filter(p) =~= Seq::<SecondClass>::empty()) by {
        reveal(Seq::filter);
    }
    assert(a0.subrange(0, 0).filter(q) =~= Seq::<SecondClass>::empty()) by {
        reveal(Seq::filter);
    }
    while all.len() > 0
        invariant
            n == a0.len(),
            k + all@.len() == n,
            all@ == a0.subrange(k as int, n as int),
            registered@ == a0.subrange(0, k as int).filter(p),
            done@ == a0.subrange(0, k as int).filter(q),
            p == (|c: SecondClass| in_application_phase(c)),
            q == (|c: SecondClass| !in_application_phase(c)),
        decreases all@.len(),
    {
        let c = all.remove(0);
        proof {
            assert(c == a0[k as int]);
            assert(a0.subrange(0, k + 1) =~= a0.subrange(0, k as int).push(c));
            a0.subrange(0, k as int).lemma_filter_push(c, p);
            a0.subrange(0, k as int).lemma_filter_push(c, q);
            assert(all@ =~= a0.subrange(k + 1, n as int));
        }
        let status = c.status();
        if status == Status::Applying || status == Status::ApplyEnded {
            registered.push(c);
        } else {
            done.push(c);
        }
        k += 1;
    }
    assert(a0.subrange(0, n as int) =~= a0);
    (registered, done)
}

/// A retry runs without conflict resolution, so whatever it meets, it never
/// leads to a second round of cancellations.
pub proof fn lemma_retry_is_final(outcome: Result<bool, String>)
    ensures
        !(outcome_spec(outcome, false) is ResolveConflict),
{
}

/// A failure that does not report a scheduling conflict is passed on as it is,
/// so no registration is cancelled.
pub proof fn lemma_other_failure_cancels_nothing(msg: String, auto_resolve: bool)
    requires
        !is_conflict(msg@),
    ensures
        outcome_spec(Err(msg), auto_resolve) == SubmitOutcome::Fail(msg),
{
}

} // verus!
