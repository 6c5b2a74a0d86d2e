use vstd::prelude::*;
use crate::activity::SecondClass;
use crate::filter::SCFilter;
use crate::status::Status;

verus! {

/// Records asked for per page when listing activities.
pub const PAGE_SIZE: i32 = 20;

/// The first `max` items of `s`, or all of `s` when `max` is negative.
pub open spec fn capped<T>(s: Seq<T>, max: i32) -> Seq<T> {
    if max < 0 || s.len() <= max {
        s
    } else {
        s.subrange(0, max as int)
    }
}

/// The search for activities, run step by step: the caller fetches what a
/// step asks for and hands it back. Page records are filtered on the time
/// window; a series is replaced by its qualifying children when expansion is
/// asked for; the search stops as soon as `max` results are found (a
/// negative `max` means no limit).
pub struct Retrieval {
    pub filter: SCFilter,
    pub include_ended: bool,
    pub expand_series: bool,
    pub max: i32,
    /// Records not yet processed, in discovery order.
    pub queue: Vec<SecondClass>,
    /// The results so far.
    pub found: Vec<SecondClass>,
    /// Every result discovered so far, before the cap is applied.
    pub expected: Ghost<Seq<SecondClass>>,
}

impl Retrieval {
    pub open spec fn wf(&self) -> bool {
        self.found@ == capped(self.expected@, self.max)
    }

    /// No more results are wanted.
    pub open spec fn full(&self) -> bool {
        self.max >= 0 && self.found@.len() >= self.max
    }

    /// The record is replaced by its children.
    pub open spec fn expands(&self, rec: SecondClass) -> bool {
        self.expand_series && rec.is_series_spec()
    }

    /// A child of a series qualifies: it lies in the time window, and it is
    /// open for application exactly when ended applications are not asked for.
    pub open spec fn child_ok(&self, c: SecondClass) -> bool {
        &&& self.filter.strict_ok(c)
        &&& if self.include_ended {
            c.status_spec() != Status::Applying
        } else {
            c.status_spec() == Status::Applying
        }
    }

    /// Starts a search; nothing is found yet.
    pub fn new(filter: SCFilter, include_ended: bool, expand_series: bool, max: i32) -> (r: Retrieval)
        ensures
            r.wf(),
            r.filter == filter,
            r.include_ended == include_ended,
            r.expand_series == expand_series,
            r.max == max,
            r.queue@.len() == 0,
            r.found@.len() == 0,
            r.expected@.len() == 0,
    {
        Retrieval {
            filter,
            include_ended,
            expand_series,
            max,
            queue: Vec::new(),
            found: Vec::new(),
            expected: Ghost(Seq::empty()),
        }
    }

    /// Whether any record is to be fetched at all (not when `max` is zero).
    pub fn wants_records(&self) -> (r: bool)
        ensures
            r == (self.max != 0),
    {
        self.max != 0
    }

    /// The listing to page through: ended applications or open ones.
    pub fn endpoint(&self) -> (r: &'static str)
        ensures
            r@ == if self.include_ended {
                "item/scItem/endList"@
            } else {
                "item/scItem/enrolmentList"@
            },
    {
        if self.include_ended {
            "item/scItem/endList"
        } else {
            "item/scItem/enrolmentList"
        }
    }

    /// Queues the records of the listing that lie in the time window.
    pub fn take_records(&mut self, records: Vec<SecondClass>)
        requires
            old(self).wf(),
        ensures
            final(self).wf(),
            final(self).queue@ == old(self).queue@ + records@.filter(|c: SecondClass| old(self).filter.strict_ok(c)),
            final(self).found == old(self).found,
            final(self).expected == old(self).expected,
            final(self).filter == old(self).filter,
            final(self).include_ended == old(self).include_ended,
            final(self).expand_series == old(self).expand_series,
            final(self).max == old(self).max,
    {
        let ghost pred = |c: SecondClass| self.filter.strict_ok(c);
        let ghost q0 = self.queue@;
        let ghost rs = records@;
        let mut records = records;
        let mut j: usize = 0;
        let n = records.len();
        assert(rs.subrange(0, 0).filter(pred) =~= Seq::<SecondClass>::empty()) by {
            reveal(Seq::filter);
        }
        assert(q0 + rs.subrange(0, 0).filter(pred) =~= q0);
        while records.len() > 0
            invariant
                n == rs.len(),
                j + records@.len() == n,
                records@ == rs.subrange(j as int, n as int),
                self.queue@ == q0 + rs.subrange(0, j as int).filter(pred),
                self.found == old(self).found,
                self.expected == old(self).expected,
                self.filter == old(self).filter,
                self.include_ended == old(self).include_ended,
                self.expand_series == old(self).expand_series,
                self.max == old(self).max,
                pred == (|c: SecondClass| self.filter.strict_ok(c)),
            decreases records@.len(),
        {
            let rec = records.remove(0);
            proof {
                assert(rec == rs[j as int]);
                assert(rs.subrange(0, j + 1) =~= rs.subrange(0, j as int).push(rec));
                rs.subrange(0, j as int).lemma_filter_push(rec, pred);
                assert(records@ =~= rs.subrange(j + 1, n as int));
            }
            if self.filter.check(&rec, true) {
                self.queue.push(rec);
                assert(self.queue@ =~= q0 + rs.subrange(0, j + 1).filter(pred));
            } else {
                assert(self.queue@ =~= q0 + rs.subrange(0, j + 1).filter(pred));
            }
            j += 1;
        }
        assert(rs.subrange(0, n as int) =~= rs);
    }

    /// Moves the queued records that stand for themselves into the results,
    /// in order, until the results are complete, the queue is empty, or a
    /// series to expand heads the queue; in the last case returns its id, so
    /// that the caller fetches its children.
    pub fn next_series(&mut self) -> (r: Option<String>)
        requires
            old(self).wf(),
        ensures
            final(self).wf(),
            exists|k: int|
                0 <= k <= old(self).queue@.len() && final(self).queue@ == old(self).queue@.subrange(
                    k,
                    old(self).queue@.len() as int,
                ) && final(self).expected@ == old(self).expected@ + old(self).queue@.subrange(0, k)
                    && forall|i: int|
                    0 <= i < k ==> !old(self).expands(#[trigger] old(self).queue@[i]) && (old(self).max
                        < 0 || old(self).expected@.len() + i < old(self).max),
            match r {
                Some(id) => final(self).queue@.len() > 0 && final(self).expands(final(self).queue@[0])
                    && id@ == final(self).queue@[0].id@ && !final(self).full(),
                None => final(self).queue@.len() == 0 || final(self).full(),
            },
            final(self).filter == old(self).filter,
            final(self).include_ended == old(self).include_ended,
            final(self).expand_series == old(self).expand_series,
            final(self).max == old(self).max,
    {
        let ghost q0 = self.queue@;
        let ghost e0 = self.expected@;
        let n0 = self.queue.len();
        let mut k: usize = 0;
        while self.queue.len() > 0
            invariant
                self.wf(),
                n0 == q0.len(),
                k <= q0.len(),
                k + self.queue@.len() == q0.len(),
                self.queue@ == q0.subrange(k as int, q0.len() as int),
                self.expected@ == e0 + q0.subrange(0, k as int),
                forall|i: int|
                    0 <= i < k ==> !old(self).expands(#[trigger] q0[i]) && (old(self).max < 0
                        || e0.len() + i < old(self).max),
                q0 == old(self).queue@,
                e0 == old(self).expected@,
                self.filter == old(self).filter,
                self.include_ended == old(self).include_ended,
                self.expand_series == old(self).expand_series,
                self.max == old(self).max,
            decreases self.queue@.len(),
        {
            if self.max >= 0 && self.found.len() as i64 >= self.max as i64 {
                return None;
            }
            if self.expand_series && self.queue[0].is_series() {
                return Some(self.queue[0].id.clone());
            }
            proof {
                assert(self.expected@.len() < self.max || self.max < 0);
            }
            let rec = self.queue.remove(0);
            self.found.push(rec);
            proof {
                assert(rec == q0[k as int]);
                assert(q0.subrange(0, k + 1) =~= q0.subrange(0, k as int).push(rec));
                assert(self.queue@ =~= q0.subrange(k + 1, q0.len() as int));
                self.expected@ = self.expected@.push(rec);
                assert(self.expected@ =~= e0 + q0.subrange(0, k + 1));
            }
            k += 1;
        }
        None
    }

    /// Replaces the series at the head of the queue by its qualifying
    /// children, taken in order and only as many as the results still want.
    pub fn add_children(&mut self, children: Vec<SecondClass>)
        requires
            old(self).wf(),
            old(self).queue@.len() > 0,
            old(self).expands(old(self).queue@[0]),
            !old(self).full(),
        ensures
            final(self).wf(),
            final(self).queue@ == old(self).queue@.drop_first(),
            final(self).expected@ == old(self).expected@ + children@.filter(|c: SecondClass| old(self).child_ok(c)),
            final(self).filter == old(self).filter,
            final(self).include_ended == old(self).include_ended,
            final(self).expand_series == old(self).expand_series,
            final(self).max == old(self).max,
    {
        let ghost pred = |c: SecondClass| self.child_ok(c);
        let ghost cs = children@;
        let ghost e0 = self.expected@;
        let _parent = self.queue.remove(0);
        let mut children = children;
        let n = children.len();
        let mut j: usize = 0;
        assert(cs.subrange(0, 0).filter(pred) =~= Seq::<SecondClass>::empty()) by {
            reveal(Seq::filter);
        }
        assert(e0 + cs.subrange(0, 0).filter(pred) =~= e0);
        while children.len() > 0
            invariant
                self.wf(),
                n == cs.len(),
                j + children@.len() == n,
                children@ == cs.subrange(j as int, n as int),
                self.expected@ == e0 + cs.subrange(0, j as int).filter(pred),
                self.queue@ == old(self).queue@.drop_first(),
                self.filter == old(self).filter,
                self.include_ended == old(self).include_ended,
                self.expand_series == old(self).expand_series,
                self.max == old(self).max,
                pred == (|c: SecondClass| self.child_ok(c)),
            ensures
                children@.len() == 0 || (self.max >= 0 && self.found@.len() >= self.max),
                self.wf(),
                j + children@.len() == n,
                children@ == cs.subrange(j as int, n as int),
                self.expected@ == e0 + cs.subrange(0, j as int).filter(pred),
                self.queue@ == old(self).queue@.drop_first(),
                self.filter == old(self).filter,
                self.include_ended == old(self).include_ended,
                self.expand_series == old(self).expand_series,
                self.max == old(self).max,
            decreases children@.len(),
        {
            if self.max >= 0 && self.found.len() as i64 >= self.max as i64 {
                break;
            }
            let c = children.remove(0);
            proof {
                assert(c == cs[j as int]);
                assert(cs.subrange(0, j + 1) =~= cs.subrange(0, j as int).push(c));
                cs.subrange(0, j as int).lemma_filter_push(c, pred);
                assert(children@ =~= cs.subrange(j + 1, n as int));
            }
            let status = c.status();
            let status_ok = if self.include_ended {
                status != Status::Applying
            } else {
                status == Status::Applying
            };
            if self.filter.check(&c, true) && status_ok {
                self.found.push(c);
                proof {
                    self.expected@ = self.expected@.push(c);
                }
            }
            assert(self.expected@ =~= e0 + cs.subrange(0, j + 1).filter(pred));
            j += 1;
        }
        proof {
            let rest = cs.subrange(j as int, n as int);
            let done = cs.subrange(0, j as int);
            assert(cs =~= done + rest);
            Seq::filter_distributes_over_add(done, rest, pred);
            let total = e0 + cs.filter(pred);
            assert(total =~= self.expected@ + rest.filter(pred));
            if j < n {
                assert(self.max >= 0 && self.found@.len() >= self.max);
                assert(capped(total, self.max) =~= capped(self.expected@, self.max));
            } else {
                assert(rest =~= Seq::<SecondClass>::empty());
                assert(rest.filter(pred) =~= Seq::<SecondClass>::empty()) by {
                    reveal(Seq::filter);
                }
                assert(total =~= self.expected@);
            }
            self.expected@ = total;
        }
    }

    /// The results found, in discovery order.
    pub fn into_results(self) -> (r: Vec<SecondClass>)
        ensures
            r@ == self.found@,
    {
        self.found
    }
}

/// The results never outnumber a non-negative `max`, and they are the
/// discovered results in discovery order, cut at `max`.
pub proof fn lemma_results_capped(r: Retrieval)
    requires
        r.wf(),
    ensures
        r.max >= 0 ==> r.found@.len() <= r.max,
        r.found@.len() <= r.expected@.len(),
        r.found@ == r.expected@.subrange(0, r.found@.len() as int),
{
    assert(r.expected@.subrange(0, r.expected@.len() as int) =~= r.expected@);
}

} // verus!
