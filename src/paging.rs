use vstd::prelude::*;

verus! {

/// The decisions of a paged listing: which page to fetch next, and when to
/// stop, either because `max` records are in (`-1` means no limit) or because
/// the server's reported total has been paged past.
pub struct Pager {
    pub max: i32,
    pub size: i32,
    /// The page to fetch next, counted from 1.
    pub page: i64,
    /// How many records have been kept so far.
    pub kept: u64,
    pub finished: bool,
}

/// Whether `kept` records satisfy a limit of `max`.
pub open spec fn limit_reached(max: i32, kept: int) -> bool {
    max != -1 && kept >= max
}

impl Pager {
    pub open spec fn wf(&self) -> bool {
        &&& self.size > 0
        &&& 1 <= self.page
        &&& self.page <= 0x7fff_ffff
        &&& self.kept <= 0x7fff_ffff
    }

    /// A listing that starts at page 1.
    pub fn new(max: i32, size: i32) -> (r: Pager)
        requires
            size > 0,
        ensures
            r.wf(),
            r.max == max,
            r.size == size,
            r.page == 1,
            r.kept == 0,
            r.finished == limit_reached(max, 0),
    {
        Pager { max, size, page: 1, kept: 0, finished: max != -1 && max <= 0 }
    }

    /// The page to fetch next, or nothing once the listing is complete.
    pub fn next_page(&self) -> (r: Option<i64>)
        ensures
            r == (if self.finished {
                None
            } else {
                Some(self.page)
            }),
    {
        if self.finished {
            None
        } else {
            Some(self.page)
        }
    }

    /// Takes in a fetched page: keeps its records in order until the limit is
    /// met, then decides whether another page follows.
    pub fn take_page<T>(&mut self, records: Vec<T>, total: u64, results: &mut Vec<T>)
        requires
            old(self).wf(),
            !old(self).finished,
            !limit_reached(old(self).max, old(self).kept as int),
        ensures
            final(self).max == old(self).max,
            final(self).size == old(self).size,
            exists|k: int|
                0 <= k <= records@.len() && #[trigger] final(results)@ == old(results)@ + records@.subrange(0, k)
                    && (k < records@.len() ==> limit_reached(old(self).max, final(self).kept as int))
                    && (old(self).max != -1 ==> final(self).kept == old(self).kept + k),
            final(self).finished == (limit_reached(final(self).max, final(self).kept as int) || old(
                self,
            ).page * old(self).size >= total || old(self).page >= 0x7fff_ffff),
            !final(self).finished ==> final(self).wf() && final(self).page == old(self).page + 1,
            final(self).kept <= 0x7fff_ffff,
    {
        let ghost r0 = records@;
        let ghost res0 = results@;
        let ghost kept0 = self.kept;
        let mut records = records;
        let n = records.len();
        let mut k: usize = 0;
        while records.len() > 0 && !(self.max != -1 && self.kept as i64 >= self.max as i64)
            invariant
                n == r0.len(),
                k <= n,
                self.max != -1 ==> self.kept == kept0 + k,
                self.max == -1 ==> self.kept == kept0,
                self.kept <= 0x7fff_ffff,
                self.max != -1 ==> self.kept <= self.max || self.kept == kept0,
                self.max == old(self).max,
                self.size == old(self).size,
                self.page == old(self).page,
                self.finished == old(self).finished,
                records@ == r0.subrange(k as int, n as int),
                results@ == res0 + r0.subrange(0, k as int),
            ensures
                records@.len() == 0 || limit_reached(self.max, self.kept as int),
                k <= n,
                self.max != -1 ==> self.kept == kept0 + k,
                self.max == -1 ==> self.kept == kept0,
                self.kept <= 0x7fff_ffff,
                self.max == old(self).max,
                self.size == old(self).size,
                self.page == old(self).page,
                self.finished == old(self).finished,
                records@ == r0.subrange(k as int, n as int),
                results@ == res0 + r0.subrange(0, k as int),
            decreases records@.len(),
        {
            let x = records.remove(0);
            results.push(x);
            assert(r0.subrange(0, k + 1) =~= r0.subrange(0, k as int).push(x));
            assert(records@ =~= r0.subrange(k + 1, n as int));
            if self.max != -1 {
                self.kept = self.kept + 1;
            }
            k = k + 1;
        }
        assert(results@ == res0 + r0.subrange(0, k as int));
        let reached = self.max != -1 && self.kept as i64 >= self.max as i64;
        assert((self.page as int) * (self.size as int) <= 0x7fff_ffff * 0x7fff_ffff) by (nonlinear_arith)
            requires 1 <= self.page <= 0x7fff_ffff, 0 < self.size <= 0x7fff_ffff;
        let paged_past = (self.page as i128) * (self.size as i128) >= total as i128;
        if reached || paged_past || self.page >= 0x7fff_ffff {
            self.finished = true;
        } else {
            self.page = self.page + 1;
        }
    }
}

} // verus!
