//! Word statistics: occurrence counts, overlaps of word lists, a bucketed
//! word-count table, and the integer square root used for cosines.

use vstd::prelude::*;
use crate::recommend::TOKEN_BOUND;
use crate::text::same_text;

verus! {

/// How often `t` occurs in `s`.
pub open spec fn occurrences(s: Seq<Seq<char>>, t: Seq<char>) -> nat
    decreases s.len(),
{
    if s.len() == 0 {
        0
    } else {
        occurrences(s.drop_last(), t) + if s.last() == t {
            1nat
        } else {
            0nat
        }
    }
}

/// The dot product of the term-frequency vectors of `a` and `b`, summed
/// over the word occurrences of `a`.
pub open spec fn overlap(a: Seq<Seq<char>>, b: Seq<Seq<char>>) -> nat
    decreases a.len(),
{
    if a.len() == 0 {
        0
    } else {
        overlap(a.drop_last(), b) + occurrences(b, a.last())
    }
}

/// The largest integer whose square does not exceed `n`.
pub open spec fn floor_sqrt(n: nat) -> nat
    decreases n,
{
    if n == 0 {
        0
    } else {
        let r = floor_sqrt((n - 1) as nat);
        if (r + 1) * (r + 1) <= n {
            r + 1
        } else {
            r
        }
    }
}

pub(crate) proof fn lemma_occurrences_bound(s: Seq<Seq<char>>, t: Seq<char>)
    ensures
        occurrences(s, t) <= s.len(),
    decreases s.len(),
{
    if s.len() > 0 {
        lemma_occurrences_bound(s.drop_last(), t);
    }
}

pub(crate) proof fn lemma_overlap_bound(a: Seq<Seq<char>>, b: Seq<Seq<char>>)
    ensures
        overlap(a, b) <= a.len() * b.len(),
    decreases a.len(),
{
    if a.len() > 0 {
        lemma_overlap_bound(a.drop_last(), b);
        lemma_occurrences_bound(b, a.last());
        assert((a.len() - 1) * b.len() + b.len() == a.len() * b.len()) by (nonlinear_arith);
    }
}

pub(crate) proof fn lemma_floor_sqrt(n: nat)
    ensures
        floor_sqrt(n) * floor_sqrt(n) <= n,
        n < (floor_sqrt(n) + 1) * (floor_sqrt(n) + 1),
    decreases n,
{
    if n > 0 {
        lemma_floor_sqrt((n - 1) as nat);
        let r = floor_sqrt((n - 1) as nat);
        let q = (r + 1) * (r + 1);
        assert((r + 2) * (r + 2) == q + 2 * r + 3) by (nonlinear_arith)
            requires q == (r + 1) * (r + 1);
        let s = floor_sqrt(n);
        if q <= n {
            assert(s == r + 1);
            assert(s * s == q);
            assert((s + 1) * (s + 1) == q + 2 * r + 3) by (nonlinear_arith)
                requires q == (r + 1) * (r + 1), s == r + 1;
            assert(n <= q);
            assert(n < (s + 1) * (s + 1));
        } else {
            assert(s == r);
            assert(r * r <= n);
            assert((s + 1) * (s + 1) == q);
        }
    } else {
        assert(floor_sqrt(0) == 0);
        assert((0nat + 1) * (0nat + 1) == 1) by (nonlinear_arith);
    }
}

pub(crate) proof fn lemma_root_unique(n: nat, a: nat, b: nat)
    requires
        a * a <= n < (a + 1) * (a + 1),
        b * b <= n < (b + 1) * (b + 1),
    ensures
        a == b,
{
    if a < b {
        assert((a + 1) * (a + 1) <= b * b) by (nonlinear_arith)
            requires a + 1 <= b;
    } else if b < a {
        assert((b + 1) * (b + 1) <= a * a) by (nonlinear_arith)
            requires b + 1 <= a;
    }
}

/// The integer square root, by bisection.
pub(crate) fn isqrt(n: u128) -> (r: u128)
    ensures
        r as nat == floor_sqrt(n as nat),
{
    let mut lo: u128 = 0;
    let mut hi: u128 = 0x1_0000_0000_0000_0000;
    assert(n < 0x1_0000_0000_0000_0000 * 0x1_0000_0000_0000_0000) by (nonlinear_arith)
        requires n <= 0xffff_ffff_ffff_ffff_ffff_ffff_ffff_ffffu128;
    while hi - lo > 1
        invariant
            lo < hi <= 0x1_0000_0000_0000_0000,
            lo * lo <= n,
            n < hi * hi,
        decreases hi - lo,
    {
        let mid = lo + (hi - lo) / 2;
        assert(mid * mid <= 0xffff_ffff_ffff_ffff * 0xffff_ffff_ffff_ffff) by (nonlinear_arith)
            requires mid < 0x1_0000_0000_0000_0000;
        if mid * mid <= n {
            lo = mid;
        } else {
            hi = mid;
        }
    }
    proof {
        lemma_floor_sqrt(n as nat);
        assert(hi == lo + 1);
        lemma_root_unique(n as nat, lo as nat, floor_sqrt(n as nat));
    }
    lo
}

/// How often `t` occurs in `s`.
pub(crate) fn count_in(s: &Vec<String>, t: &String) -> (r: u128)
    ensures
        r as nat == occurrences(s@.map_values(|w: String| w@), t@),
{
    let ghost sv = s@.map_values(|w: String| w@);
    let mut k: usize = 0;
    let mut n: u128 = 0;
    while k < s.len()
        invariant
            k <= s@.len(),
            sv == s@.map_values(|w: String| w@),
            n as nat == occurrences(sv.subrange(0, k as int), t@),
            n <= k,
        decreases s@.len() - k,
    {
        assert(sv.subrange(0, k + 1).drop_last() =~= sv.subrange(0, k as int));
        if s[k] == *t {
            n = n + 1;
        }
        k += 1;
    }
    assert(sv.subrange(0, s@.len() as int) =~= sv);
    n
}

/// The overlap of two word lists, for lists shorter than the token bound.
pub(crate) fn overlap_of(a: &Vec<String>, b: &Vec<String>) -> (r: u128)
    requires
        a@.len() < TOKEN_BOUND,
        b@.len() < TOKEN_BOUND,
    ensures
        r as nat == overlap(a@.map_values(|w: String| w@), b@.map_values(|w: String| w@)),
        r as nat <= a@.len() * b@.len(),
{
    let ghost av = a@.map_values(|w: String| w@);
    let ghost bv = b@.map_values(|w: String| w@);
    let mut k: usize = 0;
    let mut n: u128 = 0;
    while k < a.len()
        invariant
            k <= a@.len(),
            a@.len() < TOKEN_BOUND,
            b@.len() < TOKEN_BOUND,
            av == a@.map_values(|w: String| w@),
            bv == b@.map_values(|w: String| w@),
            n as nat == overlap(av.subrange(0, k as int), bv),
            n as nat <= k * b@.len(),
        decreases a@.len() - k,
    {
        assert(av.subrange(0, k + 1).drop_last() =~= av.subrange(0, k as int));
        let c = count_in(b, &a[k]);
        proof {
            lemma_occurrences_bound(bv, av[k as int]);
            assert(k * b@.len() + b@.len() == (k + 1) * b@.len()) by (nonlinear_arith);
            assert((k + 1) * b@.len() <= TOKEN_BOUND * TOKEN_BOUND) by (nonlinear_arith)
                requires k + 1 <= TOKEN_BOUND, b@.len() <= TOKEN_BOUND;
        }
        n = n + c;
        k += 1;
    }
    assert(av.subrange(0, a@.len() as int) =~= av);
    n
}

/// Buckets of a word-count table.
const BUCKETS: u64 = 1024;

/// The bucket of a word: a polynomial hash of its characters.
pub open spec fn bucket_of(w: Seq<char>) -> int
    decreases w.len(),
{
    if w.len() == 0 {
        0
    } else {
        (bucket_of(w.drop_last()) * 31 + (w.last() as u32) as int) % 1024
    }
}

pub(crate) proof fn lemma_bucket_range(w: Seq<char>)
    ensures
        0 <= bucket_of(w) < 1024,
    decreases w.len(),
{
    if w.len() > 0 {
        lemma_bucket_range(w.drop_last());
    }
}

pub(crate) fn bucket_index(w: &String) -> (r: usize)
    ensures
        r as int == bucket_of(w@),
        r < 1024,
{
    let n = w.as_str().unicode_len();
    let mut h: u64 = 0;
    let mut i: usize = 0;
    while i < n
        invariant
            n == w@.len(),
            i <= n,
            h < 1024,
            h as int == bucket_of(w@.subrange(0, i as int)),
        decreases n - i,
    {
        let c = w.as_str().get_char(i);
        assert(w@.subrange(0, i + 1).drop_last() =~= w@.subrange(0, i as int));
        h = (h * 31 + c as u32 as u64) % BUCKETS;
        i += 1;
    }
    assert(w@.subrange(0, n as int) =~= w@);
    h as usize
}

pub open spec fn key_at(bs: Seq<Vec<(String, u128)>>, b: int, j: int) -> Seq<char> {
    bs[b]@[j].0@
}

/// Some entry of the word's bucket holds the word.
pub open spec fn has_key(bs: Seq<Vec<(String, u128)>>, t: Seq<char>) -> bool {
    exists|j: int| 0 <= j < bs[bucket_of(t)]@.len() && #[trigger] key_at(bs, bucket_of(t), j) == t
}

/// `bs` counts the words of `hv`: each entry sits in its word's bucket and
/// holds how often the word occurs, no bucket holds a word twice, and every
/// word of `hv` has an entry.
pub open spec fn counts_wf(bs: Seq<Vec<(String, u128)>>, hv: Seq<Seq<char>>) -> bool {
    &&& bs.len() == 1024
    &&& forall|b: int, j: int|
        0 <= b < 1024 && 0 <= j < bs[b]@.len() ==> bucket_of(#[trigger] key_at(bs, b, j)) == b
            && bs[b]@[j].1 == occurrences(hv, key_at(bs, b, j))
    &&& forall|b: int, j1: int, j2: int|
        0 <= b < 1024 && 0 <= j1 < bs[b]@.len() && 0 <= j2 < bs[b]@.len() && j1 != j2
            ==> #[trigger] key_at(bs, b, j1) != #[trigger] key_at(bs, b, j2)
    &&& forall|k: int| 0 <= k < hv.len() ==> #[trigger] has_key(bs, hv[k])
}

pub(crate) proof fn lemma_occurs_somewhere(s: Seq<Seq<char>>, t: Seq<char>)
    requires
        occurrences(s, t) > 0,
    ensures
        exists|k: int| 0 <= k < s.len() && s[k] == t,
    decreases s.len(),
{
    if s.last() != t {
        lemma_occurs_somewhere(s.drop_last(), t);
        let k = choose|k: int| 0 <= k < s.drop_last().len() && s.drop_last()[k] == t;
        assert(s[k] == t);
    }
}

/// Counts the words of a list, for a list shorter than the token bound.
pub(crate) fn count_words(words: &Vec<String>) -> (r: Vec<Vec<(String, u128)>>)
    requires
        words@.len() < TOKEN_BOUND,
    ensures
        counts_wf(r@, words@.map_values(|w: String| w@)),
{
    let ghost wv = words@.map_values(|w: String| w@);
    let mut bs: Vec<Vec<(String, u128)>> = Vec::new();
    let mut b: u64 = 0;
    while b < BUCKETS
        invariant
            b <= 1024,
            bs@.len() == b,
            forall|x: int| 0 <= x < b ==> (#[trigger] bs@[x])@.len() == 0,
        decreases 1024 - b,
    {
        bs.push(Vec::new());
        b += 1;
    }
    assert(wv.subrange(0, 0).len() == 0);
    let mut k: usize = 0;
    while k < words.len()
        invariant
            k <= words@.len(),
            words@.len() < TOKEN_BOUND,
            wv == words@.map_values(|w: String| w@),
            counts_wf(bs@, wv.subrange(0, k as int)),
        decreases words@.len() - k,
    {
        let ghost pre = wv.subrange(0, k as int);
        let ghost post = wv.subrange(0, k + 1);
        let t = &words[k];
        let ghost tv = t@;
        proof {
            assert(post =~= pre.push(tv));
            assert(post.drop_last() =~= pre);
            assert forall|x: Seq<char>| occurrences(post, x) == occurrences(pre, x) + if x == tv {
                1nat
            } else {
                0nat
            } by {
                assert(post.drop_last() =~= pre);
            }
            lemma_bucket_range(tv);
        }
        let bt = bucket_index(t);
        let ghost bs0 = bs@;
        let mut j: usize = 0;
        let mut found = false;
        while j < bs[bt].len()
            invariant_except_break
                !found,
            invariant
                bs@ == bs0,
                tv == t@,
                bt < 1024,
                bt as int == bucket_of(tv),
                bs0.len() == 1024,
                j <= bs0[bt as int]@.len(),
                forall|y: int| 0 <= y < j ==> #[trigger] key_at(bs0, bt as int, y) != tv,
            ensures
                bs@ == bs0,
                found ==> j < bs0[bt as int]@.len() && key_at(bs0, bt as int, j as int) == tv,
                !found ==> forall|y: int| 0 <= y < bs0[bt as int]@.len() ==> #[trigger] key_at(bs0, bt as int, y) != tv,
            decreases bs0[bt as int]@.len() - j,
        {
            let inner = &bs[bt];
            assert(inner@ == bs0[bt as int]@);
            if same_text(inner[j].0.as_str(), t.as_str()) {
                assert(key_at(bs0, bt as int, j as int) == tv);
                found = true;
                break;
            }
            j += 1;
        }
        if found {
            proof {
                assert(bs0[bt as int]@[j as int].1 == occurrences(pre, tv));
                lemma_occurrences_bound(pre, tv);
            }
            let c = bs[bt][j].1;
            bs[bt][j].1 = c + 1;
            proof {
                assert forall|b2: int, j2: int| 0 <= b2 < 1024 && 0 <= j2 < bs@[b2]@.len() implies bucket_of(
                    #[trigger] key_at(bs@, b2, j2),
                ) == b2 && bs@[b2]@[j2].1 == occurrences(post, key_at(bs@, b2, j2)) by {
                    assert(key_at(bs@, b2, j2) == key_at(bs0, b2, j2));
                    if b2 == bt && j2 == j {
                    } else if b2 == bt {
                        assert(key_at(bs0, b2, j2) != key_at(bs0, b2, j as int));
                    } else {
                        assert(bucket_of(key_at(bs0, b2, j2)) != bucket_of(tv));
                    }
                }
                assert forall|b2: int, j1: int, j2: int|
                    0 <= b2 < 1024 && 0 <= j1 < bs@[b2]@.len() && 0 <= j2 < bs@[b2]@.len() && j1 != j2
                    implies #[trigger] key_at(bs@, b2, j1) != #[trigger] key_at(bs@, b2, j2) by {
                    assert(key_at(bs@, b2, j1) == key_at(bs0, b2, j1));
                    assert(key_at(bs@, b2, j2) == key_at(bs0, b2, j2));
                }
                assert forall|x: int| 0 <= x < post.len() implies #[trigger] has_key(bs@, post[x]) by {
                    if x < pre.len() {
                        assert(post[x] == pre[x]);
                        assert(has_key(bs0, pre[x]));
                        let y = choose|y: int| 0 <= y < bs0[bucket_of(pre[x])]@.len() && #[trigger] key_at(bs0, bucket_of(pre[x]), y) == pre[x];
                        lemma_bucket_range(pre[x]);
                        assert(key_at(bs@, bucket_of(pre[x]), y) == pre[x]);
                    } else {
                        assert(post[x] == tv);
                        assert(key_at(bs@, bt as int, j as int) == tv);
                    }
                }
            }
        } else {
            proof {
                if occurrences(pre, tv) > 0 {
                    lemma_occurs_somewhere(pre, tv);
                    let x = choose|x: int| 0 <= x < pre.len() && pre[x] == tv;
                    assert(has_key(bs0, pre[x]));
                    let y = choose|y: int| 0 <= y < bs0[bucket_of(tv)]@.len() && #[trigger] key_at(bs0, bucket_of(tv), y) == tv;
                    assert(key_at(bs0, bt as int, y) != tv);
                }
            }
            let entry = (t.clone(), 1u128);
            bs[bt].push(entry);
            proof {
                let nb = bs0[bt as int]@.len();
                assert forall|b2: int, j2: int| 0 <= b2 < 1024 && 0 <= j2 < bs@[b2]@.len() implies bucket_of(
                    #[trigger] key_at(bs@, b2, j2),
                ) == b2 && bs@[b2]@[j2].1 == occurrences(post, key_at(bs@, b2, j2)) by {
                    if b2 == bt && j2 == nb {
                        assert(key_at(bs@, b2, j2) == tv);
                    } else {
                        assert(key_at(bs@, b2, j2) == key_at(bs0, b2, j2));
                        if b2 == bt {
                            assert(key_at(bs0, b2, j2) != tv);
                        } else {
                            assert(bucket_of(key_at(bs0, b2, j2)) != bucket_of(tv));
                        }
                    }
                }
                assert forall|b2: int, j1: int, j2: int|
                    0 <= b2 < 1024 && 0 <= j1 < bs@[b2]@.len() && 0 <= j2 < bs@[b2]@.len() && j1 != j2
                    implies #[trigger] key_at(bs@, b2, j1) != #[trigger] key_at(bs@, b2, j2) by {
                    if b2 == bt && j1 == nb {
                        assert(key_at(bs@, b2, j2) == key_at(bs0, b2, j2));
                    } else if b2 == bt && j2 == nb {
                        assert(key_at(bs@, b2, j1) == key_at(bs0, b2, j1));
                    } else {
                        assert(key_at(bs@, b2, j1) == key_at(bs0, b2, j1));
                        assert(key_at(bs@, b2, j2) == key_at(bs0, b2, j2));
                    }
                }
                assert forall|x: int| 0 <= x < post.len() implies #[trigger] has_key(bs@, post[x]) by {
                    if x < pre.len() {
                        assert(post[x] == pre[x]);
                        assert(has_key(bs0, pre[x]));
                        let y = choose|y: int| 0 <= y < bs0[bucket_of(pre[x])]@.len() && #[trigger] key_at(bs0, bucket_of(pre[x]), y) == pre[x];
                        lemma_bucket_range(pre[x]);
                        assert(key_at(bs@, bucket_of(pre[x]), y) == pre[x]);
                    } else {
                        assert(post[x] == tv);
                        assert(key_at(bs@, bt as int, nb as int) == tv);
                    }
                }
            }
        }
        k += 1;
    }
    assert(wv.subrange(0, words@.len() as int) =~= wv);
    bs
}

/// How often `t` occurs in the counted list.
pub(crate) fn count_of(bs: &Vec<Vec<(String, u128)>>, t: &String, hv: Ghost<Seq<Seq<char>>>) -> (r: u128)
    requires
        counts_wf(bs@, hv@),
    ensures
        r as nat == occurrences(hv@, t@),
{
    let b = bucket_index(t);
    let mut j: usize = 0;
    while j < bs[b].len()
        invariant
            b < 1024,
            b as int == bucket_of(t@),
            counts_wf(bs@, hv@),
            j <= bs@[b as int]@.len(),
            forall|y: int| 0 <= y < j ==> #[trigger] key_at(bs@, b as int, y) != t@,
        decreases bs@[b as int]@.len() - j,
    {
        let inner = &bs[b];
        assert(inner@ == bs@[b as int]@);
        if same_text(inner[j].0.as_str(), t.as_str()) {
            assert(key_at(bs@, b as int, j as int) == t@);
            return bs[b][j].1;
        }
        j += 1;
    }
    proof {
        if occurrences(hv@, t@) > 0 {
            lemma_occurs_somewhere(hv@, t@);
            let x = choose|x: int| 0 <= x < hv@.len() && hv@[x] == t@;
            assert(has_key(bs@, hv@[x]));
            let y = choose|y: int| 0 <= y < bs@[bucket_of(t@)]@.len() && #[trigger] key_at(bs@, bucket_of(t@), y) == t@;
            assert(key_at(bs@, b as int, y) != t@);
        }
    }
    0
}

/// The overlap of a word list with a counted list.
pub(crate) fn overlap_counted(a: &Vec<String>, bs: &Vec<Vec<(String, u128)>>, hv: Ghost<Seq<Seq<char>>>) -> (r: u128)
    requires
        counts_wf(bs@, hv@),
        a@.len() < TOKEN_BOUND,
        hv@.len() < TOKEN_BOUND,
    ensures
        r as nat == overlap(a@.map_values(|w: String| w@), hv@),
{
    let ghost av = a@.map_values(|w: String| w@);
    let mut k: usize = 0;
    let mut n: u128 = 0;
    while k < a.len()
        invariant
            k <= a@.len(),
            a@.len() < TOKEN_BOUND,
            hv@.len() < TOKEN_BOUND,
            counts_wf(bs@, hv@),
            av == a@.map_values(|w: String| w@),
            n as nat == overlap(av.subrange(0, k as int), hv@),
            n as nat <= k * hv@.len(),
        decreases a@.len() - k,
    {
        assert(av.subrange(0, k + 1).drop_last() =~= av.subrange(0, k as int));
        let c = count_of(bs, &a[k], hv);
        proof {
            lemma_occurrences_bound(hv@, av[k as int]);
            assert(k * hv@.len() + hv@.len() == (k + 1) * hv@.len()) by (nonlinear_arith);
            assert((k + 1) * hv@.len() <= TOKEN_BOUND * TOKEN_BOUND) by (nonlinear_arith)
                requires k + 1 <= TOKEN_BOUND, hv@.len() <= TOKEN_BOUND;
        }
        n = n + c;
        k += 1;
    }
    assert(av.subrange(0, a@.len() as int) =~= av);
    n
}

} // verus!
