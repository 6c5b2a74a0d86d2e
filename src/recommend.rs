use vstd::prelude::*;
use crate::activity::SecondClass;
use crate::text::{nbsp_to_space, normalize_spaces};
use crate::wordstats::{
    count_words, counts_wf, floor_sqrt, isqrt, lemma_floor_sqrt, lemma_overlap_bound, overlap,
    overlap_counted, overlap_of,
};

verus! {

/// Weight of the textual similarity, in score units (a cosine of 1 is worth
/// this much).
pub const TEXT_WEIGHT: u128 = 5_000_000;
/// Score units for each history item of the same department.
pub const DEPT_WEIGHT: u128 = 500_000;
/// At most this many same-department history items count.
pub const DEPT_CAP: u128 = 8;
/// Score units for each history item of the same module.
pub const MODULE_WEIGHT: u128 = 200_000;
/// At most this many same-module history items count.
pub const MODULE_CAP: u128 = 10;
/// Token lists at least this long are not compared as text.
pub const TOKEN_BOUND: u64 = 4_294_967_296;

/// jieba_rs's word segmenter, carried as an opaque value.
#[verifier::external_type_specification]
#[verifier::external_body]
pub struct ExJieba(jieba_rs::Jieba);

/// The words that jieba cuts a text into, with HMM on, over its default dictionary.
pub uninterp spec fn segments_of(text: Seq<char>) -> Seq<Seq<char>>;

/// The text that remains once every markup tag is removed.
pub uninterp spec fn markup_stripped(s: Seq<char>) -> Seq<char>;

/// Relies on jieba_rs's `Jieba::new`, which loads the default dictionary.
#[verifier::external_body]
fn new_segmenter() -> (r: jieba_rs::Jieba) {
    jieba_rs::Jieba::new()
}

/// Relies on jieba_rs's `Jieba::cut` with HMM on: on a segmenter built by
/// `Jieba::new`, the words depend on the text alone.
#[verifier::external_body]
fn segment(jieba: &jieba_rs::Jieba, text: &str) -> (r: Vec<String>)
    ensures
        r@.map_values(|w: String| w@) == segments_of(text@),
{
    jieba.cut(text, true).into_iter().map(|t| t.word.to_string()).collect()
}

/// Relies on ammonia's `Builder::clean` with no tag allowed and no `rel`
/// added to links: what remains is the text without any markup.
#[verifier::external_body]
fn strip_markup(s: &str) -> (r: String)
    ensures
        r@ == markup_stripped(s@),
{
    let mut builder = ammonia::Builder::new();
    builder.tags(std::collections::HashSet::new());
    builder.link_rel(None);
    builder.clean(s).to_string()
}

/// A free text without markup, with non-breaking spaces made plain.
pub open spec fn plain_text(s: Seq<char>) -> Seq<char> {
    nbsp_to_space(markup_stripped(s))
}

/// The text of an activity that its words are taken from: its name, its
/// department's name, and its two descriptions without markup.
pub open spec fn item_text(c: SecondClass) -> Seq<char> {
    let a = c.name@;
    let b = match c.department_spec() {
        Some(d) => a + " "@ + d.1,
        None => a,
    };
    let d = match c.conceive {
        Some(t) => b + " "@ + plain_text(t@),
        None => b,
    };
    match c.base_content {
        Some(t) => d + " "@ + plain_text(t@),
        None => d,
    }
}

/// The words of an activity longer than one character, in text order.
pub open spec fn tokens_of(c: SecondClass) -> Seq<Seq<char>> {
    segments_of(item_text(c)).filter(|w: Seq<char>| w.len() > 1)
}

/// The words of every history item, one item after the other.
pub open spec fn history_tokens(hist: Seq<SecondClass>) -> Seq<Seq<char>>
    decreases hist.len(),
{
    if hist.len() == 0 {
        Seq::empty()
    } else {
        history_tokens(hist.drop_last()) + tokens_of(hist.last())
    }
}

/// The cosine similarity of two word lists, in score units (0 where either
/// is empty, or where a list is too long to compare).
pub open spec fn text_score(item: Seq<Seq<char>>, hist: Seq<Seq<char>>) -> int {
    let hn = overlap(hist, hist);
    let inn = overlap(item, item);
    if item.len() < TOKEN_BOUND && hist.len() < TOKEN_BOUND && hn > 0 && inn > 0 {
        (TEXT_WEIGHT * overlap(item, hist)) as int / floor_sqrt(hn * inn) as int
    } else {
        0
    }
}

/// History items whose department carries the name `name`.
pub open spec fn same_dept_count(hist: Seq<SecondClass>, name: Seq<char>) -> nat
    decreases hist.len(),
{
    if hist.len() == 0 {
        0
    } else {
        same_dept_count(hist.drop_last(), name) + match hist.last().department_spec() {
            Some(d) => if d.1 == name {
                1nat
            } else {
                0nat
            },
            None => 0nat,
        }
    }
}

/// History items whose module carries the code `code`.
pub open spec fn same_module_count(hist: Seq<SecondClass>, code: Seq<char>) -> nat
    decreases hist.len(),
{
    if hist.len() == 0 {
        0
    } else {
        same_module_count(hist.drop_last(), code) + match hist.last().module_spec() {
            Some(m) => if m.0 == code {
                1nat
            } else {
                0nat
            },
            None => 0nat,
        }
    }
}

pub open spec fn min_nat(a: nat, b: nat) -> nat {
    if a < b {
        a
    } else {
        b
    }
}

/// The affinity of a candidate to the history through its department and module.
pub open spec fn tag_score(c: SecondClass, hist: Seq<SecondClass>) -> int {
    let d = match c.department_spec() {
        Some(d) => min_nat(same_dept_count(hist, d.1), DEPT_CAP as nat) * DEPT_WEIGHT,
        None => 0,
    };
    let m = match c.module_spec() {
        Some(m) => min_nat(same_module_count(hist, m.0), MODULE_CAP as nat) * MODULE_WEIGHT,
        None => 0,
    };
    d + m
}

/// The score of a candidate against a participation history.
pub open spec fn score_of(c: SecondClass, hist: Seq<SecondClass>) -> int {
    text_score(tokens_of(c), history_tokens(hist)) + tag_score(c, hist)
}

/// The activity has the id of some history item.
pub open spec fn in_history(c: SecondClass, hist: Seq<SecondClass>) -> bool {
    exists|i: int| 0 <= i < hist.len() && #[trigger] hist[i].id@ == c.id@
}

/// The first position of `r` whose score is below `s` (or the end).
pub open spec fn first_below(r: Seq<(int, SecondClass)>, s: int) -> int
    decreases r.len(),
{
    if r.len() == 0 {
        0
    } else if r[0].0 < s {
        0
    } else {
        1 + first_below(r.drop_first(), s)
    }
}

/// The items with their scores, by descending score; items of equal score
/// keep their order.
pub open spec fn ranked(xs: Seq<(int, SecondClass)>) -> Seq<(int, SecondClass)>
    decreases xs.len(),
{
    if xs.len() == 0 {
        Seq::empty()
    } else {
        let r = ranked(xs.drop_last());
        r.insert(first_below(r, xs.last().0), xs.last())
    }
}

/// The candidates that are not in the history, each with its score.
pub open spec fn scored(cs: Seq<SecondClass>, hist: Seq<SecondClass>) -> Seq<(int, SecondClass)> {
    cs.filter(|c: SecondClass| !in_history(c, hist)).map_values(|c: SecondClass| (score_of(c, hist), c))
}

/// The first `n` items of `s`, or all of them.
pub open spec fn first_n<T>(s: Seq<T>, n: nat) -> Seq<T> {
    if s.len() <= n {
        s
    } else {
        s.subrange(0, n as int)
    }
}

/// The recommendation: with no history, the first `limit` candidates as
/// they came; else the `limit` best-scored candidates not in the history.
pub open spec fn recommendation(cs: Seq<SecondClass>, hist: Seq<SecondClass>, limit: nat) -> Seq<SecondClass> {
    if hist.len() == 0 {
        first_n(cs, limit)
    } else {
        first_n(ranked(scored(cs, hist)).map_values(|p: (int, SecondClass)| p.1), limit)
    }
}

proof fn lemma_first_below_range(r: Seq<(int, SecondClass)>, s: int)
    ensures
        0 <= first_below(r, s) <= r.len(),
    decreases r.len(),
{
    if r.len() > 0 && r[0].0 >= s {
        lemma_first_below_range(r.drop_first(), s);
    }
}

proof fn lemma_first_below_at(r: Seq<(int, SecondClass)>, s: int, j: int)
    requires
        0 <= j <= r.len(),
        forall|k: int| 0 <= k < j ==> r[k].0 >= s,
        j == r.len() || r[j].0 < s,
    ensures
        first_below(r, s) == j,
    decreases r.len(),
{
    if r.len() > 0 && j > 0 {
        lemma_first_below_at(r.drop_first(), s, j - 1);
    }
}

/// Recommends activities from a participation history.
pub struct Recommender {
    segmenter: jieba_rs::Jieba,
}

impl Recommender {
    /// A recommender with jieba's default dictionary loaded.
    pub fn new() -> (r: Recommender) {
        Recommender { segmenter: new_segmenter() }
    }

    /// A free text without markup, with non-breaking spaces made plain.
    pub fn strip_html(s: &str) -> (r: String)
        ensures
            r@ == plain_text(s@),
    {
        let cleaned = strip_markup(s);
        normalize_spaces(cleaned.as_str())
    }

    /// The words of an activity that are longer than one character.
    pub fn extract_tokens(&self, item: &SecondClass) -> (r: Vec<String>)
        ensures
            r@.map_values(|w: String| w@) == tokens_of(*item),
    {
        let mut text = item.name.clone();
        match item.department() {
            Some(d) => {
                text.append(" ");
                text.append(d.name.as_str());
            },
            None => {},
        }
        match &item.conceive {
            Some(c) => {
                text.append(" ");
                let plain = Self::strip_html(c.as_str());
                text.append(plain.as_str());
            },
            None => {},
        }
        match &item.base_content {
            Some(c) => {
                text.append(" ");
                let plain = Self::strip_html(c.as_str());
                text.append(plain.as_str());
            },
            None => {},
        }
        assert(text@ =~= item_text(*item));
        let words = segment(&self.segmenter, text.as_str());
        let ghost wv = words@.map_values(|w: String| w@);
        let ghost long = |w: Seq<char>| w.len() > 1;
        let mut out: Vec<String> = Vec::new();
        let mut words = words;
        let n = words.len();
        let mut k: usize = 0;
        assert(wv.subrange(0, 0).filter(long) =~= Seq::<Seq<char>>::empty()) by {
            reveal(Seq::filter);
        }
        while words.len() > 0
            invariant
                n == wv.len(),
                k + words@.len() == n,
                words@.map_values(|w: String| w@) == wv.subrange(k as int, n as int),
                out@.map_values(|w: String| w@) == wv.subrange(0, k as int).filter(long),
                long == (|w: Seq<char>| w.len() > 1),
            decreases words@.len(),
        {
            let ghost rest = words@;
            let w = words.remove(0);
            proof {
                assert(w@ == wv[k as int]) by {
                    assert(rest.map_values(|w: String| w@)[0] == wv.subrange(k as int, n as int)[0]);
                }
                assert(wv.subrange(0, k + 1) =~= wv.subrange(0, k as int).push(w@));
                wv.subrange(0, k as int).lemma_filter_push(w@, long);
                assert(words@ == rest.drop_first());
                assert(words@.map_values(|w: String| w@) =~= rest.map_values(|w: String| w@).drop_first());
                assert(words@.map_values(|w: String| w@) =~= wv.subrange(k + 1, n as int));
            }
            if w.as_str().unicode_len() > 1 {
                let ghost before = out@;
                out.push(w);
                assert(out@.map_values(|w: String| w@) =~= before.map_values(|w: String| w@).push(w@));
            }
            k += 1;
        }
        assert(wv.subrange(0, n as int) =~= wv);
        out
    }
}


/// Moves the first `n` items of `v` out, in order.
fn take_front<T>(v: Vec<T>, n: usize) -> (r: Vec<T>)
    ensures
        r@ == first_n(v@, n as nat),
{
    let ghost v0 = v@;
    let mut v = v;
    let mut out: Vec<T> = Vec::new();
    while out.len() < n && v.len() > 0
        invariant
            out@.len() <= n,
            out@.len() + v@.len() == v0.len(),
            out@ == v0.subrange(0, out@.len() as int),
            v@ == v0.subrange(out@.len() as int, v0.len() as int),
        decreases v@.len(),
    {
        let ghost k: int = out@.len() as int;
        let x = v.remove(0);
        out.push(x);
        assert(out@ =~= v0.subrange(0, k + 1));
        assert(v@ =~= v0.subrange(k + 1, v0.len() as int));
    }
    proof {
        if v0.len() <= n {
            assert(out@ =~= v0);
        }
    }
    out
}

/// The items of scored pairs, in order.
fn items_of(v: Vec<(u128, SecondClass)>) -> (r: Vec<SecondClass>)
    ensures
        r@ == v@.map_values(|p: (u128, SecondClass)| p.1),
{
    let ghost v0 = v@;
    let mut v = v;
    let mut out: Vec<SecondClass> = Vec::new();
    while v.len() > 0
        invariant
            out@.len() + v@.len() == v0.len(),
            out@ == v0.subrange(0, out@.len() as int).map_values(|p: (u128, SecondClass)| p.1),
            v@ == v0.subrange(out@.len() as int, v0.len() as int),
        decreases v@.len(),
    {
        let ghost k: int = out@.len() as int;
        let (_, item) = v.remove(0);
        out.push(item);
        assert(out@ =~= v0.subrange(0, k + 1).map_values(|p: (u128, SecondClass)| p.1));
        assert(v@ =~= v0.subrange(k + 1, v0.len() as int));
    }
    assert(v0.subrange(0, v0.len() as int) =~= v0);
    out
}

/// The activity shares its id with a history item.
fn seen_before(c: &SecondClass, history: &Vec<SecondClass>) -> (r: bool)
    ensures
        r == in_history(*c, history@),
{
    let mut i: usize = 0;
    while i < history.len()
        invariant
            i <= history@.len(),
            forall|j: int| 0 <= j < i ==> #[trigger] history@[j].id@ != c.id@,
        decreases history@.len() - i,
    {
        if history[i].id == c.id {
            assert(history@[i as int].id@ == c.id@);
            return true;
        }
        i += 1;
    }
    false
}

/// History items of the department named `name`.
fn count_same_dept(history: &Vec<SecondClass>, name: &String) -> (r: u128)
    ensures
        r as nat == same_dept_count(history@, name@),
        r <= history@.len(),
{
    let mut i: usize = 0;
    let mut n: u128 = 0;
    while i < history.len()
        invariant
            i <= history@.len(),
            n as nat == same_dept_count(history@.subrange(0, i as int), name@),
            n <= i,
        decreases history@.len() - i,
    {
        assert(history@.subrange(0, i + 1).drop_last() =~= history@.subrange(0, i as int));
        match history[i].department() {
            Some(d) => {
                if d.name == *name {
                    n = n + 1;
                }
            },
            None => {},
        }
        i += 1;
    }
    assert(history@.subrange(0, history@.len() as int) =~= history@);
    n
}

/// History items of the module with code `code`.
fn count_same_module(history: &Vec<SecondClass>, code: &String) -> (r: u128)
    ensures
        r as nat == same_module_count(history@, code@),
        r <= history@.len(),
{
    let mut i: usize = 0;
    let mut n: u128 = 0;
    while i < history.len()
        invariant
            i <= history@.len(),
            n as nat == same_module_count(history@.subrange(0, i as int), code@),
            n <= i,
        decreases history@.len() - i,
    {
        assert(history@.subrange(0, i + 1).drop_last() =~= history@.subrange(0, i as int));
        match history[i].module() {
            Some(m) => {
                if m.value == *code {
                    n = n + 1;
                }
            },
            None => {},
        }
        i += 1;
    }
    assert(history@.subrange(0, history@.len() as int) =~= history@);
    n
}

/// The department and module affinity of a candidate.
fn tag_score_of(c: &SecondClass, history: &Vec<SecondClass>) -> (r: u128)
    ensures
        r as int == tag_score(*c, history@),
        r <= DEPT_CAP * DEPT_WEIGHT + MODULE_CAP * MODULE_WEIGHT,
{
    let d: u128 = match c.department() {
        Some(dept) => {
            let n = count_same_dept(history, &dept.name);
            let capped = if n < DEPT_CAP { n } else { DEPT_CAP };
            capped * DEPT_WEIGHT
        },
        None => 0,
    };
    let m: u128 = match c.module() {
        Some(module) => {
            let n = count_same_module(history, &module.value);
            let capped = if n < MODULE_CAP { n } else { MODULE_CAP };
            capped * MODULE_WEIGHT
        },
        None => 0,
    };
    d + m
}

proof fn lemma_ranked_from(xs: Seq<(int, SecondClass)>)
    ensures
        ranked(xs).len() == xs.len(),
        forall|i: int| 0 <= i < xs.len() ==> xs.contains(#[trigger] ranked(xs)[i]),
    decreases xs.len(),
{
    if xs.len() > 0 {
        let pre = xs.drop_last();
        lemma_ranked_from(pre);
        let r = ranked(pre);
        let x = xs.last();
        let p = first_below(r, x.0);
        lemma_first_below_range(r, x.0);
        assert forall|i: int| 0 <= i < xs.len() implies xs.contains(#[trigger] ranked(xs)[i]) by {
            if i < p {
                assert(ranked(xs)[i] == r[i]);
                let j = choose|j: int| 0 <= j < pre.len() && pre[j] == r[i];
                assert(xs[j] == pre[j]);
            } else if i == p {
                assert(xs[xs.len() - 1] == x);
            } else {
                assert(ranked(xs)[i] == r[i - 1]);
                let j = choose|j: int| 0 <= j < pre.len() && pre[j] == r[i - 1];
                assert(xs[j] == pre[j]);
            }
        }
    }
}

/// With no history, the recommendation is the first `limit` candidates in
/// the order they came, unscored.
pub proof fn lemma_cold_start(cs: Seq<SecondClass>, limit: nat)
    ensures
        recommendation(cs, Seq::empty(), limit) == first_n(cs, limit),
{
}

/// No activity that is in the history is ever recommended.
pub proof fn lemma_history_excluded(cs: Seq<SecondClass>, hist: Seq<SecondClass>, limit: nat)
    ensures
        forall|i: int|
            0 <= i < recommendation(cs, hist, limit).len() ==> !in_history(
                #[trigger] recommendation(cs, hist, limit)[i],
                hist,
            ),
{
    if hist.len() > 0 {
        let pred = |c: SecondClass| !in_history(c, hist);
        let f = cs.filter(pred);
        let xs = scored(cs, hist);
        lemma_ranked_from(xs);
        let items = ranked(xs).map_values(|p: (int, SecondClass)| p.1);
        assert forall|i: int| 0 <= i < recommendation(cs, hist, limit).len() implies !in_history(
            #[trigger] recommendation(cs, hist, limit)[i],
            hist,
        ) by {
            assert(recommendation(cs, hist, limit)[i] == items[i]);
            assert(xs.contains(ranked(xs)[i]));
            let j = choose|j: int| 0 <= j < xs.len() && xs[j] == ranked(xs)[i];
            assert(xs[j].1 == f[j]);
            cs.lemma_filter_pred(pred, j);
        }
    }
}

impl Recommender {
    /// The words of all history items, one item after the other.
    fn history_words(&self, history: &Vec<SecondClass>) -> (r: Vec<String>)
        ensures
            r@.map_values(|w: String| w@) == history_tokens(history@),
    {
        let mut all: Vec<String> = Vec::new();
        let mut i: usize = 0;
        while i < history.len()
            invariant
                i <= history@.len(),
                all@.map_values(|w: String| w@) == history_tokens(history@.subrange(0, i as int)),
            decreases history@.len() - i,
        {
            assert(history@.subrange(0, i + 1).drop_last() =~= history@.subrange(0, i as int));
            let mut words = self.extract_tokens(&history[i]);
            let ghost before = all@;
            let ghost wv = words@;
            all.append(&mut words);
            assert(all@.map_values(|w: String| w@) =~= before.map_values(|w: String| w@) + wv.map_values(
                |w: String| w@,
            ));
            i += 1;
        }
        assert(history@.subrange(0, history@.len() as int) =~= history@);
        all
    }

    /// The score of a candidate against a participation history, in score
    /// units: the cosine similarity of their words weighted by `TEXT_WEIGHT`,
    /// plus `DEPT_WEIGHT` for each history item of the candidate's department
    /// (at most `DEPT_CAP` of them) and `MODULE_WEIGHT` for each of its module
    /// (at most `MODULE_CAP`).
    pub fn score(&self, c: &SecondClass, history: &Vec<SecondClass>) -> (r: u128)
        ensures
            r as int == score_of(*c, history@),
    {
        let hist_words = self.history_words(history);
        let (counts, hist_norm) = Self::history_counts(history, &hist_words);
        self.score_with(c, history, &hist_words, &counts, hist_norm)
    }

    /// The word counts of the history and their self-overlap, where the
    /// history's words are few enough to compare.
    fn history_counts(history: &Vec<SecondClass>, hist_words: &Vec<String>) -> (r: (Vec<Vec<(String, u128)>>, u128))
        requires
            hist_words@.map_values(|w: String| w@) == history_tokens(history@),
        ensures
            hist_words@.len() < TOKEN_BOUND ==> counts_wf(r.0@, history_tokens(history@)) && r.1 as nat
                == overlap(history_tokens(history@), history_tokens(history@)),
    {
        if (hist_words.len() as u64) < TOKEN_BOUND {
            let counts = count_words(hist_words);
            let norm = overlap_counted(hist_words, &counts, Ghost(history_tokens(history@)));
            (counts, norm)
        } else {
            (Vec::new(), 0)
        }
    }

    /// The score of a candidate, given the history's words and, where they
    /// are few enough to compare, their counts and self-overlap.
    fn score_with(
        &self,
        c: &SecondClass,
        history: &Vec<SecondClass>,
        hist_words: &Vec<String>,
        counts: &Vec<Vec<(String, u128)>>,
        hist_norm: u128,
    ) -> (r: u128)
        requires
            hist_words@.map_values(|w: String| w@) == history_tokens(history@),
            hist_words@.len() < TOKEN_BOUND ==> counts_wf(counts@, history_tokens(history@)) && hist_norm as nat
                == overlap(history_tokens(history@), history_tokens(history@)),
        ensures
            r as int == score_of(*c, history@),
    {
        let words = self.extract_tokens(c);
        let tags = tag_score_of(c, history);
        let ghost iv = words@.map_values(|w: String| w@);
        let ghost hv = history_tokens(history@);
        assert(iv.len() == words@.len());
        assert(hv.len() == hist_words@.len());
        if (words.len() as u64) < TOKEN_BOUND && (hist_words.len() as u64) < TOKEN_BOUND {
            let inn = overlap_of(&words, &words);
            let dot = overlap_counted(&words, counts, Ghost(hv));
            proof {
                lemma_overlap_bound(hv, hv);
                lemma_overlap_bound(iv, iv);
                lemma_overlap_bound(iv, hv);
            }
            if hist_norm > 0 && inn > 0 {
                assert(hist_norm * inn <= (TOKEN_BOUND - 1) * (TOKEN_BOUND - 1) * (TOKEN_BOUND - 1) * (TOKEN_BOUND - 1)) by (nonlinear_arith)
                    requires hist_norm <= hv.len() * hv.len(), inn <= iv.len() * iv.len(), hv.len() < TOKEN_BOUND, iv.len() < TOKEN_BOUND;
                let product = hist_norm * inn;
                let root = isqrt(product);
                proof {
                    lemma_floor_sqrt(product as nat);
                    assert(product >= 1) by (nonlinear_arith)
                        requires product == hist_norm * inn, hist_norm >= 1, inn >= 1;
                    if root == 0 {
                        assert((root + 1) * (root + 1) == 1) by (nonlinear_arith)
                            requires root == 0;
                        assert(false);
                    }
                    assert(dot <= (TOKEN_BOUND - 1) * (TOKEN_BOUND - 1)) by (nonlinear_arith)
                        requires dot <= iv.len() * hv.len(), hv.len() < TOKEN_BOUND, iv.len() < TOKEN_BOUND;
                }
                let text = TEXT_WEIGHT * dot / root;
                assert(text <= TEXT_WEIGHT * dot);
                text + tags
            } else {
                tags
            }
        } else {
            tags
        }
    }

    /// Ranks candidates against a participation history and returns at most
    /// `limit` of them. With an empty history the first `limit` candidates
    /// come back as they are. Otherwise candidates whose id is in the history
    /// are left out and the rest come by descending score, equal scores in
    /// candidate order. The score adds the cosine similarity of the words of
    /// candidate and history, and capped counts of history items sharing the
    /// candidate's department and module.
    pub fn recommend(&self, history: &Vec<SecondClass>, candidates: Vec<SecondClass>, limit: usize) -> (r: Vec<SecondClass>)
        ensures
            r@ == recommendation(candidates@, history@, limit as nat),
    {
        if history.len() == 0 {
            return take_front(candidates, limit);
        }
        let hist_words = self.history_words(history);
        let ghost hv = history_tokens(history@);
        let (counts, hist_norm) = Self::history_counts(history, &hist_words);
        let ghost c0 = candidates@;
        let ghost pred = |c: SecondClass| !in_history(c, history@);
        let ghost sc = |c: SecondClass| (score_of(c, history@), c);
        let ghost pv = |p: (u128, SecondClass)| (p.0 as int, p.1);
        let mut cands = candidates;
        let mut order: Vec<(u128, SecondClass)> = Vec::new();
        let n = cands.len();
        let mut k: usize = 0;
        assert(c0.subrange(0, 0).filter(pred) =~= Seq::<SecondClass>::empty()) by {
            reveal(Seq::filter);
        }
        assert(order@.map_values(pv) =~= ranked(scored(c0.subrange(0, 0), history@)));
        while cands.len() > 0
            invariant
                n == c0.len(),
                k + cands@.len() == n,
                cands@ == c0.subrange(k as int, n as int),
                order@.map_values(pv) == ranked(scored(c0.subrange(0, k as int), history@)),
                hist_words@.map_values(|w: String| w@) == history_tokens(history@),
                hist_words@.len() < TOKEN_BOUND ==> counts_wf(counts@, hv) && hist_norm as nat == overlap(hv, hv),
                hv == history_tokens(history@),
                pred == (|c: SecondClass| !in_history(c, history@)),
                sc == (|c: SecondClass| (score_of(c, history@), c)),
                pv == (|p: (u128, SecondClass)| (p.0 as int, p.1)),
            decreases cands@.len(),
        {
            let c = cands.remove(0);
            let ghost pre = c0.subrange(0, k as int);
            proof {
                assert(c == c0[k as int]);
                assert(c0.subrange(0, k + 1) =~= pre.push(c));
                pre.lemma_filter_push(c, pred);
                assert(cands@ =~= c0.subrange(k + 1, n as int));
            }
            if !seen_before(&c, history) {
                let s = self.score_with(&c, history, &hist_words, &counts, hist_norm);
                let ghost rv = order@.map_values(pv);
                let mut j: usize = 0;
                while j < order.len() && order[j].0 >= s
                    invariant
                        j <= order@.len(),
                        rv == order@.map_values(pv),
                        pv == (|p: (u128, SecondClass)| (p.0 as int, p.1)),
                        forall|t: int| 0 <= t < j ==> #[trigger] rv[t].0 >= s,
                    decreases order@.len() - j,
                {
                    assert(rv[j as int] == pv(order@[j as int]));
                    j += 1;
                }
                proof {
                    lemma_first_below_at(rv, s as int, j as int);
                    let xs = scored(pre, history@);
                    assert(scored(pre.push(c), history@) =~= xs.push((s as int, c)));
                    assert(xs.push((s as int, c)).drop_last() =~= xs);
                }
                order.insert(j, (s, c));
                assert(order@.map_values(pv) =~= rv.insert(j as int, (s as int, c)));
            } else {
                assert(scored(pre.push(c), history@) =~= scored(pre, history@));
            }
            k += 1;
        }
        assert(c0.subrange(0, n as int) =~= c0);
        let items = items_of(order);
        assert(items@ =~= ranked(scored(c0, history@)).map_values(|p: (int, SecondClass)| p.1));
        take_front(items, limit)
    }
}


} // verus!
