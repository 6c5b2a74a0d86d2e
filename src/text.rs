use vstd::prelude::*;

verus! {

/// `q` occurs in `s` as a run of consecutive characters.
pub open spec fn is_infix(q: Seq<char>, s: Seq<char>) -> bool {
    exists|i: int| 0 <= i && i + q.len() <= s.len() && #[trigger] s.subrange(i, i + q.len()) == q
}

/// What `str::to_lowercase` yields for a text.
pub uninterp spec fn lower_of(s: Seq<char>) -> Seq<char>;

/// Relies on std's `str::to_lowercase`: the result depends on the characters alone.
#[verifier::external_body]
pub(crate) fn lowercase(s: &str) -> (r: String)
    ensures
        r@ == lower_of(s@),
{
    s.to_lowercase()
}

/// Relies on std's `str::contains` with a `&str` pattern: true exactly when
/// the pattern matches a sub-slice of the text.
#[verifier::external_body]
pub(crate) fn str_contains(s: &str, q: &str) -> (r: bool)
    ensures
        r == is_infix(q@, s@),
{
    s.contains(q)
}

/// Character-wise equality of two texts.
pub fn same_text(a: &str, b: &str) -> (r: bool)
    ensures
        r == (a@ == b@),
{
    let n = a.unicode_len();
    if n != b.unicode_len() {
        return false;
    }
    let mut i: usize = 0;
    while i < n
        invariant
            n == a@.len(),
            n == b@.len(),
            i <= n,
            a@.subrange(0, i as int) == b@.subrange(0, i as int),
        decreases n - i,
    {
        if a.get_char(i) != b.get_char(i) {
            return false;
        }
        assert(a@.subrange(0, i + 1) == a@.subrange(0, i as int).push(a@[i as int]));
        assert(b@.subrange(0, i + 1) == b@.subrange(0, i as int).push(b@[i as int]));
        i += 1;
    }
    assert(a@ == a@.subrange(0, n as int));
    assert(b@ == b@.subrange(0, n as int));
    true
}

/// The pieces of `s` between commas, as `str::split(',')` produces them:
/// one more piece than there are commas, empty pieces kept.
pub open spec fn comma_pieces(s: Seq<char>) -> Seq<Seq<char>>
    decreases s.len(),
{
    if s.len() == 0 {
        seq![Seq::<char>::empty()]
    } else {
        let rest = comma_pieces(s.drop_last());
        if s.last() == ',' {
            rest.push(Seq::<char>::empty())
        } else {
            rest.update(rest.len() - 1, rest.last().push(s.last()))
        }
    }
}

proof fn lemma_comma_pieces_nonempty(s: Seq<char>)
    ensures
        comma_pieces(s).len() >= 1,
    decreases s.len(),
{
    if s.len() > 0 {
        lemma_comma_pieces_nonempty(s.drop_last());
    }
}

/// Splits a text at each comma.
pub fn split_commas(s: &str) -> (r: Vec<String>)
    ensures
        r@.map_values(|p: String| p@) == comma_pieces(s@),
{
    let n = s.unicode_len();
    let mut done: Vec<String> = Vec::new();
    let mut start: usize = 0;
    let mut i: usize = 0;
    proof {
        let e = s@.subrange(0, 0);
        assert(e =~= Seq::<char>::empty());
        assert(done@.map_values(|p: String| p@) =~= Seq::<Seq<char>>::empty());
        assert(comma_pieces(e) == seq![Seq::<char>::empty()]);
        assert(done@.map_values(|p: String| p@).push(e) =~= seq![Seq::<char>::empty()]);
    }
    while i < n
        invariant
            n == s@.len(),
            start <= i <= n,
            done@.map_values(|p: String| p@).push(s@.subrange(start as int, i as int))
                == comma_pieces(s@.subrange(0, i as int)),
        decreases n - i,
    {
        let c = s.get_char(i);
        proof {
            let pre = s@.subrange(0, i + 1);
            assert(pre.drop_last() == s@.subrange(0, i as int));
            assert(pre.last() == c);
            lemma_comma_pieces_nonempty(s@.subrange(0, i as int));
        }
        if c == ',' {
            let piece = String::from_str(s.substring_char(start, i));
            done.push(piece);
            start = i + 1;
            proof {
                assert(s@.subrange(start as int, i + 1) =~= Seq::<char>::empty());
                assert(done@.map_values(|p: String| p@) =~= done@.drop_last().map_values(|p: String| p@).push(piece@));
            }
        } else {
            proof {
                assert(s@.subrange(start as int, i + 1) =~= s@.subrange(start as int, i as int).push(c));
                let old_ = done@.map_values(|p: String| p@).push(s@.subrange(start as int, i as int));
                assert(done@.map_values(|p: String| p@).push(s@.subrange(start as int, i + 1))
                    =~= old_.update(old_.len() - 1, old_.last().push(c)));
            }
        }
        i += 1;
    }
    let last = String::from_str(s.substring_char(start, n));
    done.push(last);
    proof {
        assert(s@.subrange(0, n as int) =~= s@);
    }
    assert(done@.map_values(|p: String| p@) =~= comma_pieces(s@)) by {
        assert(done@.map_values(|p: String| p@) =~= done@.drop_last().map_values(|p: String| p@).push(last@));
    }
    done
}

/// The texts of `parts` joined with commas between them.
pub open spec fn comma_joined(parts: Seq<Seq<char>>) -> Seq<char>
    decreases parts.len(),
{
    if parts.len() == 0 {
        Seq::<char>::empty()
    } else if parts.len() == 1 {
        parts[0]
    } else {
        comma_joined(parts.drop_last()) + seq![','] + parts.last()
    }
}

/// Joins texts with a comma between each two.
pub fn join_commas(parts: &Vec<String>) -> (r: String)
    ensures
        r@ == comma_joined(parts@.map_values(|p: String| p@)),
{
    let mut out = String::new();
    let mut i: usize = 0;
    while i < parts.len()
        invariant
            i <= parts@.len(),
            out@ == comma_joined(parts@.subrange(0, i as int).map_values(|p: String| p@)),
        decreases parts@.len() - i,
    {
        let ghost before = parts@.subrange(0, i as int).map_values(|p: String| p@);
        if i > 0 {
            out.append(",");
        }
        out.append(parts[i].as_str());
        proof {
            let after = parts@.subrange(0, i + 1).map_values(|p: String| p@);
            assert(after.drop_last() =~= before);
            assert(after.last() == parts@[i as int]@);
            if i == 0 {
                assert(out@ =~= after[0]);
            } else {
                assert(",".view() =~= seq![',']) by {
                    reveal_strlit(",");
                }
            }
        }
        i += 1;
    }
    assert(parts@.subrange(0, parts@.len() as int) =~= parts@);
    out
}

/// `s` with every non-breaking space turned into a plain space.
pub open spec fn nbsp_to_space(s: Seq<char>) -> Seq<char> {
    s.map_values(|c: char| if c == '\u{A0}' { ' ' } else { c })
}

/// Replaces each non-breaking space with a plain space.
pub fn normalize_spaces(s: &str) -> (r: String)
    ensures
        r@ == nbsp_to_space(s@),
{
    let n = s.unicode_len();
    let mut out = String::new();
    let mut i: usize = 0;
    while i < n
        invariant
            n == s@.len(),
            i <= n,
            out@ == nbsp_to_space(s@.subrange(0, i as int)),
        decreases n - i,
    {
        let c = s.get_char(i);
        if c == '\u{A0}' {
            out.append(" ");
            assert(" ".view() =~= seq![' ']) by {
                reveal_strlit(" ");
            }
        } else {
            out.append(s.substring_char(i, i + 1));
            assert(s@.subrange(i as int, i + 1) =~= seq![c]);
        }
        assert(nbsp_to_space(s@.subrange(0, i + 1)) =~= nbsp_to_space(s@.subrange(0, i as int)).push(
            if c == '\u{A0}' { ' ' } else { c },
        ));
        i += 1;
    }
    assert(s@.subrange(0, n as int) =~= s@);
    out
}

} // verus!
