use vstd::prelude::*;

verus! {

/// The characters with the Unicode `White_Space` property, which `str::trim`
/// strips from both ends of a string.
pub open spec fn is_white_space(c: char) -> bool {
    ('\u{9}' <= c && c <= '\u{d}') || c == ' ' || c == '\u{85}' || c == '\u{a0}'
        || c == '\u{1680}' || ('\u{2000}' <= c && c <= '\u{200a}') || c == '\u{2028}'
        || c == '\u{2029}' || c == '\u{202f}' || c == '\u{205f}' || c == '\u{3000}'
}

/// `s` without its leading white space.
pub open spec fn trim_start(s: Seq<char>) -> Seq<char>
    decreases s.len(),
{
    if s.len() > 0 && is_white_space(s[0]) {
        trim_start(s.drop_first())
    } else {
        s
    }
}

/// `s` without its trailing white space.
pub open spec fn trim_end(s: Seq<char>) -> Seq<char>
    decreases s.len(),
{
    if s.len() > 0 && is_white_space(s.last()) {
        trim_end(s.drop_last())
    } else {
        s
    }
}

/// `s` without white space at either end.
pub open spec fn trim(s: Seq<char>) -> Seq<char> {
    trim_end(trim_start(s))
}

/// The pieces of `s` between its commas, in order; a string with `k` commas
/// has `k + 1` pieces.
pub open spec fn pieces(s: Seq<char>) -> Seq<Seq<char>>
    decreases s.len(),
{
    if s.len() == 0 {
        seq![Seq::<char>::empty()]
    } else {
        let p = pieces(s.drop_last());
        if s.last() == ',' {
            p.push(Seq::<char>::empty())
        } else {
            p.update(p.len() - 1, p.last().push(s.last()))
        }
    }
}

/// The trimmed pieces of `ps` that are not empty, in order.
pub open spec fn kept(ps: Seq<Seq<char>>) -> Seq<Seq<char>>
    decreases ps.len(),
{
    if ps.len() == 0 {
        Seq::empty()
    } else {
        let r = kept(ps.drop_last());
        let t = trim(ps.last());
        if t.len() == 0 {
            r
        } else {
            r.push(t)
        }
    }
}

/// The value list held by `s`: its comma-separated pieces, trimmed, with the
/// empty ones left out.
pub open spec fn values_spec(s: Seq<char>) -> Seq<Seq<char>> {
    kept(pieces(s))
}

/// The character sequences held by a vector of strings.
pub open spec fn strings_view(v: Seq<String>) -> Seq<Seq<char>> {
    v.map_values(|s: String| s@)
}

pub(crate) proof fn lemma_pieces_len(s: Seq<char>)
    ensures
        pieces(s).len() >= 1,
    decreases s.len(),
{
    if s.len() > 0 {
        lemma_pieces_len(s.drop_last());
    }
}

/// Tells whether `c` has the Unicode `White_Space` property.
pub fn is_white_space_char(c: char) -> (r: bool)
    ensures
        r == is_white_space(c),
{
    ('\u{9}' <= c && c <= '\u{d}') || c == ' ' || c == '\u{85}' || c == '\u{a0}'
        || c == '\u{1680}' || ('\u{2000}' <= c && c <= '\u{200a}') || c == '\u{2028}'
        || c == '\u{2029}' || c == '\u{202f}' || c == '\u{205f}' || c == '\u{3000}'
}

proof fn lemma_trim_start_skip(s: Seq<char>, k: int)
    requires
        0 <= k <= s.len(),
        forall|j: int| 0 <= j < k ==> is_white_space(#[trigger] s[j]),
    ensures
        trim_start(s) == trim_start(s.subrange(k, s.len() as int)),
    decreases k,
{
    if k > 0 {
        lemma_trim_start_skip(s.drop_first(), k - 1);
        assert(s.drop_first().subrange(k - 1, s.len() - 1) =~= s.subrange(k, s.len() as int));
    } else {
        assert(s.subrange(0, s.len() as int) =~= s);
    }
}

proof fn lemma_trim_end_skip(s: Seq<char>, k: int)
    requires
        0 <= k <= s.len(),
        forall|j: int| k <= j < s.len() ==> is_white_space(#[trigger] s[j]),
    ensures
        trim_end(s) == trim_end(s.subrange(0, k)),
    decreases s.len() - k,
{
    if k < s.len() {
        lemma_trim_end_skip(s.drop_last(), k);
        assert(s.drop_last().subrange(0, k) =~= s.subrange(0, k));
    } else {
        assert(s.subrange(0, k) =~= s);
    }
}

/// `s` with its leading and trailing white space removed.
pub fn trim_str(s: &str) -> (r: &str)
    ensures
        r@ == trim(s@),
{
    let n: usize = s.unicode_len();
    let mut lo: usize = 0;
    while lo < n && is_white_space_char(s.get_char(lo))
        invariant
            n == s@.len(),
            lo <= n,
            forall|j: int| 0 <= j < lo ==> is_white_space(#[trigger] s@[j]),
        decreases n - lo,
    {
        lo = lo + 1;
    }
    proof {
        lemma_trim_start_skip(s@, lo as int);
    }
    let ghost rest = s@.subrange(lo as int, n as int);
    assert(trim_start(s@) == rest);
    let mut hi: usize = n;
    while hi > lo && is_white_space_char(s.get_char(hi - 1))
        invariant
            n == s@.len(),
            lo <= hi <= n,
            rest == s@.subrange(lo as int, n as int),
            forall|j: int| hi <= j < n ==> is_white_space(#[trigger] s@[j]),
        decreases hi,
    {
        hi = hi - 1;
    }
    proof {
        assert forall|j: int| hi - lo <= j < rest.len() implies is_white_space(#[trigger] rest[j]) by {
            assert(rest[j] == s@[j + lo]);
        }
        lemma_trim_end_skip(rest, hi - lo);
        assert(rest.subrange(0, hi - lo) =~= s@.subrange(lo as int, hi as int));
    }
    s.substring_char(lo, hi)
}

proof fn lemma_pieces_step(s: Seq<char>, start: int, i: int)
    requires
        0 <= start <= i < s.len(),
        pieces(s.subrange(0, i)).last() == s.subrange(start, i),
    ensures
        s[i] == ',' ==> pieces(s.subrange(0, i + 1)) == pieces(s.subrange(0, i)).push(
            Seq::<char>::empty(),
        ),
        s[i] != ',' ==> pieces(s.subrange(0, i + 1)).drop_last() == pieces(
            s.subrange(0, i),
        ).drop_last(),
        s[i] != ',' ==> pieces(s.subrange(0, i + 1)).last() == s.subrange(start, i + 1),
{
    let t = s.subrange(0, i + 1);
    assert(t.drop_last() =~= s.subrange(0, i));
    lemma_pieces_len(s.subrange(0, i));
    let p = pieces(s.subrange(0, i));
    if s[i] != ',' {
        assert(pieces(t) == p.update(p.len() - 1, p.last().push(s[i])));
        assert(pieces(t).drop_last() =~= p.drop_last());
        assert(p.last().push(s[i]) =~= s.subrange(start, i + 1));
    }
}

proof fn lemma_kept_close(ps: Seq<Seq<char>>)
    requires
        ps.len() >= 1,
    ensures
        kept(ps) == (if trim(ps.last()).len() == 0 {
            kept(ps.drop_last())
        } else {
            kept(ps.drop_last()).push(trim(ps.last()))
        }),
{
}

/// Splits `value` at every comma, trims white space from each piece and
/// keeps the pieces that are not empty, in order.
pub fn parse_values(value: &str) -> (r: Vec<String>)
    ensures
        strings_view(r@) == values_spec(value@),
{
    let n: usize = value.unicode_len();
    let mut out: Vec<String> = Vec::new();
    let mut start: usize = 0;
    let mut i: usize = 0;
    proof {
        assert(value@.subrange(0, 0) =~= Seq::<char>::empty());
        assert(value@.subrange(0, 0) =~= value@.subrange(0, 0));
    }
    while i < n
        invariant
            n == value@.len(),
            start <= i <= n,
            pieces(value@.subrange(0, i as int)).last() == value@.subrange(start as int, i as int),
            strings_view(out@) == kept(pieces(value@.subrange(0, i as int)).drop_last()),
        decreases n - i,
    {
        let ghost before = pieces(value@.subrange(0, i as int));
        proof {
            lemma_pieces_step(value@, start as int, i as int);
            lemma_pieces_len(value@.subrange(0, i as int));
        }
        if value.get_char(i) == ',' {
            let piece = trim_str(value.substring_char(start, i));
            proof {
                lemma_kept_close(before);
            }
            if piece.unicode_len() > 0 {
                out.push(String::from_str(piece));
                assert(strings_view(out@) =~= kept(before));
            }
            start = i + 1;
            proof {
                let after = pieces(value@.subrange(0, i + 1));
                assert(after.drop_last() =~= before);
                assert(value@.subrange(start as int, i + 1) =~= Seq::<char>::empty());
            }
        }
        i = i + 1;
    }
    let ghost all = pieces(value@.subrange(0, n as int));
    proof {
        assert(value@.subrange(0, n as int) =~= value@);
        lemma_pieces_len(value@);
        lemma_kept_close(all);
    }
    let piece = trim_str(value.substring_char(start, n));
    if piece.unicode_len() > 0 {
        out.push(String::from_str(piece));
        assert(strings_view(out@) =~= kept(all));
    }
    out
}

} // verus!
