use vstd::prelude::*;

use crate::classify::OptionType;
use crate::command::{
    args_spec, command_spec, entries_spec, is_first_eq, is_separator, lemma_first_eq_unique,
    long_entry, opts_spec, OptionModel,
};
use crate::values::{kept, lemma_pieces_len, pieces, trim, values_spec};

verus! {

/// The entries of every token of `ts`, in order, separators included.
pub open spec fn entries_all(ts: Seq<Seq<char>>) -> Seq<OptionModel>
    decreases ts.len(),
{
    if ts.len() == 0 {
        Seq::empty()
    } else {
        entries_spec(ts[0]) + entries_all(ts.drop_first())
    }
}

/// `k` is the position of the first separator in `ts`.
pub open spec fn is_first_separator(ts: Seq<Seq<char>>, k: int) -> bool {
    0 <= k < ts.len() && is_separator(ts[k]) && forall|j: int|
        0 <= j < k ==> !is_separator(#[trigger] ts[j])
}

/// Scanning tokens without a separator classifies every one of them and
/// leaves no arguments.
proof fn lemma_scan_without_separator(s: Seq<Seq<char>>)
    requires
        forall|j: int| 0 <= j < s.len() ==> !is_separator(#[trigger] s[j]),
    ensures
        opts_spec(s) == entries_all(s),
        args_spec(s) == Seq::<Seq<char>>::empty(),
    decreases s.len(),
{
    if s.len() > 0 {
        assert(!is_separator(s[0]));
        lemma_scan_without_separator(s.drop_first());
    }
}

/// Scanning tokens whose first separator stands at `k`.
proof fn lemma_scan_first_separator(s: Seq<Seq<char>>, k: int)
    requires
        is_first_separator(s, k),
    ensures
        opts_spec(s) == entries_all(s.subrange(0, k)),
        args_spec(s) == s.subrange(k + 1, s.len() as int),
    decreases k,
{
    if k == 0 {
        assert(s.subrange(0, 0) =~= Seq::<Seq<char>>::empty());
        assert(s.drop_first() =~= s.subrange(1, s.len() as int));
    } else {
        assert(!is_separator(s[0]));
        let t = s.drop_first();
        assert forall|j: int| 0 <= j < k - 1 implies !is_separator(#[trigger] t[j]) by {
            assert(t[j] == s[j + 1]);
        }
        lemma_scan_first_separator(t, k - 1);
        assert(t.subrange(k, t.len() as int) =~= s.subrange(k + 1, s.len() as int));
        let pre = s.subrange(0, k);
        assert(pre[0] == s[0]);
        assert(pre.drop_first() =~= t.subrange(0, k - 1));
    }
}

/// Where `ts` holds a separator at `j`, its first separator stands at or
/// before `j`.
proof fn lemma_first_separator_exists(ts: Seq<Seq<char>>, j: int)
    requires
        0 <= j < ts.len(),
        is_separator(ts[j]),
    ensures
        exists|k: int| k <= j && is_first_separator(ts, k),
    decreases j,
{
    if forall|m: int| 0 <= m < j ==> !is_separator(#[trigger] ts[m]) {
        assert(is_first_separator(ts, j));
    } else {
        let m = choose|m: int| 0 <= m < j && is_separator(#[trigger] ts[m]);
        lemma_first_separator_exists(ts, m);
    }
}

/// The arguments are empty exactly when no token after the program name is
/// `--`, for every token list in which the first `--` is not the last token
/// (a final `--` switches to arguments and leaves none).
pub proof fn lemma_args_empty_iff_no_separator(ts: Seq<Seq<char>>)
    requires
        forall|k: int| is_first_separator(ts.drop_first(), k) ==> k + 1 < ts.len() - 1,
    ensures
        ts.len() > 0 ==> (command_spec(ts).args.len() == 0 <==> forall|i: int|
            1 <= i < ts.len() ==> !is_separator(#[trigger] ts[i])),
        ts.len() == 0 ==> command_spec(ts).args.len() == 0,
{
    if ts.len() > 0 {
        let rest = ts.drop_first();
        if forall|i: int| 1 <= i < ts.len() ==> !is_separator(#[trigger] ts[i]) {
            assert forall|j: int| 0 <= j < rest.len() implies !is_separator(#[trigger] rest[j]) by {
                assert(rest[j] == ts[j + 1]);
            }
            lemma_scan_without_separator(rest);
        } else {
            let i = choose|i: int| 1 <= i < ts.len() && is_separator(#[trigger] ts[i]);
            assert(rest[i - 1] == ts[i]);
            lemma_first_separator_exists(rest, i - 1);
            let k = choose|k: int| k <= i - 1 && is_first_separator(rest, k);
            lemma_scan_first_separator(rest, k);
        }
    }
}

/// The first `--` after the program name is never classified: the entries
/// are those of the tokens before it, and every token after it, another
/// `--` included, is an argument as it stands.
pub proof fn lemma_first_separator_switches(ts: Seq<Seq<char>>, i: int)
    requires
        1 <= i < ts.len(),
        is_separator(ts[i]),
        forall|j: int| 1 <= j < i ==> !is_separator(#[trigger] ts[j]),
    ensures
        command_spec(ts).opts == entries_all(ts.subrange(1, i)),
        command_spec(ts).args == ts.subrange(i + 1, ts.len() as int),
{
    let rest = ts.drop_first();
    assert forall|j: int| 0 <= j < i - 1 implies !is_separator(#[trigger] rest[j]) by {
        assert(rest[j] == ts[j + 1]);
    }
    lemma_scan_first_separator(rest, i - 1);
    assert(rest.subrange(0, i - 1) =~= ts.subrange(1, i));
    assert(rest.subrange(i, rest.len() as int) =~= ts.subrange(i + 1, ts.len() as int));
}

/// The entries of a token do not depend on the tokens before it: scanning
/// `a` (which holds no separator) and then `b` gives the entries of `a`'s
/// tokens followed by the result of scanning `b` alone.
pub proof fn lemma_entries_independent_of_history(a: Seq<Seq<char>>, b: Seq<Seq<char>>)
    requires
        forall|j: int| 0 <= j < a.len() ==> !is_separator(#[trigger] a[j]),
    ensures
        opts_spec(a + b) == entries_all(a) + opts_spec(b),
        args_spec(a + b) == args_spec(b),
    decreases a.len(),
{
    if a.len() == 0 {
        assert(a + b =~= b);
        assert(entries_all(a) + opts_spec(b) =~= opts_spec(b));
    } else {
        assert(!is_separator(a[0]));
        let t = a.drop_first();
        lemma_entries_independent_of_history(t, b);
        assert((a + b)[0] == a[0]);
        assert((a + b).drop_first() =~= t + b);
        assert(entries_spec(a[0]) + (entries_all(t) + opts_spec(b)) =~= (entries_spec(a[0])
            + entries_all(t)) + opts_spec(b));
    }
}

/// A bundle `-xyz` (one hyphen, then two or more characters) yields one
/// short option `-c` for each character after the hyphen, in order, each
/// without values.
pub proof fn lemma_bundle_expands(prog: Seq<char>, t: Seq<char>)
    requires
        t.len() > 2,
        t[0] == '-',
        t[1] != '-',
    ensures
        command_spec(seq![prog, t]).opts == Seq::new(
            (t.len() - 1) as nat,
            |i: int| OptionModel { kind: OptionType::ShortOpt, text: seq!['-', t[i + 1]], values: Seq::empty() },
        ),
        command_spec(seq![prog, t]).args.len() == 0,
{
    let ts = seq![prog, t];
    let rest = ts.drop_first();
    assert(rest =~= seq![t]);
    assert(rest[0] == t);
    assert(t.len() != 2);
    assert(!is_separator(rest[0]));
    assert(rest.drop_first() =~= Seq::<Seq<char>>::empty());
    assert(opts_spec(rest.drop_first()) == Seq::<OptionModel>::empty());
    assert(args_spec(rest.drop_first()) == Seq::<Seq<char>>::empty());
    assert(opts_spec(rest) =~= entries_spec(t));
}

/// The values `vs` written with a comma between each two.
pub open spec fn join_commas(vs: Seq<Seq<char>>) -> Seq<char>
    decreases vs.len(),
{
    if vs.len() == 0 {
        Seq::empty()
    } else if vs.len() == 1 {
        vs[0]
    } else {
        join_commas(vs.drop_last()) + seq![','] + vs.last()
    }
}

/// A value that a value list can carry unchanged: not empty, without white
/// space at either end, and without a comma.
pub open spec fn is_plain_value(v: Seq<char>) -> bool {
    v.len() > 0 && trim(v) == v && !v.contains(',')
}

proof fn lemma_pieces_append(x: Seq<char>, b: Seq<char>)
    requires
        !b.contains(','),
    ensures
        pieces(x + b) == pieces(x).update(pieces(x).len() - 1, pieces(x).last() + b),
    decreases b.len(),
{
    lemma_pieces_len(x);
    let p = pieces(x);
    if b.len() == 0 {
        assert(x + b =~= x);
        assert(p.update(p.len() - 1, p.last() + b) =~= p);
    } else {
        let c = b.last();
        let b1 = b.drop_last();
        assert(!b1.contains(',')) by {
            if b1.contains(',') {
                let j = choose|j: int| 0 <= j < b1.len() && b1[j] == ',';
                assert(b[j] == ',');
            }
        }
        assert(c != ',') by {
            if c == ',' {
                assert(b[b.len() - 1] == ',');
            }
        }
        lemma_pieces_append(x, b1);
        assert((x + b).drop_last() =~= x + b1);
        assert((x + b).last() == c);
        let q = pieces(x + b1);
        assert(q.last() =~= p.last() + b1);
        assert(q.last().push(c) =~= p.last() + b);
        assert(q.update(q.len() - 1, q.last().push(c)) =~= p.update(p.len() - 1, p.last() + b));
    }
}

proof fn lemma_pieces_join(vs: Seq<Seq<char>>)
    requires
        vs.len() >= 1,
        forall|i: int| 0 <= i < vs.len() ==> !(#[trigger] vs[i]).contains(','),
    ensures
        pieces(join_commas(vs)) == vs,
    decreases vs.len(),
{
    if vs.len() == 1 {
        lemma_pieces_append(Seq::empty(), vs[0]);
        assert(Seq::<char>::empty() + vs[0] =~= vs[0]);
        assert(pieces(Seq::<char>::empty()).update(0, Seq::<char>::empty() + vs[0]) =~= vs);
    } else {
        let front = vs.drop_last();
        let j = join_commas(front);
        lemma_pieces_join(front);
        let jc = j + seq![','];
        assert(jc.drop_last() =~= j);
        assert(pieces(jc) == front.push(Seq::<char>::empty()));
        lemma_pieces_append(jc, vs.last());
        assert(Seq::<char>::empty() + vs.last() =~= vs.last());
        assert(front.push(Seq::<char>::empty()).update(front.len() as int, vs.last()) =~= vs);
    }
}

proof fn lemma_kept_plain(vs: Seq<Seq<char>>)
    requires
        forall|i: int| 0 <= i < vs.len() ==> is_plain_value(#[trigger] vs[i]),
    ensures
        kept(vs) == vs,
    decreases vs.len(),
{
    if vs.len() > 0 {
        lemma_kept_plain(vs.drop_last());
        assert(is_plain_value(vs[vs.len() - 1]));
        assert(vs.drop_last().push(vs.last()) =~= vs);
    }
}

/// Writing plain values with commas between them and reading the list back
/// gives the same values, in order.
pub proof fn lemma_values_round_trip(vs: Seq<Seq<char>>)
    requires
        forall|i: int| 0 <= i < vs.len() ==> is_plain_value(#[trigger] vs[i]),
    ensures
        values_spec(join_commas(vs)) == vs,
{
    if vs.len() == 0 {
        let e = Seq::<char>::empty();
        assert(pieces(e) == seq![e]);
        assert(trim(e) == e);
        assert(seq![e].drop_last() =~= Seq::<Seq<char>>::empty());
        assert(kept(seq![e]) == kept(Seq::<Seq<char>>::empty()));
    } else {
        assert forall|i: int| 0 <= i < vs.len() implies !(#[trigger] vs[i]).contains(',') by {
            assert(is_plain_value(vs[i]));
        }
        lemma_pieces_join(vs);
        lemma_kept_plain(vs);
    }
}

/// A long option `name=v1,v2,...` yields one entry named `name` whose values
/// are exactly the plain values written after the `=`.
pub proof fn lemma_long_option_round_trip(prog: Seq<char>, name: Seq<char>, vs: Seq<Seq<char>>)
    requires
        name.len() >= 2,
        name[0] == '-',
        name[1] == '-',
        !name.contains('='),
        forall|i: int| 0 <= i < vs.len() ==> is_plain_value(#[trigger] vs[i]),
    ensures
        command_spec(seq![prog, name + seq!['='] + join_commas(vs)]).opts == seq![
            OptionModel { kind: OptionType::LongOpt, text: name, values: vs },
        ],
{
    let t = name + seq!['='] + join_commas(vs);
    let k = name.len() as int;
    assert forall|j: int| 0 <= j < k implies t[j] != '=' by {
        assert(t[j] == name[j]);
    }
    assert(is_first_eq(t, k));
    lemma_first_eq_unique(t, k);
    assert(t.subrange(0, k) =~= name);
    assert(t.subrange(k + 1, t.len() as int) =~= join_commas(vs));
    lemma_values_round_trip(vs);
    assert(t[0] == '-' && t[1] == '-');
    let ts = seq![prog, t];
    let rest = ts.drop_first();
    assert(rest =~= seq![t]);
    assert(rest[0] == t);
    assert(t.len() != 2);
    assert(!is_separator(rest[0]));
    assert(rest.drop_first() =~= Seq::<Seq<char>>::empty());
    assert(opts_spec(rest.drop_first()) == Seq::<OptionModel>::empty());
    assert(entries_spec(t) =~= seq![long_entry(t)]);
    assert(opts_spec(rest) =~= seq![long_entry(t)]);
}

/// Only a long option can carry values: every other entry has none.
pub proof fn lemma_values_only_on_long_options(ts: Seq<Seq<char>>)
    ensures
        forall|i: int|
            0 <= i < command_spec(ts).opts.len() && (#[trigger] command_spec(ts).opts[i]).values.len()
                > 0 ==> command_spec(ts).opts[i].kind == OptionType::LongOpt,
{
    if ts.len() > 0 {
        lemma_scan_values_on_long_options(ts.drop_first());
    }
}

proof fn lemma_scan_values_on_long_options(s: Seq<Seq<char>>)
    ensures
        forall|i: int|
            0 <= i < opts_spec(s).len() && (#[trigger] opts_spec(s)[i]).values.len() > 0
                ==> opts_spec(s)[i].kind == OptionType::LongOpt,
    decreases s.len(),
{
    if s.len() > 0 && !is_separator(s[0]) {
        lemma_scan_values_on_long_options(s.drop_first());
        let e = entries_spec(s[0]);
        let r = opts_spec(s.drop_first());
        assert forall|i: int| 0 <= i < e.len() && (#[trigger] e[i]).values.len() > 0 implies e[i].kind
            == OptionType::LongOpt by {}
        assert forall|i: int| 0 <= i < (e + r).len() && (#[trigger] (e + r)[i]).values.len() > 0 implies (e
            + r)[i].kind == OptionType::LongOpt by {
            if i >= e.len() {
                assert((e + r)[i] == r[i - e.len()]);
            }
        }
    }
}

} // verus!
