//! The grammar's composition laws: parsing is deterministic, a
//! parenthesised fragment parses to one group holding the fragment's own
//! parse, a ring closes with its trailing bond, and repetition yields
//! exact copies.
//!
//! The laws rest on one embedding argument: reading a form inside a larger
//! text is the same as reading it alone, with every position shifted by
//! the prefix's length, as long as the character after the fragment can
//! neither extend a greedy run (a lowercase letter, a digit) nor open an
//! explicit bond order (`[`).
use crate::chars::{
    all_digits, digit_run_end, digits_val, is_digit, is_lower, is_upper, lower_run_end,
};
use crate::error::ChemfigParseError;
use crate::grammar::{
    lemma_spec_one_props, span_at, spec_bond, spec_element, spec_group, spec_items, spec_one,
    spec_parse, spec_repeat, spec_stream, ParseOutcome,
};
use crate::tokens::TokenModel;
use vstd::prelude::*;

verus! {

/// A character that cannot extend a form read just before it: it is not a
/// lowercase letter, not a digit, and not `[`.
pub open spec fn stopper(c: char) -> bool {
    &&& !is_lower(c)
    &&& !is_digit(c)
    &&& c != '['
}

/// The outcome `o` with its position moved right by `k`.
pub open spec fn shifted(o: ParseOutcome, k: int) -> ParseOutcome {
    match o {
        ParseOutcome::Next { toks, pos } => ParseOutcome::Next { toks, pos: pos + k },
        ParseOutcome::Fail { err } => ParseOutcome::Fail { err },
    }
}

/// A lowercase run ends where it ends in the embedded copy, shifted.
proof fn lemma_lower_run_end_shift(p: Seq<char>, s: Seq<char>, d: Seq<char>, i: int)
    requires
        0 <= i <= s.len(),
        d.len() >= 1,
        !is_lower(d[0]),
    ensures
        lower_run_end(p + s + d, p.len() + i) == p.len() + lower_run_end(s, i),
    decreases s.len() - i,
{
    let u = p + s + d;
    if i < s.len() {
        assert(u[p.len() + i] == s[i]);
        if is_lower(s[i]) {
            lemma_lower_run_end_shift(p, s, d, i + 1);
        }
    } else {
        assert(u[p.len() + i] == d[0]);
    }
}

/// A digit run ends where it ends in the embedded copy, shifted.
proof fn lemma_digit_run_end_shift(p: Seq<char>, s: Seq<char>, d: Seq<char>, i: int)
    requires
        0 <= i <= s.len(),
        d.len() >= 1,
        !is_digit(d[0]),
    ensures
        digit_run_end(p + s + d, p.len() + i) == p.len() + digit_run_end(s, i),
    decreases s.len() - i,
{
    let u = p + s + d;
    if i < s.len() {
        assert(u[p.len() + i] == s[i]);
        if is_digit(s[i]) {
            lemma_digit_run_end_shift(p, s, d, i + 1);
        }
    } else {
        assert(u[p.len() + i] == d[0]);
    }
}

/// A digit run's value is unchanged by embedding, positions shifted.
proof fn lemma_digits_val_shift(p: Seq<char>, s: Seq<char>, d: Seq<char>, i: int, j: int)
    requires
        0 <= i <= j <= s.len(),
    ensures
        digits_val(p + s + d, p.len() + i, p.len() + j) == digits_val(s, i, j),
    decreases j - i,
{
    let u = p + s + d;
    if i < j {
        lemma_digits_val_shift(p, s, d, i, j - 1);
        assert(u[p.len() + j - 1] == s[j - 1]);
    }
}

/// A digit run that reaches the end of the text ends there.
proof fn lemma_digit_run_to_end(s: Seq<char>, i: int)
    requires
        0 <= i <= s.len(),
        forall|k: int| i <= k < s.len() ==> is_digit(#[trigger] s[k]),
    ensures
        digit_run_end(s, i) == s.len(),
    decreases s.len() - i,
{
    if i < s.len() {
        lemma_digit_run_to_end(s, i + 1);
    }
}

/// Reading an element inside `p + s + d` is reading it in `s`, shifted.
proof fn lemma_embed_element(p: Seq<char>, s: Seq<char>, d: Seq<char>, i: int, acc: Seq<TokenModel>)
    requires
        0 <= i <= s.len(),
        d.len() >= 1,
        stopper(d[0]),
        spec_element(s, i, acc) matches ParseOutcome::Next { .. },
    ensures
        spec_element(p + s + d, p.len() + i, acc) == shifted(spec_element(s, i, acc), p.len() as int),
{
    let u = p + s + d;
    assert(i < s.len() && is_upper(s[i]));
    assert(u[p.len() + i] == s[i]);
    lemma_lower_run_end_shift(p, s, d, i + 1);
    let j = lower_run_end(s, i + 1);
    crate::chars::lemma_lower_run_end(s, i + 1);
    assert(u.subrange(p.len() + i, p.len() + j) =~= s.subrange(i, j));
}

/// Reading a bond inside `p + s + d` is reading it in `s`, shifted.
proof fn lemma_embed_bond(p: Seq<char>, s: Seq<char>, d: Seq<char>, i: int, acc: Seq<TokenModel>)
    requires
        0 <= i <= s.len(),
        d.len() >= 1,
        stopper(d[0]),
        spec_bond(s, i, acc) matches ParseOutcome::Next { .. },
    ensures
        spec_bond(p + s + d, p.len() + i, acc) == shifted(spec_bond(s, i, acc), p.len() as int),
{
    let u = p + s + d;
    assert(i < s.len());
    assert(u[p.len() + i] == s[i]);
    if s[i] == '-' {
        if i + 1 < s.len() {
            assert(u[p.len() + i + 1] == s[i + 1]);
        } else {
            assert(u[p.len() + i + 1] == d[0]);
        }
        if i + 1 < s.len() && s[i + 1] == '[' {
            lemma_digit_run_end_shift(p, s, d, i + 2);
            let j = digit_run_end(s, i + 2);
            crate::chars::lemma_digit_run_end(s, i + 2);
            assert(j < s.len() && s[j] == ']');
            assert(u[p.len() + j] == s[j]);
            lemma_digits_val_shift(p, s, d, i + 2, j);
        }
    }
}

/// Reading a repetition inside `p + s + d` is reading it in `s`, shifted.
proof fn lemma_embed_repeat(p: Seq<char>, s: Seq<char>, d: Seq<char>, i: int, acc: Seq<TokenModel>)
    requires
        0 <= i <= s.len(),
        d.len() >= 1,
        stopper(d[0]),
        spec_repeat(s, i, acc) matches ParseOutcome::Next { .. },
    ensures
        spec_repeat(p + s + d, p.len() + i, acc) == shifted(spec_repeat(s, i, acc), p.len() as int),
{
    let u = p + s + d;
    assert(i < s.len() && s[i] == '_');
    assert(u[p.len() + i] == s[i]);
    crate::chars::lemma_digit_run_end(s, i + 1);
    lemma_digit_run_end_shift(p, s, d, i + 1);
    lemma_digits_val_shift(p, s, d, i + 1, digit_run_end(s, i + 1));
}

/// Reading a group inside `p + s + d` is reading it in `s`, shifted.
proof fn lemma_embed_group(
    p: Seq<char>,
    s: Seq<char>,
    d: Seq<char>,
    i: int,
    acc: Seq<TokenModel>,
    is_ring: bool,
)
    requires
        0 <= i <= s.len(),
        d.len() >= 1,
        stopper(d[0]),
        spec_group(s, i, acc, is_ring) matches ParseOutcome::Next { .. },
    ensures
        spec_group(p + s + d, p.len() + i, acc, is_ring) == shifted(
            spec_group(s, i, acc, is_ring),
            p.len() as int,
        ),
    decreases s.len() - i, 0int,
{
    let u = p + s + d;
    assert(i < s.len() && s[i] == '(');
    assert(u[p.len() + i] == s[i]);
    assert(spec_items(s, i + 1, acc) matches ParseOutcome::Next { .. });
    crate::grammar::lemma_spec_items_props(s, i + 1, acc);
    lemma_embed_items(p, s, d, i + 1, acc);
}

/// Reading one form inside `p + s + d` is reading it in `s`, shifted.
proof fn lemma_embed_one(p: Seq<char>, s: Seq<char>, d: Seq<char>, i: int, acc: Seq<TokenModel>)
    requires
        0 <= i <= s.len(),
        d.len() >= 1,
        stopper(d[0]),
        spec_one(s, i, acc) matches ParseOutcome::Next { .. },
    ensures
        spec_one(p + s + d, p.len() + i, acc) == shifted(spec_one(s, i, acc), p.len() as int),
    decreases s.len() - i, 1int,
{
    let u = p + s + d;
    assert(i < s.len());
    assert(u[p.len() + i] == s[i]);
    let c = s[i];
    if c == '*' {
        assert(spec_group(s, i + 1, acc, true) matches ParseOutcome::Next { .. });
        lemma_embed_group(p, s, d, i + 1, acc, true);
    } else if c == '(' {
        lemma_embed_group(p, s, d, i, acc, false);
    } else if is_upper(c) {
        lemma_embed_element(p, s, d, i, acc);
    } else if c == '-' || c == '=' || c == '\u{2261}' {
        lemma_embed_bond(p, s, d, i, acc);
    } else if c == '_' {
        lemma_embed_repeat(p, s, d, i, acc);
    }
}

/// Reading forms up to a `)` inside `p + s + d` is reading them in `s`,
/// shifted.
proof fn lemma_embed_items(p: Seq<char>, s: Seq<char>, d: Seq<char>, i: int, acc: Seq<TokenModel>)
    requires
        0 <= i <= s.len(),
        d.len() >= 1,
        stopper(d[0]),
        spec_items(s, i, acc) matches ParseOutcome::Next { .. },
    ensures
        spec_items(p + s + d, p.len() + i, acc) == shifted(spec_items(s, i, acc), p.len() as int),
    decreases s.len() - i, 2int,
{
    let u = p + s + d;
    assert(i < s.len());
    assert(u[p.len() + i] == s[i]);
    if s[i] != ')' {
        assert(spec_one(s, i, acc) matches ParseOutcome::Next { .. });
        lemma_spec_one_props(s, i, acc);
        lemma_embed_one(p, s, d, i, acc);
        if let ParseOutcome::Next { toks: mid, pos: at } = spec_one(s, i, acc) {
            lemma_embed_items(p, s, d, at, mid);
        }
    }
}

/// Reading a whole fragment `s` embedded as `p + s + d` brings the parse
/// to the fragment's end, with the fragment's own tokens appended: both
/// the group-interior reading and the top-level reading of the embedding
/// text reduce to their reading at position `p.len() + s.len()`.
proof fn lemma_stream_extends(p: Seq<char>, s: Seq<char>, d: Seq<char>, i: int, acc: Seq<TokenModel>)
    requires
        0 <= i <= s.len(),
        d.len() >= 1,
        stopper(d[0]),
        spec_stream(s, i, acc) matches ParseOutcome::Next { .. },
    ensures
        spec_stream(s, i, acc) matches ParseOutcome::Next { toks, pos } ==> {
            &&& spec_items(p + s + d, p.len() + i, acc) == spec_items(
                p + s + d,
                p.len() as int + s.len() as int,
                toks,
            )
            &&& spec_stream(p + s + d, p.len() + i, acc) == spec_stream(
                p + s + d,
                p.len() as int + s.len() as int,
                toks,
            )
        },
    decreases s.len() - i,
{
    let u = p + s + d;
    if i < s.len() {
        assert(u[p.len() + i] == s[i]);
        assert(spec_one(s, i, acc) matches ParseOutcome::Next { .. });
        assert(s[i] != ')');
        lemma_spec_one_props(s, i, acc);
        lemma_embed_one(p, s, d, i, acc);
        if let ParseOutcome::Next { toks: mid, pos: at } = spec_one(s, i, acc) {
            lemma_stream_extends(p, s, d, at, mid);
        }
    }
}

/// Parsing is deterministic: the grammar's reading is a function of the
/// text alone, so two parses of the same text yield structurally equal
/// results.
pub proof fn lemma_parse_deterministic(s: Seq<char>, r1: ParseOutcome, r2: ParseOutcome)
    requires
        r1 == spec_parse(s),
        r2 == spec_parse(s),
    ensures
        r1 == r2,
{
}

/// Round-trip nesting: wrapping a fragment that parses completely in
/// parentheses yields a single group token whose children are exactly the
/// fragment's own parse.
pub proof fn lemma_group_round_trip(s: Seq<char>, toks: Seq<TokenModel>)
    requires
        spec_parse(s) == (ParseOutcome::Next { toks, pos: s.len() as int }),
    ensures
        spec_parse(seq!['('] + s + seq![')']) == (ParseOutcome::Next {
            toks: seq![TokenModel::Group(toks)],
            pos: s.len() as int + 2,
        }),
{
    let p = seq!['('];
    let d = seq![')'];
    let u = p + s + d;
    let empty_acc = Seq::<TokenModel>::empty();
    assert(u.len() == s.len() + 2);
    assert(u[0] == '(');
    assert(u[s.len() as int + 1] == ')');
    lemma_stream_extends(p, s, d, 0, empty_acc);
    assert(spec_items(u, s.len() as int + 1, toks) == (ParseOutcome::Next {
        toks,
        pos: s.len() as int + 1,
    }));
    assert(toks.subrange(0, toks.len() as int) =~= toks);
    assert(empty_acc.push(TokenModel::Group(toks)) =~= seq![TokenModel::Group(toks)]);
    assert(spec_group(u, 0, empty_acc, false) == (ParseOutcome::Next {
        toks: seq![TokenModel::Group(toks)],
        pos: s.len() as int + 2,
    }));
    assert(spec_one(u, 0, empty_acc) == spec_group(u, 0, empty_acc, false));
    lemma_spec_one_props(u, 0, empty_acc);
    assert(spec_stream(u, s.len() as int + 2, seq![TokenModel::Group(toks)]) == (ParseOutcome::Next {
        toks: seq![TokenModel::Group(toks)],
        pos: s.len() as int + 2,
    }));
}

/// Ring well-formedness, closing case: a fragment that parses completely,
/// wrapped as a ring whose body ends in a single bond, yields one ring
/// token holding the fragment's tokens and closing-bond order 1.
pub proof fn lemma_ring_round_trip(s: Seq<char>, toks: Seq<TokenModel>)
    requires
        spec_parse(s) == (ParseOutcome::Next { toks, pos: s.len() as int }),
    ensures
        spec_parse(seq!['*', '('] + s + seq!['-', ')']) == (ParseOutcome::Next {
            toks: seq![TokenModel::Ring(toks, 1)],
            pos: s.len() as int + 4,
        }),
{
    let p = seq!['*', '('];
    let d = seq!['-', ')'];
    let u = p + s + d;
    let empty_acc = Seq::<TokenModel>::empty();
    let m = s.len() as int + 2;
    assert(u.len() == s.len() + 4);
    assert(u[0] == '*');
    assert(u[1] == '(');
    assert(u[m] == '-');
    assert(u[m + 1] == ')');
    lemma_stream_extends(p, s, d, 0, empty_acc);
    let toks1 = toks.push(TokenModel::Bond(1));
    assert(spec_bond(u, m, toks) == (ParseOutcome::Next { toks: toks1, pos: m + 1 }));
    assert(spec_one(u, m, toks) == spec_bond(u, m, toks));
    lemma_spec_one_props(u, m, toks);
    assert(spec_items(u, m + 1, toks1) == (ParseOutcome::Next { toks: toks1, pos: m + 1 }));
    assert(spec_items(u, m, toks) == (ParseOutcome::Next { toks: toks1, pos: m + 1 }));
    assert(toks1.subrange(0, toks1.len() as int) =~= toks1);
    assert(toks1.last() == TokenModel::Bond(1));
    assert(toks1.drop_last() =~= toks);
    assert(empty_acc.push(TokenModel::Ring(toks, 1)) =~= seq![TokenModel::Ring(toks, 1)]);
    assert(spec_group(u, 1, empty_acc, true) == (ParseOutcome::Next {
        toks: seq![TokenModel::Ring(toks, 1)],
        pos: m + 2,
    }));
    assert(spec_one(u, 0, empty_acc) == spec_group(u, 1, empty_acc, true));
    lemma_spec_one_props(u, 0, empty_acc);
    assert(spec_stream(u, m + 2, seq![TokenModel::Ring(toks, 1)]) == (ParseOutcome::Next {
        toks: seq![TokenModel::Ring(toks, 1)],
        pos: s.len() as int + 4,
    }));
}

/// Ring well-formedness, failing case: a fragment that parses completely
/// but whose last token is not a bond (or that has no tokens), wrapped as
/// a ring, fails with `RingMissingBond` at the closing parenthesis.
pub proof fn lemma_ring_missing_bond(s: Seq<char>, toks: Seq<TokenModel>)
    requires
        spec_parse(s) == (ParseOutcome::Next { toks, pos: s.len() as int }),
        toks.len() == 0 || !(toks.last() matches TokenModel::Bond(_)),
    ensures
        spec_parse(seq!['*', '('] + s + seq![')']) == (ParseOutcome::Fail {
            err: ChemfigParseError::RingMissingBond(
                span_at(seq!['*', '('] + s + seq![')'], s.len() as int + 2),
            ),
        }),
{
    let p = seq!['*', '('];
    let d = seq![')'];
    let u = p + s + d;
    let empty_acc = Seq::<TokenModel>::empty();
    let m = s.len() as int + 2;
    assert(u.len() == s.len() + 3);
    assert(u[0] == '*');
    assert(u[1] == '(');
    assert(u[m] == ')');
    lemma_stream_extends(p, s, d, 0, empty_acc);
    assert(spec_items(u, m, toks) == (ParseOutcome::Next { toks, pos: m }));
    assert(toks.subrange(0, toks.len() as int) =~= toks);
    assert(spec_group(u, 1, empty_acc, true) == (ParseOutcome::Fail {
        err: ChemfigParseError::RingMissingBond(span_at(u, m)),
    }));
    assert(spec_one(u, 0, empty_acc) == spec_group(u, 1, empty_acc, true));
}

/// Repetition law, counting case: after a fragment that parses to a
/// single token, `_` and a digit run naming `n >= 1` yield exactly `n`
/// consecutive copies of that token.
pub proof fn lemma_repetition(x: Seq<char>, t: TokenModel, ds: Seq<char>)
    requires
        spec_parse(x) == (ParseOutcome::Next { toks: seq![t], pos: x.len() as int }),
        all_digits(ds, 0, ds.len() as int),
        digits_val(ds, 0, ds.len() as int) >= 1,
    ensures
        spec_parse(x + seq!['_'] + ds) == (ParseOutcome::Next {
            toks: Seq::new(digits_val(ds, 0, ds.len() as int) as nat, |k: int| t),
            pos: (x.len() + 1 + ds.len()) as int,
        }),
{
    let d = seq!['_'] + ds;
    let u = x + seq!['_'] + ds;
    let m = x.len() as int;
    let n = digits_val(ds, 0, ds.len() as int);
    assert(Seq::<char>::empty() + x + d =~= u);
    assert(u[m] == '_');
    lemma_stream_extends(Seq::<char>::empty(), x, d, 0, Seq::<TokenModel>::empty());
    assert(spec_stream(u, 0, Seq::<TokenModel>::empty()) == spec_stream(u, m, seq![t]));
    assert forall|k: int| m + 1 <= k < u.len() implies is_digit(#[trigger] u[k]) by {
        assert(u[k] == ds[k - m - 1]);
    }
    lemma_digit_run_to_end(u, m + 1);
    assert((x + seq!['_']) + ds + Seq::<char>::empty() =~= u);
    lemma_digits_val_shift(x + seq!['_'], ds, Seq::<char>::empty(), 0, ds.len() as int);
    assert(digits_val(u, m + 1, u.len() as int) == n);
    assert(seq![t].last() == t);
    assert(seq![t] + Seq::new((n - 1) as nat, |k: int| seq![t].last()) =~= Seq::new(
        n as nat,
        |k: int| t,
    ));
    assert(spec_repeat(u, m, seq![t]) == (ParseOutcome::Next {
        toks: Seq::new(n as nat, |k: int| t),
        pos: u.len() as int,
    }));
    assert(spec_one(u, m, seq![t]) == spec_repeat(u, m, seq![t]));
    lemma_spec_one_props(u, m, seq![t]);
    assert(spec_stream(u, u.len() as int, Seq::new(n as nat, |k: int| t)) == (ParseOutcome::Next {
        toks: Seq::new(n as nat, |k: int| t),
        pos: u.len() as int,
    }));
}

/// Repetition law, zero case: a repetition whose digit run names the
/// count zero fails with `ZeroRepetitionCount` at the `_`, even though a
/// target token exists.
pub proof fn lemma_repetition_zero(x: Seq<char>, t: TokenModel, ds: Seq<char>)
    requires
        spec_parse(x) == (ParseOutcome::Next { toks: seq![t], pos: x.len() as int }),
        all_digits(ds, 0, ds.len() as int),
        digits_val(ds, 0, ds.len() as int) == 0,
    ensures
        spec_parse(x + seq!['_'] + ds) == (ParseOutcome::Fail {
            err: ChemfigParseError::ZeroRepetitionCount(
                span_at(x + seq!['_'] + ds, x.len() as int),
            ),
        }),
{
    let d = seq!['_'] + ds;
    let u = x + seq!['_'] + ds;
    let m = x.len() as int;
    assert(Seq::<char>::empty() + x + d =~= u);
    assert(u[m] == '_');
    lemma_stream_extends(Seq::<char>::empty(), x, d, 0, Seq::<TokenModel>::empty());
    assert forall|k: int| m + 1 <= k < u.len() implies is_digit(#[trigger] u[k]) by {
        assert(u[k] == ds[k - m - 1]);
    }
    lemma_digit_run_to_end(u, m + 1);
    assert((x + seq!['_']) + ds + Seq::<char>::empty() =~= u);
    lemma_digits_val_shift(x + seq!['_'], ds, Seq::<char>::empty(), 0, ds.len() as int);
    assert(spec_repeat(u, m, seq![t]) == (ParseOutcome::Fail {
        err: ChemfigParseError::ZeroRepetitionCount(span_at(u, m)),
    }));
    assert(spec_one(u, m, seq![t]) == spec_repeat(u, m, seq![t]));
}


} // verus!
