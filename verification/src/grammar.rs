use crate::chars::{byte_off, digit_run_end, digits_val, is_upper, lower_run_end};
use crate::error::ChemfigParseError;
use crate::span::Span;
use crate::tokens::TokenModel;
use vstd::prelude::*;

verus! {

/// What one step of the grammar's reading yields: the accumulator as
/// extended by the form just read, together with the position after that
/// form; or the error that ends the parse.
pub enum ParseOutcome {
    Next { toks: Seq<TokenModel>, pos: int },
    Fail { err: ChemfigParseError },
}

/// The one-byte span starting at the byte offset of character position `i`.
pub open spec fn span_at(s: Seq<char>, i: int) -> Span {
    Span { from: byte_off(s, i) as usize, to: (byte_off(s, i) + 1) as usize }
}

/// Reads an element form at `i`: one ASCII uppercase letter, then a greedy
/// run of ASCII lowercase letters, collected into the symbol.
pub open spec fn spec_element(s: Seq<char>, i: int, acc: Seq<TokenModel>) -> ParseOutcome {
    if i >= s.len() {
        ParseOutcome::Fail { err: ChemfigParseError::UnexpectedEOF }
    } else if !is_upper(s[i]) {
        ParseOutcome::Fail { err: ChemfigParseError::InvalidElementIdent(s[i], span_at(s, i)) }
    } else {
        let j = lower_run_end(s, i + 1);
        ParseOutcome::Next { toks: acc.push(TokenModel::Element(s.subrange(i, j))), pos: j }
    }
}

/// Reads a bond form at `i`: `=` is a double bond, the triple-bond glyph a
/// triple bond, and `-` a single bond unless `[` follows, in which case a
/// run of digits up to a required `]` gives the explicit order. An empty
/// digit run gives order zero.
pub open spec fn spec_bond(s: Seq<char>, i: int, acc: Seq<TokenModel>) -> ParseOutcome {
    if i >= s.len() {
        ParseOutcome::Fail { err: ChemfigParseError::UnexpectedEOF }
    } else if s[i] == '=' {
        ParseOutcome::Next { toks: acc.push(TokenModel::Bond(2)), pos: i + 1 }
    } else if s[i] == '\u{2261}' {
        ParseOutcome::Next { toks: acc.push(TokenModel::Bond(3)), pos: i + 1 }
    } else if s[i] != '-' {
        ParseOutcome::Fail { err: ChemfigParseError::InvalidBondIdent(s[i], span_at(s, i)) }
    } else if i + 1 >= s.len() || s[i + 1] != '[' {
        ParseOutcome::Next { toks: acc.push(TokenModel::Bond(1)), pos: i + 1 }
    } else {
        let j = digit_run_end(s, i + 2);
        if j >= s.len() {
            ParseOutcome::Fail { err: ChemfigParseError::UnexpectedEOF }
        } else if s[j] != ']' {
            ParseOutcome::Fail {
                err: ChemfigParseError::UnenclosedGroup {
                    expected: ']',
                    found: s[j],
                    span: span_at(s, j),
                },
            }
        } else {
            ParseOutcome::Next {
                toks: acc.push(TokenModel::Bond(digits_val(s, i + 2, j) as nat)),
                pos: j + 1,
            }
        }
    }
}

/// Reads a repetition form at `i`: `_` followed by a run of digits naming a
/// count `n`. The current last accumulated token counts as the first
/// occurrence, so `n - 1` copies of it are appended. An empty accumulator
/// and a zero count are errors, in that order of precedence.
pub open spec fn spec_repeat(s: Seq<char>, i: int, acc: Seq<TokenModel>) -> ParseOutcome {
    if i >= s.len() {
        ParseOutcome::Fail { err: ChemfigParseError::UnexpectedEOF }
    } else if s[i] != '_' {
        ParseOutcome::Fail { err: ChemfigParseError::InvalidChar { c: s[i], span: span_at(s, i) } }
    } else {
        let j = digit_run_end(s, i + 1);
        let n = digits_val(s, i + 1, j);
        if acc.len() == 0 {
            ParseOutcome::Fail { err: ChemfigParseError::NothingToRepeat(span_at(s, i)) }
        } else if n == 0 {
            ParseOutcome::Fail { err: ChemfigParseError::ZeroRepetitionCount(span_at(s, i)) }
        } else {
            ParseOutcome::Next {
                toks: acc + Seq::new((n - 1) as nat, |k: int| acc.last()),
                pos: j,
            }
        }
    }
}

/// Reads a group at `i`: a required `(`, the forms up to a `)`, and the
/// `)` itself. The tokens those forms appended become the group's
/// children. A plain group wraps them as [`TokenModel::Group`]; a ring
/// requires the last child to be a bond, pops it, and wraps the rest
/// together with that bond's order as [`TokenModel::Ring`].
pub open spec fn spec_group(s: Seq<char>, i: int, acc: Seq<TokenModel>, is_ring: bool) -> ParseOutcome
    decreases s.len() - i, 0int,
{
    if i >= s.len() {
        ParseOutcome::Fail { err: ChemfigParseError::UnexpectedEOF }
    } else if s[i] != '(' {
        ParseOutcome::Fail {
            err: ChemfigParseError::UnenclosedGroup {
                expected: '(',
                found: s[i],
                span: span_at(s, i),
            },
        }
    } else {
        match spec_items(s, i + 1, acc) {
            ParseOutcome::Fail { err } => ParseOutcome::Fail { err },
            ParseOutcome::Next { toks, pos } => {
                let children = toks.subrange(acc.len() as int, toks.len() as int);
                if !is_ring {
                    ParseOutcome::Next { toks: acc.push(TokenModel::Group(children)), pos: pos + 1 }
                } else if children.len() == 0 {
                    ParseOutcome::Fail { err: ChemfigParseError::RingMissingBond(span_at(s, pos)) }
                } else {
                    match children.last() {
                        TokenModel::Bond(order) => ParseOutcome::Next {
                            toks: acc.push(TokenModel::Ring(children.drop_last(), order)),
                            pos: pos + 1,
                        },
                        _ => ParseOutcome::Fail {
                            err: ChemfigParseError::RingMissingBond(span_at(s, pos)),
                        },
                    }
                }
            },
        }
    }
}

/// Dispatches on the character at `i` to one of the five syntactic forms,
/// in the fixed order: ring, group, element, bond, repetition. Any other
/// character is invalid.
pub open spec fn spec_one(s: Seq<char>, i: int, acc: Seq<TokenModel>) -> ParseOutcome
    decreases s.len() - i, 1int,
{
    if i >= s.len() {
        ParseOutcome::Fail { err: ChemfigParseError::UnexpectedEOF }
    } else {
        let c = s[i];
        if c == '*' {
            spec_group(s, i + 1, acc, true)
        } else if c == '(' {
            spec_group(s, i, acc, false)
        } else if is_upper(c) {
            spec_element(s, i, acc)
        } else if c == '-' || c == '=' || c == '\u{2261}' {
            spec_bond(s, i, acc)
        } else if c == '_' {
            spec_repeat(s, i, acc)
        } else {
            ParseOutcome::Fail { err: ChemfigParseError::InvalidChar { c, span: span_at(s, i) } }
        }
    }
}

/// Reads forms from `i` until a `)` is the lookahead, without consuming
/// it; reaching the end of the text first is an error. The guard on the
/// recursive call makes termination evident; [`lemma_spec_one_props`]
/// shows the guard always holds after a successful form, so the fallback
/// arm is never reached.
pub open spec fn spec_items(s: Seq<char>, i: int, acc: Seq<TokenModel>) -> ParseOutcome
    decreases s.len() - i, 2int,
{
    if i >= s.len() {
        ParseOutcome::Fail { err: ChemfigParseError::UnexpectedEOF }
    } else if s[i] == ')' {
        ParseOutcome::Next { toks: acc, pos: i }
    } else {
        match spec_one(s, i, acc) {
            ParseOutcome::Fail { err } => ParseOutcome::Fail { err },
            ParseOutcome::Next { toks, pos } => {
                if i < pos <= s.len() {
                    spec_items(s, pos, toks)
                } else {
                    ParseOutcome::Fail { err: ChemfigParseError::UnexpectedEOF }
                }
            },
        }
    }
}

/// Reads forms from `i` until the text is exhausted. The guard on the
/// recursive call makes termination evident; [`lemma_spec_one_props`]
/// shows the guard always holds after a successful form, so the fallback
/// arm is never reached.
pub open spec fn spec_stream(s: Seq<char>, i: int, acc: Seq<TokenModel>) -> ParseOutcome
    decreases s.len() - i, 2int,
{
    if i >= s.len() {
        ParseOutcome::Next { toks: acc, pos: i }
    } else {
        match spec_one(s, i, acc) {
            ParseOutcome::Fail { err } => ParseOutcome::Fail { err },
            ParseOutcome::Next { toks, pos } => {
                if i < pos <= s.len() {
                    spec_stream(s, pos, toks)
                } else {
                    ParseOutcome::Fail { err: ChemfigParseError::UnexpectedEOF }
                }
            },
        }
    }
}

/// The grammar's reading of a whole source text, from an empty
/// accumulator.
pub open spec fn spec_parse(s: Seq<char>) -> ParseOutcome {
    spec_stream(s, 0, Seq::empty())
}

/// On success, a form read at `i` ends strictly past `i`, within the text,
/// and has only appended to the accumulator.
pub open spec fn advances(o: ParseOutcome, s: Seq<char>, i: int, acc: Seq<TokenModel>) -> bool {
    o matches ParseOutcome::Next { toks, pos } ==> {
        &&& i < pos <= s.len()
        &&& acc.len() <= toks.len()
        &&& toks.subrange(0, acc.len() as int) == acc
    }
}

/// What [`spec_element`] yields on success: see [`advances`].
pub proof fn lemma_spec_element_props(s: Seq<char>, i: int, acc: Seq<TokenModel>)
    requires
        0 <= i,
    ensures
        advances(spec_element(s, i, acc), s, i, acc),
{
    if i < s.len() && is_upper(s[i]) {
        crate::chars::lemma_lower_run_end(s, i + 1);
        assert(acc.push(TokenModel::Element(s.subrange(i, lower_run_end(s, i + 1)))).subrange(
            0,
            acc.len() as int,
        ) =~= acc);
    }
}

/// What [`spec_bond`] yields on success: see [`advances`].
pub proof fn lemma_spec_bond_props(s: Seq<char>, i: int, acc: Seq<TokenModel>)
    requires
        0 <= i,
    ensures
        advances(spec_bond(s, i, acc), s, i, acc),
{
    if i < s.len() {
        if s[i] == '-' && i + 1 < s.len() && s[i + 1] == '[' {
            crate::chars::lemma_digit_run_end(s, i + 2);
        }
        assert forall|t: TokenModel| (acc.push(t).subrange(0, acc.len() as int) =~= acc) by {}
    }
}

/// What [`spec_repeat`] yields on success: see [`advances`].
pub proof fn lemma_spec_repeat_props(s: Seq<char>, i: int, acc: Seq<TokenModel>)
    requires
        0 <= i,
    ensures
        advances(spec_repeat(s, i, acc), s, i, acc),
{
    if i < s.len() && s[i] == '_' {
        crate::chars::lemma_digit_run_end(s, i + 1);
        let j = digit_run_end(s, i + 1);
        let n = digits_val(s, i + 1, j);
        if acc.len() > 0 && n != 0 {
            assert((acc + Seq::new((n - 1) as nat, |k: int| acc.last())).subrange(
                0,
                acc.len() as int,
            ) =~= acc);
        }
    }
}

/// What [`spec_group`] yields on success: see [`advances`].
pub proof fn lemma_spec_group_props(s: Seq<char>, i: int, acc: Seq<TokenModel>, is_ring: bool)
    requires
        0 <= i,
    ensures
        advances(spec_group(s, i, acc, is_ring), s, i, acc),
    decreases s.len() - i, 0int,
{
    if i < s.len() && s[i] == '(' {
        lemma_spec_items_props(s, i + 1, acc);
        if let ParseOutcome::Next { toks, pos } = spec_items(s, i + 1, acc) {
            assert forall|t: TokenModel| (acc.push(t).subrange(0, acc.len() as int) =~= acc) by {}
        }
    }
}

/// What [`spec_one`] yields on success: see [`advances`].
pub proof fn lemma_spec_one_props(s: Seq<char>, i: int, acc: Seq<TokenModel>)
    requires
        0 <= i,
    ensures
        advances(spec_one(s, i, acc), s, i, acc),
    decreases s.len() - i, 1int,
{
    if i < s.len() {
        let c = s[i];
        if c == '*' {
            lemma_spec_group_props(s, i + 1, acc, true);
        } else if c == '(' {
            lemma_spec_group_props(s, i, acc, false);
        } else if is_upper(c) {
            lemma_spec_element_props(s, i, acc);
        } else if c == '-' || c == '=' || c == '\u{2261}' {
            lemma_spec_bond_props(s, i, acc);
        } else if c == '_' {
            lemma_spec_repeat_props(s, i, acc);
        }
    }
}

/// What [`spec_items`] yields on success: it stops exactly on a `)`, no
/// earlier than `i`, and has only appended to the accumulator.
pub proof fn lemma_spec_items_props(s: Seq<char>, i: int, acc: Seq<TokenModel>)
    requires
        0 <= i,
    ensures
        spec_items(s, i, acc) matches ParseOutcome::Next { toks, pos } ==> {
            &&& i <= pos < s.len()
            &&& s[pos] == ')'
            &&& acc.len() <= toks.len()
            &&& toks.subrange(0, acc.len() as int) == acc
        },
    decreases s.len() - i, 2int,
{
    if i < s.len() && s[i] != ')' {
        lemma_spec_one_props(s, i, acc);
        if let ParseOutcome::Next { toks: mid, pos: at } = spec_one(s, i, acc) {
            lemma_spec_items_props(s, at, mid);
            if let ParseOutcome::Next { toks, pos } = spec_items(s, at, mid) {
                assert(toks.subrange(0, acc.len() as int) =~= acc);
            }
        }
    } else if i < s.len() && s[i] == ')' {
        assert(acc.subrange(0, acc.len() as int) =~= acc);
    }
}

/// What [`spec_stream`] yields on success: the text is exhausted and the
/// accumulator has only grown.
pub proof fn lemma_spec_stream_props(s: Seq<char>, i: int, acc: Seq<TokenModel>)
    requires
        0 <= i <= s.len(),
    ensures
        spec_stream(s, i, acc) matches ParseOutcome::Next { toks, pos } ==> {
            &&& pos == s.len()
            &&& acc.len() <= toks.len()
            &&& toks.subrange(0, acc.len() as int) == acc
        },
    decreases s.len() - i, 2int,
{
    if i < s.len() {
        lemma_spec_one_props(s, i, acc);
        if let ParseOutcome::Next { toks: mid, pos: at } = spec_one(s, i, acc) {
            lemma_spec_stream_props(s, at, mid);
            if let ParseOutcome::Next { toks, pos } = spec_stream(s, at, mid) {
                assert(toks.subrange(0, acc.len() as int) =~= acc);
            }
        }
    } else {
        assert(acc.subrange(0, acc.len() as int) =~= acc);
    }
}

} // verus!
