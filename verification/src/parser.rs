use crate::chars::{
    byte_len_fits, byte_off, char_width, digit, digit_run_end, digit_runs_fit, digit_value,
    digits_val, lower, upper,
};
use crate::error::ChemfigParseError;
use crate::grammar::{
    spec_bond, spec_element, spec_group, spec_items, spec_one, spec_parse, spec_repeat,
    spec_stream, ParseOutcome,
};
use crate::span::Span;
use crate::tokens::{ChemfigToken, ChemfigTokenStream, TokenModel};
use vstd::prelude::*;
use vstd::string::StrSliceExecFns;

verus! {

/// A lookahead-1 cursor over the `(byte offset, character)` pairs of a
/// source text: the character position read so far, together with its byte
/// offset, over a borrowed source string.
pub struct CharCursor<'a> {
    src: &'a str,
    pos: usize,
    off: usize,
    n_chars: usize,
}

impl<'a> CharCursor<'a> {
    /// The characters of the source text.
    pub closed spec fn text(&self) -> Seq<char> {
        self.src@
    }

    /// The current character position.
    pub closed spec fn at(&self) -> int {
        self.pos as int
    }

    /// The cursor is consistent: its position lies within the text, its
    /// byte offset is the position's, and the text's byte length fits in
    /// `usize`.
    pub closed spec fn wf(&self) -> bool {
        &&& self.pos <= self.src@.len()
        &&& self.off == byte_off(self.src@, self.pos as int)
        &&& self.n_chars == self.src@.len()
        &&& byte_len_fits(self.src@)
    }

    /// A cursor at the start of `src`.
    pub fn new(src: &'a str) -> (c: Self)
        requires
            byte_len_fits(src@),
        ensures
            c.wf(),
            c.text() == src@,
            c.at() == 0,
    {
        CharCursor { src, pos: 0, off: 0, n_chars: src.unicode_len() }
    }

    /// The current character position.
    pub fn position(&self) -> (p: usize)
        ensures
            p == self.at(),
    {
        self.pos
    }

    /// The next `(byte offset, character)` pair, without consuming it;
    /// `None` at the end of the text.
    pub fn peek(&self) -> (r: Option<(usize, char)>)
        requires
            self.wf(),
        ensures
            match r {
                Some(p) => {
                    &&& self.at() < self.text().len()
                    &&& p.1 == self.text()[self.at()]
                    &&& p.0 == byte_off(self.text(), self.at())
                },
                None => self.at() == self.text().len(),
            },
    {
        if self.pos < self.n_chars {
            Some((self.off, self.src.get_char(self.pos)))
        } else {
            None
        }
    }

    /// The next `(byte offset, character)` pair, consuming it; `None` at
    /// the end of the text, which leaves the cursor unmoved.
    pub fn next(&mut self) -> (r: Option<(usize, char)>)
        requires
            old(self).wf(),
        ensures
            final(self).wf(),
            final(self).text() == old(self).text(),
            match r {
                Some(p) => {
                    &&& old(self).at() < old(self).text().len()
                    &&& p.1 == old(self).text()[old(self).at()]
                    &&& p.0 == byte_off(old(self).text(), old(self).at())
                    &&& final(self).at() == old(self).at() + 1
                },
                None => {
                    &&& old(self).at() == old(self).text().len()
                    &&& final(self).at() == old(self).at()
                },
            },
    {
        if self.pos < self.n_chars {
            let c = self.src.get_char(self.pos);
            let idx = self.off;
            proof {
                crate::chars::lemma_byte_off_le(
                    self.text(),
                    self.at() + 1,
                    self.text().len() as int,
                );
            }
            self.pos = self.pos + 1;
            self.off = self.off + char_width(c);
            Some((idx, c))
        } else {
            None
        }
    }

    /// The characters `[from, to)` of the text, as an owned string.
    pub fn take_chars(&self, from: usize, to: usize) -> (r: String)
        requires
            self.wf(),
            from <= to <= self.text().len(),
        ensures
            r@ == self.text().subrange(from as int, to as int),
    {
        self.src.substring_char(from, to).to_owned()
    }
}

/// The recursive-descent parser: a lookahead-1 cursor over the source
/// text and the token accumulator. Constructed once per [`parse`] call
/// and consumed by [`finalise`] or [`early_finalise`].
///
/// [`parse`]: ChemfigParser::parse
/// [`finalise`]: ChemfigParser::finalise
/// [`early_finalise`]: ChemfigParser::early_finalise
pub struct ChemfigParser<'a> {
    char_stream: CharCursor<'a>,
    tokens: ChemfigTokenStream,
}

impl<'a> ChemfigParser<'a> {
    /// The characters of the source text.
    pub closed spec fn text(&self) -> Seq<char> {
        self.char_stream.text()
    }

    /// The current character position.
    pub closed spec fn at(&self) -> int {
        self.char_stream.at()
    }

    /// The abstract values of the accumulated tokens.
    pub closed spec fn acc(&self) -> Seq<TokenModel> {
        self.tokens@
    }

    /// The parser is consistent: its cursor is, and the source meets the
    /// machine-limit bounds under which the parser's arithmetic stays in
    /// `usize`.
    pub closed spec fn wf(&self) -> bool {
        &&& self.char_stream.wf()
        &&& digit_runs_fit(self.text())
    }

    /// Parses a whole source text into a token stream, or the first error
    /// encountered. The result is exactly the grammar's reading of the
    /// text, [`spec_parse`]. The two `requires` are machine limits: every
    /// digit run's value and the text's byte length must fit in `usize`;
    /// both hold of any source a program can actually hold in memory.
    pub fn parse(src: &'a str) -> (r: Result<ChemfigTokenStream, ChemfigParseError>)
        requires
            byte_len_fits(src@),
            digit_runs_fit(src@),
        ensures
            match r {
                Ok(ts) => spec_parse(src@) == (ParseOutcome::Next {
                    toks: ts@,
                    pos: src@.len() as int,
                }),
                Err(e) => spec_parse(src@) == (ParseOutcome::Fail { err: e }),
            },
    {
        let mut parser = Self::new(src);
        proof {
            crate::grammar::lemma_spec_stream_props(src@, 0, Seq::<TokenModel>::empty());
        }
        match parser.parse_stream() {
            Ok(()) => Ok(parser.finalise()),
            Err(e) => Err(e),
        }
    }

    /// A parser at the start of `src` with an empty accumulator.
    fn new(src: &'a str) -> (p: Self)
        requires
            byte_len_fits(src@),
            digit_runs_fit(src@),
        ensures
            p.wf(),
            p.text() == src@,
            p.at() == 0,
            p.acc() == Seq::<TokenModel>::empty(),
    {
        ChemfigParser { char_stream: CharCursor::new(src), tokens: ChemfigTokenStream::new() }
    }

    /// The top-level loop: repeatedly peeks and dispatches until the
    /// cursor is exhausted, never consuming a character itself.
    fn parse_stream(&mut self) -> (r: Result<(), ChemfigParseError>)
        requires
            old(self).wf(),
        ensures
            final(self).wf(),
            final(self).text() == old(self).text(),
            match r {
                Ok(()) => spec_stream(old(self).text(), old(self).at(), old(self).acc())
                    == (ParseOutcome::Next { toks: final(self).acc(), pos: final(self).at() }),
                Err(e) => spec_stream(old(self).text(), old(self).at(), old(self).acc())
                    == (ParseOutcome::Fail { err: e }),
            },
    {
        loop
            invariant
                self.wf(),
                self.text() == old(self).text(),
                old(self).at() <= self.at() <= self.text().len(),
                spec_stream(self.text(), old(self).at(), old(self).acc()) == spec_stream(
                    self.text(),
                    self.at(),
                    self.acc(),
                ),
            decreases self.text().len() - self.at(),
        {
            match self.char_stream.peek() {
                None => {
                    return Ok(());
                },
                Some((idx, c)) => {
                    let ghost pre = *self;
                    match self.parse_one(c, idx) {
                        Ok(()) => {
                            proof {
                                crate::grammar::lemma_spec_one_props(
                                    pre.text(),
                                    pre.at(),
                                    pre.acc(),
                                );
                            }
                        },
                        Err(e) => {
                            return Err(e);
                        },
                    }
                },
            }
        }
    }

    /// Dispatches on the peeked character `c`, whose byte offset is `idx`,
    /// to one of the five syntactic forms; each sub-routine consumes what
    /// it matches.
    fn parse_one(&mut self, c: char, idx: usize) -> (r: Result<(), ChemfigParseError>)
        requires
            old(self).wf(),
            old(self).at() < old(self).text().len(),
            c == old(self).text()[old(self).at()],
            idx == byte_off(old(self).text(), old(self).at()),
        ensures
            final(self).wf(),
            final(self).text() == old(self).text(),
            match r {
                Ok(()) => spec_one(old(self).text(), old(self).at(), old(self).acc())
                    == (ParseOutcome::Next { toks: final(self).acc(), pos: final(self).at() }),
                Err(e) => spec_one(old(self).text(), old(self).at(), old(self).acc())
                    == (ParseOutcome::Fail { err: e }),
            },
        decreases old(self).text().len() - old(self).at(), 1int,
    {
        if c == '*' {
            let _ = self.char_stream.next();
            self.parse_group(true)
        } else if c == '(' {
            self.parse_group(false)
        } else if upper(c) {
            self.parse_element()
        } else if c == '-' || c == '=' || c == '\u{2261}' {
            self.parse_bond()
        } else if c == '_' {
            self.parse_number()
        } else {
            proof {
                crate::chars::lemma_byte_off_le(
                    self.text(),
                    self.at(),
                    self.text().len() as int,
                );
            }
            Err(ChemfigParseError::InvalidChar { c, span: Span::new(idx, idx + 1) })
        }
    }

    /// Reads a group: a required `(`, the forms up to the matching `)`,
    /// and the `)` itself. What those forms appended to the accumulator is
    /// drained into the children of one `Group` token, or, for a ring, the
    /// children's trailing bond is popped and the rest wrapped into one
    /// `Ring` token.
    fn parse_group(&mut self, is_ring: bool) -> (r: Result<(), ChemfigParseError>)
        requires
            old(self).wf(),
        ensures
            final(self).wf(),
            final(self).text() == old(self).text(),
            match r {
                Ok(()) => spec_group(old(self).text(), old(self).at(), old(self).acc(), is_ring)
                    == (ParseOutcome::Next { toks: final(self).acc(), pos: final(self).at() }),
                Err(e) => spec_group(old(self).text(), old(self).at(), old(self).acc(), is_ring)
                    == (ParseOutcome::Fail { err: e }),
            },
        decreases old(self).text().len() - old(self).at(), 0int,
    {
        match self.char_stream.next() {
            None => {
                return Err(ChemfigParseError::UnexpectedEOF);
            },
            Some((idx0, c0)) => {
                if c0 != '(' {
                    proof {
                        crate::chars::lemma_byte_off_le(
                            self.text(),
                            old(self).at(),
                            self.text().len() as int,
                        );
                    }
                    return Err(
                        ChemfigParseError::UnenclosedGroup {
                            expected: '(',
                            found: c0,
                            span: Span::new(idx0, idx0 + 1),
                        },
                    );
                }
            },
        }
        let token_len = self.tokens.token_count();
        let ghost text0 = self.text();
        let ghost inner_start = self.at();
        let ghost acc0 = self.acc();
        loop
            invariant
                self.wf(),
                self.text() == old(self).text(),
                old(self).at() < old(self).text().len(),
                old(self).text()[old(self).at()] == '(',
                old(self).at() + 1 <= self.at() <= self.text().len(),
                spec_items(old(self).text(), old(self).at() + 1, old(self).acc()) == spec_items(
                    self.text(),
                    self.at(),
                    self.acc(),
                ),
            ensures
                self.wf(),
                self.text() == old(self).text(),
                old(self).at() < self.at() < self.text().len(),
                self.text()[self.at()] == ')',
                spec_items(old(self).text(), old(self).at() + 1, old(self).acc())
                    == (ParseOutcome::Next { toks: self.acc(), pos: self.at() }),
            decreases self.text().len() - self.at(),
        {
            match self.char_stream.peek() {
                None => {
                    return Err(ChemfigParseError::UnexpectedEOF);
                },
                Some((idx1, c1)) => {
                    if c1 == ')' {
                        break;
                    }
                    let ghost pre = *self;
                    match self.parse_one(c1, idx1) {
                        Ok(()) => {
                            proof {
                                crate::grammar::lemma_spec_one_props(
                                    pre.text(),
                                    pre.at(),
                                    pre.acc(),
                                );
                            }
                        },
                        Err(e) => {
                            return Err(e);
                        },
                    }
                },
            }
        }
        let ghost close_pos = self.at();
        let ghost acc_mid = self.acc();
        let last_idx = match self.char_stream.next() {
            Some(p) => p.0,
            None => vstd::pervasive::unreached(),
        };
        proof {
            crate::grammar::lemma_spec_items_props(text0, inner_start, acc0);
            crate::chars::lemma_byte_off_le(text0, close_pos + 1, text0.len() as int);
        }
        let new_len = self.tokens.token_count();
        let group_tokens = self.tokens.remove_range(token_len, new_len);
        let ghost children = acc_mid.subrange(acc0.len() as int, acc_mid.len() as int);
        proof {
            assert(self.acc() =~= acc0);
            assert(crate::tokens::models(group_tokens@) == children);
        }
        if !is_ring {
            self.tokens.push_token(ChemfigToken::Group(group_tokens));
            Ok(())
        } else {
            let mut drained = group_tokens;
            match drained.pop() {
                None => {
                    proof {
                        assert(children.len() == 0);
                    }
                    Err(ChemfigParseError::RingMissingBond(Span::new(last_idx, last_idx + 1)))
                },
                Some(last_child) => {
                    proof {
                        assert(last_child@ == children.last());
                        assert(crate::tokens::models(drained@) =~= children.drop_last());
                    }
                    match last_child {
                        ChemfigToken::Bond(order) => {
                            self.tokens.push_token(ChemfigToken::Ring(drained, order));
                            Ok(())
                        },
                        _ => {
                            Err(
                                ChemfigParseError::RingMissingBond(
                                    Span::new(last_idx, last_idx + 1),
                                ),
                            )
                        },
                    }
                },
            }
        }
    }

    /// Reads an element: one ASCII uppercase letter, then a greedy run of
    /// lowercase letters, pushed as one `Element` token holding the
    /// collected symbol.
    fn parse_element(&mut self) -> (r: Result<(), ChemfigParseError>)
        requires
            old(self).wf(),
        ensures
            final(self).wf(),
            final(self).text() == old(self).text(),
            match r {
                Ok(()) => spec_element(old(self).text(), old(self).at(), old(self).acc())
                    == (ParseOutcome::Next { toks: final(self).acc(), pos: final(self).at() }),
                Err(e) => spec_element(old(self).text(), old(self).at(), old(self).acc())
                    == (ParseOutcome::Fail { err: e }),
            },
    {
        let start = self.char_stream.position();
        match self.char_stream.next() {
            None => Err(ChemfigParseError::UnexpectedEOF),
            Some((idx, c)) => {
                if !upper(c) {
                    proof {
                        crate::chars::lemma_byte_off_le(
                            self.text(),
                            old(self).at(),
                            self.text().len() as int,
                        );
                    }
                    Err(ChemfigParseError::InvalidElementIdent(c, Span::new(idx, idx + 1)))
                } else {
                    loop
                        invariant
                            self.wf(),
                            self.text() == old(self).text(),
                            self.acc() == old(self).acc(),
                            start == old(self).at(),
                            start + 1 <= self.at() <= self.text().len(),
                            crate::chars::lower_run_end(self.text(), start + 1)
                                == crate::chars::lower_run_end(self.text(), self.at()),
                        ensures
                            self.wf(),
                            self.text() == old(self).text(),
                            self.acc() == old(self).acc(),
                            start + 1 <= self.at() <= self.text().len(),
                            self.at() == crate::chars::lower_run_end(self.text(), start + 1),
                        decreases self.text().len() - self.at(),
                    {
                        match self.char_stream.peek() {
                            None => {
                                break;
                            },
                            Some(p) => {
                                if lower(p.1) {
                                    let _ = self.char_stream.next();
                                } else {
                                    break;
                                }
                            },
                        }
                    }
                    let end = self.char_stream.position();
                    let sym = self.char_stream.take_chars(start, end);
                    self.tokens.push_token(ChemfigToken::Element(sym));
                    Ok(())
                }
            },
        }
    }

    /// Consumes the maximal run of decimal digits at the cursor and
    /// returns its base-10 value; an empty run has value zero.
    fn read_digit_run(&mut self) -> (n: usize)
        requires
            old(self).wf(),
        ensures
            final(self).wf(),
            final(self).text() == old(self).text(),
            final(self).acc() == old(self).acc(),
            final(self).at() == digit_run_end(old(self).text(), old(self).at()),
            n == digits_val(old(self).text(), old(self).at(), final(self).at()),
    {
        let mut n: usize = 0;
        loop
            invariant
                self.wf(),
                self.text() == old(self).text(),
                self.acc() == old(self).acc(),
                0 <= old(self).at() <= self.at() <= self.text().len(),
                crate::chars::all_digits(self.text(), old(self).at(), self.at()),
                crate::chars::digit_run_end(self.text(), old(self).at())
                    == crate::chars::digit_run_end(self.text(), self.at()),
                n == digits_val(self.text(), old(self).at(), self.at()),
            ensures
                self.wf(),
                self.text() == old(self).text(),
                self.acc() == old(self).acc(),
                self.at() == digit_run_end(self.text(), old(self).at()),
                n == digits_val(self.text(), old(self).at(), self.at()),
            decreases self.text().len() - self.at(),
        {
            match self.char_stream.peek() {
                None => {
                    break;
                },
                Some(p) => {
                    if digit(p.1) {
                        proof {
                            assert(crate::chars::all_digits(
                                self.text(),
                                old(self).at(),
                                self.at() + 1,
                            ));
                            assert(digits_val(self.text(), old(self).at(), self.at() + 1)
                                <= usize::MAX);
                        }
                        let d: u32 = digit_value(p.1);
                        n = n * 10 + (d as usize);
                        let _ = self.char_stream.next();
                    } else {
                        break;
                    }
                },
            }
        }
        n
    }

    /// Reads a bond: `=` and the triple-bond glyph give orders 2 and 3;
    /// `-` gives order 1, unless `[` follows, in which case a digit run up
    /// to a required `]` gives the explicit order.
    fn parse_bond(&mut self) -> (r: Result<(), ChemfigParseError>)
        requires
            old(self).wf(),
        ensures
            final(self).wf(),
            final(self).text() == old(self).text(),
            match r {
                Ok(()) => spec_bond(old(self).text(), old(self).at(), old(self).acc())
                    == (ParseOutcome::Next { toks: final(self).acc(), pos: final(self).at() }),
                Err(e) => spec_bond(old(self).text(), old(self).at(), old(self).acc())
                    == (ParseOutcome::Fail { err: e }),
            },
    {
        match self.char_stream.next() {
            None => {
                return Err(ChemfigParseError::UnexpectedEOF);
            },
            Some((idx, c)) => {
                if c == '=' {
                    self.tokens.push_token(ChemfigToken::Bond(2));
                    return Ok(());
                }
                if c == '\u{2261}' {
                    self.tokens.push_token(ChemfigToken::Bond(3));
                    return Ok(());
                }
                if c != '-' {
                    proof {
                        crate::chars::lemma_byte_off_le(
                            self.text(),
                            old(self).at(),
                            self.text().len() as int,
                        );
                    }
                    return Err(ChemfigParseError::InvalidBondIdent(c, Span::new(idx, idx + 1)));
                }
            },
        }
        match self.char_stream.peek() {
            None => {
                self.tokens.push_token(ChemfigToken::Bond(1));
                return Ok(());
            },
            Some(p) => {
                if p.1 != '[' {
                    self.tokens.push_token(ChemfigToken::Bond(1));
                    return Ok(());
                }
            },
        }
        let _ = self.char_stream.next();
        let n = self.read_digit_run();
        match self.char_stream.peek() {
            None => Err(ChemfigParseError::UnexpectedEOF),
            Some((idx2, c3)) => {
                if c3 == ']' {
                    let _ = self.char_stream.next();
                    self.tokens.push_token(ChemfigToken::Bond(n));
                    Ok(())
                } else {
                    proof {
                        crate::chars::lemma_byte_off_le(
                            self.text(),
                            self.at(),
                            self.text().len() as int,
                        );
                    }
                    Err(
                        ChemfigParseError::UnenclosedGroup {
                            expected: ']',
                            found: c3,
                            span: Span::new(idx2, idx2 + 1),
                        },
                    )
                }
            },
        }
    }

    /// Reads a repetition: `_` and a digit run naming a count `n`. The
    /// current last accumulated token already counts as one occurrence, so
    /// `n - 1` deep copies of it are appended.
    fn parse_number(&mut self) -> (r: Result<(), ChemfigParseError>)
        requires
            old(self).wf(),
        ensures
            final(self).wf(),
            final(self).text() == old(self).text(),
            match r {
                Ok(()) => spec_repeat(old(self).text(), old(self).at(), old(self).acc())
                    == (ParseOutcome::Next { toks: final(self).acc(), pos: final(self).at() }),
                Err(e) => spec_repeat(old(self).text(), old(self).at(), old(self).acc())
                    == (ParseOutcome::Fail { err: e }),
            },
    {
        let start_idx = match self.char_stream.next() {
            None => {
                return Err(ChemfigParseError::UnexpectedEOF);
            },
            Some((idx, c)) => {
                if c != '_' {
                    proof {
                        crate::chars::lemma_byte_off_le(
                            self.text(),
                            old(self).at(),
                            self.text().len() as int,
                        );
                    }
                    return Err(
                        ChemfigParseError::InvalidChar { c, span: Span::new(idx, idx + 1) },
                    );
                }
                idx
            },
        };
        proof {
            crate::chars::lemma_byte_off_le(self.text(), old(self).at(), self.text().len() as int);
        }
        let n = self.read_digit_run();
        let count = self.tokens.token_count();
        if count == 0 {
            return Err(ChemfigParseError::NothingToRepeat(Span::new(start_idx, start_idx + 1)));
        }
        if n == 0 {
            return Err(
                ChemfigParseError::ZeroRepetitionCount(Span::new(start_idx, start_idx + 1)),
            );
        }
        let target = {
            let items = self.tokens.iter();
            items[count - 1].clone()
        };
        let ghost base = self.acc();
        let ghost pos0 = self.at();
        let mut k: usize = 0;
        while k < n - 1
            invariant
                self.wf(),
                self.text() == old(self).text(),
                self.at() == pos0,
                k <= n - 1,
                base.len() > 0,
                target@ == base.last(),
                self.acc() == base + Seq::new(k as nat, |m: int| base.last()),
            decreases n - 1 - k,
        {
            self.tokens.push_token(target.clone());
            k = k + 1;
            proof {
                assert(self.acc() =~= base + Seq::new(k as nat, |m: int| base.last()));
            }
        }
        proof {
            assert(self.acc() =~= base + Seq::new((n - 1) as nat, |m: int| base.last()));
        }
        Ok(())
    }

    /// Returns the accumulated token stream, for callers that have run the
    /// cursor to exhaustion.
    pub fn finalise(self) -> (ts: ChemfigTokenStream)
        ensures
            ts@ == self.acc(),
    {
        self.tokens
    }

    /// Returns the accumulated token stream along with the still-live
    /// cursor, for callers that intentionally stop before the end of the
    /// input and want to resume or inspect what remains.
    pub fn early_finalise(self) -> (r: (ChemfigTokenStream, CharCursor<'a>))
        ensures
            r.0@ == self.acc(),
            r.1.text() == self.text(),
            r.1.at() == self.at(),
            self.wf() ==> r.1.wf(),
    {
        (self.tokens, self.char_stream)
    }
}

} // verus!
