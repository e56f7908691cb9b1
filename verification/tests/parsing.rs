use chemfig::error::ChemfigParseError;
use chemfig::parser::ChemfigParser;
use chemfig::span::Span;
use chemfig::tokens::ChemfigToken;

fn el(sym: &str) -> ChemfigToken {
    ChemfigToken::Element(sym.to_string())
}

fn parse_ok(src: &str) -> Vec<ChemfigToken> {
    let stream = ChemfigParser::parse(src).expect("expected a successful parse");
    stream.iter().clone()
}

fn parse_err(src: &str) -> ChemfigParseError {
    ChemfigParser::parse(src).expect_err("expected a parse error")
}

#[test]
fn empty_source_parses_to_empty_stream() {
    assert_eq!(parse_ok(""), vec![]);
}

#[test]
fn single_bond_dash() {
    assert_eq!(parse_ok("-"), vec![ChemfigToken::Bond(1)]);
}

#[test]
fn double_bond_equals() {
    assert_eq!(parse_ok("="), vec![ChemfigToken::Bond(2)]);
}

#[test]
fn triple_bond_glyph() {
    assert_eq!(parse_ok("\u{2261}"), vec![ChemfigToken::Bond(3)]);
}

#[test]
fn explicit_bond_order() {
    assert_eq!(parse_ok("-[7]"), vec![ChemfigToken::Bond(7)]);
}

#[test]
fn explicit_bond_order_multi_digit() {
    assert_eq!(parse_ok("-[12]"), vec![ChemfigToken::Bond(12)]);
}

#[test]
fn bond_order_ignores_leading_zeros() {
    assert_eq!(parse_ok("-[007]"), vec![ChemfigToken::Bond(7)]);
}

#[test]
fn empty_bond_order_is_zero() {
    assert_eq!(parse_ok("-[]"), vec![ChemfigToken::Bond(0)]);
}

#[test]
fn bond_order_unterminated_at_eof() {
    assert_eq!(parse_err("-[7"), ChemfigParseError::UnexpectedEOF);
}

#[test]
fn bond_order_unterminated_by_wrong_char() {
    assert_eq!(
        parse_err("-[7C"),
        ChemfigParseError::UnenclosedGroup { expected: ']', found: 'C', span: Span::new(3, 4) }
    );
}

#[test]
fn element_uppercase_then_lowercase() {
    assert_eq!(parse_ok("Cl"), vec![el("Cl")]);
}

#[test]
fn adjacent_elements_split_on_uppercase() {
    assert_eq!(parse_ok("CH"), vec![el("C"), el("H")]);
}

#[test]
fn lowercase_leading_char_is_invalid() {
    assert_eq!(parse_err("c"), ChemfigParseError::InvalidChar { c: 'c', span: Span::new(0, 1) });
}

#[test]
fn unknown_char_is_invalid() {
    assert_eq!(parse_err("?"), ChemfigParseError::InvalidChar { c: '?', span: Span::new(0, 1) });
}

#[test]
fn spans_count_bytes_not_chars() {
    // The triple-bond glyph occupies three bytes, so the span of the next
    // character starts at byte offset 3.
    assert_eq!(
        parse_err("\u{2261}?"),
        ChemfigParseError::InvalidChar { c: '?', span: Span::new(3, 4) }
    );
}

#[test]
fn group_with_bond_and_element() {
    assert_eq!(
        parse_ok("C(-H)"),
        vec![el("C"), ChemfigToken::Group(vec![ChemfigToken::Bond(1), el("H")])]
    );
}

#[test]
fn element_bond_element() {
    assert_eq!(parse_ok("C=C"), vec![el("C"), ChemfigToken::Bond(2), el("C")]);
}

#[test]
fn repetition_makes_copies() {
    assert_eq!(parse_ok("C_3"), vec![el("C"), el("C"), el("C")]);
}

#[test]
fn unterminated_group_hits_eof() {
    assert_eq!(parse_err("C("), ChemfigParseError::UnexpectedEOF);
}

#[test]
fn nested_groups() {
    assert_eq!(
        parse_ok("((C))"),
        vec![ChemfigToken::Group(vec![ChemfigToken::Group(vec![el("C")])])]
    );
}

#[test]
fn parenthesised_fragment_wraps_its_own_parse() {
    // The round-trip nesting law on concrete values: "(C=C)" parses to a
    // single group holding exactly the parse of "C=C".
    let inner = parse_ok("C=C");
    assert_eq!(parse_ok("(C=C)"), vec![ChemfigToken::Group(inner)]);
}

#[test]
fn reparsing_yields_equal_streams() {
    let first = parse_ok("C(-H)=C_2");
    let second = parse_ok("C(-H)=C_2");
    assert_eq!(first, second);
}

#[test]
fn ring_extracts_trailing_bond() {
    assert_eq!(parse_ok("*(C-)"), vec![ChemfigToken::Ring(vec![el("C")], 1)]);
}

#[test]
fn ring_with_explicit_order() {
    assert_eq!(
        parse_ok("*(C-[7])"),
        vec![ChemfigToken::Ring(vec![el("C")], 7)]
    );
}

#[test]
fn ring_of_only_a_bond_has_empty_children() {
    assert_eq!(parse_ok("*(=)"), vec![ChemfigToken::Ring(vec![], 2)]);
}

#[test]
fn ring_without_trailing_bond_fails() {
    assert_eq!(parse_err("*(C)"), ChemfigParseError::RingMissingBond(Span::new(3, 4)));
}

#[test]
fn empty_ring_fails() {
    assert_eq!(parse_err("*()"), ChemfigParseError::RingMissingBond(Span::new(2, 3)));
}

#[test]
fn ring_without_opening_paren_fails() {
    assert_eq!(
        parse_err("*C"),
        ChemfigParseError::UnenclosedGroup { expected: '(', found: 'C', span: Span::new(1, 2) }
    );
}

#[test]
fn ring_marker_at_eof_fails() {
    assert_eq!(parse_err("*"), ChemfigParseError::UnexpectedEOF);
}

#[test]
fn repetition_without_target_fails() {
    assert_eq!(parse_err("_1"), ChemfigParseError::NothingToRepeat(Span::new(0, 1)));
}

#[test]
fn repetition_count_zero_fails() {
    assert_eq!(parse_err("C_0"), ChemfigParseError::ZeroRepetitionCount(Span::new(1, 2)));
}

#[test]
fn repetition_with_empty_digit_run_fails_as_zero() {
    assert_eq!(parse_err("C_"), ChemfigParseError::ZeroRepetitionCount(Span::new(1, 2)));
}

#[test]
fn repetition_deep_copies_groups() {
    assert_eq!(
        parse_ok("(C)_2"),
        vec![
            ChemfigToken::Group(vec![el("C")]),
            ChemfigToken::Group(vec![el("C")]),
        ]
    );
}

#[test]
fn repetition_in_group_targets_outer_token() {
    // The accumulator is shared across nesting levels, so a repetition
    // whose group holds nothing yet copies the token from outside it.
    assert_eq!(parse_ok("C(_2)"), vec![el("C"), ChemfigToken::Group(vec![el("C")])]);
}
