use chemfig::span::Span;
use chemfig::tokens::{ChemfigToken, ChemfigTokenStream};

fn el(sym: &str) -> ChemfigToken {
    ChemfigToken::Element(sym.to_string())
}

#[test]
fn new_stream_is_empty() {
    let stream = ChemfigTokenStream::new();
    assert_eq!(stream.token_count(), 0);
    assert_eq!(stream.iter(), &Vec::<ChemfigToken>::new());
}

#[test]
fn push_appends_in_order() {
    let mut stream = ChemfigTokenStream::new();
    stream.push_token(el("C"));
    stream.push_token(ChemfigToken::Bond(2));
    stream.push_token(el("O"));
    assert_eq!(stream.token_count(), 3);
    assert_eq!(stream.iter(), &vec![el("C"), ChemfigToken::Bond(2), el("O")]);
}

#[test]
fn remove_shifts_later_tokens_left() {
    let mut stream = ChemfigTokenStream::new();
    stream.push_token(el("C"));
    stream.push_token(ChemfigToken::Bond(1));
    stream.push_token(el("H"));
    let removed = stream.remove(1);
    assert_eq!(removed, ChemfigToken::Bond(1));
    assert_eq!(stream.iter(), &vec![el("C"), el("H")]);
}

#[test]
fn remove_range_drains_the_middle() {
    let mut stream = ChemfigTokenStream::new();
    stream.push_token(el("C"));
    stream.push_token(ChemfigToken::Bond(1));
    stream.push_token(el("H"));
    stream.push_token(ChemfigToken::Bond(3));
    let drained = stream.remove_range(1, 3);
    assert_eq!(drained, vec![ChemfigToken::Bond(1), el("H")]);
    assert_eq!(stream.iter(), &vec![el("C"), ChemfigToken::Bond(3)]);
}

#[test]
fn remove_range_of_everything_empties_the_stream() {
    let mut stream = ChemfigTokenStream::new();
    stream.push_token(el("C"));
    stream.push_token(el("O"));
    let drained = stream.remove_range(0, 2);
    assert_eq!(drained, vec![el("C"), el("O")]);
    assert_eq!(stream.token_count(), 0);
}

#[test]
fn empty_remove_range_drains_nothing() {
    let mut stream = ChemfigTokenStream::new();
    stream.push_token(el("C"));
    let drained = stream.remove_range(1, 1);
    assert_eq!(drained, vec![]);
    assert_eq!(stream.iter(), &vec![el("C")]);
}

#[test]
fn stream_clone_is_deep_and_equal() {
    let mut stream = ChemfigTokenStream::new();
    stream.push_token(ChemfigToken::Group(vec![el("C"), ChemfigToken::Bond(2)]));
    let copy = stream.clone();
    assert_eq!(copy.iter(), stream.iter());
}

#[test]
fn token_clone_copies_nested_children() {
    let token = ChemfigToken::Ring(vec![el("C"), ChemfigToken::Group(vec![el("H")])], 2);
    let copy = token.clone();
    assert_eq!(copy, token);
}

#[test]
fn span_holds_its_bounds() {
    let span = Span::new(3, 7);
    assert_eq!(span, Span::new(3, 7));
    assert_ne!(span, Span::new(3, 8));
}
