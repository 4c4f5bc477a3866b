use atom_macro::data::{AtomElement, Delimiter, Group, Ident, Input, Literal, Punct, Span, TokenTree};
use atom_macro::parsing::parse_atom;

fn sp(i: usize) -> Span {
    Span { index: i }
}

fn ident(name: &str, i: usize) -> TokenTree {
    TokenTree::Ident(Ident { name: name.to_string(), span: sp(i) })
}

fn punct(ch: char, i: usize) -> TokenTree {
    TokenTree::Punct(Punct { ch, span: sp(i) })
}

fn group(d: Delimiter, stream: &str, i: usize) -> TokenTree {
    TokenTree::Group(Group { delimiter: d, stream: stream.to_string(), span: sp(i) })
}

/// Numbers the tokens' spans 1, 2, ... in order.
fn numbered(kinds: Vec<Box<dyn Fn(usize) -> TokenTree>>) -> Vec<TokenTree> {
    kinds.iter().enumerate().map(|(i, k)| k(i + 1)).collect()
}

fn id(name: &'static str) -> Box<dyn Fn(usize) -> TokenTree> {
    Box::new(move |i| ident(name, i))
}

fn p(ch: char) -> Box<dyn Fn(usize) -> TokenTree> {
    Box::new(move |i| punct(ch, i))
}

fn br(stream: &'static str) -> Box<dyn Fn(usize) -> TokenTree> {
    Box::new(move |i| group(Delimiter::Bracket, stream, i))
}

fn brace(stream: &'static str) -> Box<dyn Fn(usize) -> TokenTree> {
    Box::new(move |i| group(Delimiter::Brace, stream, i))
}

fn error_of(toks: &[TokenTree]) -> (usize, String) {
    match parse_atom(Input::new(toks, sp(0))) {
        Ok(_) => panic!("expected an error"),
        Err(e) => {
            let m = e.message();
            (e.span().index, m)
        },
    }
}

#[test]
fn parse_atom_simple() {
    let toks = numbered(vec![id("x"), p('='), p('>'), brace("a"), p('='), p('>'), brace("b")]);
    let (atom, rest) = match parse_atom(Input::new(&toks, sp(0))) {
        Ok(x) => x,
        Err(_) => panic!("expected a parse"),
    };
    assert_eq!(rest.input().len(), 0);
    assert_eq!(atom.init.code(), "x");
    assert_eq!(atom.resolve.code(), "b");
    let mut seq = atom.seq;
    assert_eq!(seq.len(), 1);
    match seq.remove(0) {
        AtomElement::Execute(e) => assert_eq!(e.code(), "a"),
        _ => panic!("expected code"),
    }
}

#[test]
fn parse_atom_paths_and_patterns() {
    // ::a::b => f::g $ [Ok(x)] x, y, ; [None] ; { go(); } => { done }
    let toks = numbered(vec![
        p(':'), p(':'), id("a"), p(':'), p(':'), id("b"),
        p('='), p('>'),
        id("f"), p(':'), p(':'), id("g"), p('$'), br("Ok(x)"), id("x"), p(','), id("y"), p(','), p(';'),
        br("None"), p(';'),
        brace("go();"),
        p('='), p('>'),
        brace("done"),
        id("extra"),
    ]);
    let (atom, rest) = match parse_atom(Input::new(&toks, sp(0))) {
        Ok(x) => x,
        Err(_) => panic!("expected a parse"),
    };
    // The token after the resolve block is left, with the span of the block.
    assert_eq!(rest.input().len(), 1);
    assert_eq!(rest.input()[0].span().index, 26);
    assert_eq!(rest.end_of_stream::<()>().unwrap_err().span().index, 25);
    assert_eq!(atom.init.clone().code(), "::a::b");
    assert_eq!(atom.seq.len(), 3);
    match &atom.seq[0] {
        AtomElement::Pattern { pre_map, pattern, next } => {
            assert_eq!(pre_map.clone().unwrap().code(), "f::g");
            assert_eq!(pattern.clone().code(), "Ok(x)");
            let names: Vec<String> = next.iter().map(|n| n.clone().code()).collect();
            assert_eq!(names, vec!["x".to_string(), "y".to_string()]);
        },
        _ => panic!("expected a pattern"),
    }
    match &atom.seq[1] {
        AtomElement::Pattern { pre_map, pattern, next } => {
            assert!(pre_map.is_none());
            assert_eq!(pattern.clone().code(), "None");
            assert!(next.is_empty());
        },
        _ => panic!("expected a pattern"),
    }
    match atom.seq.into_iter().nth(2) {
        Some(AtomElement::Execute(e)) => assert_eq!(e.code(), "go();"),
        _ => panic!("expected code"),
    }
}

#[test]
fn parse_atom_missing_arrow_at_end() {
    let toks = numbered(vec![id("x")]);
    let (span, msg) = error_of(&toks);
    assert_eq!(span, 1);
    assert_eq!(
        msg,
        "unexpected end of stream\nfailure while trying to parse eq\nfailure while trying to parse _arrow_1"
    );
}

#[test]
fn parse_atom_empty_input() {
    let toks: Vec<TokenTree> = vec![];
    let (span, msg) = error_of(&toks);
    assert_eq!(span, 0);
    assert_eq!(
        msg,
        "unexpected end of stream\nfailure while trying to parse sym\nfailure while trying to parse init"
    );
}

#[test]
fn parse_atom_wrong_punct() {
    let toks = numbered(vec![id("x"), p('='), p('<')]);
    let (span, msg) = error_of(&toks);
    assert_eq!(span, 3);
    assert_eq!(
        msg,
        "expected '>'\nfailure while trying to parse gt\nfailure while trying to parse _arrow_1"
    );
}

#[test]
fn parse_atom_bad_element() {
    let toks = numbered(vec![id("x"), p('='), p('>'), id("y"), p('='), p('>'), brace("r")]);
    let (span, msg) = error_of(&toks);
    assert_eq!(span, 4);
    assert_eq!(
        msg,
        "alt failed all parses: pattern, execute\nfailure while trying to parse tail_execute_or_pattern\nfailure while trying to parse seq"
    );
}

#[test]
fn parse_atom_bad_init() {
    let toks = numbered(vec![p('='), p('>')]);
    let (span, msg) = error_of(&toks);
    assert_eq!(span, 1);
    assert_eq!(msg, "expected '<ident>'\nfailure while trying to parse sym\nfailure while trying to parse init");
}

#[test]
fn parse_atom_half_path() {
    // `: x` : a single colon is no `::`, and no identifier either
    let toks = numbered(vec![p(':'), id("x")]);
    let (span, msg) = error_of(&toks);
    assert_eq!(span, 1);
    assert_eq!(msg, "expected '<ident>'\nfailure while trying to parse sym\nfailure while trying to parse init");
}

#[test]
fn parse_atom_missing_resolve() {
    let toks = numbered(vec![id("x"), p('='), p('>'), brace("a"), p('='), p('>'), br("b")]);
    let (span, msg) = error_of(&toks);
    assert_eq!(span, 7);
    assert_eq!(msg, "expected '{ <Group> }'\nfailure while trying to parse resolve");
}

#[test]
fn parse_atom_second_arrow() {
    let toks = numbered(vec![id("x"), p('='), p('>'), brace("a"), p(';'), brace("b"), p('='), ident_lit()]);
    let (span, msg) = error_of(&toks);
    assert_eq!(span, 8);
    assert_eq!(msg, "expected '>'\nfailure while trying to parse gt\nfailure while trying to parse _arrow_2");
}

fn ident_lit() -> Box<dyn Fn(usize) -> TokenTree> {
    Box::new(|i| TokenTree::Literal(Literal { text: "1".to_string(), span: sp(i) }))
}

#[test]
fn parse_atom_missing_eq() {
    let toks = numbered(vec![id("x"), id("y")]);
    let (span, msg) = error_of(&toks);
    assert_eq!(span, 2);
    assert_eq!(msg, "expected '='\nfailure while trying to parse eq\nfailure while trying to parse _arrow_1");
}

#[test]
fn parse_atom_names_with_trailing_name() {
    // x => [P] a, b => { r }
    let toks = numbered(vec![id("x"), p('='), p('>'), br("P"), id("a"), p(','), id("b"), p('='), p('>'), brace("r")]);
    let (atom, rest) = match parse_atom(Input::new(&toks, sp(0))) {
        Ok(x) => x,
        Err(_) => panic!("expected a parse"),
    };
    assert_eq!(rest.input().len(), 0);
    match atom.seq.into_iter().next() {
        Some(AtomElement::Pattern { pre_map, next, .. }) => {
            assert!(pre_map.is_none());
            let names: Vec<String> = next.into_iter().map(|n| n.code()).collect();
            assert_eq!(names, vec!["a".to_string(), "b".to_string()]);
        },
        _ => panic!("expected a pattern"),
    }
}
