use atom_macro::data::{Delimiter, Error, Group, Ident, Input, Literal, Punct, Span, TokenTree};
use atom_macro::{atom, gen_compile_error};

fn sp(i: usize) -> Span {
    Span { index: i }
}

fn ident(name: &str, i: usize) -> TokenTree {
    TokenTree::Ident(Ident { name: name.to_string(), span: sp(i) })
}

fn punct(ch: char, i: usize) -> TokenTree {
    TokenTree::Punct(Punct { ch, span: sp(i) })
}

fn brace(stream: &str, i: usize) -> TokenTree {
    TokenTree::Group(Group { delimiter: Delimiter::Brace, stream: stream.to_string(), span: sp(i) })
}

#[test]
fn error_new_augment_message() {
    let e = Error::new(sp(3), "first".to_string());
    assert_eq!(e.message(), "first");
    let e = e.augment("second".to_string()).augment("third".to_string());
    assert_eq!(e.message(), "first\nsecond\nthird");
    assert_eq!(e.span().index, 3);
}

#[test]
fn compile_error_code() {
    let e = Error::new(sp(5), "bad".to_string()).augment("worse".to_string());
    let g = gen_compile_error(e);
    assert_eq!(g.code, "compile_error!(\"bad\nworse\");");
    assert_eq!(g.span.map(|s| s.index), Some(5));
}

#[test]
fn input_end_of_stream_and_left_over() {
    let toks = vec![ident("a", 1), punct(';', 2)];
    let input = Input::new(&toks, sp(9));
    assert_eq!(input.input().len(), 2);
    let e = input.end_of_stream::<u8>().unwrap_err();
    assert_eq!(e.span().index, 9);
    let e = Input::new(&toks, sp(9)).end_of_stream::<u8>().unwrap_err();
    assert_eq!(e.message(), "unexpected end of stream");
    let e = input.left_over();
    assert_eq!(e.span().index, 2);
    let e = Input::new(&toks, sp(9)).left_over();
    assert_eq!(e.message(), "entire input was not consumed");
}

#[test]
fn token_text() {
    assert_eq!(ident("abc", 0).to_string(), "abc");
    assert_eq!(punct(':', 0).to_string(), ":");
    assert_eq!(TokenTree::Literal(Literal { text: "\"s\"".to_string(), span: sp(0) }).to_string(), "\"s\"");
    assert_eq!(brace("x", 0).to_string(), "{x}");
    let g = |d| TokenTree::Group(Group { delimiter: d, stream: "x".to_string(), span: sp(4) });
    assert_eq!(g(Delimiter::Parenthesis).to_string(), "(x)");
    assert_eq!(g(Delimiter::Bracket).to_string(), "[x]");
    assert_eq!(g(Delimiter::Invisible).to_string(), "x");
    assert_eq!(g(Delimiter::Invisible).span().index, 4);
}

#[test]
fn atom_expands() {
    let toks = vec![ident("x", 1), punct('=', 2), punct('>', 3), brace("a();", 4), punct('=', 5), punct('>', 6), brace("b", 7)];
    let g = atom(&toks, sp(0));
    assert_eq!(g.code, "a();\nb");
    assert!(g.span.is_none());
}

#[test]
fn atom_left_over() {
    let toks = vec![
        ident("x", 1), punct('=', 2), punct('>', 3), brace("a", 4), punct('=', 5), punct('>', 6), brace("b", 7),
        punct(';', 8), ident("z", 9),
    ];
    let g = atom(&toks, sp(0));
    assert_eq!(g.code, "compile_error!(\"entire input was not consumed\");");
    assert_eq!(g.span.map(|s| s.index), Some(9));
}

#[test]
fn atom_parse_error() {
    let toks = vec![ident("x", 1)];
    let g = atom(&toks, sp(0));
    assert_eq!(
        g.code,
        "compile_error!(\"unexpected end of stream\nfailure while trying to parse eq\nfailure while trying to parse _arrow_1\");"
    );
    assert_eq!(g.span.map(|s| s.index), Some(1));
}
