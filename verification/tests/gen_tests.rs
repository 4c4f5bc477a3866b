use atom_macro::data::{Atom, AtomElement, Execute, IntraIdent, Pattern};
use atom_macro::gen::gen_atom;

fn ident(s: &str) -> IntraIdent {
    IntraIdent::new(s.to_string())
}

fn arm(ident: &str, pattern: &str, body: &str) -> String {
    format!(
        "match {ident} {{\n                        {pattern} => {{\n                            {body}\n                        }},\n                        _ => {{ }},\n                    }}"
    )
}

#[test]
fn gen_atom_no_elements() {
    let atom = Atom { init: ident("v"), seq: vec![], resolve: Execute::new("done".to_string()) };
    assert_eq!(gen_atom(atom), "done");
}

#[test]
fn gen_atom_code_elements() {
    let atom = Atom {
        init: ident("v"),
        seq: vec![
            AtomElement::Execute(Execute::new("a();".to_string())),
            AtomElement::Execute(Execute::new("b();".to_string())),
        ],
        resolve: Execute::new("r".to_string()),
    };
    assert_eq!(gen_atom(atom), "a();\nb();\nr");
}

#[test]
fn gen_atom_one_pattern() {
    let atom = Atom {
        init: ident("v"),
        seq: vec![
            AtomElement::Pattern { pre_map: None, pattern: Pattern::new("Some(a)".to_string()), next: vec![ident("a")] },
            AtomElement::Execute(Execute::new("let b = a + 1;".to_string())),
        ],
        resolve: Execute::new("b".to_string()),
    };
    let expected = arm("v", "Some(a)", "let b = a + 1;\nb");
    assert_eq!(gen_atom(atom), expected);
}

#[test]
fn gen_atom_pre_map_and_several_names() {
    let atom = Atom {
        init: ident("v"),
        seq: vec![
            AtomElement::Pattern { pre_map: None, pattern: Pattern::new("(x, y)".to_string()), next: vec![ident("x"), ident("y")] },
            AtomElement::Pattern { pre_map: Some(ident("f::g")), pattern: Pattern::new("Ok(z)".to_string()), next: vec![] },
        ],
        resolve: Execute::new("z".to_string()),
    };
    // Each name bound by the first pattern is matched in turn, through `f::g`.
    let x_arm = arm("f::g(x)", "Ok(z)", "z");
    let y_arm = arm("f::g(y)", "Ok(z)", "z");
    let inner = format!("{}\n{}", x_arm, y_arm);
    assert_eq!(gen_atom(atom), arm("v", "(x, y)", &inner));
}

#[test]
fn gen_atom_pattern_without_names() {
    let atom = Atom {
        init: ident("v"),
        seq: vec![
            AtomElement::Pattern { pre_map: None, pattern: Pattern::new("None".to_string()), next: vec![] },
            AtomElement::Pattern { pre_map: None, pattern: Pattern::new("Some(q)".to_string()), next: vec![ident("q")] },
        ],
        resolve: Execute::new("q".to_string()),
    };
    // Nothing is in scope for the second pattern, so its matches are empty.
    assert_eq!(gen_atom(atom), arm("v", "None", ""));
}
