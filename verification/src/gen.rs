use vstd::prelude::*;

use crate::data::{
    push_char, Atom, AtomElement, IntraIdent, SpecAtom, SpecAtomElement, join, opt_ident_view,
    elements_view,
};

verus! {

/// The newline that separates generated lines.
pub open spec fn newline() -> Seq<char> {
    seq!['\n']
}

/// `ident` passed through `map` where there is one: `map(ident)`.
pub open spec fn spec_use_pre_map(map: Option<Seq<char>>, ident: Seq<char>) -> Seq<char> {
    match map {
        Some(m) => m + "("@ + ident + ")"@,
        None => ident,
    }
}

/// A `match` of `ident` against `pattern` that runs `body` on a match and
/// does nothing otherwise.
pub open spec fn spec_match_arm(ident: Seq<char>, pattern: Seq<char>, body: Seq<char>) -> Seq<char> {
    "match "@ + ident + " {\n                        "@ + pattern
        + " => {\n                            "@ + body
        + "\n                        },\n                        _ => { },\n                    }"@
}

/// The code for the elements `elems`, with the names in `scope` bound, that
/// ends with `resolve`: code to execute comes before the rest; a pattern
/// becomes one `match` per name in scope, one per line, each of which runs
/// the rest with the pattern's names bound.
pub open spec fn spec_expand(elems: Seq<SpecAtomElement>, scope: Seq<Seq<char>>, resolve: Seq<char>) -> Seq<char>
    decreases elems.len(),
{
    if elems.len() == 0 {
        resolve
    } else {
        match elems[0] {
            SpecAtomElement::Execute(e) => e + newline() + spec_expand(elems.drop_first(), scope, resolve),
            SpecAtomElement::Pattern { pre_map, pattern, next } => {
                let body = spec_expand(elems.drop_first(), next, resolve);
                join(
                    scope.map_values(|id: Seq<char>| spec_match_arm(spec_use_pre_map(pre_map, id), pattern, body)),
                    newline(),
                )
            },
        }
    }
}

/// The code of an atom: its elements, starting with its initial value in scope.
pub open spec fn spec_gen_atom(a: SpecAtom) -> Seq<char> {
    spec_expand(a.seq, seq![a.init], a.resolve)
}

/// A code element comes first, followed by a newline and the code of the
/// elements after it; it passes the names in scope to them unchanged.
pub proof fn lemma_expand_code_keeps_scope(
    e: Seq<char>,
    rest: Seq<SpecAtomElement>,
    scope: Seq<Seq<char>>,
    resolve: Seq<char>,
)
    ensures
        spec_expand(seq![SpecAtomElement::Execute(e)] + rest, scope, resolve)
            == e + newline() + spec_expand(rest, scope, resolve),
{
    let elems = seq![SpecAtomElement::Execute(e)] + rest;
    assert(elems[0] == SpecAtomElement::Execute(e));
    assert(elems.drop_first() =~= rest);
}

/// A pattern matched against a single name in scope gives a single `match`
/// of that name (through the pre-map), whose arm runs the elements after the
/// pattern with exactly the pattern's names in scope.
pub proof fn lemma_expand_pattern_one_name(
    pre_map: Option<Seq<char>>,
    pattern: Seq<char>,
    next: Seq<Seq<char>>,
    rest: Seq<SpecAtomElement>,
    name: Seq<char>,
    resolve: Seq<char>,
)
    ensures
        spec_expand(
            seq![SpecAtomElement::Pattern { pre_map, pattern, next }] + rest,
            seq![name],
            resolve,
        ) == spec_match_arm(spec_use_pre_map(pre_map, name), pattern, spec_expand(rest, next, resolve)),
{
    let elems = seq![SpecAtomElement::Pattern { pre_map, pattern, next }] + rest;
    assert(elems[0] == SpecAtomElement::Pattern { pre_map, pattern, next });
    assert(elems.drop_first() =~= rest);
    let body = spec_expand(rest, next, resolve);
    let parts = seq![name].map_values(
        |id: Seq<char>| spec_match_arm(spec_use_pre_map(pre_map, id), pattern, body),
    );
    assert(parts.len() == 1);
    assert(parts[0] == spec_match_arm(spec_use_pre_map(pre_map, name), pattern, body));
}

/// A pattern gives one `match` per name in scope, in the order of the names,
/// one per line: with no name in scope it gives nothing, and one more name
/// adds its `match` on a line after the others.
pub proof fn lemma_expand_pattern_names(
    pre_map: Option<Seq<char>>,
    pattern: Seq<char>,
    next: Seq<Seq<char>>,
    rest: Seq<SpecAtomElement>,
    scope: Seq<Seq<char>>,
    name: Seq<char>,
    resolve: Seq<char>,
)
    ensures
        spec_expand(
            seq![SpecAtomElement::Pattern { pre_map, pattern, next }] + rest,
            Seq::<Seq<char>>::empty(),
            resolve,
        ) == Seq::<char>::empty(),
        scope.len() > 0 ==> spec_expand(
            seq![SpecAtomElement::Pattern { pre_map, pattern, next }] + rest,
            scope.push(name),
            resolve,
        ) == spec_expand(seq![SpecAtomElement::Pattern { pre_map, pattern, next }] + rest, scope, resolve)
            + newline() + spec_match_arm(spec_use_pre_map(pre_map, name), pattern, spec_expand(rest, next, resolve)),
{
    let elems = seq![SpecAtomElement::Pattern { pre_map, pattern, next }] + rest;
    assert(elems[0] == SpecAtomElement::Pattern { pre_map, pattern, next });
    assert(elems.drop_first() =~= rest);
    let body = spec_expand(rest, next, resolve);
    let f = |id: Seq<char>| spec_match_arm(spec_use_pre_map(pre_map, id), pattern, body);
    assert(Seq::<Seq<char>>::empty().map_values(f) =~= Seq::<Seq<char>>::empty());
    if scope.len() > 0 {
        let parts = scope.push(name).map_values(f);
        assert(parts.drop_last() =~= scope.map_values(f));
        assert(parts.last() == f(name));
    }
}

/// The names in scope before the first element, then after each pattern of `prefix`.
pub open spec fn scopes(prefix: Seq<SpecAtomElement>, init: Seq<char>) -> Seq<Seq<Seq<char>>>
    decreases prefix.len(),
{
    if prefix.len() == 0 {
        seq![seq![init]]
    } else {
        match prefix.last() {
            SpecAtomElement::Execute(_) => scopes(prefix.drop_last(), init),
            SpecAtomElement::Pattern { next, .. } => scopes(prefix.drop_last(), init).push(next),
        }
    }
}

pub proof fn lemma_scopes_nonempty(prefix: Seq<SpecAtomElement>, init: Seq<char>)
    ensures
        scopes(prefix, init).len() >= 1,
    decreases prefix.len(),
{
    if prefix.len() > 0 {
        lemma_scopes_nonempty(prefix.drop_last(), init);
    }
}

/// The texts of a vector of strings.
pub open spec fn strings_v(v: Vec<String>) -> Seq<Seq<char>> {
    v@.map_values(|s: String| s@)
}

/// The texts of a sequence of vectors of strings.
pub open spec fn string_lists_v(v: Seq<Vec<String>>) -> Seq<Seq<Seq<char>>> {
    v.map_values(|l: Vec<String>| strings_v(l))
}

fn use_pre_map(map: Option<IntraIdent>, ident: String) -> (res: String)
    ensures
        res@ == spec_use_pre_map(opt_ident_view(map), ident@),
{
    match map {
        Some(map) => {
            let mut s = map.code();
            s.append("(");
            s.append(ident.as_str());
            s.append(")");
            s
        },
        None => ident,
    }
}

fn match_arm(ident: String, pattern: &str, body: &str) -> (res: String)
    ensures
        res@ == spec_match_arm(ident@, pattern@, body@),
{
    let mut s = String::new();
    s.append("match ");
    s.append(ident.as_str());
    s.append(" {\n                        ");
    s.append(pattern);
    s.append(" => {\n                            ");
    s.append(body);
    s.append("\n                        },\n                        _ => { },\n                    }");
    s
}

/// The code of an atom: see `spec_gen_atom`.
pub fn gen_atom(input: Atom) -> (res: String)
    ensures
        res@ == spec_gen_atom(input@),
{
    let ghost all = input@.seq;
    let Atom { init, seq, resolve } = input;
    let init = init.code();
    let mut elements = seq;
    let resolve = resolve.code();

    // The names in scope before each pattern, and after the last one.
    let mut previous: Vec<Vec<String>> = Vec::new();
    let mut first: Vec<String> = Vec::new();
    first.push(init);
    assert(strings_v(first) =~= seq![init@]);
    previous.push(first);
    assert(all.take(0).len() == 0);
    assert(string_lists_v(previous@) =~= scopes(all.take(0), init@));
    let mut i: usize = 0;
    while i < elements.len()
        invariant
            0 <= i <= elements@.len(),
            elements_view(elements@) == all,
            string_lists_v(previous@) == scopes(all.take(i as int), init@),
        decreases elements@.len() - i,
    {
        let ghost before = string_lists_v(previous@);
        assert(all.take(i + 1).drop_last() =~= all.take(i as int));
        assert(all.take(i + 1).last() == all[i as int]);
        match &elements[i] {
            AtomElement::Execute(_) => {},
            AtomElement::Pattern { next, .. } => {
                let mut codes: Vec<String> = Vec::new();
                let mut j: usize = 0;
                while j < next.len()
                    invariant
                        0 <= j <= next@.len(),
                        strings_v(codes) == crate::data::idents_view(next@).take(j as int),
                    decreases next@.len() - j,
                {
                    let ghost cs = strings_v(codes);
                    codes.push(next[j].clone().code());
                    assert(strings_v(codes) =~= cs.push(next@[j as int]@));
                    assert(crate::data::idents_view(next@).take(j + 1) =~= crate::data::idents_view(next@).take(j as int).push(next@[j as int]@));
                    j = j + 1;
                }
                assert(crate::data::idents_view(next@).take(j as int) =~= crate::data::idents_view(next@));
                previous.push(codes);
                assert(string_lists_v(previous@) =~= before.push(strings_v(codes)));
            },
        }
        i = i + 1;
    }
    assert(all.take(i as int) =~= all);
    proof {
        lemma_scopes_nonempty(all, init@);
    }
    let ghost full = string_lists_v(previous@);
    previous.pop();
    assert(string_lists_v(previous@) =~= full.drop_last());

    let mut code = resolve;
    assert(all.skip(elements@.len() as int) =~= Seq::<SpecAtomElement>::empty());
    while elements.len() != 0
        invariant
            elements_view(elements@) == all.take(elements@.len() as int),
            elements@.len() <= all.len(),
            string_lists_v(previous@) == scopes(all.take(elements@.len() as int), init@).drop_last(),
            code@ == spec_expand(
                all.skip(elements@.len() as int),
                scopes(all.take(elements@.len() as int), init@).last(),
                resolve@,
            ),
        decreases elements@.len(),
    {
        let ghost k = elements@.len() as int;
        let ghost before_elems = elements@;
        let ghost before_prev = string_lists_v(previous@);
        proof {
            lemma_scopes_nonempty(all.take(k - 1), init@);
        }
        assert(all.take(k).drop_last() =~= all.take(k - 1));
        assert(all.take(k).last() == all[k - 1]);
        assert(all.skip(k - 1).drop_first() =~= all.skip(k));
        assert(all.skip(k - 1)[0] == all[k - 1]);
        let ghost s_prev = scopes(all.take(k - 1), init@);
        assert(match all[k - 1] {
            SpecAtomElement::Execute(_) => scopes(all.take(k), init@) == s_prev,
            SpecAtomElement::Pattern { next, .. } => scopes(all.take(k), init@) == s_prev.push(next),
        });
        let element = elements.pop().unwrap();
        assert(elements@ =~= before_elems.drop_last());
        assert(elements_view(elements@) =~= all.take(k - 1));
        assert(element@ == all[k - 1]);
        match element {
            AtomElement::Execute(e) => {
                let mut c = e.code();
                push_char(&mut c, '\n');
                c.append(code.as_str());
                assert(c@ =~= spec_expand(all.skip(k - 1), s_prev.last(), resolve@));
                code = c;
            },
            AtomElement::Pattern { pre_map, pattern, .. } => {
                assert(before_prev =~= s_prev);
                assert(previous@.len() == before_prev.len());
                let idents = previous.pop().unwrap();
                assert(string_lists_v(previous@) =~= before_prev.drop_last());
                let ghost scope = strings_v(idents);
                let ghost body = code@;
                let ghost pm = opt_ident_view(pre_map);
                let ghost pat = pattern@;
                let ghost parts = scope.map_values(
                    |id: Seq<char>| spec_match_arm(spec_use_pre_map(pm, id), pat, body),
                );
                let pattern = pattern.code();
                let mut joined = String::new();
                let mut m: usize = 0;
                while m < idents.len()
                    invariant
                        0 <= m <= idents@.len(),
                        scope == strings_v(idents),
                        pm == opt_ident_view(pre_map),
                        pattern@ == pat,
                        code@ == body,
                        parts == scope.map_values(
                            |id: Seq<char>| spec_match_arm(spec_use_pre_map(pm, id), pat, body),
                        ),
                        joined@ == join(parts.take(m as int), newline()),
                    decreases idents@.len() - m,
                {
                    if m != 0 {
                        push_char(&mut joined, '\n');
                    }
                    let map = match &pre_map {
                        Some(p) => Some(p.clone()),
                        None => None,
                    };
                    assert(opt_ident_view(map) == pm);
                    let ident = use_pre_map(map, idents[m].clone());
                    let arm = match_arm(ident, pattern.as_str(), code.as_str());
                    assert(arm@ == parts[m as int]);
                    joined.append(arm.as_str());
                    assert(parts.take(m + 1).drop_last() =~= parts.take(m as int));
                    m = m + 1;
                }
                assert(parts.take(m as int) =~= parts);
                assert(scope == s_prev.last());
                assert(joined@ == spec_expand(all.skip(k - 1), s_prev.last(), resolve@));
                code = joined;
            },
        }
    }
    assert(all.take(0) =~= Seq::<SpecAtomElement>::empty());
    assert(all.skip(0) =~= all);
    code
}

} // verus!
