use vstd::prelude::*;

use crate::data::{
    Atom, AtomElement, Delimiter, Error, ErrorView, Execute, Ident, Input, InputView, IntraIdent, Punct, Span,
    Pattern, SpecAtom, SpecAtomElement, TokenTree, spec_augment, spec_end_of_stream, spec_error,
};

verus! {

/// What a parser hands back: the value and the rest of the input, or an error.
pub type ParseResult<'a, T> = Result<(T, Input<'a>), Error>;

/// The abstract value of a parse result.
pub type Parsed<V> = Result<(V, InputView), ErrorView>;

/// A parser, as a function on abstract inputs.
pub type SpecParser<V> = spec_fn(InputView) -> Parsed<V>;

/// The abstract value of a parse result, the parsed value taken through `f`.
pub open spec fn lift<'a, T, V>(r: ParseResult<'a, T>, f: spec_fn(T) -> V) -> Parsed<V> {
    match r {
        Ok((v, rest)) => Ok((f(v), rest@)),
        Err(e) => Err(e@),
    }
}

/// The view of a parsed token.
pub open spec fn token_v<'a>() -> spec_fn(&'a TokenTree) -> TokenTree {
    |t: &'a TokenTree| *t
}

/// The view of a vector of parsed tokens.
pub open spec fn tokens_v<'a>() -> spec_fn(Vec<&'a TokenTree>) -> Seq<TokenTree> {
    |v: Vec<&'a TokenTree>| v@.map_values(|t: &'a TokenTree| *t)
}

// ---------------------------------------------------------------- single tokens

/// One punctuation token `c`; else the error `expected` at the first token.
pub open spec fn spec_parse_punct(inp: InputView, c: char, expected: Seq<char>) -> Parsed<TokenTree> {
    if inp.0.len() == 0 {
        Err(spec_end_of_stream(inp))
    } else {
        let t = inp.0[0];
        match t {
            TokenTree::Punct(p) => if p.ch == c {
                Ok((t, (inp.0.drop_first(), p.span)))
            } else {
                Err(spec_error(t.span_of(), expected))
            },
            _ => Err(spec_error(t.span_of(), expected)),
        }
    }
}

pub open spec fn spec_parse_gt(inp: InputView) -> Parsed<TokenTree> {
    spec_parse_punct(inp, '>', "expected '>'"@)
}

pub open spec fn spec_parse_eq(inp: InputView) -> Parsed<TokenTree> {
    spec_parse_punct(inp, '=', "expected '='"@)
}

pub open spec fn spec_parse_app(inp: InputView) -> Parsed<TokenTree> {
    spec_parse_punct(inp, '$', "expected '$'"@)
}

pub open spec fn spec_parse_semicolon(inp: InputView) -> Parsed<TokenTree> {
    spec_parse_punct(inp, ';', "expected ';'"@)
}

pub open spec fn spec_parse_comma(inp: InputView) -> Parsed<TokenTree> {
    spec_parse_punct(inp, ',', "expected ','"@)
}

pub open spec fn spec_parse_colon(inp: InputView) -> Parsed<TokenTree> {
    spec_parse_punct(inp, ':', "expected ':'"@)
}

/// One identifier token.
pub open spec fn spec_parse_sym(inp: InputView) -> Parsed<TokenTree> {
    if inp.0.len() == 0 {
        Err(spec_end_of_stream(inp))
    } else {
        let t = inp.0[0];
        match t {
            TokenTree::Ident(i) => Ok((t, (inp.0.drop_first(), i.span))),
            _ => Err(spec_error(t.span_of(), "expected '<ident>'"@)),
        }
    }
}

/// One group with delimiter `d`, giving the text of its stream.
pub open spec fn spec_parse_group(inp: InputView, d: Delimiter) -> Parsed<Seq<char>> {
    if inp.0.len() == 0 {
        Err(spec_end_of_stream(inp))
    } else {
        let t = inp.0[0];
        match t {
            TokenTree::Group(g) => if g.delimiter == d {
                Ok((g.stream@, (inp.0.drop_first(), g.span)))
            } else {
                Err(spec_error(t.span_of(), "expected '{ <Group> }'"@))
            },
            _ => Err(spec_error(t.span_of(), "expected '{ <Group> }'"@)),
        }
    }
}

/// A bracket group: the pattern of a pattern element.
pub open spec fn spec_parse_pattern_bracket(inp: InputView) -> Parsed<Seq<char>> {
    spec_parse_group(inp, Delimiter::Bracket)
}

/// A brace group: code to execute.
pub open spec fn spec_parse_execute(inp: InputView) -> Parsed<Seq<char>> {
    spec_parse_group(inp, Delimiter::Brace)
}

fn parse_punct<'a>(input: Input<'a>, c: char, expected: &str) -> (res: ParseResult<'a, &'a TokenTree>)
    ensures
        lift(res, token_v()) == spec_parse_punct(input@, c, expected@),
{
    let tokens = input.input();
    if tokens.len() == 0 {
        return input.end_of_stream();
    }
    let x = &tokens[0];
    match x {
        TokenTree::Punct(p) => {
            if p.ch == c {
                let rest = &tokens[1..tokens.len()];
                assert(rest@ =~= input@.0.drop_first());
                Ok((x, Input::new(rest, p.span)))
            } else {
                Err(Error::new(x.span(), expected.to_owned()))
            }
        },
        _ => Err(Error::new(x.span(), expected.to_owned())),
    }
}

fn parse_gt<'a>(input: Input<'a>) -> (res: ParseResult<'a, &'a TokenTree>)
    ensures
        lift(res, token_v()) == spec_parse_gt(input@),
{
    parse_punct(input, '>', "expected '>'")
}

fn parse_eq<'a>(input: Input<'a>) -> (res: ParseResult<'a, &'a TokenTree>)
    ensures
        lift(res, token_v()) == spec_parse_eq(input@),
{
    parse_punct(input, '=', "expected '='")
}

fn parse_app<'a>(input: Input<'a>) -> (res: ParseResult<'a, &'a TokenTree>)
    ensures
        lift(res, token_v()) == spec_parse_app(input@),
{
    parse_punct(input, '$', "expected '$'")
}

fn parse_semicolon<'a>(input: Input<'a>) -> (res: ParseResult<'a, &'a TokenTree>)
    ensures
        lift(res, token_v()) == spec_parse_semicolon(input@),
{
    parse_punct(input, ';', "expected ';'")
}

fn parse_comma<'a>(input: Input<'a>) -> (res: ParseResult<'a, &'a TokenTree>)
    ensures
        lift(res, token_v()) == spec_parse_comma(input@),
{
    parse_punct(input, ',', "expected ','")
}

fn parse_colon<'a>(input: Input<'a>) -> (res: ParseResult<'a, &'a TokenTree>)
    ensures
        lift(res, token_v()) == spec_parse_colon(input@),
{
    parse_punct(input, ':', "expected ':'")
}

fn parse_sym<'a>(input: Input<'a>) -> (res: ParseResult<'a, &'a TokenTree>)
    ensures
        lift(res, token_v()) == spec_parse_sym(input@),
{
    let tokens = input.input();
    if tokens.len() == 0 {
        return input.end_of_stream();
    }
    let t = &tokens[0];
    match t {
        TokenTree::Ident(i) => {
            let rest = &tokens[1..tokens.len()];
            assert(rest@ =~= input@.0.drop_first());
            Ok((t, Input::new(rest, i.span)))
        },
        _ => Err(Error::new(t.span(), "expected '<ident>'".to_owned())),
    }
}

fn parse_group<'a>(input: Input<'a>, d: Delimiter) -> (res: ParseResult<'a, String>)
    ensures
        lift(res, |s: String| s@) == spec_parse_group(input@, d),
{
    let tokens = input.input();
    if tokens.len() == 0 {
        return input.end_of_stream();
    }
    let t = &tokens[0];
    match t {
        TokenTree::Group(g) => {
            if g.delimiter == d {
                let rest = &tokens[1..tokens.len()];
                assert(rest@ =~= input@.0.drop_first());
                Ok((g.stream.clone(), Input::new(rest, g.span)))
            } else {
                Err(Error::new(t.span(), "expected '{ <Group> }'".to_owned()))
            }
        },
        _ => Err(Error::new(t.span(), "expected '{ <Group> }'".to_owned())),
    }
}

// ---------------------------------------------------------------- combinators

/// `parser` computes `spec_p`, its values taken through `f`, on every input.
pub open spec fn implements<'a, T, V, P: Fn(Input<'a>) -> ParseResult<'a, T>>(
    parser: P,
    spec_p: SpecParser<V>,
    f: spec_fn(T) -> V,
) -> bool {
    &&& forall|i: Input<'a>| #[trigger] call_requires(parser, (i,))
    &&& forall|i: Input<'a>, r: ParseResult<'a, T>| #[trigger]
        call_ensures(parser, (i,), r) ==> lift(r, f) == spec_p(i@)
}

/// On success, `p` always consumes at least one token.
pub open spec fn consumes<V>(p: SpecParser<V>) -> bool {
    forall|inp: InputView| #[trigger]
        p(inp) is Ok ==> p(inp)->Ok_0.1.0.len() < inp.0.len()
}

/// Every success of `p` in its run from `inp` (applied again to what each
/// success left, until it fails) consumes at least one token.
pub open spec fn consumes_from<V>(p: SpecParser<V>, inp: InputView) -> bool
    decreases inp.0.len(),
{
    match p(inp) {
        Ok((_, rest)) => if rest.0.len() < inp.0.len() {
            consumes_from(p, rest)
        } else {
            false
        },
        Err(_) => true,
    }
}

/// A parser that consumes on every success consumes along every run.
pub proof fn lemma_consumes_from<V>(p: SpecParser<V>, inp: InputView)
    requires
        consumes(p),
    ensures
        consumes_from(p, inp),
    decreases inp.0.len(),
{
    if let Ok((_, rest)) = p(inp) {
        assert(rest.0.len() < inp.0.len());
        lemma_consumes_from(p, rest);
    }
}

/// `p` on `inp` if it succeeds, else nothing and `inp` unchanged.
pub open spec fn spec_maybe<V>(p: SpecParser<V>, inp: InputView) -> Parsed<Option<V>> {
    match p(inp) {
        Ok((v, rest)) => Ok((Some(v), rest)),
        Err(_) => Ok((None, inp)),
    }
}

/// The values of `p` applied as many times as it succeeds, and what is left.
/// A success that consumes no token ends the repetition after that step (the
/// library never repeats a parser along a run where that happens:
/// `zero_or_more` requires `consumes_from`).
pub open spec fn spec_many<V>(p: SpecParser<V>, inp: InputView) -> (Seq<V>, InputView)
    decreases inp.0.len(),
{
    match p(inp) {
        Ok((v, rest)) => if rest.0.len() < inp.0.len() {
            let (vs, last) = spec_many(p, rest);
            (seq![v] + vs, last)
        } else {
            (seq![v], rest)
        },
        Err(_) => (seq![], inp),
    }
}

/// `p` applied as many times as it succeeds; never fails.
pub open spec fn spec_star<V>(p: SpecParser<V>, inp: InputView) -> Parsed<Seq<V>> {
    Ok(spec_many(p, inp))
}

/// `p`, its value taken through `g`.
pub open spec fn spec_map<V, W>(p: SpecParser<V>, g: spec_fn(V) -> W, inp: InputView) -> Parsed<W> {
    match p(inp) {
        Ok((v, rest)) => Ok((g(v), rest)),
        Err(e) => Err(e),
    }
}

fn maybe<'a, T, V, P: Fn(Input<'a>) -> ParseResult<'a, T>>(
    parser: &P,
    Ghost(spec_p): Ghost<SpecParser<V>>,
    Ghost(f): Ghost<spec_fn(T) -> V>,
    input: Input<'a>,
) -> (res: ParseResult<'a, Option<T>>)
    requires
        implements(*parser, spec_p, f),
    ensures
        lift(res, opt_v(f)) == spec_maybe(spec_p, input@),
{
    let r = parser(input);
    match r {
        Ok((t, i)) => Ok((Some(t), i)),
        Err(_) => Ok((None, input)),
    }
}

/// A value of a vector, each element taken through `f`.
pub open spec fn vec_v<T, V>(f: spec_fn(T) -> V) -> spec_fn(Vec<T>) -> Seq<V> {
    |v: Vec<T>| v@.map_values(f)
}

/// An optional value taken through `f`.
pub open spec fn opt_v<T, V>(f: spec_fn(T) -> V) -> spec_fn(Option<T>) -> Option<V> {
    |o: Option<T>|
        match o {
            Some(v) => Some(f(v)),
            None => None,
        }
}

fn zero_or_more<'a, T, V, P: Fn(Input<'a>) -> ParseResult<'a, T>>(
    parser: &P,
    Ghost(spec_p): Ghost<SpecParser<V>>,
    Ghost(f): Ghost<spec_fn(T) -> V>,
    input: Input<'a>,
) -> (res: ParseResult<'a, Vec<T>>)
    requires
        implements(*parser, spec_p, f),
        consumes_from(spec_p, input@),
    ensures
        lift(res, vec_v(f)) == spec_star(spec_p, input@),
        res matches Ok((vs, _)) && vs@.len() <= input@.0.len(),
{
    proof {
        lemma_many_bound(spec_p, input@);
    }
    let ghost start = input@;
    let mut input = input;
    let mut ret: Vec<T> = Vec::new();
    loop
        invariant
            implements(*parser, spec_p, f),
            consumes_from(spec_p, input@),
            spec_many(spec_p, start) == (
                ret@.map_values(f) + spec_many(spec_p, input@).0,
                spec_many(spec_p, input@).1,
            ),
        ensures
            spec_many(spec_p, start) == (ret@.map_values(f), input@),
        decreases input@.0.len(),
    {
        let r = parser(input);
        match r {
            Ok((v, i)) => {
                let ghost before = ret@.map_values(f);
                let ghost fv = f(v);
                assert(spec_p(input@) == Ok::<_, ErrorView>((fv, i@)));
                assert(spec_many(spec_p, input@).0 =~= seq![fv] + spec_many(spec_p, i@).0);
                input = i;
                ret.push(v);
                assert(ret@.map_values(f) =~= before.push(fv));
                assert(before + (seq![fv] + spec_many(spec_p, input@).0) =~= before.push(fv)
                    + spec_many(spec_p, input@).0);
            },
            Err(_) => {
                assert(spec_many(spec_p, input@).0 =~= Seq::<V>::empty());
                assert(ret@.map_values(f) + Seq::<V>::empty() =~= ret@.map_values(f));
                break;
            },
        }
    }
    Ok((ret, input))
}

/// When every success of `p` along its run from `inp` consumes a token, `p`
/// succeeds at most once per token of the input.
pub proof fn lemma_many_bound<V>(p: SpecParser<V>, inp: InputView)
    requires
        consumes_from(p, inp),
    ensures
        spec_many(p, inp).0.len() <= inp.0.len(),
    decreases inp.0.len(),
{
    if let Ok((v, rest)) = p(inp) {
        assert(rest.0.len() < inp.0.len());
        lemma_many_bound(p, rest);
    }
}

/// When every success of `p` along its run from `inp` consumes a token,
/// repeating `p` on what that repetition left yields nothing and consumes
/// nothing: `p` fails there.
pub proof fn lemma_many_rest<V>(p: SpecParser<V>, inp: InputView)
    requires
        consumes_from(p, inp),
    ensures
        p(spec_many(p, inp).1) is Err,
        spec_many(p, spec_many(p, inp).1) == (Seq::<V>::empty(), spec_many(p, inp).1),
    decreases inp.0.len(),
{
    if let Ok((v, rest)) = p(inp) {
        assert(rest.0.len() < inp.0.len());
        lemma_many_rest(p, rest);
    }
}

/// Mapping through `f` and then through `g` is mapping through their
/// composition; mapping through the identity changes nothing.
pub proof fn lemma_map_compose<U, V, W>(p: SpecParser<U>, f: spec_fn(U) -> V, g: spec_fn(V) -> W, inp: InputView)
    ensures
        spec_map(|i: InputView| spec_map(p, f, i), g, inp) == spec_map(p, |x: U| g(f(x)), inp),
        spec_map(p, |x: U| x, inp) == p(inp),
{
}

fn map<'a, T, S, V, W, P: Fn(Input<'a>) -> ParseResult<'a, T>, F: Fn(T) -> S>(
    parser: &P,
    Ghost(spec_p): Ghost<SpecParser<V>>,
    Ghost(fv): Ghost<spec_fn(T) -> V>,
    func: &F,
    Ghost(g): Ghost<spec_fn(V) -> W>,
    Ghost(fs): Ghost<spec_fn(S) -> W>,
    input: Input<'a>,
) -> (res: ParseResult<'a, S>)
    requires
        implements(*parser, spec_p, fv),
        forall|v: T| #[trigger] call_requires(*func, (v,)),
        forall|v: T, s: S| #[trigger] call_ensures(*func, (v,), s) ==> fs(s) == g(fv(v)),
    ensures
        lift(res, fs) == spec_map(spec_p, g, input@),
{
    let r = parser(input);
    match r {
        Ok((v, i)) => Ok((func(v), i)),
        Err(e) => Err(e),
    }
}

// ---------------------------------------------------------------- how far parsers get

/// `rest` is what is left of `whole` after some of its first tokens.
pub open spec fn is_suffix(rest: Seq<TokenTree>, whole: Seq<TokenTree>) -> bool {
    &&& rest.len() <= whole.len()
    &&& rest == whole.subrange(whole.len() - rest.len(), whole.len() as int)
}

/// `rest` is what a parse left of `inp`: a suffix of its tokens, whose span
/// is that of the last token consumed, or that of `inp` where none was.
pub open spec fn continues(rest: InputView, inp: InputView) -> bool {
    &&& is_suffix(rest.0, inp.0)
    &&& rest.0.len() == inp.0.len() ==> rest.1 == inp.1
    &&& rest.0.len() < inp.0.len() ==> rest.1 == inp.0[inp.0.len() - rest.0.len() - 1].span_of()
}

/// On success, what `p` leaves continues its input.
pub open spec fn advances<V>(p: SpecParser<V>) -> bool {
    forall|inp: InputView| #[trigger]
        p(inp) is Ok ==> continues(p(inp)->Ok_0.1, inp)
}

pub proof fn lemma_continues_refl(inp: InputView)
    ensures
        continues(inp, inp),
{
    assert(inp.0 == inp.0.subrange(0, inp.0.len() as int));
}

pub proof fn lemma_continues_first(inp: InputView)
    requires
        inp.0.len() > 0,
    ensures
        continues((inp.0.drop_first(), inp.0[0].span_of()), inp),
{
    assert(inp.0.drop_first() =~= inp.0.subrange(1, inp.0.len() as int));
}

pub proof fn lemma_continues_trans(a: InputView, b: InputView, c: InputView)
    requires
        continues(a, b),
        continues(b, c),
    ensures
        continues(a, c),
{
    assert(a.0 =~= c.0.subrange(c.0.len() - a.0.len(), c.0.len() as int));
    if a.0.len() < b.0.len() {
        let k = b.0.len() - a.0.len() - 1;
        assert(b.0[k] == c.0.subrange(c.0.len() - b.0.len(), c.0.len() as int)[k]);
    }
}

pub proof fn lemma_many_advances<V>(p: SpecParser<V>, inp: InputView)
    requires
        advances(p),
    ensures
        continues(spec_many(p, inp).1, inp),
    decreases inp.0.len(),
{
    match p(inp) {
        Ok((v, rest)) => {
            if rest.0.len() < inp.0.len() {
                lemma_many_advances(p, rest);
                lemma_continues_trans(spec_many(p, rest).1, rest, inp);
            }
        },
        Err(_) => lemma_continues_refl(inp),
    }
}

proof fn lemma_punct_advances(inp: InputView, c: char, expected: Seq<char>)
    ensures
        spec_parse_punct(inp, c, expected) matches Ok((_, rest)) ==> continues(rest, inp) && rest.0.len() < inp.0.len(),
{
    if inp.0.len() > 0 {
        lemma_continues_first(inp);
    }
}

proof fn lemma_sym_advances(inp: InputView)
    ensures
        spec_parse_sym(inp) matches Ok((_, rest)) ==> continues(rest, inp) && rest.0.len() < inp.0.len(),
{
    if inp.0.len() > 0 {
        lemma_continues_first(inp);
    }
}

proof fn lemma_group_advances(inp: InputView, d: Delimiter)
    ensures
        spec_parse_group(inp, d) matches Ok((_, rest)) ==> continues(rest, inp) && rest.0.len() < inp.0.len(),
{
    if inp.0.len() > 0 {
        lemma_continues_first(inp);
    }
}

// ---------------------------------------------------------------- paths

/// `=>`.
pub open spec fn spec_parse_arrow(inp: InputView) -> Parsed<Seq<TokenTree>> {
    match spec_parse_eq(inp) {
        Err(e) => Err(spec_augment(e, "failure while trying to parse eq"@)),
        Ok((eq, i1)) => match spec_parse_gt(i1) {
            Err(e) => Err(spec_augment(e, "failure while trying to parse gt"@)),
            Ok((gt, i2)) => Ok((seq![eq, gt], i2)),
        },
    }
}

/// `::`.
pub open spec fn spec_parse_colon_colon(inp: InputView) -> Parsed<Seq<TokenTree>> {
    match spec_parse_colon(inp) {
        Err(e) => Err(spec_augment(e, "'::' is missing first ':'"@)),
        Ok((c1, i1)) => match spec_parse_colon(i1) {
            Err(e) => Err(spec_augment(e, "'::' is missing second ':'"@)),
            Ok((c2, i2)) => Ok((seq![c1, c2], i2)),
        },
    }
}

/// `::` followed by an identifier.
pub open spec fn spec_parse_colon_colon_sym(inp: InputView) -> Parsed<Seq<TokenTree>> {
    match spec_parse_colon_colon(inp) {
        Err(e) => Err(spec_augment(e, "failure while trying to parse cc"@)),
        Ok((cc, i1)) => match spec_parse_sym(i1) {
            Err(e) => Err(spec_augment(e, "failure while trying to parse sym"@)),
            Ok((sym, i2)) => Ok((cc.push(sym), i2)),
        },
    }
}

pub open spec fn colon_colon_p() -> SpecParser<Seq<TokenTree>> {
    |inp: InputView| spec_parse_colon_colon(inp)
}

pub open spec fn colon_colon_sym_p() -> SpecParser<Seq<TokenTree>> {
    |inp: InputView| spec_parse_colon_colon_sym(inp)
}

/// The concatenated text of a sequence of tokens.
pub open spec fn text_of(ts: Seq<TokenTree>) -> Seq<char>
    decreases ts.len(),
{
    if ts.len() == 0 {
        seq![]
    } else {
        text_of(ts.drop_last()) + ts.last().text()
    }
}

/// The tokens of an optional `::`.
pub open spec fn opt_tokens(o: Option<Seq<TokenTree>>) -> Seq<TokenTree> {
    match o {
        Some(ts) => ts,
        None => seq![],
    }
}

/// A path: an optional leading `::`, an identifier, then any number of `::`
/// and an identifier; its value is the text of all these tokens.
pub open spec fn spec_parse_ident(inp: InputView) -> Parsed<Seq<char>> {
    match spec_maybe(colon_colon_p(), inp) {
        Err(e) => Err(spec_augment(e, "failure while trying to parse maybe_cc"@)),
        Ok((maybe_cc, i1)) => match spec_parse_sym(i1) {
            Err(e) => Err(spec_augment(e, "failure while trying to parse sym"@)),
            Ok((sym, i2)) => match spec_star(colon_colon_sym_p(), i2) {
                Err(e) => Err(spec_augment(e, "failure while trying to parse tails"@)),
                Ok((tails, i3)) => Ok((text_of(opt_tokens(maybe_cc) + seq![sym] + tails.flatten_alt()), i3)),
            },
        },
    }
}

pub open spec fn ident_v() -> spec_fn(IntraIdent) -> Seq<char> {
    |i: IntraIdent| i@
}

proof fn lemma_colon_colon_advances(inp: InputView)
    ensures
        spec_parse_colon_colon(inp) matches Ok((_, rest)) ==> continues(rest, inp) && rest.0.len() < inp.0.len(),
{
    lemma_punct_advances(inp, ':', "expected ':'"@);
    if let Ok((_, i1)) = spec_parse_colon(inp) {
        lemma_punct_advances(i1, ':', "expected ':'"@);
        if let Ok((_, i2)) = spec_parse_colon(i1) {
            lemma_continues_trans(i2, i1, inp);
        }
    }
}

proof fn lemma_colon_colon_sym_advances(inp: InputView)
    ensures
        spec_parse_colon_colon_sym(inp) matches Ok((_, rest)) ==> continues(rest, inp) && rest.0.len() < inp.0.len(),
{
    lemma_colon_colon_advances(inp);
    if let Ok((_, i1)) = spec_parse_colon_colon(inp) {
        lemma_sym_advances(i1);
        if let Ok((_, i2)) = spec_parse_sym(i1) {
            lemma_continues_trans(i2, i1, inp);
        }
    }
}

proof fn lemma_colon_colon_sym_p()
    ensures
        advances(colon_colon_sym_p()),
        consumes(colon_colon_sym_p()),
{
    assert forall|inp: InputView| #[trigger] colon_colon_sym_p()(inp) is Ok implies
        continues(colon_colon_sym_p()(inp)->Ok_0.1, inp)
        && colon_colon_sym_p()(inp)->Ok_0.1.0.len() < inp.0.len() by {
        lemma_colon_colon_sym_advances(inp);
    }
}

proof fn lemma_ident_advances(inp: InputView)
    ensures
        spec_parse_ident(inp) matches Ok((_, rest)) ==> continues(rest, inp) && rest.0.len() < inp.0.len(),
{
    lemma_colon_colon_advances(inp);
    let i1 = spec_maybe(colon_colon_p(), inp)->Ok_0.1;
    if spec_parse_colon_colon(inp) is Err {
        lemma_continues_refl(inp);
    }
    assert(continues(i1, inp));
    lemma_sym_advances(i1);
    if let Ok((_, i2)) = spec_parse_sym(i1) {
        lemma_colon_colon_sym_p();
        lemma_many_advances(colon_colon_sym_p(), i2);
        let i3 = spec_many(colon_colon_sym_p(), i2).1;
        lemma_continues_trans(i3, i2, i1);
        lemma_continues_trans(i3, i1, inp);
    }
}

fn parse_arrow<'a>(input: Input<'a>) -> (res: ParseResult<'a, Vec<&'a TokenTree>>)
    ensures
        lift(res, tokens_v()) == spec_parse_arrow(input@),
{
    let (eq, input) = match parse_eq(input) {
        Ok(x) => x,
        Err(e) => return Err(e.augment("failure while trying to parse eq".to_owned())),
    };
    let (gt, input) = match parse_gt(input) {
        Ok(x) => x,
        Err(e) => return Err(e.augment("failure while trying to parse gt".to_owned())),
    };
    let mut v = Vec::new();
    v.push(eq);
    v.push(gt);
    assert(v@.map_values(|t: &'a TokenTree| *t) =~= seq![*eq, *gt]);
    Ok((v, input))
}

fn parse_colon_colon<'a>(input: Input<'a>) -> (res: ParseResult<'a, Vec<&'a TokenTree>>)
    ensures
        lift(res, tokens_v()) == spec_parse_colon_colon(input@),
{
    let (colon, input) = match parse_colon(input) {
        Ok(x) => x,
        Err(err) => return Err(err.augment("'::' is missing first ':'".to_owned())),
    };
    match parse_colon(input) {
        Ok((colon_2, input)) => {
            let mut v = Vec::new();
            v.push(colon);
            v.push(colon_2);
            assert(v@.map_values(|t: &'a TokenTree| *t) =~= seq![*colon, *colon_2]);
            Ok((v, input))
        },
        Err(err) => Err(err.augment("'::' is missing second ':'".to_owned())),
    }
}

fn parse_colon_colon_sym<'a>(input: Input<'a>) -> (res: ParseResult<'a, Vec<&'a TokenTree>>)
    ensures
        lift(res, tokens_v()) == spec_parse_colon_colon_sym(input@),
{
    let (cc, input) = match parse_colon_colon(input) {
        Ok(x) => x,
        Err(e) => return Err(e.augment("failure while trying to parse cc".to_owned())),
    };
    let (sym, input) = match parse_sym(input) {
        Ok(x) => x,
        Err(e) => return Err(e.augment("failure while trying to parse sym".to_owned())),
    };
    let mut cc = cc;
    let ghost before = cc@.map_values(|t: &'a TokenTree| *t);
    cc.push(sym);
    assert(cc@.map_values(|t: &'a TokenTree| *t) =~= before.push(*sym));
    Ok((cc, input))
}

fn parse_ident<'a>(input: Input<'a>) -> (res: ParseResult<'a, IntraIdent>)
    ensures
        lift(res, ident_v()) == spec_parse_ident(input@),
{
    proof {
        lemma_colon_colon_sym_p();
    }
    let (maybe_cc, input) = match maybe::<Vec<&TokenTree>, Seq<TokenTree>, _>(&parse_colon_colon, Ghost(colon_colon_p()), Ghost(tokens_v()), input) {
        Ok(x) => x,
        Err(e) => return Err(e.augment("failure while trying to parse maybe_cc".to_owned())),
    };
    let (sym, input) = match parse_sym(input) {
        Ok(x) => x,
        Err(e) => return Err(e.augment("failure while trying to parse sym".to_owned())),
    };
    proof {
        lemma_consumes_from(colon_colon_sym_p(), input@);
    }
    let (tails, input) = match zero_or_more::<Vec<&TokenTree>, Seq<TokenTree>, _>(&parse_colon_colon_sym, Ghost(colon_colon_sym_p()), Ghost(tokens_v()), input) {
        Ok(x) => x,
        Err(e) => return Err(e.augment("failure while trying to parse tails".to_owned())),
    };
    let ghost tails_v = tails@.map_values(tokens_v());
    let mut all: Vec<&'a TokenTree> = match maybe_cc {
        Some(cc) => cc,
        None => Vec::new(),
    };
    let ghost head = all@.map_values(|t: &'a TokenTree| *t);
    assert(head == opt_tokens(opt_v(tokens_v())(maybe_cc)));
    all.push(sym);
    let ghost prefix = head + seq![*sym];
    assert(all@.map_values(|t: &'a TokenTree| *t) =~= prefix);
    let mut j: usize = 0;
    while j < tails.len()
        invariant
            0 <= j <= tails@.len(),
            tails_v == tails@.map_values(tokens_v()),
            all@.map_values(|t: &'a TokenTree| *t) == prefix + tails_v.take(j as int).flatten_alt(),
        decreases tails@.len() - j,
    {
        let tail = &tails[j];
        let mut k: usize = 0;
        let ghost base = all@.map_values(|t: &'a TokenTree| *t);
        while k < tail.len()
            invariant
                0 <= k <= tail@.len(),
                j < tails@.len(),
                tail == tails@[j as int],
                all@.map_values(|t: &'a TokenTree| *t) == base + tail@.map_values(|t: &'a TokenTree| *t).take(k as int),
            decreases tail@.len() - k,
        {
            let ghost before = all@.map_values(|t: &'a TokenTree| *t);
            all.push(tail[k]);
            assert(all@.map_values(|t: &'a TokenTree| *t) =~= before.push(*tail@[k as int]));
            assert(tail@.map_values(|t: &'a TokenTree| *t).take(k + 1) =~= tail@.map_values(|t: &'a TokenTree| *t).take(k as int).push(*tail@[k as int]));
            k = k + 1;
        }
        assert(tail@.map_values(|t: &'a TokenTree| *t).take(k as int) =~= tails_v[j as int]);
        assert(tails_v.take(j + 1).drop_last() =~= tails_v.take(j as int));
        assert(prefix + tails_v.take(j + 1).flatten_alt() =~= prefix + tails_v.take(j as int).flatten_alt() + tails_v[j as int]);
        j = j + 1;
    }
    assert(tails_v.take(j as int) =~= tails_v);
    let ghost all_v = all@.map_values(|t: &'a TokenTree| *t);
    let mut code = String::new();
    let mut i: usize = 0;
    while i < all.len()
        invariant
            0 <= i <= all@.len(),
            all_v == all@.map_values(|t: &'a TokenTree| *t),
            code@ == text_of(all_v.take(i as int)),
        decreases all@.len() - i,
    {
        let piece = all[i].to_string();
        code.append(piece.as_str());
        assert(all_v.take(i + 1).drop_last() =~= all_v.take(i as int));
        i = i + 1;
    }
    assert(all_v.take(i as int) =~= all_v);
    Ok((IntraIdent::new(code), input))
}

// ---------------------------------------------------------------- pattern elements

/// A path followed by `$`: the function that values are passed through
/// before they are matched.
pub open spec fn spec_parse_pre_map(inp: InputView) -> Parsed<Seq<char>> {
    match spec_parse_ident(inp) {
        Err(e) => Err(spec_augment(e, "failure while trying to parse ident"@)),
        Ok((ident, i1)) => match spec_parse_app(i1) {
            Err(e) => Err(spec_augment(e, "failure while trying to parse _app"@)),
            Ok((_, i2)) => Ok((ident, i2)),
        },
    }
}

pub open spec fn pre_map_p() -> SpecParser<Seq<char>> {
    |inp: InputView| spec_parse_pre_map(inp)
}

pub open spec fn ident_p() -> SpecParser<Seq<char>> {
    |inp: InputView| spec_parse_ident(inp)
}

/// A path followed by `,`.
pub open spec fn spec_parse_ident_comma(inp: InputView) -> Parsed<Seq<char>> {
    match spec_parse_ident(inp) {
        Err(e) => Err(spec_augment(e, "failure while trying to parse ident"@)),
        Ok((ident, i1)) => match spec_parse_comma(i1) {
            Err(e) => Err(spec_augment(e, "failure while trying to parse _comma"@)),
            Ok((_, i2)) => Ok((ident, i2)),
        },
    }
}

pub open spec fn ident_comma_p() -> SpecParser<Seq<char>> {
    |inp: InputView| spec_parse_ident_comma(inp)
}

/// Paths separated by `,`, with an optional trailing `,`; possibly none.
pub open spec fn spec_parse_ident_list(inp: InputView) -> Parsed<Seq<Seq<char>>> {
    match spec_star(ident_comma_p(), inp) {
        Err(e) => Err(spec_augment(e, "failure while trying to parse idents"@)),
        Ok((idents, i1)) => match spec_maybe(ident_p(), i1) {
            Err(e) => Err(spec_augment(e, "failure while trying to parse m_ident"@)),
            Ok((m_ident, i2)) => Ok((
                match m_ident {
                    Some(ident) => idents.push(ident),
                    None => idents,
                },
                i2,
            )),
        },
    }
}

/// The abstract value of a pattern element: its pre-map, pattern and bound names.
pub type SpecPatternElement = (Option<Seq<char>>, Seq<char>, Seq<Seq<char>>);

/// An optional pre-map, a bracket group, and a list of paths to bind.
pub open spec fn spec_parse_pattern_element(inp: InputView) -> Parsed<SpecPatternElement> {
    match spec_maybe(pre_map_p(), inp) {
        Err(e) => Err(spec_augment(e, "failure while trying to parse m_ident"@)),
        Ok((m_ident, i1)) => match spec_parse_pattern_bracket(i1) {
            Err(e) => Err(spec_augment(e, "failure while trying to parse pattern"@)),
            Ok((pattern, i2)) => match spec_parse_ident_list(i2) {
                Err(e) => Err(spec_augment(e, "failure while trying to parse idents"@)),
                Ok((idents, i3)) => Ok(((m_ident, pattern, idents), i3)),
            },
        },
    }
}

pub open spec fn pattern_v() -> spec_fn(Pattern) -> Seq<char> {
    |p: Pattern| p@
}

pub open spec fn execute_v() -> spec_fn(Execute) -> Seq<char> {
    |e: Execute| e@
}

pub open spec fn idents_v() -> spec_fn(Vec<IntraIdent>) -> Seq<Seq<char>> {
    |v: Vec<IntraIdent>| v@.map_values(|i: IntraIdent| i@)
}

pub open spec fn pattern_element_v() -> spec_fn((Option<IntraIdent>, Pattern, Vec<IntraIdent>)) -> SpecPatternElement {
    |t: (Option<IntraIdent>, Pattern, Vec<IntraIdent>)| (opt_v(ident_v())(t.0), t.1@, idents_v()(t.2))
}

proof fn lemma_pre_map_advances(inp: InputView)
    ensures
        spec_parse_pre_map(inp) matches Ok((_, rest)) ==> continues(rest, inp) && rest.0.len() < inp.0.len(),
{
    lemma_ident_advances(inp);
    if let Ok((_, i1)) = spec_parse_ident(inp) {
        lemma_punct_advances(i1, '$', "expected '$'"@);
        if let Ok((_, i2)) = spec_parse_app(i1) {
            lemma_continues_trans(i2, i1, inp);
        }
    }
}

proof fn lemma_ident_comma_advances(inp: InputView)
    ensures
        spec_parse_ident_comma(inp) matches Ok((_, rest)) ==> continues(rest, inp) && rest.0.len() < inp.0.len(),
{
    lemma_ident_advances(inp);
    if let Ok((_, i1)) = spec_parse_ident(inp) {
        lemma_punct_advances(i1, ',', "expected ','"@);
        if let Ok((_, i2)) = spec_parse_comma(i1) {
            lemma_continues_trans(i2, i1, inp);
        }
    }
}

proof fn lemma_ident_comma_p()
    ensures
        advances(ident_comma_p()),
        consumes(ident_comma_p()),
{
    assert forall|inp: InputView| #[trigger] ident_comma_p()(inp) is Ok implies
        continues(ident_comma_p()(inp)->Ok_0.1, inp)
        && ident_comma_p()(inp)->Ok_0.1.0.len() < inp.0.len() by {
        lemma_ident_comma_advances(inp);
    }
}

proof fn lemma_ident_list_advances(inp: InputView)
    ensures
        spec_parse_ident_list(inp) matches Ok((_, rest)) ==> continues(rest, inp),
{
    lemma_ident_comma_p();
    lemma_many_advances(ident_comma_p(), inp);
    let i1 = spec_many(ident_comma_p(), inp).1;
    lemma_ident_advances(i1);
    if spec_parse_ident(i1) is Err {
        lemma_continues_refl(i1);
    }
    let i2 = spec_maybe(ident_p(), i1)->Ok_0.1;
    lemma_continues_trans(i2, i1, inp);
}

proof fn lemma_pattern_element_advances(inp: InputView)
    ensures
        spec_parse_pattern_element(inp) matches Ok((_, rest)) ==> continues(rest, inp) && rest.0.len() < inp.0.len(),
{
    lemma_pre_map_advances(inp);
    if spec_parse_pre_map(inp) is Err {
        lemma_continues_refl(inp);
    }
    let i1 = spec_maybe(pre_map_p(), inp)->Ok_0.1;
    lemma_group_advances(i1, Delimiter::Bracket);
    if let Ok((_, i2)) = spec_parse_pattern_bracket(i1) {
        lemma_ident_list_advances(i2);
        let i3 = spec_parse_ident_list(i2)->Ok_0.1;
        lemma_continues_trans(i3, i2, i1);
        lemma_continues_trans(i3, i1, inp);
    }
}

fn parse_pre_map<'a>(input: Input<'a>) -> (res: ParseResult<'a, IntraIdent>)
    ensures
        lift(res, ident_v()) == spec_parse_pre_map(input@),
{
    let (ident, input) = match parse_ident(input) {
        Ok(x) => x,
        Err(e) => return Err(e.augment("failure while trying to parse ident".to_owned())),
    };
    let (_app, input) = match parse_app(input) {
        Ok(x) => x,
        Err(e) => return Err(e.augment("failure while trying to parse _app".to_owned())),
    };
    Ok((ident, input))
}

fn parse_pattern_bracket<'a>(input: Input<'a>) -> (res: ParseResult<'a, Pattern>)
    ensures
        lift(res, pattern_v()) == spec_parse_pattern_bracket(input@),
{
    match parse_group(input, Delimiter::Bracket) {
        Ok((stream, rest)) => Ok((Pattern::new(stream), rest)),
        Err(e) => Err(e),
    }
}

fn parse_execute<'a>(input: Input<'a>) -> (res: ParseResult<'a, Execute>)
    ensures
        lift(res, execute_v()) == spec_parse_execute(input@),
{
    match parse_group(input, Delimiter::Brace) {
        Ok((stream, rest)) => Ok((Execute::new(stream), rest)),
        Err(e) => Err(e),
    }
}

fn parse_ident_comma<'a>(input: Input<'a>) -> (res: ParseResult<'a, IntraIdent>)
    ensures
        lift(res, ident_v()) == spec_parse_ident_comma(input@),
{
    let (ident, input) = match parse_ident(input) {
        Ok(x) => x,
        Err(e) => return Err(e.augment("failure while trying to parse ident".to_owned())),
    };
    let (_comma, input) = match parse_comma(input) {
        Ok(x) => x,
        Err(e) => return Err(e.augment("failure while trying to parse _comma".to_owned())),
    };
    Ok((ident, input))
}

fn parse_ident_list<'a>(input: Input<'a>) -> (res: ParseResult<'a, Vec<IntraIdent>>)
    ensures
        lift(res, idents_v()) == spec_parse_ident_list(input@),
{
    proof {
        lemma_ident_comma_p();
    }
    proof {
        lemma_consumes_from(ident_comma_p(), input@);
    }
    let (idents, input) = match zero_or_more::<IntraIdent, Seq<char>, _>(&parse_ident_comma, Ghost(ident_comma_p()), Ghost(ident_v()), input) {
        Ok(x) => x,
        Err(e) => return Err(e.augment("failure while trying to parse idents".to_owned())),
    };
    let (m_ident, input) = match maybe::<IntraIdent, Seq<char>, _>(&parse_ident, Ghost(ident_p()), Ghost(ident_v()), input) {
        Ok(x) => x,
        Err(e) => return Err(e.augment("failure while trying to parse m_ident".to_owned())),
    };
    let mut idents = idents;
    let ghost before = idents@.map_values(|i: IntraIdent| i@);
    assert(before == idents@.map_values(ident_v()));
    match m_ident {
        Some(ident) => {
            idents.push(ident);
            assert(idents@.map_values(|i: IntraIdent| i@) =~= before.push(ident@));
        },
        None => {},
    }
    Ok((idents, input))
}

fn parse_pattern_element<'a>(input: Input<'a>) -> (res: ParseResult<'a, (Option<IntraIdent>, Pattern, Vec<IntraIdent>)>)
    ensures
        lift(res, pattern_element_v()) == spec_parse_pattern_element(input@),
{
    let (m_ident, input) = match maybe::<IntraIdent, Seq<char>, _>(&parse_pre_map, Ghost(pre_map_p()), Ghost(ident_v()), input) {
        Ok(x) => x,
        Err(e) => return Err(e.augment("failure while trying to parse m_ident".to_owned())),
    };
    let (pattern, input) = match parse_pattern_bracket(input) {
        Ok(x) => x,
        Err(e) => return Err(e.augment("failure while trying to parse pattern".to_owned())),
    };
    let (idents, input) = match parse_ident_list(input) {
        Ok(x) => x,
        Err(e) => return Err(e.augment("failure while trying to parse idents".to_owned())),
    };
    Ok(((m_ident, pattern, idents), input))
}

// ---------------------------------------------------------------- atoms

pub open spec fn pattern_element_p() -> SpecParser<SpecPatternElement> {
    |inp: InputView| spec_parse_pattern_element(inp)
}

pub open spec fn execute_p() -> SpecParser<Seq<char>> {
    |inp: InputView| spec_parse_execute(inp)
}

pub open spec fn to_pattern_elt() -> spec_fn(SpecPatternElement) -> SpecAtomElement {
    |t: SpecPatternElement| SpecAtomElement::Pattern { pre_map: t.0, pattern: t.1, next: t.2 }
}

pub open spec fn to_execute_elt() -> spec_fn(Seq<char>) -> SpecAtomElement {
    |c: Seq<char>| SpecAtomElement::Execute(c)
}

pub open spec fn atom_element_v() -> spec_fn(AtomElement) -> SpecAtomElement {
    |e: AtomElement| e@
}

/// A pattern element if one parses here, else code to execute; if neither
/// does, an error at the span where the code failed.
pub open spec fn spec_parse_execute_or_pattern(inp: InputView) -> Parsed<SpecAtomElement> {
    match spec_map(pattern_element_p(), to_pattern_elt(), inp) {
        Ok(x) => Ok(x),
        Err(_) => match spec_map(execute_p(), to_execute_elt(), inp) {
            Ok(x) => Ok(x),
            Err(e) => Err(spec_error(e.0, "alt failed all parses: pattern, execute"@)),
        },
    }
}

/// An element followed by `;`.
pub open spec fn spec_parse_execute_or_pattern_semicolon(inp: InputView) -> Parsed<SpecAtomElement> {
    match spec_parse_execute_or_pattern(inp) {
        Err(e) => Err(spec_augment(e, "failure while trying to parse execute_or_pattern"@)),
        Ok((x, i1)) => match spec_parse_semicolon(i1) {
            Err(e) => Err(spec_augment(e, "failure while trying to parse _semicolon"@)),
            Ok((_, i2)) => Ok((x, i2)),
        },
    }
}

pub open spec fn execute_or_pattern_semicolon_p() -> SpecParser<SpecAtomElement> {
    |inp: InputView| spec_parse_execute_or_pattern_semicolon(inp)
}

/// Elements separated by `;`, at least one, with no `;` after the last.
pub open spec fn spec_parse_execute_or_pattern_list(inp: InputView) -> Parsed<Seq<SpecAtomElement>> {
    match spec_star(execute_or_pattern_semicolon_p(), inp) {
        Err(e) => Err(spec_augment(e, "failure while trying to parse execute_or_pattern_list"@)),
        Ok((xs, i1)) => match spec_parse_execute_or_pattern(i1) {
            Err(e) => Err(spec_augment(e, "failure while trying to parse tail_execute_or_pattern"@)),
            Ok((x, i2)) => Ok((xs.push(x), i2)),
        },
    }
}

/// A whole atom: `init => elements => { resolve }`.
pub open spec fn spec_parse_atom(inp: InputView) -> Parsed<SpecAtom> {
    match spec_parse_ident(inp) {
        Err(e) => Err(spec_augment(e, "failure while trying to parse init"@)),
        Ok((init, i1)) => match spec_parse_arrow(i1) {
            Err(e) => Err(spec_augment(e, "failure while trying to parse _arrow_1"@)),
            Ok((_, i2)) => match spec_parse_execute_or_pattern_list(i2) {
                Err(e) => Err(spec_augment(e, "failure while trying to parse seq"@)),
                Ok((seq, i3)) => match spec_parse_arrow(i3) {
                    Err(e) => Err(spec_augment(e, "failure while trying to parse _arrow_2"@)),
                    Ok((_, i4)) => match spec_parse_execute(i4) {
                        Err(e) => Err(spec_augment(e, "failure while trying to parse resolve"@)),
                        Ok((resolve, i5)) => Ok((SpecAtom { init, seq, resolve }, i5)),
                    },
                },
            },
        },
    }
}

pub open spec fn atom_v() -> spec_fn(Atom) -> SpecAtom {
    |a: Atom| a@
}

proof fn lemma_execute_or_pattern_advances(inp: InputView)
    ensures
        spec_parse_execute_or_pattern(inp) matches Ok((_, rest)) ==> continues(rest, inp) && rest.0.len() < inp.0.len(),
{
    lemma_pattern_element_advances(inp);
    lemma_group_advances(inp, Delimiter::Brace);
}

proof fn lemma_execute_or_pattern_semicolon_advances(inp: InputView)
    ensures
        spec_parse_execute_or_pattern_semicolon(inp) matches Ok((_, rest)) ==> continues(rest, inp) && rest.0.len() < inp.0.len(),
{
    lemma_execute_or_pattern_advances(inp);
    if let Ok((_, i1)) = spec_parse_execute_or_pattern(inp) {
        lemma_punct_advances(i1, ';', "expected ';'"@);
        if let Ok((_, i2)) = spec_parse_semicolon(i1) {
            lemma_continues_trans(i2, i1, inp);
        }
    }
}

proof fn lemma_execute_or_pattern_semicolon_p()
    ensures
        advances(execute_or_pattern_semicolon_p()),
        consumes(execute_or_pattern_semicolon_p()),
{
    assert forall|inp: InputView| #[trigger] execute_or_pattern_semicolon_p()(inp) is Ok implies
        continues(execute_or_pattern_semicolon_p()(inp)->Ok_0.1, inp)
        && execute_or_pattern_semicolon_p()(inp)->Ok_0.1.0.len() < inp.0.len() by {
        lemma_execute_or_pattern_semicolon_advances(inp);
    }
}

fn parse_execute_or_pattern<'a>(input: Input<'a>) -> (res: ParseResult<'a, AtomElement>)
    ensures
        lift(res, atom_element_v()) == spec_parse_execute_or_pattern(input@),
{
    let pattern = |t: (Option<IntraIdent>, Pattern, Vec<IntraIdent>)| -> (r: AtomElement)
        ensures
            r@ == to_pattern_elt()(pattern_element_v()(t)),
        {
            let (pre_map, pattern, next) = t;
            AtomElement::Pattern { pre_map, pattern, next }
        };
    let execute = |x: Execute| -> (r: AtomElement)
        ensures
            r@ == to_execute_elt()(execute_v()(x)),
        { AtomElement::Execute(x) };
    let first = map::<(Option<IntraIdent>, Pattern, Vec<IntraIdent>), AtomElement, SpecPatternElement, SpecAtomElement, _, _>(
        &parse_pattern_element,
        Ghost(pattern_element_p()),
        Ghost(pattern_element_v()),
        &pattern,
        Ghost(to_pattern_elt()),
        Ghost(atom_element_v()),
        input,
    );
    if let Ok(x) = first {
        return Ok(x);
    }
    let second = map::<Execute, AtomElement, Seq<char>, SpecAtomElement, _, _>(
        &parse_execute,
        Ghost(execute_p()),
        Ghost(execute_v()),
        &execute,
        Ghost(to_execute_elt()),
        Ghost(atom_element_v()),
        input,
    );
    match second {
        Ok(x) => Ok(x),
        Err(e) => Err(Error::new(e.span(), "alt failed all parses: pattern, execute".to_owned())),
    }
}

fn parse_execute_or_pattern_semicolon<'a>(input: Input<'a>) -> (res: ParseResult<'a, AtomElement>)
    ensures
        lift(res, atom_element_v()) == spec_parse_execute_or_pattern_semicolon(input@),
{
    let (execute_or_pattern, input) = match parse_execute_or_pattern(input) {
        Ok(x) => x,
        Err(e) => return Err(e.augment("failure while trying to parse execute_or_pattern".to_owned())),
    };
    let (_semicolon, input) = match parse_semicolon(input) {
        Ok(x) => x,
        Err(e) => return Err(e.augment("failure while trying to parse _semicolon".to_owned())),
    };
    Ok((execute_or_pattern, input))
}

fn parse_execute_or_pattern_list<'a>(input: Input<'a>) -> (res: ParseResult<'a, Vec<AtomElement>>)
    ensures
        lift(res, vec_v(atom_element_v())) == spec_parse_execute_or_pattern_list(input@),
{
    proof {
        lemma_execute_or_pattern_semicolon_p();
    }
    proof {
        lemma_consumes_from(execute_or_pattern_semicolon_p(), input@);
    }
    let (execute_or_pattern_list, input) = match zero_or_more::<AtomElement, SpecAtomElement, _>(
        &parse_execute_or_pattern_semicolon,
        Ghost(execute_or_pattern_semicolon_p()),
        Ghost(atom_element_v()),
        input,
    ) {
        Ok(x) => x,
        Err(e) => return Err(e.augment("failure while trying to parse execute_or_pattern_list".to_owned())),
    };
    let (tail_execute_or_pattern, input) = match parse_execute_or_pattern(input) {
        Ok(x) => x,
        Err(e) => return Err(e.augment("failure while trying to parse tail_execute_or_pattern".to_owned())),
    };
    let mut xs = execute_or_pattern_list;
    let ghost before = xs@.map_values(atom_element_v());
    xs.push(tail_execute_or_pattern);
    assert(xs@.map_values(atom_element_v()) =~= before.push(tail_execute_or_pattern@));
    Ok((xs, input))
}

/// Parses an atom: `init => elements => { resolve }`, where each element is
/// `[pattern] names` (with an optional `pre_map $` before the pattern) or
/// `{ code }`, elements are separated by `;`, and names by `,`.
pub fn parse_atom<'a>(input: Input<'a>) -> (res: ParseResult<'a, Atom>)
    ensures
        lift(res, atom_v()) == spec_parse_atom(input@),
{
    let (init, input) = match parse_ident(input) {
        Ok(x) => x,
        Err(e) => return Err(e.augment("failure while trying to parse init".to_owned())),
    };
    let (_arrow_1, input) = match parse_arrow(input) {
        Ok(x) => x,
        Err(e) => return Err(e.augment("failure while trying to parse _arrow_1".to_owned())),
    };
    let (seq, input) = match parse_execute_or_pattern_list(input) {
        Ok(x) => x,
        Err(e) => return Err(e.augment("failure while trying to parse seq".to_owned())),
    };
    let (_arrow_2, input) = match parse_arrow(input) {
        Ok(x) => x,
        Err(e) => return Err(e.augment("failure while trying to parse _arrow_2".to_owned())),
    };
    let (resolve, input) = match parse_execute(input) {
        Ok(x) => x,
        Err(e) => return Err(e.augment("failure while trying to parse resolve".to_owned())),
    };
    assert(seq@.map_values(atom_element_v()) =~= crate::data::elements_view(seq@));
    Ok((Atom { init, seq, resolve }, input))
}

// ---------------------------------------------------------------- laws

proof fn lemma_arrow_advances(inp: InputView)
    ensures
        spec_parse_arrow(inp) matches Ok((_, rest)) ==> continues(rest, inp) && rest.0.len() < inp.0.len(),
{
    lemma_punct_advances(inp, '=', "expected '='"@);
    if let Ok((_, i1)) = spec_parse_eq(inp) {
        lemma_punct_advances(i1, '>', "expected '>'"@);
        if let Ok((_, i2)) = spec_parse_gt(i1) {
            lemma_continues_trans(i2, i1, inp);
        }
    }
}

proof fn lemma_execute_or_pattern_list_advances(inp: InputView)
    ensures
        spec_parse_execute_or_pattern_list(inp) matches Ok((_, rest)) ==> continues(rest, inp) && rest.0.len() < inp.0.len(),
{
    lemma_execute_or_pattern_semicolon_p();
    lemma_many_advances(execute_or_pattern_semicolon_p(), inp);
    let i1 = spec_many(execute_or_pattern_semicolon_p(), inp).1;
    lemma_execute_or_pattern_advances(i1);
    if let Ok((_, i2)) = spec_parse_execute_or_pattern(i1) {
        lemma_continues_trans(i2, i1, inp);
    }
}

/// A successful parse of an atom consumes some of the first tokens of its
/// input, at least one; what it leaves is the rest of the tokens, with the
/// span of the last token consumed.
pub proof fn lemma_parse_atom_continues(inp: InputView)
    ensures
        spec_parse_atom(inp) matches Ok((_, rest)) ==> continues(rest, inp) && rest.0.len() < inp.0.len(),
{
    lemma_ident_advances(inp);
    if let Ok((_, i1)) = spec_parse_ident(inp) {
        lemma_arrow_advances(i1);
        if let Ok((_, i2)) = spec_parse_arrow(i1) {
            lemma_continues_trans(i2, i1, inp);
            lemma_execute_or_pattern_list_advances(i2);
            if let Ok((_, i3)) = spec_parse_execute_or_pattern_list(i2) {
                lemma_continues_trans(i3, i2, inp);
                lemma_arrow_advances(i3);
                if let Ok((_, i4)) = spec_parse_arrow(i3) {
                    lemma_continues_trans(i4, i3, inp);
                    lemma_group_advances(i4, Delimiter::Brace);
                    if let Ok((_, i5)) = spec_parse_execute(i4) {
                        lemma_continues_trans(i5, i4, inp);
                    }
                }
            }
        }
    }
}

/// A failed parse of an atom reports at least one message, the last of which
/// names the part of the atom that failed to parse.
pub proof fn lemma_parse_atom_error(inp: InputView)
    ensures
        spec_parse_atom(inp) matches Err(e) ==> {
            &&& e.1.len() >= 1
            &&& {
                ||| e.1.last() == "failure while trying to parse init"@
                ||| e.1.last() == "failure while trying to parse _arrow_1"@
                ||| e.1.last() == "failure while trying to parse seq"@
                ||| e.1.last() == "failure while trying to parse _arrow_2"@
                ||| e.1.last() == "failure while trying to parse resolve"@
            }
        },
{
}

/// A list of names always parses, though it may be empty.
pub proof fn lemma_ident_list_total(inp: InputView)
    ensures
        spec_parse_ident_list(inp) is Ok,
{
}

/// The tokens that a parse consumed from `inp`, leaving `rest`.
pub open spec fn consumed(rest: InputView, inp: InputView) -> Seq<TokenTree> {
    inp.0.take(inp.0.len() - rest.0.len())
}

/// On success, the value of `p` is the tokens it consumed.
pub open spec fn yields_consumed(p: SpecParser<Seq<TokenTree>>) -> bool {
    forall|inp: InputView| #[trigger]
        p(inp) is Ok ==> p(inp)->Ok_0.0 == consumed(p(inp)->Ok_0.1, inp)
}

proof fn lemma_consumed_concat(a: InputView, b: InputView, c: InputView)
    requires
        continues(b, a),
        continues(c, b),
    ensures
        consumed(c, a) == consumed(b, a) + consumed(c, b),
{
    let n = a.0.len() - b.0.len();
    let m = b.0.len() - c.0.len();
    assert forall|i: int| 0 <= i < m implies #[trigger] consumed(c, b)[i] == a.0[n + i] by {
        assert(b.0[i] == a.0.subrange(n, a.0.len() as int)[i]);
    }
    assert(consumed(c, a) =~= consumed(b, a) + consumed(c, b));
}

proof fn lemma_colon_colon_sym_yields(inp: InputView)
    ensures
        spec_parse_colon_colon_sym(inp) matches Ok((v, rest)) ==> v == consumed(rest, inp),
{
    if let Ok((v, rest)) = spec_parse_colon_colon_sym(inp) {
        assert(inp.0.len() >= 3);
        assert(v =~= consumed(rest, inp));
    }
}

proof fn lemma_many_yields(p: SpecParser<Seq<TokenTree>>, inp: InputView)
    requires
        advances(p),
        yields_consumed(p),
    ensures
        spec_many(p, inp).0.flatten() == consumed(spec_many(p, inp).1, inp),
    decreases inp.0.len(),
{
    match p(inp) {
        Ok((v, rest)) => {
            if rest.0.len() < inp.0.len() {
                lemma_many_yields(p, rest);
                lemma_many_advances(p, rest);
                let (vs, last) = spec_many(p, rest);
                let all = seq![v] + vs;
                assert(p(inp) is Ok);
                assert(v == consumed(rest, inp));
                assert(continues(rest, inp));
                assert(all.first() == v);
                assert(all.drop_first() =~= vs);
                assert(all.flatten() == v + vs.flatten());
                lemma_consumed_concat(inp, rest, last);
                assert(spec_many(p, inp) == (all, last));
            } else {
                let all = seq![v];
                assert(p(inp) is Ok);
                assert(v == consumed(rest, inp));
                assert(all.drop_first() =~= Seq::<Seq<TokenTree>>::empty());
                assert(all.flatten() == v + all.drop_first().flatten());
                assert(v + Seq::<TokenTree>::empty() =~= v);
            }
        },
        Err(_) => {
            assert(consumed(inp, inp) =~= Seq::<TokenTree>::empty());
        },
    }
}

/// The text of a parsed path is the text of exactly the tokens it consumed.
pub proof fn lemma_parse_ident_text(inp: InputView)
    ensures
        spec_parse_ident(inp) matches Ok((id, rest)) ==> id == text_of(consumed(rest, inp)),
{
    lemma_colon_colon_sym_p();
    assert forall|i: InputView| #[trigger] colon_colon_sym_p()(i) is Ok implies
        colon_colon_sym_p()(i)->Ok_0.0 == consumed(colon_colon_sym_p()(i)->Ok_0.1, i) by {
        lemma_colon_colon_sym_yields(i);
    }
    lemma_colon_colon_advances(inp);
    let (maybe_cc, i1) = spec_maybe(colon_colon_p(), inp)->Ok_0;
    if let Ok((cc, r)) = spec_parse_colon_colon(inp) {
        assert(cc =~= consumed(r, inp));
    } else {
        lemma_continues_refl(inp);
        assert(consumed(inp, inp) =~= Seq::<TokenTree>::empty());
    }
    assert(opt_tokens(maybe_cc) == consumed(i1, inp));
    lemma_sym_advances(i1);
    if let Ok((sym, i2)) = spec_parse_sym(i1) {
        assert(seq![sym] =~= consumed(i2, i1));
        lemma_many_yields(colon_colon_sym_p(), i2);
        lemma_many_advances(colon_colon_sym_p(), i2);
        let (tails, i3) = spec_many(colon_colon_sym_p(), i2);
        tails.lemma_flatten_and_flatten_alt_are_equivalent();
        lemma_consumed_concat(inp, i1, i2);
        lemma_continues_trans(i2, i1, inp);
        lemma_consumed_concat(inp, i2, i3);
    }
}

// ---------------------------------------------------------------- laws on what is parsed

/// The text of two token sequences one after the other.
pub proof fn lemma_text_of_append(a: Seq<TokenTree>, b: Seq<TokenTree>)
    ensures
        text_of(a + b) == text_of(a) + text_of(b),
    decreases b.len(),
{
    if b.len() == 0 {
        assert(a + b =~= a);
    } else {
        lemma_text_of_append(a, b.drop_last());
        assert((a + b).drop_last() =~= a + b.drop_last());
        assert((a + b).last() == b.last());
    }
}

proof fn lemma_flatten_alt_cons(x: Seq<TokenTree>, ys: Seq<Seq<TokenTree>>)
    ensures
        (seq![x] + ys).flatten_alt() == x + ys.flatten_alt(),
{
    let all = seq![x] + ys;
    all.lemma_flatten_and_flatten_alt_are_equivalent();
    ys.lemma_flatten_and_flatten_alt_are_equivalent();
    assert(all.first() == x);
    assert(all.drop_first() =~= ys);
}

/// A token is a `:`.
pub open spec fn is_colon(t: TokenTree) -> bool {
    t matches TokenTree::Punct(p) && p.ch == ':'
}

/// A token is a `,`.
pub open spec fn is_comma(t: TokenTree) -> bool {
    t matches TokenTree::Punct(p) && p.ch == ','
}

/// A single identifier not followed by `:` is a whole path: its text is the
/// identifier's, and the parse consumes exactly that token.
pub proof fn lemma_ident_single(a: Ident, ts: Seq<TokenTree>, sp: Span)
    requires
        ts.len() == 0 || !is_colon(ts[0]),
    ensures
        spec_parse_ident((seq![TokenTree::Ident(a)] + ts, sp)) == Ok::<_, ErrorView>((a.name@, (ts, a.span))),
{
    let inp = (seq![TokenTree::Ident(a)] + ts, sp);
    assert(inp.0[0] == TokenTree::Ident(a));
    assert(inp.0.drop_first() =~= ts);
    assert(spec_parse_colon(inp) is Err);
    let i2 = (ts, a.span);
    assert(spec_parse_colon(i2) is Err);
    assert(spec_parse_colon_colon_sym(i2) is Err);
    assert(spec_many(colon_colon_sym_p(), i2) == (Seq::<Seq<TokenTree>>::empty(), i2));
    let toks = opt_tokens(None) + seq![TokenTree::Ident(a)] + Seq::<Seq<TokenTree>>::empty().flatten_alt();
    assert(toks =~= seq![TokenTree::Ident(a)]);
    assert(seq![TokenTree::Ident(a)].drop_last() =~= Seq::<TokenTree>::empty());
    assert(seq![TokenTree::Ident(a)].last().text() == a.name@);
    assert(text_of(seq![TokenTree::Ident(a)]) == text_of(Seq::<TokenTree>::empty()) + a.name@);
    assert(text_of(Seq::<TokenTree>::empty()) + a.name@ =~= a.name@);
}

/// A path `s :: t ...` is `s`, `::`, then the path `t ...`: its text is
/// `s::` followed by the text of the rest of the path, and both parses stop
/// at the same place. So a path of any number of segments is consumed whole.
pub proof fn lemma_ident_segments(s: Ident, c1: Punct, c2: Punct, t: Ident, ts: Seq<TokenTree>, sp: Span, sp2: Span)
    requires
        c1.ch == ':',
        c2.ch == ':',
    ensures
        spec_parse_ident((seq![TokenTree::Ident(t)] + ts, sp2)) is Ok,
        spec_parse_ident(
            (seq![TokenTree::Ident(s), TokenTree::Punct(c1), TokenTree::Punct(c2), TokenTree::Ident(t)] + ts, sp),
        ) == Ok::<_, ErrorView>((
            s.name@ + seq![':', ':'] + spec_parse_ident((seq![TokenTree::Ident(t)] + ts, sp2))->Ok_0.0,
            spec_parse_ident((seq![TokenTree::Ident(t)] + ts, sp2))->Ok_0.1,
        )),
{
    let big = (seq![TokenTree::Ident(s), TokenTree::Punct(c1), TokenTree::Punct(c2), TokenTree::Ident(t)] + ts, sp);
    let small = (seq![TokenTree::Ident(t)] + ts, sp2);
    // The small path: `t`, then its tails.
    assert(small.0[0] == TokenTree::Ident(t));
    assert(spec_parse_colon(small) is Err);
    let y = (ts, t.span);
    assert(small.0.drop_first() =~= ts);
    assert(spec_parse_sym(small) == Ok::<_, ErrorView>((TokenTree::Ident(t), y)));
    let (tails, r) = spec_many(colon_colon_sym_p(), y);
    let flat = tails.flatten_alt();
    assert(spec_parse_ident(small) == Ok::<_, ErrorView>(
        (text_of(opt_tokens(None) + seq![TokenTree::Ident(t)] + flat), r),
    ));
    // The big path: `s`, then `::t` and the same tails.
    assert(big.0[0] == TokenTree::Ident(s));
    assert(spec_parse_colon(big) is Err);
    let x = (seq![TokenTree::Punct(c1), TokenTree::Punct(c2), TokenTree::Ident(t)] + ts, s.span);
    assert(big.0.drop_first() =~= x.0);
    assert(spec_parse_sym(big) == Ok::<_, ErrorView>((TokenTree::Ident(s), x)));
    let x1 = (x.0.drop_first(), c1.span);
    assert(x.0[0] == TokenTree::Punct(c1));
    assert(x1.0[0] == TokenTree::Punct(c2));
    let x2 = (x1.0.drop_first(), c2.span);
    assert(spec_parse_colon(x) == Ok::<_, ErrorView>((TokenTree::Punct(c1), x1)));
    assert(spec_parse_colon(x1) == Ok::<_, ErrorView>((TokenTree::Punct(c2), x2)));
    assert(x2.0[0] == TokenTree::Ident(t));
    assert(x2.0.drop_first() =~= ts);
    assert(spec_parse_sym(x2) == Ok::<_, ErrorView>((TokenTree::Ident(t), y)));
    let seg = seq![TokenTree::Punct(c1), TokenTree::Punct(c2)].push(TokenTree::Ident(t));
    assert(spec_parse_colon_colon_sym(x) == Ok::<_, ErrorView>((seg, y)));
    assert(colon_colon_sym_p()(x) == spec_parse_colon_colon_sym(x));
    assert(spec_many(colon_colon_sym_p(), x) == (seq![seg] + tails, r));
    lemma_flatten_alt_cons(seg, tails);
    let big_toks = opt_tokens(None) + seq![TokenTree::Ident(s)] + (seq![seg] + tails).flatten_alt();
    assert(spec_parse_ident(big) == Ok::<_, ErrorView>((text_of(big_toks), r)));
    assert(big_toks =~= seq![TokenTree::Ident(s), TokenTree::Punct(c1), TokenTree::Punct(c2)] + (seq![TokenTree::Ident(t)] + flat));
    let small_toks = opt_tokens(None) + seq![TokenTree::Ident(t)] + flat;
    assert(small_toks =~= seq![TokenTree::Ident(t)] + flat);
    lemma_text_of_append(seq![TokenTree::Ident(s), TokenTree::Punct(c1), TokenTree::Punct(c2)], seq![TokenTree::Ident(t)] + flat);
    let head = seq![TokenTree::Ident(s), TokenTree::Punct(c1), TokenTree::Punct(c2)];
    assert(head.drop_last() =~= seq![TokenTree::Ident(s), TokenTree::Punct(c1)]);
    assert(head.drop_last().drop_last() =~= seq![TokenTree::Ident(s)]);
    assert(head.drop_last().drop_last().drop_last() =~= Seq::<TokenTree>::empty());
    let h1 = seq![TokenTree::Ident(s)];
    let h2 = seq![TokenTree::Ident(s), TokenTree::Punct(c1)];
    assert(h1.drop_last() =~= Seq::<TokenTree>::empty());
    assert(h1.last().text() == s.name@);
    assert(text_of(h1) == text_of(Seq::<TokenTree>::empty()) + s.name@);
    assert(text_of(h1) =~= s.name@);
    assert(h2.drop_last() =~= h1);
    assert(h2.last().text() == seq![':']);
    assert(text_of(h2) =~= s.name@ + seq![':']);
    assert(head.drop_last() =~= h2);
    assert(head.last().text() == seq![':']);
    assert(text_of(head) =~= s.name@ + seq![':', ':']);
}

/// A list of one name, not followed by `,` or `:`, is exactly that name.
pub proof fn lemma_ident_list_single(a: Ident, ts: Seq<TokenTree>, sp: Span)
    requires
        ts.len() == 0 || (!is_colon(ts[0]) && !is_comma(ts[0])),
    ensures
        spec_parse_ident_list((seq![TokenTree::Ident(a)] + ts, sp)) == Ok::<_, ErrorView>((seq![a.name@], (ts, a.span))),
{
    let inp = (seq![TokenTree::Ident(a)] + ts, sp);
    lemma_ident_single(a, ts, sp);
    assert(spec_parse_comma((ts, a.span)) is Err);
    assert(spec_parse_ident_comma(inp) is Err);
    assert(ident_comma_p()(inp) is Err);
    assert(spec_many(ident_comma_p(), inp) == (Seq::<Seq<char>>::empty(), inp));
    assert(ident_p()(inp) == spec_parse_ident(inp));
    assert(Seq::<Seq<char>>::empty().push(a.name@) =~= seq![a.name@]);
}

/// A list that starts with a name and `,` is that name followed by the list
/// after the comma; both parses stop at the same place. With the law above,
/// names separated by commas, with or without a comma at the end, give
/// exactly those names, in order.
pub proof fn lemma_ident_list_cons(a: Ident, c: Punct, ts: Seq<TokenTree>, sp: Span)
    requires
        c.ch == ',',
    ensures
        spec_parse_ident_list((ts, c.span)) is Ok,
        spec_parse_ident_list((seq![TokenTree::Ident(a), TokenTree::Punct(c)] + ts, sp)) == Ok::<_, ErrorView>((
            seq![a.name@] + spec_parse_ident_list((ts, c.span))->Ok_0.0,
            spec_parse_ident_list((ts, c.span))->Ok_0.1,
        )),
{
    let inp = (seq![TokenTree::Ident(a), TokenTree::Punct(c)] + ts, sp);
    let rest = (ts, c.span);
    let after_a = seq![TokenTree::Punct(c)] + ts;
    assert(inp.0 =~= seq![TokenTree::Ident(a)] + after_a);
    assert(after_a[0] == TokenTree::Punct(c));
    lemma_ident_single(a, after_a, sp);
    assert(after_a.drop_first() =~= ts);
    assert(spec_parse_comma((after_a, a.span)) == Ok::<_, ErrorView>((TokenTree::Punct(c), rest)));
    assert(spec_parse_ident_comma(inp) == Ok::<_, ErrorView>((a.name@, rest)));
    assert(ident_comma_p()(inp) == spec_parse_ident_comma(inp));
    let (vs, last) = spec_many(ident_comma_p(), rest);
    assert(spec_many(ident_comma_p(), inp) == (seq![a.name@] + vs, last));
    let m = spec_maybe(ident_p(), last)->Ok_0;
    match m.0 {
        Some(x) => {
            assert((seq![a.name@] + vs).push(x) =~= seq![a.name@] + vs.push(x));
        },
        None => {},
    }
}

/// An element list that starts with an element and `;` is that element
/// followed by the list after the `;`, with the same outcome otherwise.
pub proof fn lemma_element_list_cons(inp: InputView)
    requires
        spec_parse_execute_or_pattern_semicolon(inp) is Ok,
    ensures
        ({
            let (x, i1) = spec_parse_execute_or_pattern_semicolon(inp)->Ok_0;
            spec_parse_execute_or_pattern_list(inp) == match spec_parse_execute_or_pattern_list(i1) {
                Ok((xs, r)) => Ok((seq![x] + xs, r)),
                Err(e) => Err(e),
            }
        }),
{
    lemma_execute_or_pattern_semicolon_p();
    let (x, i1) = spec_parse_execute_or_pattern_semicolon(inp)->Ok_0;
    assert(execute_or_pattern_semicolon_p()(inp) == spec_parse_execute_or_pattern_semicolon(inp));
    assert(i1.0.len() < inp.0.len());
    let (vs, last) = spec_many(execute_or_pattern_semicolon_p(), i1);
    assert(spec_many(execute_or_pattern_semicolon_p(), inp) == (seq![x] + vs, last));
    if let Ok((y, _)) = spec_parse_execute_or_pattern(last) {
        assert((seq![x] + vs).push(y) =~= seq![x] + vs.push(y));
    }
}

/// A single element not followed by `;` is a list of exactly that element.
pub proof fn lemma_element_list_single(inp: InputView)
    requires
        spec_parse_execute_or_pattern(inp) is Ok,
        spec_parse_semicolon(spec_parse_execute_or_pattern(inp)->Ok_0.1) is Err,
    ensures
        spec_parse_execute_or_pattern_list(inp) == Ok::<_, ErrorView>((
            seq![spec_parse_execute_or_pattern(inp)->Ok_0.0],
            spec_parse_execute_or_pattern(inp)->Ok_0.1,
        )),
{
    assert(execute_or_pattern_semicolon_p()(inp) is Err);
    assert(spec_many(execute_or_pattern_semicolon_p(), inp) == (Seq::<SpecAtomElement>::empty(), inp));
    assert(Seq::<SpecAtomElement>::empty().push(spec_parse_execute_or_pattern(inp)->Ok_0.0)
        =~= seq![spec_parse_execute_or_pattern(inp)->Ok_0.0]);
}

/// Where a pre-map and a bracket group follow one another, the pattern
/// element keeps that pre-map and that pattern, whatever names come after.
pub proof fn lemma_pattern_element_pre_map(inp: InputView)
    requires
        spec_parse_pre_map(inp) is Ok,
        spec_parse_pattern_bracket(spec_parse_pre_map(inp)->Ok_0.1) is Ok,
    ensures
        spec_parse_pattern_element(inp) is Ok,
        spec_parse_pattern_element(inp)->Ok_0.0.0 == Some(spec_parse_pre_map(inp)->Ok_0.0),
        spec_parse_pattern_element(inp)->Ok_0.0.1 == spec_parse_pattern_bracket(spec_parse_pre_map(inp)->Ok_0.1)->Ok_0.0,
{
    assert(pre_map_p()(inp) == spec_parse_pre_map(inp));
    lemma_ident_list_total(spec_parse_pattern_bracket(spec_parse_pre_map(inp)->Ok_0.1)->Ok_0.1);
}

/// Where no pre-map parses but a bracket group does, the pattern element has
/// no pre-map and that pattern.
pub proof fn lemma_pattern_element_no_pre_map(inp: InputView)
    requires
        spec_parse_pre_map(inp) is Err,
        spec_parse_pattern_bracket(inp) is Ok,
    ensures
        spec_parse_pattern_element(inp) is Ok,
        spec_parse_pattern_element(inp)->Ok_0.0.0 == None::<Seq<char>>,
        spec_parse_pattern_element(inp)->Ok_0.0.1 == spec_parse_pattern_bracket(inp)->Ok_0.0,
{
    assert(pre_map_p()(inp) == spec_parse_pre_map(inp));
    lemma_ident_list_total(spec_parse_pattern_bracket(inp)->Ok_0.1);
}

} // verus!
