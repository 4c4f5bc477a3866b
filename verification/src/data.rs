use vstd::prelude::*;

verus! {

/// A position in the source, given as an index into the caller's table of positions.
#[derive(Clone, Copy, Debug, PartialEq, Eq, Structural)]
pub struct Span {
    pub index: usize,
}

/// How a group of tokens is delimited.
#[derive(Clone, Copy, Debug, PartialEq, Eq, Structural)]
pub enum Delimiter {
    Parenthesis,
    Brace,
    Bracket,
    /// No delimiter at all (what proc_macro calls `Delimiter::None`).
    Invisible,
}

/// A delimited group; `stream` is the text of the tokens inside the delimiters.
#[derive(Clone, Debug)]
pub struct Group {
    pub delimiter: Delimiter,
    pub stream: String,
    pub span: Span,
}

/// An identifier, with its text.
#[derive(Clone, Debug)]
pub struct Ident {
    pub name: String,
    pub span: Span,
}

/// A single punctuation character.
#[derive(Clone, Debug)]
pub struct Punct {
    pub ch: char,
    pub span: Span,
}

/// A literal, with its text.
#[derive(Clone, Debug)]
pub struct Literal {
    pub text: String,
    pub span: Span,
}

/// One token of a macro's input.
#[derive(Clone, Debug)]
pub enum TokenTree {
    Group(Group),
    Ident(Ident),
    Punct(Punct),
    Literal(Literal),
}

impl TokenTree {
    /// The span of a token.
    pub open spec fn span_of(self) -> Span {
        match self {
            TokenTree::Group(g) => g.span,
            TokenTree::Ident(i) => i.span,
            TokenTree::Punct(p) => p.span,
            TokenTree::Literal(l) => l.span,
        }
    }

    pub fn span(&self) -> (s: Span)
        ensures
            s == self.span_of(),
    {
        match self {
            TokenTree::Group(g) => g.span,
            TokenTree::Ident(i) => i.span,
            TokenTree::Punct(p) => p.span,
            TokenTree::Literal(l) => l.span,
        }
    }
}

/// Calls `String::push`, which, as std documents it, appends the character to
/// the end of the string: the contract says that the string's characters
/// afterwards are those before, followed by `c`.
#[verifier::external_body]
pub(crate) fn push_char(s: &mut String, c: char)
    ensures
        final(s)@ == old(s)@.push(c),
{
    s.push(c);
}

impl Delimiter {
    /// The text that opens a group with this delimiter.
    pub open spec fn open_text(self) -> Seq<char> {
        match self {
            Delimiter::Parenthesis => seq!['('],
            Delimiter::Brace => seq!['{'],
            Delimiter::Bracket => seq!['['],
            Delimiter::Invisible => seq![],
        }
    }

    /// The text that closes a group with this delimiter.
    pub open spec fn close_text(self) -> Seq<char> {
        match self {
            Delimiter::Parenthesis => seq![')'],
            Delimiter::Brace => seq!['}'],
            Delimiter::Bracket => seq![']'],
            Delimiter::Invisible => seq![],
        }
    }
}

impl TokenTree {
    /// The text of a token: an identifier's name, a punctuation's character,
    /// a literal's text, or a group's stream inside its delimiters.
    pub open spec fn text(self) -> Seq<char> {
        match self {
            TokenTree::Group(g) => g.delimiter.open_text() + g.stream@ + g.delimiter.close_text(),
            TokenTree::Ident(i) => i.name@,
            TokenTree::Punct(p) => seq![p.ch],
            TokenTree::Literal(l) => l.text@,
        }
    }

    pub fn to_string(&self) -> (s: String)
        ensures
            s@ == self.text(),
    {
        match self {
            TokenTree::Group(g) => {
                let mut s = String::new();
                match g.delimiter {
                    Delimiter::Parenthesis => push_char(&mut s, '('),
                    Delimiter::Brace => push_char(&mut s, '{'),
                    Delimiter::Bracket => push_char(&mut s, '['),
                    Delimiter::Invisible => {},
                }
                s.append(g.stream.as_str());
                match g.delimiter {
                    Delimiter::Parenthesis => push_char(&mut s, ')'),
                    Delimiter::Brace => push_char(&mut s, '}'),
                    Delimiter::Bracket => push_char(&mut s, ']'),
                    Delimiter::Invisible => {},
                }
                s
            },
            TokenTree::Ident(i) => i.name.clone(),
            TokenTree::Punct(p) => {
                let mut s = String::new();
                push_char(&mut s, p.ch);
                s
            },
            TokenTree::Literal(l) => l.text.clone(),
        }
    }
}

/// The tokens that are left to parse, as a sequence, with the span of the
/// last token consumed (or of the whole input, before anything was consumed).
pub type InputView = (Seq<TokenTree>, Span);

/// The part of a token stream that is left to parse.
#[derive(Clone, Copy)]
pub struct Input<'a>(&'a [TokenTree], Span);

impl<'a> View for Input<'a> {
    type V = InputView;

    closed spec fn view(&self) -> InputView {
        (self.0@, self.1)
    }
}

/// The error that a parse runs into at the end of `inp`.
pub open spec fn spec_end_of_stream(inp: InputView) -> ErrorView {
    spec_error(inp.1, "unexpected end of stream"@)
}

/// The error reported when tokens are left over: at the span of the last token.
pub open spec fn spec_left_over(tokens: Seq<TokenTree>) -> ErrorView {
    spec_error(tokens.last().span_of(), "entire input was not consumed"@)
}

impl<'a> Input<'a> {
    pub fn new(input: &'a [TokenTree], span: Span) -> (res: Self)
        ensures
            res@ == (input@, span),
    {
        Input(input, span)
    }

    pub fn input(&self) -> (res: &'a [TokenTree])
        ensures
            res@ == self@.0,
    {
        self.0
    }

    /// Fails with "unexpected end of stream" at the span of this input.
    pub fn end_of_stream<T>(self) -> (res: Result<T, Error>)
        ensures
            res matches Err(e) && e@ == spec_end_of_stream(self@),
    {
        Err(Error::new(self.1, "unexpected end of stream".to_owned()))
    }

    /// The error for tokens left over, at the span of the last of them.
    pub fn left_over(self) -> (res: Error)
        requires
            self@.0.len() > 0,
        ensures
            res@ == spec_left_over(self@.0),
    {
        let last = &self.0[self.0.len() - 1];
        Error::new(last.span(), "entire input was not consumed".to_owned())
    }
}

/// An error: its span, and its messages, innermost first.
pub type ErrorView = (Span, Seq<Seq<char>>);

/// A parse error: where it happened, and the messages that explain it,
/// from the innermost parser outwards.
#[derive(Debug)]
pub struct Error(Span, Vec<String>);

impl View for Error {
    type V = ErrorView;

    closed spec fn view(&self) -> ErrorView {
        (self.0, self.1@.map_values(|m: String| m@))
    }
}

/// An error with one message.
pub open spec fn spec_error(span: Span, msg: Seq<char>) -> ErrorView {
    (span, seq![msg])
}

/// An error with one more message at the end.
pub open spec fn spec_augment(e: ErrorView, msg: Seq<char>) -> ErrorView {
    (e.0, e.1.push(msg))
}

/// The parts, with `sep` between each two of them.
pub open spec fn join(parts: Seq<Seq<char>>, sep: Seq<char>) -> Seq<char>
    decreases parts.len(),
{
    if parts.len() == 0 {
        seq![]
    } else if parts.len() == 1 {
        parts[0]
    } else {
        join(parts.drop_last(), sep) + sep + parts.last()
    }
}

impl Error {
    /// Every error has at least one message.
    #[verifier::type_invariant]
    spec fn has_message(self) -> bool {
        self.1@.len() >= 1
    }

    pub fn new(span: Span, s: String) -> (res: Self)
        ensures
            res@ == spec_error(span, s@),
    {
        let mut v = Vec::new();
        v.push(s);
        let res = Error(span, v);
        assert(res@.1 =~= seq![s@]);
        res
    }

    /// Adds a message that says what was being parsed when the error happened.
    pub fn augment(self, s: String) -> (res: Self)
        ensures
            res@ == spec_augment(self@, s@),
            self@.1.len() >= 1,
            join(res@.1, seq!['\n']) == join(self@.1, seq!['\n']) + seq!['\n'] + s@,
    {
        proof {
            use_type_invariant(&self);
            lemma_augment_message(self@, s@);
        }
        let Error(span, mut msgs) = self;
        let ghost old_msgs = msgs@;
        msgs.push(s);
        let res = Error(span, msgs);
        assert(res@.1 =~= old_msgs.map_values(|m: String| m@).push(s@));
        res
    }

    /// The messages, one per line.
    pub fn message(&self) -> (res: String)
        ensures
            res@ == join(self@.1, seq!['\n']),
            self@.1.len() >= 1,
    {
        proof {
            use_type_invariant(self);
        }
        let ghost parts = self@.1;
        let mut res = String::new();
        let mut i: usize = 0;
        while i < self.1.len()
            invariant
                0 <= i <= self.1@.len(),
                parts == self.1@.map_values(|m: String| m@),
                res@ == join(parts.take(i as int), seq!['\n']),
            decreases self.1@.len() - i,
        {
            if i != 0 {
                push_char(&mut res, '\n');
            }
            res.append(self.1[i].as_str());
            assert(parts.take(i + 1).drop_last() =~= parts.take(i as int));
            i = i + 1;
        }
        assert(parts.take(i as int) =~= parts);
        res
    }

    pub fn span(self) -> (res: Span)
        ensures
            res == self@.0,
            self@.1.len() >= 1,
    {
        proof {
            use_type_invariant(&self);
        }
        self.0
    }
}

/// A new error's text is its one message.
pub proof fn lemma_new_message(span: Span, s: Seq<char>)
    ensures
        join(spec_error(span, s).1, seq!['\n']) == s,
{
}

/// Adding a message to an error keeps its span and adds the message as a
/// line of its own after the others.
pub proof fn lemma_augment_message(e: ErrorView, s: Seq<char>)
    requires
        e.1.len() >= 1,
    ensures
        spec_augment(e, s).0 == e.0,
        join(spec_augment(e, s).1, seq!['\n']) == join(e.1, seq!['\n']) + seq!['\n'] + s,
{
    assert(e.1.push(s).drop_last() =~= e.1);
}

/// Identifier text inside the macro's grammar (a path such as `a::b`).
pub struct IntraIdent(String);

impl View for IntraIdent {
    type V = Seq<char>;

    closed spec fn view(&self) -> Seq<char> {
        self.0@
    }
}

impl Clone for IntraIdent {
    fn clone(&self) -> (res: Self)
        ensures
            res@ == self@,
    {
        IntraIdent(self.0.clone())
    }
}

impl IntraIdent {
    pub fn new(input: String) -> (res: Self)
        ensures
            res@ == input@,
    {
        IntraIdent(input)
    }

    pub fn code(self) -> (res: String)
        ensures
            res@ == self@,
    {
        self.0
    }
}

/// Code to run, as the text of a brace-delimited group.
pub struct Execute(String);

impl View for Execute {
    type V = Seq<char>;

    closed spec fn view(&self) -> Seq<char> {
        self.0@
    }
}

impl Execute {
    pub fn new(input: String) -> (res: Self)
        ensures
            res@ == input@,
    {
        Execute(input)
    }

    pub fn code(self) -> (res: String)
        ensures
            res@ == self@,
    {
        self.0
    }
}

/// A pattern to match, as the text of a bracket-delimited group.
pub struct Pattern(String);

impl View for Pattern {
    type V = Seq<char>;

    closed spec fn view(&self) -> Seq<char> {
        self.0@
    }
}

impl Clone for Pattern {
    fn clone(&self) -> (res: Self)
        ensures
            res@ == self@,
    {
        Pattern(self.0.clone())
    }
}

impl Pattern {
    pub fn new(input: String) -> (res: Self)
        ensures
            res@ == input@,
    {
        Pattern(input)
    }

    pub fn code(self) -> (res: String)
        ensures
            res@ == self@,
    {
        self.0
    }
}

/// One step of an atom: code to run, or a pattern that the values in scope
/// are matched against (through `pre_map` where it is given), binding `next`.
pub enum AtomElement {
    Execute(Execute),
    Pattern { pre_map: Option<IntraIdent>, pattern: Pattern, next: Vec<IntraIdent> },
}

/// The abstract value of an `AtomElement`.
pub enum SpecAtomElement {
    Execute(Seq<char>),
    Pattern { pre_map: Option<Seq<char>>, pattern: Seq<char>, next: Seq<Seq<char>> },
}

/// The texts of a sequence of identifiers.
pub open spec fn idents_view(v: Seq<IntraIdent>) -> Seq<Seq<char>> {
    v.map_values(|i: IntraIdent| i@)
}

/// The text of an optional identifier.
pub open spec fn opt_ident_view(o: Option<IntraIdent>) -> Option<Seq<char>> {
    match o {
        Some(i) => Some(i@),
        None => None,
    }
}

impl View for AtomElement {
    type V = SpecAtomElement;

    open spec fn view(&self) -> SpecAtomElement {
        match self {
            AtomElement::Execute(e) => SpecAtomElement::Execute(e@),
            AtomElement::Pattern { pre_map, pattern, next } => SpecAtomElement::Pattern {
                pre_map: opt_ident_view(*pre_map),
                pattern: pattern@,
                next: idents_view(next@),
            },
        }
    }
}

/// A whole atom: the value it starts from, its steps, and the code it ends with.
pub struct Atom {
    pub init: IntraIdent,
    pub seq: Vec<AtomElement>,
    pub resolve: Execute,
}

/// The abstract value of an `Atom`.
pub struct SpecAtom {
    pub init: Seq<char>,
    pub seq: Seq<SpecAtomElement>,
    pub resolve: Seq<char>,
}

/// The abstract values of a sequence of atom elements.
pub open spec fn elements_view(v: Seq<AtomElement>) -> Seq<SpecAtomElement> {
    v.map_values(|e: AtomElement| e@)
}

impl View for Atom {
    type V = SpecAtom;

    open spec fn view(&self) -> SpecAtom {
        SpecAtom { init: self.init@, seq: elements_view(self.seq@), resolve: self.resolve@ }
    }
}

} // verus!
