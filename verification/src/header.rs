//! The header of a waveform: its directives, and the parser that collects the
//! variables they declare until `$enddefinitions` seals the header.

use crate::grammar::{
    lemma_skip_twice, shifted, skip_until_vcd_end, spec_skip_until_vcd_end, spec_var_name,
    spec_var_range, spec_var_width, spec_vcd_end, spec_vcd_word, then_spaces0, var_name, var_range,
    var_width, vcd_end, vcd_word,
};
use crate::scan::{
    byte, is_word, lemma_run_len_bounds, spec_byte, spec_take_run1, take_run0, take_run1, yields,
    ByteClass, GrammarError, Outcome,
};
use crate::types::{
    clone_scopes, scopes_view, variables_view, Direction, Range, Scope, ScopeKind, ScopeView,
    VariableInfo, VariableKind, VariableView,
};
use vstd::prelude::*;
use vstd::slice::slice_to_vec;
use vstd::string::StringSliceAdditionalSpecFns;

verus! {

/// One directive of a header, with what it holds borrowed from the input.
#[derive(Clone, Copy, Debug, PartialEq, Eq)]
pub enum HeaderDirective<'a> {
    /// `$enddefinitions $end`
    EndDefinitions,
    /// `$scope kind name $end`
    Scope { kind: &'a [u8], name: &'a [u8] },
    /// `$upscope $end`
    Upscope,
    /// `$var kind width id name [range] $end`
    Var { kind: &'a [u8], width: u32, id: &'a [u8], name: &'a [u8], range: Option<Range> },
    /// Any other directive; its text is passed over.
    Ignored,
}

/// A header directive as a mathematical value.
pub enum DirectiveView {
    EndDefinitions,
    Scope { kind: Seq<u8>, name: Seq<u8> },
    Upscope,
    Var { kind: Seq<u8>, width: u32, id: Seq<u8>, name: Seq<u8>, range: Option<Range> },
    Ignored,
}

impl<'a> View for HeaderDirective<'a> {
    type V = DirectiveView;

    open spec fn view(&self) -> DirectiveView {
        match *self {
            HeaderDirective::EndDefinitions => DirectiveView::EndDefinitions,
            HeaderDirective::Scope { kind, name } => DirectiveView::Scope {
                kind: kind@,
                name: name@,
            },
            HeaderDirective::Upscope => DirectiveView::Upscope,
            HeaderDirective::Var { kind, width, id, name, range } => DirectiveView::Var {
                kind: kind@,
                width,
                id: id@,
                name: name@,
                range,
            },
            HeaderDirective::Ignored => DirectiveView::Ignored,
        }
    }
}

/// The name of a header directive: `$`, letters and digits, and the
/// separators behind them, which must be seen to end.
#[verifier::opaque]
pub open spec fn spec_header_name(s: Seq<u8>) -> Outcome<Seq<u8>> {
    match spec_byte(s, '$' as u8) {
        Outcome::Match { len: _, value: _ } => shifted(
            then_spaces0(spec_take_run1(s.skip(1), ByteClass::Alnum), s.skip(1)),
            1,
        ),
        Outcome::Incomplete => Outcome::Incomplete,
        Outcome::Failure => Outcome::Failure,
    }
}

/// Parses the form that [`spec_header_name`] describes.
pub fn header_name<'a>(input: &'a [u8]) -> (res: Result<(&'a [u8], &'a [u8]), GrammarError>)
    ensures
        yields(res, input@, spec_header_name(input@)),
{
    proof {
        reveal(spec_header_name);
    }
    let (body, _) = byte(input, '$' as u8)?;
    let (rest, name) = take_run1(body, ByteClass::Alnum)?;
    let (rest, spaces) = take_run0(rest, ByteClass::Space)?;
    proof {
        lemma_run_len_bounds(body@, ByteClass::Alnum);
        lemma_skip_twice(body@, name@.len(), spaces@.len());
        lemma_skip_twice(input@, 1, name@.len() + spaces@.len());
    }
    Ok((rest, name))
}

/// What follows `$scope`: the kind, the name, `$end`.
#[verifier::opaque]
pub open spec fn spec_scope_body(s: Seq<u8>) -> Outcome<DirectiveView> {
    match spec_vcd_word(s) {
        Outcome::Match { len: a, value: kind } => match spec_vcd_word(s.skip(a as int)) {
            Outcome::Match { len: b, value: name } => match spec_vcd_end(s.skip((a + b) as int)) {
                Outcome::Match { len: c, value: _ } => Outcome::Match {
                    len: a + b + c,
                    value: DirectiveView::Scope { kind, name },
                },
                Outcome::Incomplete => Outcome::Incomplete,
                Outcome::Failure => Outcome::Failure,
            },
            Outcome::Incomplete => Outcome::Incomplete,
            Outcome::Failure => Outcome::Failure,
        },
        Outcome::Incomplete => Outcome::Incomplete,
        Outcome::Failure => Outcome::Failure,
    }
}

/// Parses the form that [`spec_scope_body`] describes.
pub fn scope_body<'a>(input: &'a [u8]) -> (res: Result<
    (&'a [u8], HeaderDirective<'a>),
    GrammarError,
>)
    ensures
        yields(res, input@, spec_scope_body(input@)),
{
    proof {
        reveal(spec_scope_body);
    }
    let (r1, kind) = vcd_word(input)?;
    let ghost a = (input@.len() - r1@.len()) as nat;
    let (r2, name) = vcd_word(r1)?;
    let ghost b = (r1@.len() - r2@.len()) as nat;
    proof {
        lemma_skip_twice(input@, a, b);
    }
    let (r3, _) = vcd_end(r2)?;
    proof {
        lemma_skip_twice(input@, a + b, (r2@.len() - r3@.len()) as nat);
    }
    Ok((r3, HeaderDirective::Scope { kind, name }))
}

/// A range if one stands there: how many bytes it takes, and what it is.
#[verifier::opaque]
pub open spec fn spec_optional_range(s: Seq<u8>) -> Outcome<Option<Range>> {
    match spec_var_range(s) {
        Outcome::Match { len, value } => Outcome::Match { len, value: Some(value) },
        Outcome::Incomplete => Outcome::Incomplete,
        Outcome::Failure => Outcome::Match { len: 0, value: None },
    }
}

/// Parses the form that [`spec_optional_range`] describes.
pub fn optional_range<'a>(input: &'a [u8]) -> (res: Result<
    (&'a [u8], Option<Range>),
    GrammarError,
>)
    ensures
        yields(res, input@, spec_optional_range(input@)),
{
    proof {
        reveal(spec_optional_range);
    }
    match var_range(input) {
        Ok((rest, range)) => Ok((rest, Some(range))),
        Err(GrammarError::Incomplete) => Err(GrammarError::Incomplete),
        Err(GrammarError::Failure) => {
            assert(input@.skip(0) =~= input@);
            Ok((input, None))
        },
    }
}

/// What follows `$var`: kind, width, identifier, name, a range if there is
/// one, `$end`. The width must be a bit count that fits in 32 bits.
#[verifier::opaque]
pub open spec fn spec_var_body(s: Seq<u8>) -> Outcome<DirectiveView> {
    match spec_vcd_word(s) {
        Outcome::Match { len: a, value: kind } => match spec_var_width(s.skip(a as int)) {
            Outcome::Match { len: b, value: width } => match spec_vcd_word(
                s.skip((a + b) as int),
            ) {
                Outcome::Match { len: c, value: id } => match spec_var_name(
                    s.skip((a + b + c) as int),
                ) {
                    Outcome::Match { len: d, value: name } => match spec_optional_range(
                        s.skip((a + b + c + d) as int),
                    ) {
                        Outcome::Match { len: e, value: range } => match spec_vcd_end(
                            s.skip((a + b + c + d + e) as int),
                        ) {
                            Outcome::Match { len: f, value: _ } => if 0 <= width <= u32::MAX {
                                Outcome::Match {
                                    len: a + b + c + d + e + f,
                                    value: DirectiveView::Var {
                                        kind,
                                        width: width as u32,
                                        id,
                                        name,
                                        range,
                                    },
                                }
                            } else {
                                Outcome::Failure
                            },
                            Outcome::Incomplete => Outcome::Incomplete,
                            Outcome::Failure => Outcome::Failure,
                        },
                        Outcome::Incomplete => Outcome::Incomplete,
                        Outcome::Failure => Outcome::Failure,
                    },
                    Outcome::Incomplete => Outcome::Incomplete,
                    Outcome::Failure => Outcome::Failure,
                },
                Outcome::Incomplete => Outcome::Incomplete,
                Outcome::Failure => Outcome::Failure,
            },
            Outcome::Incomplete => Outcome::Incomplete,
            Outcome::Failure => Outcome::Failure,
        },
        Outcome::Incomplete => Outcome::Incomplete,
        Outcome::Failure => Outcome::Failure,
    }
}

/// Parses the form that [`spec_var_body`] describes.
pub fn var_body<'a>(input: &'a [u8]) -> (res: Result<(&'a [u8], HeaderDirective<'a>), GrammarError>)
    ensures
        yields(res, input@, spec_var_body(input@)),
{
    proof {
        reveal(spec_var_body);
    }
    let (r1, kind) = vcd_word(input)?;
    let ghost a = (input@.len() - r1@.len()) as nat;
    let (r2, width) = var_width(r1)?;
    let ghost b = (r1@.len() - r2@.len()) as nat;
    proof {
        lemma_skip_twice(input@, a, b);
    }
    let (r3, id) = vcd_word(r2)?;
    let ghost c = (r2@.len() - r3@.len()) as nat;
    proof {
        lemma_skip_twice(input@, a + b, c);
    }
    let (r4, name) = var_name(r3)?;
    let ghost d = (r3@.len() - r4@.len()) as nat;
    proof {
        lemma_skip_twice(input@, a + b + c, d);
    }
    let (r5, range) = optional_range(r4)?;
    let ghost e = (r4@.len() - r5@.len()) as nat;
    proof {
        lemma_skip_twice(input@, a + b + c + d, e);
    }
    let (r6, _) = vcd_end(r5)?;
    proof {
        lemma_skip_twice(input@, a + b + c + d + e, (r5@.len() - r6@.len()) as nat);
    }
    if 0 <= width && width <= 0xffff_ffff {
        Ok((r6, HeaderDirective::Var { kind, width: width as u32, id, name, range }))
    } else {
        Err(GrammarError::Failure)
    }
}

/// `$end` as the whole of what follows a directive's name.
pub open spec fn spec_closed(s: Seq<u8>, value: DirectiveView) -> Outcome<DirectiveView> {
    match spec_vcd_end(s) {
        Outcome::Match { len, value: _ } => Outcome::Match { len, value },
        Outcome::Incomplete => Outcome::Incomplete,
        Outcome::Failure => Outcome::Failure,
    }
}

/// What follows the name of a header directive, by that name.
#[verifier::opaque]
pub open spec fn spec_header_body(name: Seq<u8>, s: Seq<u8>) -> Outcome<DirectiveView> {
    if name == "enddefinitions".spec_bytes() {
        spec_closed(s, DirectiveView::EndDefinitions)
    } else if name == "scope".spec_bytes() {
        spec_scope_body(s)
    } else if name == "upscope".spec_bytes() {
        spec_closed(s, DirectiveView::Upscope)
    } else if name == "var".spec_bytes() {
        spec_var_body(s)
    } else {
        match spec_skip_until_vcd_end(s) {
            Outcome::Match { len, value: _ } => Outcome::Match {
                len,
                value: DirectiveView::Ignored,
            },
            Outcome::Incomplete => Outcome::Incomplete,
            Outcome::Failure => Outcome::Failure,
        }
    }
}

/// Whether a directive of this name builds the header.
pub open spec fn builds_header(name: Seq<u8>) -> bool {
    ||| name == "enddefinitions".spec_bytes()
    ||| name == "scope".spec_bytes()
    ||| name == "upscope".spec_bytes()
    ||| name == "var".spec_bytes()
}

/// One directive of a header. Once the header is sealed, a directive that
/// would build it further is a failure.
#[verifier::opaque]
pub open spec fn spec_header_directive(sealed: bool, s: Seq<u8>) -> Outcome<DirectiveView> {
    match spec_header_name(s) {
        Outcome::Match { len, value: name } => if sealed && builds_header(name) {
            Outcome::Failure
        } else {
            shifted(spec_header_body(name, s.skip(len as int)), len)
        },
        Outcome::Incomplete => Outcome::Incomplete,
        Outcome::Failure => Outcome::Failure,
    }
}

/// Parses the form that [`spec_header_directive`] describes.
pub fn header_directive<'a>(sealed: bool, input: &'a [u8]) -> (res: Result<
    (&'a [u8], HeaderDirective<'a>),
    GrammarError,
>)
    ensures
        yields(res, input@, spec_header_directive(sealed, input@)),
{
    proof {
        reveal(spec_header_directive);
        reveal(spec_header_body);
    }
    let (rest, name) = header_name(input)?;
    let ghost len = (input@.len() - rest@.len()) as nat;
    let builds = is_word(name, "enddefinitions") || is_word(name, "scope") || is_word(
        name,
        "upscope",
    ) || is_word(name, "var");
    if sealed && builds {
        return Err(GrammarError::Failure);
    }
    let (after, directive) = if is_word(name, "enddefinitions") {
        let (after, _) = vcd_end(rest)?;
        (after, HeaderDirective::EndDefinitions)
    } else if is_word(name, "scope") {
        scope_body(rest)?
    } else if is_word(name, "upscope") {
        let (after, _) = vcd_end(rest)?;
        (after, HeaderDirective::Upscope)
    } else if is_word(name, "var") {
        var_body(rest)?
    } else {
        let (after, _) = skip_until_vcd_end(rest)?;
        (after, HeaderDirective::Ignored)
    };
    proof {
        lemma_skip_twice(input@, len, (rest@.len() - after@.len()) as nat);
    }
    Ok((after, directive))
}

/// The variables that a waveform declares, in the order of their declarations.
#[derive(Debug, PartialEq, Eq)]
pub struct VcdHeader {
    pub variables: Vec<VariableInfo>,
}

impl View for VcdHeader {
    type V = Seq<VariableView>;

    open spec fn view(&self) -> Seq<VariableView> {
        variables_view(self.variables@)
    }
}

impl Clone for VcdHeader {
    fn clone(&self) -> (copy: VcdHeader)
        ensures
            copy@ == self@,
    {
        let mut variables: Vec<VariableInfo> = Vec::new();
        let mut i: usize = 0;
        while i < self.variables.len()
            invariant
                i <= self.variables.len(),
                variables.len() == i,
                forall|k: int| 0 <= k < i ==> variables@[k]@ == self.variables@[k]@,
            decreases self.variables.len() - i,
        {
            variables.push(self.variables[i].clone());
            i += 1;
        }
        let copy = VcdHeader { variables };
        assert(copy@ =~= self@);
        copy
    }
}

/// Collects a header, directive by directive.
pub struct VcdHeaderParser {
    pub header: VcdHeader,
    header_valid: bool,
    scope: Vec<Scope>,
}

/// The state of a header parser as a mathematical value.
pub struct HeaderParserView {
    /// The variables declared so far.
    pub variables: Seq<VariableView>,
    /// Whether `$enddefinitions` was seen.
    pub sealed: bool,
    /// The scopes that are open, outermost first.
    pub scope: Seq<ScopeView>,
}

impl HeaderParserView {
    /// The state after `directive`.
    pub open spec fn apply(self, directive: DirectiveView) -> HeaderParserView {
        match directive {
            DirectiveView::EndDefinitions => HeaderParserView { sealed: true, ..self },
            DirectiveView::Scope { kind, name } => HeaderParserView {
                scope: self.scope.push(ScopeView { kind: ScopeKind::spec_named(kind), name }),
                ..self
            },
            DirectiveView::Upscope => HeaderParserView {
                scope: if self.scope.len() > 0 {
                    self.scope.drop_last()
                } else {
                    self.scope
                },
                ..self
            },
            DirectiveView::Var { kind, width, id, name, range } => HeaderParserView {
                variables: self.variables.push(
                    VariableView {
                        id,
                        name,
                        direction: Direction::Implicit,
                        kind: VariableKind::spec_named(kind),
                        width,
                        range,
                        handle: 0,
                        scope: self.scope,
                    },
                ),
                ..self
            },
            DirectiveView::Ignored => self,
        }
    }

    /// What parsing one directive from `s` answers, and the state after it.
    pub open spec fn step(self, s: Seq<u8>) -> (Outcome<bool>, HeaderParserView) {
        match spec_header_directive(self.sealed, s) {
            Outcome::Match { len, value } => (
                Outcome::Match { len, value: value is EndDefinitions },
                self.apply(value),
            ),
            Outcome::Incomplete => (Outcome::Incomplete, self),
            Outcome::Failure => (Outcome::Failure, self),
        }
    }

    /// What parsing directives from `s` answers, until one seals the header or
    /// the input is used up, and the state after it.
    pub open spec fn run(self, s: Seq<u8>) -> (Outcome<()>, HeaderParserView)
        decreases s.len(),
    {
        match self.step(s) {
            (Outcome::Match { len, value: done }, next) => if done || len >= s.len() {
                (Outcome::Match { len, value: () }, next)
            } else {
                proof {
                    crate::extent::lemma_header_directive_within(self.sealed, s);
                }
                let (rest, last) = next.run(s.skip(len as int));
                (shifted(rest, len), last)
            },
            (Outcome::Incomplete, next) => (Outcome::Incomplete, next),
            (Outcome::Failure, next) => (Outcome::Failure, next),
        }
    }
}

impl View for VcdHeaderParser {
    type V = HeaderParserView;

    closed spec fn view(&self) -> HeaderParserView {
        HeaderParserView {
            variables: self.header@,
            sealed: self.header_valid,
            scope: scopes_view(self.scope@),
        }
    }
}

impl VcdHeaderParser {
    /// A parser that has seen nothing.
    pub fn new() -> (parser: VcdHeaderParser)
        ensures
            parser@ == (HeaderParserView {
                variables: Seq::empty(),
                sealed: false,
                scope: Seq::empty(),
            }),
    {
        let parser = VcdHeaderParser {
            header: VcdHeader { variables: Vec::with_capacity(1024) },
            header_valid: false,
            scope: Vec::with_capacity(16),
        };
        assert(parser@.variables =~= Seq::empty());
        assert(parser@.scope =~= Seq::empty());
        parser
    }

    /// Takes `directive` into the header.
    pub fn apply(&mut self, directive: HeaderDirective<'_>)
        ensures
            final(self)@ == old(self)@.apply(directive@),
    {
        match directive {
            HeaderDirective::EndDefinitions => {
                self.header_valid = true;
            },
            HeaderDirective::Scope { kind, name } => {
                self.scope.push(Scope::from_bytes(kind, name));
                assert(self@.scope =~= old(self)@.apply(directive@).scope);
            },
            HeaderDirective::Upscope => {
                let _ = self.scope.pop();
                assert(self@.scope =~= old(self)@.apply(directive@).scope);
            },
            HeaderDirective::Var { kind, width, id, name, range } => {
                let variable = VariableInfo {
                    id: slice_to_vec(id),
                    kind: VariableKind::named(kind),
                    width,
                    name: slice_to_vec(name),
                    range,
                    handle: 0,
                    scope: clone_scopes(&self.scope),
                    direction: Direction::Implicit,
                };
                self.header.variables.push(variable);
                assert(self@.variables =~= old(self)@.apply(directive@).variables);
            },
            HeaderDirective::Ignored => {},
        }
    }

    /// Parses one directive from `input` and takes it into the header. The
    /// answer is what follows the directive, and whether it sealed the header.
    pub fn next_header_command<'a>(&mut self, input: &'a [u8]) -> (res: Result<
        (&'a [u8], bool),
        GrammarError,
    >)
        ensures
            yields(res, input@, old(self)@.step(input@).0),
            final(self)@ == old(self)@.step(input@).1,
    {
        let (rest, directive) = header_directive(self.header_valid, input)?;
        self.apply(directive);
        Ok((rest, matches!(directive, HeaderDirective::EndDefinitions)))
    }

    /// The header, once it is sealed.
    pub fn header(&self) -> (header: Option<&VcdHeader>)
        ensures
            header is Some <==> self@.sealed,
            header matches Some(h) ==> h@ == self@.variables,
    {
        if self.header_valid {
            Some(&self.header)
        } else {
            None
        }
    }

    /// The header as far as it was collected, sealed or not.
    pub fn collected(&self) -> (header: &VcdHeader)
        ensures
            header@ == self@.variables,
    {
        &self.header
    }

    /// Whether `$enddefinitions` was seen.
    pub fn header_valid(&self) -> (sealed: bool)
        ensures
            sealed == self@.sealed,
    {
        self.header_valid
    }

    /// Parses directives from `input` until one seals the header or the input is used up.
    pub fn run<'a>(&mut self, input: &'a [u8]) -> (res: Result<(&'a [u8], ()), GrammarError>)
        ensures
            yields(res, input@, old(self)@.run(input@).0),
            final(self)@ == old(self)@.run(input@).1,
    {
        let mut window = input;
        let ghost mut passed: nat = 0;
        loop
            invariant
                passed <= input@.len(),
                window@ == input@.skip(passed as int),
                old(self)@.run(input@).0 == shifted(self@.run(window@).0, passed),
                old(self)@.run(input@).1 == self@.run(window@).1,
            decreases window@.len(),
        {
            let ghost before = self@;
            let (remaining, done) = self.next_header_command(window)?;
            let ghost len = (window@.len() - remaining@.len()) as nat;
            proof {
                crate::extent::lemma_header_directive_within(before.sealed, window@);
                lemma_skip_twice(input@, passed, len);
            }
            if done || remaining.len() == 0 {
                return Ok((remaining, ()));
            }
            proof {
                passed = passed + len;
            }
            window = remaining;
        }
    }
}

} // verus!
