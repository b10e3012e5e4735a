use vstd::prelude::*;
use core::marker::PhantomData;
use crate::position::SourcePosition;
use crate::position::pos_le;
use crate::state::ParseResult;
use crate::state::SpecParseResult;
use crate::state::State;
use crate::state::StateModel;
use crate::stream::Stream;

verus! {

/// What a well-behaved parse step looks like at the specification level:
/// success never moves the position backwards, never grows the input, and
/// consumes nothing only if it leaves the state entirely unchanged;
/// failure reports a list of distinct reasons.
pub open spec fn parse_step_ok<T, M>(s: StateModel<T>, r: SpecParseResult<T, M>) -> bool {
    match r {
        Ok((_, t)) => pos_le(s.position, t.position) && t.input.len() <= s.input.len() && (
        t.input.len() == s.input.len() ==> t == s),
        Err(e) => e.wf(),
    }
}

/// A parser: a value that consumes a `State` and produces either a parsed
/// value with the rest of the state, or a `ParseError`. Each parser
/// carries its denotation `spec_parse`, a specification-level function of
/// the state alone, and `parse` is proved to agree with it — so parsing
/// is deterministic by construction.
pub trait Parser: Sized {
    type Input: Stream;

    type Output;

    /// Specification-level value of an `Output`.
    type MOutput;

    /// Maps an output to its specification-level value.
    spec fn output_model(&self, o: Self::Output) -> Self::MOutput;

    /// Whether this parser's components are internally consistent (for
    /// instance, a captured predicate that is callable on every token and
    /// deterministic).
    spec fn wf(&self) -> bool;

    /// The denotation: what `parse` returns, as a function of the state's
    /// value alone.
    spec fn spec_parse(&self, s: StateModel<<Self::Input as Stream>::Item>) -> SpecParseResult<
        <Self::Input as Stream>::Item,
        Self::MOutput,
    >;

    /// Every well-formed parser takes well-behaved steps: success is
    /// position-monotone and never grows the input; failure carries
    /// distinct reasons.
    proof fn lemma_parse_invariants(&self, s: StateModel<<Self::Input as Stream>::Item>)
        requires
            self.wf(),
        ensures
            parse_step_ok(s, self.spec_parse(s)),
    ;

    /// Runs the parser on `input`. The result is exactly the denotation
    /// of this parser at the state's value.
    fn parse(&self, input: State<Self::Input>) -> (r: ParseResult<Self::Output, Self::Input>)
        requires
            self.wf(),
        ensures
            match r {
                Ok((o, s2)) => self.spec_parse(input.model()) matches Ok((mo, ms)) && mo
                    == self.output_model(o) && ms == s2.model(),
                Err(e) => self.spec_parse(input.model()) matches Err(me) && me == e@,
            },
    ;

    /// Wraps raw input into a fresh state at line 1, column 1, then
    /// parses.
    fn start_parse(&self, input: Self::Input) -> (r: ParseResult<Self::Output, Self::Input>)
        requires
            self.wf(),
        ensures
            match r {
                Ok((o, s2)) => self.spec_parse(
                    StateModel { position: SourcePosition::spec_start(), input: input.items() },
                ) matches Ok((mo, ms)) && mo == self.output_model(o) && ms == s2.model(),
                Err(e) => self.spec_parse(
                    StateModel { position: SourcePosition::spec_start(), input: input.items() },
                ) matches Err(me) && me == e@,
            },
    {
        self.parse(State::new(input))
    }
}

/// The specification-level value of an executable parse result.
pub open spec fn result_model<P: Parser>(p: &P, r: ParseResult<P::Output, P::Input>) -> SpecParseResult<
    <P::Input as Stream>::Item,
    P::MOutput,
> {
    match r {
        Ok((o, s)) => Ok((p.output_model(o), s.model())),
        Err(e) => Err(e@),
    }
}

/// The executable result `r` agrees with the denotation `m`.
pub open spec fn result_matches<P: Parser>(
    p: &P,
    r: ParseResult<P::Output, P::Input>,
    m: SpecParseResult<<P::Input as Stream>::Item, P::MOutput>,
) -> bool {
    result_model(p, r) == m
}

/// A borrowed parser is a parser, so combinators that invoke a sub-parser
/// several times can do so without taking ownership.
impl<P: Parser> Parser for &P {
    type Input = P::Input;

    type Output = P::Output;

    type MOutput = P::MOutput;

    open spec fn output_model(&self, o: P::Output) -> P::MOutput {
        (*self).output_model(o)
    }

    open spec fn wf(&self) -> bool {
        (*self).wf()
    }

    open spec fn spec_parse(&self, s: StateModel<<P::Input as Stream>::Item>) -> SpecParseResult<
        <P::Input as Stream>::Item,
        P::MOutput,
    > {
        (*self).spec_parse(s)
    }

    proof fn lemma_parse_invariants(&self, s: StateModel<<P::Input as Stream>::Item>) {
        (*self).lemma_parse_invariants(s);
    }

    fn parse(&self, input: State<P::Input>) -> (r: ParseResult<P::Output, P::Input>) {
        (*self).parse(input)
    }
}

/// The model of a result whose output models itself (used by function
/// parsers, whose outputs stand for themselves at the specification
/// level).
pub open spec fn fn_result_model<I: Stream, O>(r: ParseResult<O, I>) -> SpecParseResult<
    <I as Stream>::Item,
    O,
> {
    match r {
        Ok((o, s)) => Ok((o, s.model())),
        Err(e) => Err(e@),
    }
}

/// The function `f` implements the denotation `m`: it is callable on
/// every state, its results are determined by the state's value, and its
/// steps are well-behaved.
pub open spec fn fn_parser_matches<I: Stream, O, F: Fn(State<I>) -> ParseResult<O, I>>(
    f: F,
    m: spec_fn(StateModel<<I as Stream>::Item>) -> SpecParseResult<<I as Stream>::Item, O>,
) -> bool {
    &&& forall|s: State<I>| #[trigger] call_requires(f, (s,))
    &&& forall|s: State<I>, r: ParseResult<O, I>|
        call_ensures(f, (s,), r) ==> fn_result_model(r) == m(s.model())
    &&& forall|s: StateModel<<I as Stream>::Item>| #[trigger] parse_step_ok(s, m(s))
}

/// A parser given directly as a function from state to result: the form
/// through which user grammars express recursion without circular
/// ownership.
pub struct FnParser<I: Stream, O, F> {
    pub f: F,
    pub m: Ghost<spec_fn(StateModel<<I as Stream>::Item>) -> SpecParseResult<<I as Stream>::Item, O>>,
    pub marker: PhantomData<(I, O)>,
}

/// Wraps a state-consuming function as a parser.
pub fn parser<I: Stream, O, F: Fn(State<I>) -> ParseResult<O, I>>(f: F) -> (p: FnParser<I, O, F>)
    ensures
        p.f == f,
        (exists|m: spec_fn(StateModel<<I as Stream>::Item>) -> SpecParseResult<<I as Stream>::Item, O>|
            fn_parser_matches(f, m)) ==> p.wf(),
{
    let ghost m = choose|m: spec_fn(StateModel<<I as Stream>::Item>) -> SpecParseResult<
        <I as Stream>::Item,
        O,
    >| fn_parser_matches(f, m);
    FnParser { f, m: Ghost(m), marker: PhantomData }
}

/// Wraps a state-consuming function as a parser together with the
/// denotation it is claimed to implement. Once the claim is proved, the
/// parser is well-formed and its `spec_parse` is exactly `m`, so
/// verified callers can reason about grammars given as functions.
pub fn parser_at<I: Stream, O, F: Fn(State<I>) -> ParseResult<O, I>>(
    f: F,
    m: Ghost<spec_fn(StateModel<<I as Stream>::Item>) -> SpecParseResult<<I as Stream>::Item, O>>,
) -> (p: FnParser<I, O, F>)
    ensures
        p.f == f,
        p.m == m,
        fn_parser_matches(f, m@) ==> p.wf(),
{
    FnParser { f, m, marker: PhantomData }
}

impl<I: Stream, O, F: Fn(State<I>) -> ParseResult<O, I>> Parser for FnParser<I, O, F> {
    type Input = I;

    type Output = O;

    type MOutput = O;

    open spec fn output_model(&self, o: O) -> O {
        o
    }

    open spec fn wf(&self) -> bool {
        fn_parser_matches(self.f, self.m@)
    }

    open spec fn spec_parse(&self, s: StateModel<<I as Stream>::Item>) -> SpecParseResult<
        <I as Stream>::Item,
        O,
    > {
        (self.m@)(s)
    }

    proof fn lemma_parse_invariants(&self, s: StateModel<<I as Stream>::Item>) {
        assert(parse_step_ok(s, (self.m@)(s)));
    }

    fn parse(&self, input: State<I>) -> (r: ParseResult<O, I>) {
        let r = (self.f)(input);
        proof {
            assert(fn_result_model(r) == (self.m@)(input.model()));
        }
        r
    }
}

} // verus!
