use vstd::prelude::*;
use core::marker::PhantomData;
use crate::error::ErrorModel;
use crate::error::ParseErrorModel;
use crate::error::lemma_merge_errors_distinct;
use crate::error::lemma_add_error_distinct;
use crate::error::spec_add_error;
use crate::error::spec_merge_errors;
use crate::parser::Parser;
use crate::position::lemma_pos_le_trans;
use crate::position::pos_le;
use crate::state::ParseResult;
use crate::state::SpecParseResult;
use crate::state::State;
use crate::state::StateModel;
use crate::stream::Stream;

verus! {

/// Runs the first parser, then the second on the remaining state; either
/// failure is propagated unchanged. Returns the pair of both values.
pub struct And<P1, P2>(pub P1, pub P2);

impl<I, P1, P2> Parser for And<P1, P2> where
    I: Stream,
    P1: Parser<Input = I>,
    P2: Parser<Input = I>,
 {
    type Input = I;

    type Output = (P1::Output, P2::Output);

    type MOutput = (P1::MOutput, P2::MOutput);

    open spec fn output_model(&self, o: (P1::Output, P2::Output)) -> (P1::MOutput, P2::MOutput) {
        (self.0.output_model(o.0), self.1.output_model(o.1))
    }

    open spec fn wf(&self) -> bool {
        self.0.wf() && self.1.wf()
    }

    open spec fn spec_parse(&self, s: StateModel<<I as Stream>::Item>) -> SpecParseResult<
        <I as Stream>::Item,
        (P1::MOutput, P2::MOutput),
    > {
        match self.0.spec_parse(s) {
            Err(e) => Err(e),
            Ok((a, s1)) => match self.1.spec_parse(s1) {
                Err(e) => Err(e),
                Ok((b, s2)) => Ok(((a, b), s2)),
            },
        }
    }

    proof fn lemma_parse_invariants(&self, s: StateModel<<I as Stream>::Item>) {
        self.0.lemma_parse_invariants(s);
        if let Ok((a, s1)) = self.0.spec_parse(s) {
            self.1.lemma_parse_invariants(s1);
            if let Ok((b, s2)) = self.1.spec_parse(s1) {
                lemma_pos_le_trans(s.position, s1.position, s2.position);
            }
        }
    }

    fn parse(&self, input: State<I>) -> (r: ParseResult<(P1::Output, P2::Output), I>) {
        match self.0.parse(input) {
            Err(e) => Err(e),
            Ok((a, rest)) => match self.1.parse(rest) {
                Err(e) => Err(e),
                Ok((b, rest2)) => Ok(((a, b), rest2)),
            },
        }
    }
}

/// As `And`, discarding the first parser's value: returns the second's.
pub struct With<P1, P2>(pub P1, pub P2);

impl<I, P1, P2> Parser for With<P1, P2> where
    I: Stream,
    P1: Parser<Input = I>,
    P2: Parser<Input = I>,
 {
    type Input = I;

    type Output = P2::Output;

    type MOutput = P2::MOutput;

    open spec fn output_model(&self, o: P2::Output) -> P2::MOutput {
        self.1.output_model(o)
    }

    open spec fn wf(&self) -> bool {
        self.0.wf() && self.1.wf()
    }

    open spec fn spec_parse(&self, s: StateModel<<I as Stream>::Item>) -> SpecParseResult<
        <I as Stream>::Item,
        P2::MOutput,
    > {
        match self.0.spec_parse(s) {
            Err(e) => Err(e),
            Ok((a, s1)) => match self.1.spec_parse(s1) {
                Err(e) => Err(e),
                Ok((b, s2)) => Ok((b, s2)),
            },
        }
    }

    proof fn lemma_parse_invariants(&self, s: StateModel<<I as Stream>::Item>) {
        self.0.lemma_parse_invariants(s);
        if let Ok((a, s1)) = self.0.spec_parse(s) {
            self.1.lemma_parse_invariants(s1);
            if let Ok((b, s2)) = self.1.spec_parse(s1) {
                lemma_pos_le_trans(s.position, s1.position, s2.position);
            }
        }
    }

    fn parse(&self, input: State<I>) -> (r: ParseResult<P2::Output, I>) {
        match self.0.parse(input) {
            Err(e) => Err(e),
            Ok((_, rest)) => match self.1.parse(rest) {
                Err(e) => Err(e),
                Ok((b, rest2)) => Ok((b, rest2)),
            },
        }
    }
}

/// As `And`, discarding the second parser's value: returns the first's.
pub struct Skip<P1, P2>(pub P1, pub P2);

impl<I, P1, P2> Parser for Skip<P1, P2> where
    I: Stream,
    P1: Parser<Input = I>,
    P2: Parser<Input = I>,
 {
    type Input = I;

    type Output = P1::Output;

    type MOutput = P1::MOutput;

    open spec fn output_model(&self, o: P1::Output) -> P1::MOutput {
        self.0.output_model(o)
    }

    open spec fn wf(&self) -> bool {
        self.0.wf() && self.1.wf()
    }

    open spec fn spec_parse(&self, s: StateModel<<I as Stream>::Item>) -> SpecParseResult<
        <I as Stream>::Item,
        P1::MOutput,
    > {
        match self.0.spec_parse(s) {
            Err(e) => Err(e),
            Ok((a, s1)) => match self.1.spec_parse(s1) {
                Err(e) => Err(e),
                Ok((b, s2)) => Ok((a, s2)),
            },
        }
    }

    proof fn lemma_parse_invariants(&self, s: StateModel<<I as Stream>::Item>) {
        self.0.lemma_parse_invariants(s);
        if let Ok((a, s1)) = self.0.spec_parse(s) {
            self.1.lemma_parse_invariants(s1);
            if let Ok((b, s2)) = self.1.spec_parse(s1) {
                lemma_pos_le_trans(s.position, s1.position, s2.position);
            }
        }
    }

    fn parse(&self, input: State<I>) -> (r: ParseResult<P1::Output, I>) {
        match self.0.parse(input) {
            Err(e) => Err(e),
            Ok((a, rest)) => match self.1.parse(rest) {
                Err(e) => Err(e),
                Ok((_, rest2)) => Ok((a, rest2)),
            },
        }
    }
}

/// Tries the first parser against a copy of the state; on failure tries
/// the second against the original state, whatever the first consumed
/// (unconditional backtracking). If both fail, the second failure's
/// reasons are folded into the first's, at the first failure's position.
pub struct Or<P1, P2>(pub P1, pub P2);

impl<I, O, P1, P2> Parser for Or<P1, P2> where
    I: Stream,
    P1: Parser<Input = I, Output = O>,
    P2: Parser<Input = I, Output = O, MOutput = P1::MOutput>,
 {
    type Input = I;

    type Output = O;

    type MOutput = P1::MOutput;

    open spec fn output_model(&self, o: O) -> P1::MOutput {
        self.0.output_model(o)
    }

    open spec fn wf(&self) -> bool {
        &&& self.0.wf()
        &&& self.1.wf()
        &&& forall|o: O| #[trigger] self.1.output_model(o) == self.0.output_model(o)
    }

    open spec fn spec_parse(&self, s: StateModel<<I as Stream>::Item>) -> SpecParseResult<
        <I as Stream>::Item,
        P1::MOutput,
    > {
        match self.0.spec_parse(s) {
            Ok(r) => Ok(r),
            Err(e1) => match self.1.spec_parse(s) {
                Ok(r) => Ok(r),
                Err(e2) => Err(
                    ParseErrorModel {
                        position: e1.position,
                        errors: spec_merge_errors(e1.errors, e2.errors),
                    },
                ),
            },
        }
    }

    proof fn lemma_parse_invariants(&self, s: StateModel<<I as Stream>::Item>) {
        self.0.lemma_parse_invariants(s);
        self.1.lemma_parse_invariants(s);
        if let Err(e1) = self.0.spec_parse(s) {
            if let Err(e2) = self.1.spec_parse(s) {
                lemma_merge_errors_distinct(e1.errors, e2.errors);
            }
        }
    }

    fn parse(&self, input: State<I>) -> (r: ParseResult<O, I>) {
        let saved = input.dup();
        match self.0.parse(input) {
            Ok(x) => Ok(x),
            Err(e1) => match self.1.parse(saved) {
                Ok(x) => Ok(x),
                Err(e2) => Err(e1.merge(e2)),
            },
        }
    }
}

/// Attempts `p` against a copy of the state: `Some(value)` on success,
/// `None` with the original state on failure. Never fails.
pub struct Optional<P>(pub P);

impl<P: Parser> Parser for Optional<P> {
    type Input = P::Input;

    type Output = Option<P::Output>;

    type MOutput = Option<P::MOutput>;

    open spec fn output_model(&self, o: Option<P::Output>) -> Option<P::MOutput> {
        match o {
            Some(x) => Some(self.0.output_model(x)),
            None => None,
        }
    }

    open spec fn wf(&self) -> bool {
        self.0.wf()
    }

    open spec fn spec_parse(&self, s: StateModel<<P::Input as Stream>::Item>) -> SpecParseResult<
        <P::Input as Stream>::Item,
        Option<P::MOutput>,
    > {
        match self.0.spec_parse(s) {
            Ok((v, t)) => Ok((Some(v), t)),
            Err(_) => Ok((None, s)),
        }
    }

    proof fn lemma_parse_invariants(&self, s: StateModel<<P::Input as Stream>::Item>) {
        self.0.lemma_parse_invariants(s);
    }

    fn parse(&self, input: State<P::Input>) -> (r: ParseResult<Option<P::Output>, P::Input>) {
        let saved = input.dup();
        match self.0.parse(input) {
            Ok((x, rest)) => Ok((Some(x), rest)),
            Err(_) => Ok((None, saved)),
        }
    }
}

/// A parser that returns `Some(value)` on success and `None` on failure,
/// consuming nothing in the latter case; it always succeeds.
pub fn optional<P>(parser: P) -> (p: Optional<P>)
    ensures
        p.0 == parser,
{
    Optional(parser)
}

/// Applies a pure function to the parsed value; failure passes through
/// unchanged.
pub struct Mapped<P, F, B> {
    pub parser: P,
    pub f: F,
    pub marker: PhantomData<B>,
}

impl<P, F, B> Mapped<P, F, B> where P: Parser, F: Fn(P::Output) -> B {
    /// The function is callable on every value and its result is
    /// determined by the specification-level value of its argument.
    pub open spec fn map_wf(&self) -> bool {
        &&& forall|a: P::Output| #[trigger] call_requires(self.f, (a,))
        &&& forall|a1: P::Output, a2: P::Output, b1: B, b2: B|
            #![trigger call_ensures(self.f, (a1,), b1), call_ensures(self.f, (a2,), b2)]
            self.parser.output_model(a1) == self.parser.output_model(a2) && call_ensures(
                self.f,
                (a1,),
                b1,
            ) && call_ensures(self.f, (a2,), b2) ==> b1 == b2
    }

    /// The value `f` produces for parser outputs modelling `m`.
    pub open spec fn spec_map(&self, m: P::MOutput) -> B {
        (choose|ab: (P::Output, B)|
            #[trigger] call_ensures(self.f, (ab.0,), ab.1) && self.parser.output_model(ab.0)
                == m).1
    }
}

impl<P, F, B> Parser for Mapped<P, F, B> where P: Parser, F: Fn(P::Output) -> B {
    type Input = P::Input;

    type Output = B;

    type MOutput = B;

    open spec fn output_model(&self, o: B) -> B {
        o
    }

    open spec fn wf(&self) -> bool {
        self.parser.wf() && self.map_wf()
    }

    open spec fn spec_parse(&self, s: StateModel<<P::Input as Stream>::Item>) -> SpecParseResult<
        <P::Input as Stream>::Item,
        B,
    > {
        match self.parser.spec_parse(s) {
            Ok((m, t)) => Ok((self.spec_map(m), t)),
            Err(e) => Err(e),
        }
    }

    proof fn lemma_parse_invariants(&self, s: StateModel<<P::Input as Stream>::Item>) {
        self.parser.lemma_parse_invariants(s);
    }

    fn parse(&self, input: State<P::Input>) -> (r: ParseResult<B, P::Input>) {
        match self.parser.parse(input) {
            Ok((a, rest)) => {
                let ghost ga = a;
                let ghost am = self.parser.output_model(a);
                let b = (self.f)(a);
                proof {
                    let ab = (ga, b);
                    assert(call_ensures(self.f, (ab.0,), ab.1) && self.parser.output_model(ab.0)
                        == am);
                    let ab2 = choose|ab2: (P::Output, B)|
                        #[trigger] call_ensures(self.f, (ab2.0,), ab2.1) && self.parser.output_model(
                            ab2.0,
                        ) == am;
                    assert(self.spec_map(am) == ab2.1);
                    assert(ab2.1 == b);
                }
                Ok((b, rest))
            },
            Err(e) => Err(e),
        }
    }
}

/// Passes successes through; on failure, appends the label as a
/// `Message` reason (deduplicated) at the failure's own position.
pub struct Message<P>(pub P, pub String);

impl<P: Parser> Parser for Message<P> {
    type Input = P::Input;

    type Output = P::Output;

    type MOutput = P::MOutput;

    open spec fn output_model(&self, o: P::Output) -> P::MOutput {
        self.0.output_model(o)
    }

    open spec fn wf(&self) -> bool {
        self.0.wf()
    }

    open spec fn spec_parse(&self, s: StateModel<<P::Input as Stream>::Item>) -> SpecParseResult<
        <P::Input as Stream>::Item,
        P::MOutput,
    > {
        match self.0.spec_parse(s) {
            Ok(r) => Ok(r),
            Err(e) => Err(
                ParseErrorModel {
                    position: e.position,
                    errors: spec_add_error(e.errors, ErrorModel::Message(self.1@)),
                },
            ),
        }
    }

    proof fn lemma_parse_invariants(&self, s: StateModel<<P::Input as Stream>::Item>) {
        self.0.lemma_parse_invariants(s);
        if let Err(e) = self.0.spec_parse(s) {
            lemma_add_error_distinct(e.errors, ErrorModel::Message(self.1@));
        }
    }

    fn parse(&self, input: State<P::Input>) -> (r: ParseResult<P::Output, P::Input>) {
        match self.0.parse(input) {
            Ok(x) => Ok(x),
            Err(mut err) => {
                err.add_message(self.1.as_str().to_owned());
                Err(err)
            },
        }
    }
}

/// The specification-level values of a buffer of outputs of `p`.
pub open spec fn models_of<P: Parser>(p: P, vs: Seq<P::Output>) -> Seq<P::MOutput> {
    vs.map(|i: int, o: P::Output| p.output_model(o))
}

pub proof fn lemma_models_of_push<P: Parser>(p: P, vs: Seq<P::Output>, o: P::Output)
    ensures
        models_of(p, vs.push(o)) == models_of(p, vs).push(p.output_model(o)),
{
    assert(models_of(p, vs.push(o)) =~= models_of(p, vs).push(p.output_model(o)));
}

/// The denotation of repeated application: the values `p` yields until it
/// stops matching, and the state the repetition ended at. Repetition ends
/// at a failure of `p`, and equally at a success that consumed nothing:
/// parsing is deterministic, so `p` could only repeat such a success
/// forever; it matches nothing, and the state stays where the attempt
/// began.
pub open spec fn spec_many<P: Parser>(p: P, s: StateModel<<P::Input as Stream>::Item>) -> (Seq<
    P::MOutput,
>, StateModel<<P::Input as Stream>::Item>)
    decreases s.input.len(),
{
    match p.spec_parse(s) {
        Err(_) => (Seq::empty(), s),
        Ok((v, t)) => {
            if t.input.len() < s.input.len() {
                let (vs, u) = spec_many(p, t);
                (seq![v] + vs, u)
            } else {
                (Seq::empty(), s)
            }
        },
    }
}

/// Repetition is well-behaved: the final state never precedes the start
/// and never holds more input.
pub proof fn lemma_spec_many_invariants<P: Parser>(p: P, s: StateModel<<P::Input as Stream>::Item>)
    requires
        p.wf(),
    ensures
        pos_le(s.position, spec_many(p, s).1.position),
        spec_many(p, s).1.input.len() <= s.input.len(),
        spec_many(p, s).1.input.len() == s.input.len() ==> spec_many(p, s).1 == s,
    decreases s.input.len(),
{
    p.lemma_parse_invariants(s);
    match p.spec_parse(s) {
        Err(_) => {},
        Ok((v, t)) => {
            if t.input.len() < s.input.len() {
                lemma_spec_many_invariants(p, t);
                lemma_pos_le_trans(s.position, t.position, spec_many(p, t).1.position);
            }
        },
    }
}

/// Runs `p` repeatedly from `input`, pushing each value into `vec`, until
/// `p` stops matching — a failure, or a success that consumed nothing —
/// and returns the state the repetition ended at.
fn many_loop<P: Parser>(p: &P, input: State<P::Input>, vec: &mut Vec<P::Output>) -> (st: State<
    P::Input,
>)
    requires
        p.wf(),
    ensures
        st.model() == spec_many(*p, input.model()).1,
        final(vec)@.len() >= old(vec)@.len(),
        final(vec)@.subrange(0, old(vec)@.len() as int) == old(vec)@,
        models_of(*p, final(vec)@) == models_of(*p, old(vec)@) + spec_many(*p, input.model()).0,
    decreases input.model().input.len(),
{
    let prev_len = input.input.len();
    let ghost m0 = input.model();
    match p.parse(input.dup()) {
        Err(_) => {
            proof {
                assert(vec@.subrange(0, vec@.len() as int) =~= vec@);
                assert(models_of(*p, vec@) + spec_many(*p, m0).0 =~= models_of(*p, vec@));
            }
            input
        },
        Ok((x, rest)) => {
            let ghost gx = x;
            let ghost xm = p.output_model(x);
            let ghost vs0 = vec@;
            let ghost m1 = rest.model();
            let new_len = rest.input.len();
            if new_len < prev_len {
                vec.push(x);
                proof {
                    lemma_models_of_push(*p, vs0, gx);
                }
                let st = many_loop(p, rest, vec);
                proof {
                    let ghost pushed = vs0.push(gx);
                    assert(spec_many(*p, m0).0 == seq![xm] + spec_many(*p, m1).0);
                    assert(spec_many(*p, m0).1 == spec_many(*p, m1).1);
                    assert(models_of(*p, vec@) == models_of(*p, vs0).push(xm) + spec_many(
                        *p,
                        m1,
                    ).0);
                    assert(models_of(*p, vs0).push(xm) + spec_many(*p, m1).0 =~= models_of(*p, vs0)
                        + (seq![xm] + spec_many(*p, m1).0));
                    assert(vec@.subrange(0, pushed.len() as int) == pushed);
                    assert forall|j: int| 0 <= j < vs0.len() implies vec@.subrange(
                        0,
                        vs0.len() as int,
                    )[j] == vs0[j] by {
                        assert(vec@.subrange(0, pushed.len() as int)[j] == pushed[j]);
                    }
                    assert(vec@.subrange(0, vs0.len() as int) =~= vs0);
                }
                st
            } else {
                proof {
                    assert(spec_many(*p, m0).0 =~= Seq::<P::MOutput>::empty());
                    assert(models_of(*p, vec@) + spec_many(*p, m0).0 =~= models_of(*p, vec@));
                    assert(vec@.subrange(0, vec@.len() as int) =~= vec@);
                }
                input
            }
        },
    }
}

/// Zero or more applications of `parser`, each value pushed into a
/// caller-owned ordered buffer: the shared engine behind `many` and
/// `many1`. Always succeeds, returning unit and the state at which the
/// repetition ended.
pub struct ManyAppend<P> {
    pub parser: P,
}

impl<P: Parser> ManyAppend<P> {
    /// Runs the sub-parser repeatedly, appending every value to `vec`.
    pub fn parse(&self, input: State<P::Input>, vec: &mut Vec<P::Output>) -> (r: ParseResult<
        (),
        P::Input,
    >)
        requires
            self.parser.wf(),
        ensures
            r matches Ok((u, st)) && st.model() == spec_many(self.parser, input.model()).1,
            final(vec)@.len() >= old(vec)@.len(),
            final(vec)@.subrange(0, old(vec)@.len() as int) == old(vec)@,
            models_of(self.parser, final(vec)@) == models_of(self.parser, old(vec)@) + spec_many(
                self.parser,
                input.model(),
            ).0,
    {
        let st = many_loop(&self.parser, input, vec);
        Ok(((), st))
    }
}

/// The engine that repeats `parser` and appends each value to a buffer.
pub fn many_append<P: Parser>(parser: P) -> (p: ManyAppend<P>)
    ensures
        p.parser == parser,
{
    ManyAppend { parser }
}

/// Zero or more applications of `parser`; always succeeds with the
/// ordered sequence of values, ending where the sub-parser stopped
/// matching.
pub struct Many<P> {
    pub parser: P,
}

impl<P: Parser> Parser for Many<P> {
    type Input = P::Input;

    type Output = Vec<P::Output>;

    type MOutput = Seq<P::MOutput>;

    open spec fn output_model(&self, o: Vec<P::Output>) -> Seq<P::MOutput> {
        models_of(self.parser, o@)
    }

    open spec fn wf(&self) -> bool {
        self.parser.wf()
    }

    open spec fn spec_parse(&self, s: StateModel<<P::Input as Stream>::Item>) -> SpecParseResult<
        <P::Input as Stream>::Item,
        Seq<P::MOutput>,
    > {
        Ok((spec_many(self.parser, s).0, spec_many(self.parser, s).1))
    }

    proof fn lemma_parse_invariants(&self, s: StateModel<<P::Input as Stream>::Item>) {
        lemma_spec_many_invariants(self.parser, s);
    }

    fn parse(&self, input: State<P::Input>) -> (r: ParseResult<Vec<P::Output>, P::Input>) {
        let ghost m0 = input.model();
        let mut result: Vec<P::Output> = Vec::new();
        let st = many_loop(&self.parser, input, &mut result);
        proof {
            assert(models_of(self.parser, Seq::<P::Output>::empty()) =~= Seq::<
                P::MOutput,
            >::empty());
            assert(models_of(self.parser, result@) =~= spec_many(self.parser, m0).0);
        }
        Ok((result, st))
    }
}

/// A parser applying `p` zero or more times.
pub fn many<P: Parser>(p: P) -> (m: Many<P>)
    ensures
        m.parser == p,
{
    Many { parser: p }
}

/// One or more applications of the parser: fails exactly when the first
/// application fails, propagating that error.
pub struct Many1<P>(pub P);

impl<P: Parser> Parser for Many1<P> {
    type Input = P::Input;

    type Output = Vec<P::Output>;

    type MOutput = Seq<P::MOutput>;

    open spec fn output_model(&self, o: Vec<P::Output>) -> Seq<P::MOutput> {
        models_of(self.0, o@)
    }

    open spec fn wf(&self) -> bool {
        self.0.wf()
    }

    open spec fn spec_parse(&self, s: StateModel<<P::Input as Stream>::Item>) -> SpecParseResult<
        <P::Input as Stream>::Item,
        Seq<P::MOutput>,
    > {
        match self.0.spec_parse(s) {
            Err(e) => Err(e),
            Ok((v, t)) => Ok((seq![v] + spec_many(self.0, t).0, spec_many(self.0, t).1)),
        }
    }

    proof fn lemma_parse_invariants(&self, s: StateModel<<P::Input as Stream>::Item>) {
        self.0.lemma_parse_invariants(s);
        if let Ok((v, t)) = self.0.spec_parse(s) {
            lemma_spec_many_invariants(self.0, t);
            lemma_pos_le_trans(s.position, t.position, spec_many(self.0, t).1.position);
        }
    }

    fn parse(&self, input: State<P::Input>) -> (r: ParseResult<Vec<P::Output>, P::Input>) {
        match self.0.parse(input) {
            Err(e) => Err(e),
            Ok((first, rest)) => {
                let ghost gfirst = first;
                let ghost fm = self.0.output_model(first);
                let ghost mrest = rest.model();
                let mut result: Vec<P::Output> = Vec::new();
                result.push(first);
                proof {
                    lemma_models_of_push(self.0, Seq::empty(), gfirst);
                    assert(models_of(self.0, Seq::<P::Output>::empty()) =~= Seq::<
                        P::MOutput,
                    >::empty());
                    assert(models_of(self.0, result@) =~= seq![fm]);
                }
                let st = many_loop(&self.0, rest, &mut result);
                proof {
                    assert(models_of(self.0, result@) =~= seq![fm] + spec_many(self.0, mrest).0);
                }
                Ok((result, st))
            },
        }
    }
}

/// A parser applying `p` one or more times.
pub fn many1<P: Parser>(p: P) -> (m: Many1<P>)
    ensures
        m.0 == p,
{
    Many1(p)
}

/// The denotation of the repeated tail of `sep_by`: attempts of the
/// atomic pair (separator, then element) until one stops matching. A
/// failing pair backtracks to the state before the pair began, so a
/// trailing separator is never consumed; a pair that consumed nothing
/// likewise matches nothing and leaves the state where it began.
pub open spec fn spec_sep_rest<P, S>(
    p: P,
    sep: S,
    s: StateModel<<P::Input as Stream>::Item>,
) -> (Seq<P::MOutput>, StateModel<<P::Input as Stream>::Item>) where
    P: Parser,
    S: Parser<Input = P::Input>,

    decreases s.input.len(),
{
    match sep.spec_parse(s) {
        Err(_) => (Seq::empty(), s),
        Ok((sv, t1)) => match p.spec_parse(t1) {
            Err(_) => (Seq::empty(), s),
            Ok((v, t2)) => {
                if t2.input.len() < s.input.len() {
                    let (vs, u) = spec_sep_rest(p, sep, t2);
                    (seq![v] + vs, u)
                } else {
                    (Seq::empty(), s)
                }
            },
        },
    }
}

/// The repeated tail of `sep_by` is well-behaved.
pub proof fn lemma_spec_sep_rest_invariants<P, S>(
    p: P,
    sep: S,
    s: StateModel<<P::Input as Stream>::Item>,
) where P: Parser, S: Parser<Input = P::Input>
    requires
        p.wf(),
        sep.wf(),
    ensures
        pos_le(s.position, spec_sep_rest(p, sep, s).1.position),
        spec_sep_rest(p, sep, s).1.input.len() <= s.input.len(),
        spec_sep_rest(p, sep, s).1.input.len() == s.input.len() ==> spec_sep_rest(p, sep, s).1
            == s,
    decreases s.input.len(),
{
    sep.lemma_parse_invariants(s);
    if let Ok((sv, t1)) = sep.spec_parse(s) {
        p.lemma_parse_invariants(t1);
        if let Ok((v, t2)) = p.spec_parse(t1) {
            lemma_pos_le_trans(s.position, t1.position, t2.position);
            if t2.input.len() < s.input.len() {
                lemma_spec_sep_rest_invariants(p, sep, t2);
                lemma_pos_le_trans(s.position, t2.position, spec_sep_rest(p, sep, t2).1.position);
            }
        }
    }
}

/// Runs the (separator, element) pair repeatedly from `input`, pushing
/// each element value into `vec`, until a pair stops matching — by
/// failing, or by consuming nothing — and backtracks that pair to the
/// state it began at.
fn sep_loop<P, S>(p: &P, sep: &S, input: State<P::Input>, vec: &mut Vec<P::Output>) -> (st: State<
    P::Input,
>) where P: Parser, S: Parser<Input = P::Input>
    requires
        p.wf(),
        sep.wf(),
    ensures
        st.model() == spec_sep_rest(*p, *sep, input.model()).1,
        final(vec)@.len() >= old(vec)@.len(),
        final(vec)@.subrange(0, old(vec)@.len() as int) == old(vec)@,
        models_of(*p, final(vec)@) == models_of(*p, old(vec)@) + spec_sep_rest(
            *p,
            *sep,
            input.model(),
        ).0,
    decreases input.model().input.len(),
{
    let prev_len = input.input.len();
    let ghost m0 = input.model();
    let saved = input.dup();
    proof {
        assert(vec@.subrange(0, vec@.len() as int) =~= vec@);
    }
    match sep.parse(input) {
        Err(_) => {
            proof {
                assert(models_of(*p, vec@) + spec_sep_rest(*p, *sep, m0).0 =~= models_of(
                    *p,
                    vec@,
                ));
            }
            saved
        },
        Ok((_, t1)) => {
            match p.parse(t1) {
                Err(_) => {
                    proof {
                        assert(models_of(*p, vec@) + spec_sep_rest(*p, *sep, m0).0 =~= models_of(
                            *p,
                            vec@,
                        ));
                    }
                    saved
                },
                Ok((x, t2)) => {
                    let ghost gx = x;
                    let ghost xm = p.output_model(x);
                    let ghost vs0 = vec@;
                    let ghost m2 = t2.model();
                    let new_len = t2.input.len();
                    if new_len < prev_len {
                        vec.push(x);
                        proof {
                            lemma_models_of_push(*p, vs0, gx);
                        }
                        let st = sep_loop(p, sep, t2, vec);
                        proof {
                            let ghost pushed = vs0.push(gx);
                            assert(spec_sep_rest(*p, *sep, m0).0 == seq![xm] + spec_sep_rest(
                                *p,
                                *sep,
                                m2,
                            ).0);
                            assert(models_of(*p, vec@) == models_of(*p, vs0).push(xm)
                                + spec_sep_rest(*p, *sep, m2).0);
                            assert(models_of(*p, vs0).push(xm) + spec_sep_rest(*p, *sep, m2).0
                                =~= models_of(*p, vs0) + (seq![xm] + spec_sep_rest(
                                *p,
                                *sep,
                                m2,
                            ).0));
                            assert(vec@.subrange(0, pushed.len() as int) == pushed);
                            assert forall|j: int| 0 <= j < vs0.len() implies vec@.subrange(
                                0,
                                vs0.len() as int,
                            )[j] == vs0[j] by {
                                assert(vec@.subrange(0, pushed.len() as int)[j] == pushed[j]);
                            }
                            assert(vec@.subrange(0, vs0.len() as int) =~= vs0);
                        }
                        st
                    } else {
                        proof {
                            assert(spec_sep_rest(*p, *sep, m0).0 =~= Seq::<P::MOutput>::empty());
                            assert(models_of(*p, vec@) + spec_sep_rest(*p, *sep, m0).0
                                =~= models_of(*p, vec@));
                            assert(vec@.subrange(0, vec@.len() as int) =~= vec@);
                        }
                        saved
                    }
                },
            }
        },
    }
}

/// Zero or more `parser`, separated by `separator`: fails never. A
/// trailing separator is left unconsumed, because each (separator,
/// element) pair is attempted atomically against the state before it.
pub struct SepBy<P, S> {
    pub parser: P,
    pub separator: S,
}

impl<P, S> Parser for SepBy<P, S> where P: Parser, S: Parser<Input = P::Input> {
    type Input = P::Input;

    type Output = Vec<P::Output>;

    type MOutput = Seq<P::MOutput>;

    open spec fn output_model(&self, o: Vec<P::Output>) -> Seq<P::MOutput> {
        models_of(self.parser, o@)
    }

    open spec fn wf(&self) -> bool {
        self.parser.wf() && self.separator.wf()
    }

    open spec fn spec_parse(&self, s: StateModel<<P::Input as Stream>::Item>) -> SpecParseResult<
        <P::Input as Stream>::Item,
        Seq<P::MOutput>,
    > {
        match self.parser.spec_parse(s) {
            Err(_) => Ok((Seq::empty(), s)),
            Ok((v, t)) => Ok(
                (
                    seq![v] + spec_sep_rest(self.parser, self.separator, t).0,
                    spec_sep_rest(self.parser, self.separator, t).1,
                ),
            ),
        }
    }

    proof fn lemma_parse_invariants(&self, s: StateModel<<P::Input as Stream>::Item>) {
        self.parser.lemma_parse_invariants(s);
        if let Ok((v, t)) = self.parser.spec_parse(s) {
            lemma_spec_sep_rest_invariants(self.parser, self.separator, t);
            lemma_pos_le_trans(
                s.position,
                t.position,
                spec_sep_rest(self.parser, self.separator, t).1.position,
            );
        }
    }

    fn parse(&self, input: State<P::Input>) -> (r: ParseResult<Vec<P::Output>, P::Input>) {
        let saved = input.dup();
        match self.parser.parse(input) {
            Err(_) => {
                let result: Vec<P::Output> = Vec::new();
                proof {
                    assert(models_of(self.parser, result@) =~= Seq::<P::MOutput>::empty());
                }
                Ok((result, saved))
            },
            Ok((first, rest)) => {
                let ghost gfirst = first;
                let ghost fm = self.parser.output_model(first);
                let ghost mrest = rest.model();
                let mut result: Vec<P::Output> = Vec::new();
                result.push(first);
                proof {
                    lemma_models_of_push(self.parser, Seq::empty(), gfirst);
                    assert(models_of(self.parser, Seq::<P::Output>::empty()) =~= Seq::<
                        P::MOutput,
                    >::empty());
                    assert(models_of(self.parser, result@) =~= seq![fm]);
                }
                let st = sep_loop(&self.parser, &self.separator, rest, &mut result);
                proof {
                    assert(models_of(self.parser, result@) =~= seq![fm] + spec_sep_rest(
                        self.parser,
                        self.separator,
                        mrest,
                    ).0);
                }
                Ok((result, st))
            },
        }
    }
}

/// A parser applying `parser` zero or more times, separated by
/// `separator`.
pub fn sep_by<P: Parser, S: Parser>(parser: P, separator: S) -> (r: SepBy<P, S>)
    ensures
        r.parser == parser,
        r.separator == separator,
{
    SepBy { parser, separator }
}

/// The shape of `between`: the opening parser, then the body, then the
/// closing parser, keeping only the body's value.
pub type Between<L, R, P> = Skip<With<L, P>, R>;

/// Parses `opening`, then `parser`, then `closing`, returning `parser`'s
/// value.
pub fn between<I, L, R, P>(opening: L, closing: R, parser: P) -> (b: Between<L, R, P>) where
    I: Stream,
    L: Parser<Input = I>,
    R: Parser<Input = I>,
    P: Parser<Input = I>,

    ensures
        b.0.0 == opening,
        b.0.1 == parser,
        b.1 == closing,
{
    opening.with(parser).skip(closing)
}

/// Fluent composition: every parser exposes `with`, `skip`, `and`, `or`,
/// `map` and `message` as sugar for the corresponding combinators.
pub trait ParserExt: Parser {
    /// Discards this parser's value and returns `p`'s value; fails if
    /// either parser fails.
    fn with<P2: Parser>(self, p: P2) -> (r: With<Self, P2>)
        ensures
            r.0 == self,
            r.1 == p,
    {
        With(self, p)
    }

    /// Discards `p`'s value and returns this parser's value; fails if
    /// either parser fails.
    fn skip<P2: Parser>(self, p: P2) -> (r: Skip<Self, P2>)
        ensures
            r.0 == self,
            r.1 == p,
    {
        Skip(self, p)
    }

    /// Parses with this parser followed by `p`; succeeds with both
    /// values exactly when both succeed.
    fn and<P2: Parser>(self, p: P2) -> (r: And<Self, P2>)
        ensures
            r.0 == self,
            r.1 == p,
    {
        And(self, p)
    }

    /// Tries this parser, and if it fails, parses `p` from the same
    /// state.
    fn or<P2: Parser>(self, p: P2) -> (r: Or<Self, P2>)
        ensures
            r.0 == self,
            r.1 == p,
    {
        Or(self, p)
    }

    /// Maps `f` over the parsed value.
    fn map<F, B>(self, f: F) -> (r: Mapped<Self, F, B>) where F: Fn(Self::Output) -> B
        ensures
            r.parser == self,
            r.f == f,
    {
        Mapped { parser: self, f, marker: PhantomData }
    }

    /// Attaches `msg` as an extra reason to this parser's failures.
    fn message(self, msg: String) -> (r: Message<Self>)
        ensures
            r.0 == self,
            r.1 == msg,
    {
        Message(self, msg)
    }
}

impl<P: Parser> ParserExt for P {}

} // verus!
