use vstd::prelude::*;
use core::marker::PhantomData;
use vstd::string::StrSliceExecFns;
use crate::error::Error;
use crate::error::ErrorModel;
use crate::error::ParseError;
use crate::error::ParseErrorModel;
use crate::error::lemma_single_error_wf;
use crate::error::spec_single_error;
use crate::parser::Parser;
use crate::parser::parse_step_ok;
use crate::position::lemma_update_monotone;
use crate::position::lemma_pos_le_trans;
use crate::state::ParseResult;
use crate::state::SpecParseResult;
use crate::state::State;
use crate::state::StateModel;
use crate::state::spec_advance;
use crate::stream::Stream;

verus! {

/// The predicate is callable on every character and its verdict is
/// determined by the character alone.
pub open spec fn pred_total<Pred: Fn(char) -> bool>(pred: Pred) -> bool {
    &&& forall|c: char| #[trigger] call_requires(pred, (c,))
    &&& forall|c: char, b1: bool, b2: bool|
        #![trigger call_ensures(pred, (c,), b1), call_ensures(pred, (c,), b2)]
        call_ensures(pred, (c,), b1) && call_ensures(pred, (c,), b2) ==> b1 == b2
}

/// The verdict of `pred` on `c`, at the specification level.
pub open spec fn pred_holds<Pred: Fn(char) -> bool>(pred: Pred, c: char) -> bool {
    choose|b: bool| call_ensures(pred, (c,), b)
}

/// Consumes one character if `pred` accepts it; otherwise fails without
/// having advanced any observable state (test-before-commit: the
/// attempt runs on a copy of the state, and failure reports the position
/// the parser started at).
pub struct Satisfy<I, Pred> {
    pub pred: Pred,
    pub marker: PhantomData<I>,
}

impl<I, Pred> Parser for Satisfy<I, Pred> where
    I: Stream<Item = char>,
    Pred: Fn(char) -> bool,
 {
    type Input = I;

    type Output = char;

    type MOutput = char;

    open spec fn output_model(&self, o: char) -> char {
        o
    }

    open spec fn wf(&self) -> bool {
        pred_total(self.pred)
    }

    open spec fn spec_parse(&self, s: StateModel<char>) -> SpecParseResult<char, char> {
        if s.input.len() == 0 {
            Err(spec_single_error(s.position, ErrorModel::Message("End of input"@)))
        } else if pred_holds(self.pred, s.input[0]) {
            Ok((s.input[0], spec_advance(s)))
        } else {
            Err(spec_single_error(s.position, ErrorModel::Unexpected(s.input[0])))
        }
    }

    proof fn lemma_parse_invariants(&self, s: StateModel<char>) {
        if s.input.len() == 0 {
            lemma_single_error_wf(s.position, ErrorModel::Message("End of input"@));
        } else if pred_holds(self.pred, s.input[0]) {
            lemma_update_monotone(s.position, s.input[0]);
            assert(s.input.skip(1).len() == s.input.len() - 1);
        } else {
            lemma_single_error_wf(s.position, ErrorModel::Unexpected(s.input[0]));
        }
    }

    fn parse(&self, input: State<I>) -> (r: ParseResult<char, I>) {
        let pos = input.position;
        match input.dup().uncons_char() {
            Ok((c, s2)) => {
                let b = (self.pred)(c);
                proof {
                    assert(call_ensures(self.pred, (c,), b));
                    assert(pred_holds(self.pred, c) == b);
                }
                if b {
                    Ok((c, s2))
                } else {
                    Err(ParseError::new(pos, Error::Unexpected(c)))
                }
            },
            Err(e) => Err(e),
        }
    }
}

/// A parser that consumes one character and succeeds exactly when `pred`
/// accepts it.
pub fn satisfy<I, Pred>(pred: Pred) -> (p: Satisfy<I, Pred>) where
    I: Stream,
    Pred: Fn(char) -> bool,

    ensures
        p.pred == pred,
{
    Satisfy { pred, marker: PhantomData }
}

/// Whether `c` is a Unicode whitespace character.
pub open spec fn is_space_char(c: char) -> bool {
    let u = c as u32;
    u == 0x20 || u == 0x9 || u == 0xA || u == 0xB || u == 0xC || u == 0xD || u == 0x85 || u
        == 0xA0 || u == 0x1680 || (0x2000 <= u && u <= 0x200A) || u == 0x2028 || u == 0x2029 || u
        == 0x202F || u == 0x205F || u == 0x3000
}

/// Decides whether `c` is a Unicode whitespace character.
pub fn is_space(c: char) -> (b: bool)
    ensures
        b == is_space_char(c),
{
    let u = c as u32;
    u == 0x20 || u == 0x9 || u == 0xA || u == 0xB || u == 0xC || u == 0xD || u == 0x85 || u
        == 0xA0 || u == 0x1680 || (0x2000 <= u && u <= 0x200A) || u == 0x2028 || u == 0x2029 || u
        == 0x202F || u == 0x205F || u == 0x3000
}

/// A parser for a single whitespace character.
pub fn space<I: Stream>() -> (p: Satisfy<I, impl Fn(char) -> bool>)
    ensures
        pred_total(p.pred),
        forall|c: char, b: bool| call_ensures(p.pred, (c,), b) ==> b == is_space_char(c),
{
    let pred = |c: char| -> (b: bool)
        ensures
            b == is_space_char(c),
        {
            is_space(c)
        };
    satisfy(pred)
}

/// Whether `c` is a decimal digit.
pub open spec fn is_digit_char(c: char) -> bool {
    0x30 <= c as u32 && c as u32 <= 0x39
}

/// The denotation of `digit`: one decimal digit from a character stream.
pub open spec fn spec_digit(s: StateModel<char>) -> SpecParseResult<char, char> {
    if s.input.len() == 0 {
        Err(spec_single_error(s.position, ErrorModel::Message("End of input"@)))
    } else if is_digit_char(s.input[0]) {
        Ok((s.input[0], spec_advance(s)))
    } else {
        Err(spec_single_error(s.position, ErrorModel::Message("Expected digit"@)))
    }
}

/// Parses one decimal digit from a character stream; on any other
/// character it fails at the position it started at, without advancing.
pub fn digit<I: Stream<Item = char>>(input: State<I>) -> (r: ParseResult<char, I>)
    ensures
        match r {
            Ok((c, s2)) => spec_digit(input.model()) matches Ok((mc, ms)) && mc == c && ms
                == s2.model(),
            Err(e) => spec_digit(input.model()) matches Err(me) && me == e@,
        },
{
    let pos = input.position;
    match input.dup().uncons_char() {
        Ok((c, s2)) => {
            let u = c as u32;
            if 0x30 <= u && u <= 0x39 {
                Ok((c, s2))
            } else {
                Err(ParseError::new(pos, Error::Message("Expected digit".to_owned())))
            }
        },
        Err(e) => Err(e),
    }
}

/// The denotation of `char`: any single character, with the position
/// advanced by the character rule.
pub open spec fn spec_any_char(s: StateModel<char>) -> SpecParseResult<char, char> {
    if s.input.len() == 0 {
        Err(spec_single_error(s.position, ErrorModel::Message("End of input"@)))
    } else {
        Ok((s.input[0], spec_advance(s)))
    }
}

/// Parses any single character.
pub fn char<I: Stream<Item = char>>(input: State<I>) -> (r: ParseResult<char, I>)
    ensures
        match r {
            Ok((c, s2)) => spec_any_char(input.model()) matches Ok((mc, ms)) && mc == c && ms
                == s2.model(),
            Err(e) => spec_any_char(input.model()) matches Err(me) && me == e@,
        },
{
    input.uncons_char()
}

/// Matches the literal `s` character by character; on the first mismatch
/// it fails with `Expected(s)` at the position of the mismatch, and on
/// exhaustion mid-match it propagates the exhaustion error.
pub struct StringP<'a, I> {
    pub s: &'a str,
    pub marker: PhantomData<I>,
}

/// The denotation of matching the tail `t` of the literal `full`,
/// starting at `s`: the state after the match, or the first failure.
pub open spec fn spec_string_parse(
    full: Seq<char>,
    t: Seq<char>,
    s: StateModel<char>,
) -> Result<StateModel<char>, ParseErrorModel>
    decreases t.len(),
{
    if t.len() == 0 {
        Ok(s)
    } else if s.input.len() == 0 {
        Err(spec_single_error(s.position, ErrorModel::Message("End of input"@)))
    } else if s.input[0] != t[0] {
        Err(spec_single_error(s.position, ErrorModel::Expected(full)))
    } else {
        spec_string_parse(full, t.skip(1), spec_advance(s))
    }
}

/// The steps of `spec_string_parse` are well-behaved.
pub proof fn lemma_string_parse_invariants(full: Seq<char>, t: Seq<char>, s: StateModel<char>)
    ensures
        spec_string_parse(full, t, s) matches Ok(s2) ==> parse_step_ok::<char, Seq<char>>(
            s,
            Ok((full, s2)),
        ),
        spec_string_parse(full, t, s) matches Err(e) ==> e.wf(),
    decreases t.len(),
{
    if t.len() == 0 {
    } else if s.input.len() == 0 {
    } else if s.input[0] != t[0] {
    } else {
        lemma_update_monotone(s.position, s.input[0]);
        lemma_string_parse_invariants(full, t.skip(1), spec_advance(s));
        if let Ok(s2) = spec_string_parse(full, t.skip(1), spec_advance(s)) {
            lemma_pos_le_trans(s.position, spec_advance(s).position, s2.position);
        }
    }
}

impl<'b, I> Parser for StringP<'b, I> where I: Stream<Item = char> {
    type Input = I;

    type Output = &'b str;

    type MOutput = Seq<char>;

    open spec fn output_model(&self, o: &'b str) -> Seq<char> {
        o@
    }

    open spec fn wf(&self) -> bool {
        true
    }

    open spec fn spec_parse(&self, s: StateModel<char>) -> SpecParseResult<char, Seq<char>> {
        match spec_string_parse(self.s@, self.s@, s) {
            Ok(s2) => Ok((self.s@, s2)),
            Err(e) => Err(e),
        }
    }

    proof fn lemma_parse_invariants(&self, s: StateModel<char>) {
        lemma_string_parse_invariants(self.s@, self.s@, s);
    }

    fn parse(&self, input: State<I>) -> (r: ParseResult<&'b str, I>) {
        let ghost m0 = input.model();
        let n = self.s.unicode_len();
        let mut cur = input;
        let mut i: usize = 0;
        proof {
            assert(self.s@.skip(0) =~= self.s@);
        }
        while i < n
            invariant
                n == self.s@.len(),
                0 <= i <= n,
                m0 == input.model(),
                spec_string_parse(self.s@, self.s@, m0) == spec_string_parse(
                    self.s@,
                    self.s@.skip(i as int),
                    cur.model(),
                ),
            decreases n - i,
        {
            let ghost t = self.s@.skip(i as int);
            proof {
                assert(t.len() == n - i);
                assert(t[0] == self.s@[i as int]);
                assert(t.skip(1) =~= self.s@.skip(i as int + 1));
            }
            let c = self.s.get_char(i);
            let pos = cur.position;
            let ghost mcur = cur.model();
            match cur.dup().uncons_char() {
                Ok((other, rest)) => {
                    if c != other {
                        proof {
                            assert(mcur.input[0] != t[0]);
                            assert(spec_string_parse(self.s@, t, mcur) matches Err(me) && me
                                == spec_single_error(mcur.position, ErrorModel::Expected(self.s@)));
                        }
                        return Err(ParseError::new(pos, Error::Expected(self.s.to_owned())));
                    }
                    proof {
                        assert(rest.model() == spec_advance(mcur));
                        assert(spec_string_parse(self.s@, t, mcur) == spec_string_parse(
                            self.s@,
                            t.skip(1),
                            spec_advance(mcur),
                        ));
                    }
                    cur = rest;
                },
                Err(e) => {
                    proof {
                        assert(mcur.input.len() == 0);
                        assert(spec_string_parse(self.s@, t, mcur) matches Err(me) && me
                            == spec_single_error(
                            mcur.position,
                            ErrorModel::Message("End of input"@),
                        ));
                    }
                    return Err(e);
                },
            }
            i = i + 1;
        }
        proof {
            assert(self.s@.skip(n as int).len() == 0);
        }
        Ok((self.s, cur))
    }
}

/// A parser for the literal string `s`.
pub fn string<I: Stream>(s: &str) -> (p: StringP<'_, I>)
    ensures
        p.s == s,
{
    StringP { s, marker: PhantomData }
}

} // verus!
