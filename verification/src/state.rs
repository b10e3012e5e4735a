use vstd::prelude::*;
use crate::error::Error;
use crate::error::ErrorModel;
use crate::error::ParseError;
use crate::error::ParseErrorModel;
use crate::error::spec_single_error;
use crate::position::SourcePosition;
use crate::stream::Stream;

verus! {

/// The pair threaded through every parse step: the current source
/// position and the remaining input.
#[derive(Debug, PartialEq)]
pub struct State<I> {
    pub position: SourcePosition,
    pub input: I,
}

/// Specification-level value of a `State`: the position and the remaining
/// tokens.
pub struct StateModel<T> {
    pub position: SourcePosition,
    pub input: Seq<T>,
}

/// What a parser returns: the parsed value with the rest of the state, or
/// a structured failure.
pub type ParseResult<O, I> = Result<(O, State<I>), ParseError>;

/// Specification-level counterpart of `ParseResult`: values of the model
/// type `M` over token type `T`.
pub type SpecParseResult<T, M> = Result<(M, StateModel<T>), ParseErrorModel>;

/// The state after consuming the first character of a non-empty input,
/// with the position advanced by the character rule.
pub open spec fn spec_advance(s: StateModel<char>) -> StateModel<char> {
    StateModel { position: s.position.spec_update(s.input[0]), input: s.input.skip(1) }
}

impl<I: Stream> State<I> {
    /// The specification-level value of this state.
    pub open spec fn model(&self) -> StateModel<<I as Stream>::Item> {
        StateModel { position: self.position, input: self.input.items() }
    }

    /// Wraps raw input into a fresh state at line 1, column 1.
    pub fn new(input: I) -> (s: State<I>)
        ensures
            s.model() == (StateModel {
                position: SourcePosition::spec_start(),
                input: input.items(),
            }),
    {
        State { position: SourcePosition::start(), input }
    }

    /// An independent copy of this state.
    pub fn dup(&self) -> (s: State<I>)
        ensures
            s.model() == self.model(),
    {
        State { position: self.position, input: self.input.dup() }
    }

    /// Consumes one token, leaving the position untouched (the rule for
    /// generic token streams); fails on exhausted input.
    pub fn uncons(self) -> (r: ParseResult<<I as Stream>::Item, I>)
        ensures
            match r {
                Ok((t, s2)) => self.model().input.len() > 0 && t == self.model().input[0]
                    && s2.model() == (StateModel {
                        position: self.model().position,
                        input: self.model().input.skip(1),
                    }),
                Err(e) => self.model().input.len() == 0 && e@ == spec_single_error(
                    self.model().position,
                    ErrorModel::Message("End of input"@),
                ) && e@.wf(),
            },
    {
        let State { position, input } = self;
        match input.uncons() {
            Ok((t, rest)) => Ok((t, State { position, input: rest })),
            Err(()) => Err(ParseError::new(position, Error::Message("End of input".to_owned()))),
        }
    }

    /// The remaining raw input.
    pub fn into_inner(self) -> (i: I)
        ensures
            i.items() == self.model().input,
    {
        self.input
    }
}

impl<I: Stream<Item = char>> State<I> {
    /// Consumes one character, updating the position by the character
    /// rule: a newline starts a new line, anything else moves one column.
    pub fn uncons_char(self) -> (r: ParseResult<char, I>)
        ensures
            match r {
                Ok((c, s2)) => self.model().input.len() > 0 && c == self.model().input[0]
                    && s2.model() == spec_advance(self.model()),
                Err(e) => self.model().input.len() == 0 && e@ == spec_single_error(
                    self.model().position,
                    ErrorModel::Message("End of input"@),
                ) && e@.wf(),
            },
    {
        let State { mut position, input } = self;
        match input.uncons() {
            Ok((c, rest)) => {
                position.update(&c);
                Ok((c, State { position, input: rest }))
            }
            Err(()) => Err(ParseError::new(position, Error::Message("End of input".to_owned()))),
        }
    }
}

} // verus!
