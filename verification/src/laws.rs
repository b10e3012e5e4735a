use vstd::prelude::*;
use crate::combinators::Optional;
use crate::combinators::spec_many;
use crate::combinators::Or;
use crate::error::ErrorModel;
use crate::error::ParseErrorModel;
use crate::error::lemma_add_error_contains;
use crate::error::lemma_merge_errors_contains;
use crate::error::spec_add_error;
use crate::parser::Parser;
use crate::parser::result_matches;
use crate::parser::result_model;
use crate::position::pos_le;
use crate::primitives::Satisfy;
use crate::state::ParseResult;
use crate::state::SpecParseResult;
use crate::state::StateModel;
use crate::stream::Stream;

verus! {

/// The error a failed result carries.
pub open spec fn failure_of<T, M>(r: SpecParseResult<T, M>) -> ParseErrorModel {
    match r {
        Err(e) => e,
        Ok(_) => arbitrary(),
    }
}

/// Determinism: parsing is a pure function of the parser and the state's
/// value. Any two results a well-formed parser may return on states with
/// equal values have equal specification-level values.
pub proof fn lemma_parse_deterministic<P: Parser>(
    p: &P,
    s: StateModel<<P::Input as Stream>::Item>,
    r1: ParseResult<P::Output, P::Input>,
    r2: ParseResult<P::Output, P::Input>,
)
    requires
        result_matches(p, r1, p.spec_parse(s)),
        result_matches(p, r2, p.spec_parse(s)),
    ensures
        result_model(p, r1) == result_model(p, r2),
{
}

/// No consumption on failure for `satisfy`-class primitives: the attempt
/// runs on a copy of the state, so a failure produces no successor state
/// and reports the position the parser started at.
pub proof fn lemma_satisfy_no_consume_on_failure<I, Pred>(
    p: &Satisfy<I, Pred>,
    s: StateModel<char>,
) where I: Stream<Item = char>, Pred: Fn(char) -> bool
    ensures
        p.spec_parse(s) matches Err(e) ==> e.position == s.position,
{
}

/// Monotone success: a successful parse never moves the position
/// backwards in the (line, column) ordering.
pub proof fn lemma_monotone_success<P: Parser>(p: &P, s: StateModel<<P::Input as Stream>::Item>)
    requires
        p.wf(),
    ensures
        p.spec_parse(s) matches Ok((v, t)) ==> pos_le(s.position, t.position),
{
    p.lemma_parse_invariants(s);
}

/// `optional` is total: it succeeds on every state, whatever its
/// sub-parser does.
pub proof fn lemma_optional_total<P: Parser>(
    p: &Optional<P>,
    s: StateModel<<P::Input as Stream>::Item>,
)
    ensures
        p.spec_parse(s) is Ok,
{
}

/// Error merging under alternation is associative: when all three
/// alternatives fail, `(p.or(q)).or(r)` and `p.or(q.or(r))` fail at the
/// same position with the same set of reasons.
pub proof fn lemma_or_error_merge_associative<I, O, P1, P2, P3>(
    left: &Or<Or<P1, P2>, P3>,
    right: &Or<P1, Or<P2, P3>>,
    s: StateModel<<I as Stream>::Item>,
) where
    I: Stream,
    P1: Parser<Input = I, Output = O>,
    P2: Parser<Input = I, Output = O, MOutput = P1::MOutput>,
    P3: Parser<Input = I, Output = O, MOutput = P1::MOutput>,

    requires
        left.0.0 == right.0,
        left.0.1 == right.1.0,
        left.1 == right.1.1,
        right.0.spec_parse(s) is Err,
        right.1.0.spec_parse(s) is Err,
        right.1.1.spec_parse(s) is Err,
    ensures
        left.spec_parse(s) is Err,
        right.spec_parse(s) is Err,
        failure_of(left.spec_parse(s)).position == failure_of(right.spec_parse(s)).position,
        forall|x: ErrorModel|
            failure_of(left.spec_parse(s)).errors.contains(x) <==> failure_of(
                right.spec_parse(s),
            ).errors.contains(x),
{
    let e1 = failure_of(right.0.spec_parse(s));
    let e2 = failure_of(right.1.0.spec_parse(s));
    let e3 = failure_of(right.1.1.spec_parse(s));
    assert forall|x: ErrorModel|
        failure_of(left.spec_parse(s)).errors.contains(x) <==> failure_of(
            right.spec_parse(s),
        ).errors.contains(x) by {
        lemma_merge_errors_contains(e1.errors, e2.errors, x);
        lemma_merge_errors_contains(
            crate::error::spec_merge_errors(e1.errors, e2.errors),
            e3.errors,
            x,
        );
        lemma_merge_errors_contains(e2.errors, e3.errors, x);
        lemma_merge_errors_contains(
            e1.errors,
            crate::error::spec_merge_errors(e2.errors, e3.errors),
            x,
        );
    }
}

/// Running a repetition again from the state it returned matches
/// nothing and leaves that state fixed: the returned state is one where
/// the sub-parser stops matching, by failing or by consuming nothing.
pub proof fn lemma_many_rerun_fixed<P: Parser>(p: P, s: StateModel<<P::Input as Stream>::Item>)
    requires
        p.wf(),
    ensures
        spec_many(p, spec_many(p, s).1) == (Seq::<P::MOutput>::empty(), spec_many(p, s).1),
    decreases s.input.len(),
{
    p.lemma_parse_invariants(s);
    match p.spec_parse(s) {
        Err(_) => {},
        Ok((v, t)) => {
            if t.input.len() < s.input.len() {
                lemma_many_rerun_fixed(p, t);
            }
        },
    }
}

/// Deduplication of messages is idempotent: adding the same message to a
/// failure twice leaves exactly what adding it once leaves.
pub proof fn lemma_add_message_idempotent(e: ParseErrorModel, text: Seq<char>)
    ensures
        ({
            let once = ParseErrorModel {
                position: e.position,
                errors: spec_add_error(e.errors, ErrorModel::Message(text)),
            };
            let twice = ParseErrorModel {
                position: once.position,
                errors: spec_add_error(once.errors, ErrorModel::Message(text)),
            };
            twice == once
        }),
{
    lemma_add_error_contains(e.errors, ErrorModel::Message(text), ErrorModel::Message(text));
}

} // verus!
