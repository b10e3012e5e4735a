use vstd::prelude::*;
use vstd::string::StrSliceExecFns;
use crate::position::SourcePosition;

verus! {

/// One reason a parse failed.
#[derive(Debug, Clone, PartialEq)]
pub enum Error {
    /// A token was consumed but disallowed.
    Unexpected(char),
    /// A labelled literal or named production was required and not found.
    Expected(String),
    /// A free-form annotation, typically attached by `message`.
    Message(String),
}

/// Specification-level value of an `Error`, with strings as character
/// sequences.
pub enum ErrorModel {
    Unexpected(char),
    Expected(Seq<char>),
    Message(Seq<char>),
}

impl View for Error {
    type V = ErrorModel;

    open spec fn view(&self) -> ErrorModel {
        match self {
            Error::Unexpected(c) => ErrorModel::Unexpected(*c),
            Error::Expected(s) => ErrorModel::Expected(s@),
            Error::Message(s) => ErrorModel::Message(s@),
        }
    }
}

/// Character-by-character string equality; two string slices are equal
/// exactly when their character sequences are.
pub fn str_eq(a: &str, b: &str) -> (r: bool)
    ensures
        r == (a@ == b@),
{
    let alen = a.unicode_len();
    let blen = b.unicode_len();
    if alen != blen {
        proof {
            assert(a@ != b@) by {
                if a@ == b@ {
                    assert(a@.len() == b@.len());
                }
            }
        }
        return false;
    }
    let mut i: usize = 0;
    while i < alen
        invariant
            alen == a@.len(),
            blen == b@.len(),
            alen == blen,
            0 <= i <= alen,
            forall|j: int| 0 <= j < i ==> a@[j] == b@[j],
        decreases alen - i,
    {
        if a.get_char(i) != b.get_char(i) {
            proof {
                assert(a@ != b@) by {
                    if a@ == b@ {
                        assert(a@[i as int] == b@[i as int]);
                    }
                }
            }
            return false;
        }
        i = i + 1;
    }
    proof {
        assert(a@ =~= b@);
    }
    true
}

impl Error {
    /// Structural equality of reasons, decided by their
    /// specification-level values.
    pub fn equals(&self, other: &Error) -> (r: bool)
        ensures
            r == (self@ == other@),
    {
        match (self, other) {
            (Error::Unexpected(a), Error::Unexpected(b)) => *a == *b,
            (Error::Expected(a), Error::Expected(b)) => str_eq(a.as_str(), b.as_str()),
            (Error::Message(a), Error::Message(b)) => str_eq(a.as_str(), b.as_str()),
            _ => false,
        }
    }

    /// Produces a fresh `Error` with the same specification-level value.
    pub fn duplicate(&self) -> (r: Error)
        ensures
            r@ == self@,
    {
        match self {
            Error::Unexpected(c) => Error::Unexpected(*c),
            Error::Expected(s) => Error::Expected(s.as_str().to_owned()),
            Error::Message(s) => Error::Message(s.as_str().to_owned()),
        }
    }
}

/// A structured parse failure: the position at which the failure was first
/// observed, and the distinct reasons collected there.
#[derive(Debug, Clone, PartialEq)]
pub struct ParseError {
    pub position: SourcePosition,
    pub errors: Vec<Error>,
}

/// Specification-level value of a `ParseError`.
pub struct ParseErrorModel {
    pub position: SourcePosition,
    pub errors: Seq<ErrorModel>,
}

impl View for ParseError {
    type V = ParseErrorModel;

    open spec fn view(&self) -> ParseErrorModel {
        ParseErrorModel {
            position: self.position,
            errors: Seq::new(self.errors@.len(), |i: int| self.errors@[i]@),
        }
    }
}

/// No two reasons in the list are equal.
pub open spec fn distinct_errors(es: Seq<ErrorModel>) -> bool {
    forall|i: int, j: int| 0 <= i < j < es.len() ==> es[i] != es[j]
}

impl ParseErrorModel {
    /// Every `ParseError` a parser surfaces keeps its reasons distinct.
    pub open spec fn wf(self) -> bool {
        distinct_errors(self.errors)
    }
}

/// A failure carrying a single reason.
pub open spec fn spec_single_error(p: SourcePosition, e: ErrorModel) -> ParseErrorModel {
    ParseErrorModel { position: p, errors: seq![e] }
}

/// A failure with a single reason keeps its reasons trivially distinct.
pub proof fn lemma_single_error_wf(p: SourcePosition, e: ErrorModel)
    ensures
        spec_single_error(p, e).wf(),
{
    assert(distinct_errors(seq![e]));
}

/// Appends `e` to the reason list unless an equal reason is already there.
pub open spec fn spec_add_error(es: Seq<ErrorModel>, e: ErrorModel) -> Seq<ErrorModel> {
    if es.contains(e) {
        es
    } else {
        es.push(e)
    }
}

/// Folds every reason of `more` into `es`, left to right, skipping
/// duplicates.
pub open spec fn spec_merge_errors(es: Seq<ErrorModel>, more: Seq<ErrorModel>) -> Seq<ErrorModel>
    decreases more.len(),
{
    if more.len() == 0 {
        es
    } else {
        spec_merge_errors(spec_add_error(es, more[0]), more.skip(1))
    }
}

/// Membership in the reason list after `spec_add_error`.
pub proof fn lemma_add_error_contains(es: Seq<ErrorModel>, e: ErrorModel, x: ErrorModel)
    ensures
        spec_add_error(es, e).contains(x) <==> (es.contains(x) || x == e),
{
    if es.contains(e) {
    } else {
        if es.contains(x) {
            let i = choose|i: int| 0 <= i < es.len() && es[i] == x;
            assert(es.push(e)[i] == x);
        }
        if x == e {
            assert(es.push(e)[es.len() as int] == e);
        }
        if es.push(e).contains(x) {
            let i = choose|i: int| 0 <= i < es.push(e).len() && es.push(e)[i] == x;
            if i < es.len() {
                assert(es[i] == x);
            }
        }
    }
}

/// `spec_add_error` keeps the reasons distinct.
pub proof fn lemma_add_error_distinct(es: Seq<ErrorModel>, e: ErrorModel)
    requires
        distinct_errors(es),
    ensures
        distinct_errors(spec_add_error(es, e)),
{
    if !es.contains(e) {
        let r = es.push(e);
        assert forall|i: int, j: int| 0 <= i < j < r.len() implies r[i] != r[j] by {
            if j < es.len() {
            } else {
                assert(r[j] == e);
                assert(r[i] == es[i]);
                assert(!es.contains(e));
                assert(es[i] != e);
            }
        }
    }
}

/// Membership after merging two reason lists: exactly the union.
pub proof fn lemma_merge_errors_contains(es: Seq<ErrorModel>, more: Seq<ErrorModel>, x: ErrorModel)
    ensures
        spec_merge_errors(es, more).contains(x) <==> (es.contains(x) || more.contains(x)),
    decreases more.len(),
{
    if more.len() == 0 {
    } else {
        lemma_add_error_contains(es, more[0], x);
        lemma_merge_errors_contains(spec_add_error(es, more[0]), more.skip(1), x);
        assert(more.skip(1).contains(x) || x == more[0] ==> more.contains(x)) by {
            if more.skip(1).contains(x) {
                let i = choose|i: int| 0 <= i < more.skip(1).len() && more.skip(1)[i] == x;
                assert(more[i + 1] == x);
            }
        }
        if more.contains(x) && x != more[0] {
            let i = choose|i: int| 0 <= i < more.len() && more[i] == x;
            assert(more.skip(1)[i - 1] == x);
        }
    }
}

/// Merging keeps the reasons distinct.
pub proof fn lemma_merge_errors_distinct(es: Seq<ErrorModel>, more: Seq<ErrorModel>)
    requires
        distinct_errors(es),
    ensures
        distinct_errors(spec_merge_errors(es, more)),
    decreases more.len(),
{
    if more.len() > 0 {
        lemma_add_error_distinct(es, more[0]);
        lemma_merge_errors_distinct(spec_add_error(es, more[0]), more.skip(1));
    }
}

impl ParseError {
    /// A failure at `position` with the single reason `error`.
    pub fn new(position: SourcePosition, error: Error) -> (e: ParseError)
        ensures
            e@ == spec_single_error(position, error@),
            e@.wf(),
    {
        let mut errors: Vec<Error> = Vec::new();
        errors.push(error);
        let e = ParseError { position, errors };
        proof {
            assert(e@.errors =~= seq![error@]);
        }
        e
    }

    /// Adds one reason, keeping the list free of duplicates; the position
    /// is untouched.
    pub fn add_error(&mut self, error: Error)
        ensures
            final(self)@.position == old(self)@.position,
            final(self)@.errors == spec_add_error(old(self)@.errors, error@),
    {
        let n = self.errors.len();
        let mut i: usize = 0;
        while i < n
            invariant
                *self == *old(self),
                n == self.errors.len(),
                0 <= i <= n,
                forall|j: int| 0 <= j < i ==> self.errors@[j]@ != error@,
            decreases n - i,
        {
            if self.errors[i].equals(&error) {
                proof {
                    assert(old(self)@.errors[i as int] == error@);
                    assert(old(self)@.errors.contains(error@));
                }
                return ;
            }
            i = i + 1;
        }
        proof {
            assert(!old(self)@.errors.contains(error@)) by {
                if old(self)@.errors.contains(error@) {
                    let j = choose|j: int|
                        0 <= j < old(self)@.errors.len() && old(self)@.errors[j] == error@;
                    assert(self.errors@[j]@ == error@);
                }
            }
        }
        self.errors.push(error);
        proof {
            assert(self@.errors =~= old(self)@.errors.push(error@));
        }
    }

    /// Adds a free-form annotation, deduplicated; the position is untouched.
    pub fn add_message(&mut self, message: String)
        ensures
            final(self)@.position == old(self)@.position,
            final(self)@.errors == spec_add_error(
                old(self)@.errors,
                ErrorModel::Message(message@),
            ),
    {
        self.add_error(Error::Message(message));
    }

    /// Extends this failure with every reason of `other` that is not
    /// already present; the position stays that of `self`.
    pub fn merge(self, other: ParseError) -> (r: ParseError)
        ensures
            r@.position == self@.position,
            r@.errors == spec_merge_errors(self@.errors, other@.errors),
    {
        let mut res = self;
        let n = other.errors.len();
        let mut i: usize = 0;
        proof {
            assert(other@.errors.skip(0) =~= other@.errors);
        }
        while i < n
            invariant
                n == other.errors.len(),
                0 <= i <= n,
                res@.position == self@.position,
                spec_merge_errors(self@.errors, other@.errors) == spec_merge_errors(
                    res@.errors,
                    other@.errors.skip(i as int),
                ),
            decreases n - i,
        {
            let e = other.errors[i].duplicate();
            proof {
                let rest = other@.errors.skip(i as int);
                assert(rest[0] == other@.errors[i as int]);
                assert(rest.skip(1) =~= other@.errors.skip(i as int + 1));
            }
            res.add_error(e);
            i = i + 1;
        }
        proof {
            assert(other@.errors.skip(n as int).len() == 0);
        }
        res
    }
}

} // verus!
