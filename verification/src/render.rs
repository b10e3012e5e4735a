use vstd::prelude::*;
use vstd::string::StringExecFns;
use crate::error::Error;
use crate::error::ErrorModel;
use crate::error::ParseError;
use crate::error::ParseErrorModel;
use crate::position::SourcePosition;

verus! {

/// Relies on String::push: appends exactly the given character to the
/// end of the string.
#[verifier::external_body]
fn push_char(s: &mut String, c: char)
    ensures
        final(s)@ == old(s)@.push(c),
{
    s.push(c);
}

/// The decimal digit `d` as a character.
pub open spec fn spec_digit_char(d: nat) -> char {
    ((48 + d) as u8) as char
}

/// The decimal text of `n`, most significant digit first.
pub open spec fn spec_decimal(n: nat) -> Seq<char>
    decreases n,
{
    if n < 10 {
        seq![spec_digit_char(n)]
    } else {
        spec_decimal(n / 10).push(spec_digit_char(n % 10))
    }
}

fn digit_char(d: u32) -> (c: char)
    requires
        d < 10,
    ensures
        c == spec_digit_char(d as nat),
{
    ((48 + d) as u8) as char
}

/// Writes `n` in decimal.
pub fn decimal_string(n: u32) -> (s: String)
    ensures
        s@ == spec_decimal(n as nat),
    decreases n,
{
    if n < 10 {
        let mut s = String::new();
        push_char(&mut s, digit_char(n));
        proof {
            assert(s@ =~= spec_decimal(n as nat));
        }
        s
    } else {
        proof {
            assert(n / 10 < n) by (nonlinear_arith)
                requires
                    n >= 10,
            ;
        }
        let mut s = decimal_string(n / 10);
        push_char(&mut s, digit_char(n % 10));
        s
    }
}

/// The canonical text of a position: `line: L, column: C`.
pub open spec fn spec_render_position(p: SourcePosition) -> Seq<char> {
    "line: "@ + spec_decimal(p.line as nat) + ", column: "@ + spec_decimal(p.column as nat)
}

impl SourcePosition {
    /// Renders this position as `line: L, column: C`.
    pub fn render(&self) -> (s: String)
        ensures
            s@ == spec_render_position(*self),
    {
        let mut s = "line: ".to_owned();
        let line = decimal_string(self.line);
        s.append(line.as_str());
        s.append(", column: ");
        let column = decimal_string(self.column);
        s.append(column.as_str());
        proof {
            assert(s@ =~= spec_render_position(*self));
        }
        s
    }
}

/// The canonical text of one reason.
pub open spec fn spec_render_error(e: ErrorModel) -> Seq<char> {
    match e {
        ErrorModel::Unexpected(c) => "Unexpected character '"@ + seq![c] + "'"@,
        ErrorModel::Expected(s) => "Expected "@ + s,
        ErrorModel::Message(m) => m,
    }
}

impl Error {
    /// Renders this reason in its canonical textual form.
    pub fn render(&self) -> (s: String)
        ensures
            s@ == spec_render_error(self@),
    {
        match self {
            Error::Unexpected(c) => {
                let mut s = "Unexpected character '".to_owned();
                push_char(&mut s, *c);
                s.append("'");
                proof {
                    assert(s@ =~= spec_render_error(self@));
                }
                s
            },
            Error::Expected(label) => {
                let mut s = "Expected ".to_owned();
                s.append(label.as_str());
                s
            },
            Error::Message(m) => m.as_str().to_owned(),
        }
    }
}

/// The canonical text of the reasons, one per line, each line ended by a
/// newline.
pub open spec fn spec_render_reasons(es: Seq<ErrorModel>) -> Seq<char>
    decreases es.len(),
{
    if es.len() == 0 {
        Seq::empty()
    } else {
        spec_render_error(es[0]) + seq!['\n'] + spec_render_reasons(es.skip(1))
    }
}

/// The canonical text of a whole failure: a header naming the position,
/// then each reason on a line of its own.
pub open spec fn spec_render_parse_error(e: ParseErrorModel) -> Seq<char> {
    "Parse error at "@ + spec_render_position(e.position) + seq!['\n'] + spec_render_reasons(
        e.errors,
    )
}

impl ParseError {
    /// Renders this failure in its canonical textual form.
    pub fn render(&self) -> (s: String)
        ensures
            s@ == spec_render_parse_error(self@),
    {
        let mut s = "Parse error at ".to_owned();
        let position = self.position.render();
        s.append(position.as_str());
        push_char(&mut s, '\n');
        let n = self.errors.len();
        let mut i: usize = 0;
        proof {
            assert(self@.errors.skip(0) =~= self@.errors);
            assert(s@ =~= "Parse error at "@ + spec_render_position(self@.position) + seq!['\n']);
        }
        while i < n
            invariant
                n == self.errors.len(),
                0 <= i <= n,
                s@ + spec_render_reasons(self@.errors.skip(i as int)) == spec_render_parse_error(
                    self@,
                ),
            decreases n - i,
        {
            let ghost rest = self@.errors.skip(i as int);
            proof {
                assert(rest[0] == self@.errors[i as int]);
                assert(rest.skip(1) =~= self@.errors.skip(i as int + 1));
            }
            let line = self.errors[i].render();
            s.append(line.as_str());
            push_char(&mut s, '\n');
            proof {
                assert(s@ + spec_render_reasons(self@.errors.skip(i as int + 1))
                    =~= spec_render_parse_error(self@));
            }
            i = i + 1;
        }
        proof {
            assert(spec_render_reasons(self@.errors.skip(n as int)) =~= Seq::<char>::empty());
            assert(s@ =~= spec_render_parse_error(self@));
        }
        s
    }
}

} // verus!
