use parser_combinators::CharIterator;
use parser_combinators::Error;
use parser_combinators::ParseError;
use parser_combinators::Parser;
use parser_combinators::ParserExt;
use parser_combinators::SourcePosition;
use parser_combinators::State;
use parser_combinators::Stream;
use parser_combinators::char;
use parser_combinators::digit;
use parser_combinators::many;
use parser_combinators::many1;
use parser_combinators::many_append;
use parser_combinators::optional;
use parser_combinators::parser;
use parser_combinators::satisfy;
use parser_combinators::sep_by;
use parser_combinators::string;

fn start() -> SourcePosition {
    SourcePosition { line: 1, column: 1 }
}

// Two runs of one parser on equal inputs produce equal results.
#[test]
fn determinism_on_equal_inputs() {
    let p = many1(satisfy(|c: char| c.is_alphanumeric()));
    let r1 = p.start_parse("ab1!");
    let r2 = p.start_parse("ab1!");
    assert_eq!(r1, r2);
    assert_eq!(
        r1,
        Ok((vec!['a', 'b', '1'], State {
            position: SourcePosition { line: 1, column: 4 },
            input: "!",
        }))
    );
}

// A failing `satisfy` reports the position it started at and leaves the
// caller's state usable: the failure consumed nothing observable.
#[test]
fn satisfy_consumes_nothing_on_failure() {
    let p = satisfy(|c| c == 'x');
    let result = p.start_parse("abc");
    let err = ParseError { position: start(), errors: vec![Error::Unexpected('a')] };
    assert_eq!(result, Err(err));
}

// Success never moves the position backwards.
#[test]
fn monotone_success_positions() {
    let p = many(parser(char::<&str>));
    let (taken, s) = p.start_parse("a\nbc").unwrap();
    assert_eq!(taken, vec!['a', '\n', 'b', 'c']);
    let before = start();
    let after = s.position;
    assert!(
        after.line > before.line || (after.line == before.line && after.column >= before.column)
    );
    assert_eq!(after, SourcePosition { line: 2, column: 3 });
}

// `optional` always succeeds, returning the original state on failure.
#[test]
fn optional_always_succeeds() {
    let p = optional(parser(digit));
    let (v, s) = p.start_parse("x7").unwrap();
    assert_eq!(v, None);
    assert_eq!(s.into_inner(), "x7");
    let p2 = optional(parser(digit));
    let (v2, s2) = p2.start_parse("7x").unwrap();
    assert_eq!(v2, Some('7'));
    assert_eq!(s2.into_inner(), "x");
}

// Grouping of alternatives does not change the reported reasons.
#[test]
fn or_merge_is_associative() {
    let left = satisfy(|c| c == 'a').or(satisfy(|c| c == 'b')).or(parser(digit));
    let right = satisfy(|c| c == 'a').or(satisfy(|c| c == 'b').or(parser(digit)));
    let rl = left.start_parse("z");
    let rr = right.start_parse("z");
    assert_eq!(rl, rr);
    let err = ParseError {
        position: start(),
        errors: vec![Error::Unexpected('z'), Error::Message("Expected digit".to_string())],
    };
    assert_eq!(rl, Err(err));
}

// Adding the same message twice leaves the error unchanged.
#[test]
fn message_dedup_is_idempotent() {
    let mut once = ParseError { position: start(), errors: vec![Error::Unexpected('z')] };
    once.add_message("in a list".to_string());
    let mut twice = ParseError { position: start(), errors: vec![Error::Unexpected('z')] };
    twice.add_message("in a list".to_string());
    twice.add_message("in a list".to_string());
    assert_eq!(once, twice);
}

// The `message` combinator labels failures and passes successes through.
#[test]
fn message_labels_failures() {
    let p = parser(digit).message("while reading a count".to_string());
    let result = p.start_parse("x");
    let err = ParseError {
        position: start(),
        errors: vec![
            Error::Message("Expected digit".to_string()),
            Error::Message("while reading a count".to_string()),
        ],
    };
    assert_eq!(result, Err(err));
    let ok = parser(digit).message("while reading a count".to_string()).start_parse("5");
    assert!(matches!(ok, Ok(('5', _))));
}

// Exhausted input is its own failure.
#[test]
fn end_of_input_failures() {
    let r1 = parser(digit).start_parse("");
    let err = ParseError { position: start(), errors: vec![Error::Message("End of input".to_string())] };
    assert_eq!(r1, Err(err));
}

// The string parser: full match, mismatch position, and exhaustion.
#[test]
fn string_literal_matching() {
    let (v, s) = string("let").start_parse("let x").unwrap();
    assert_eq!(v, "let");
    assert_eq!(s.into_inner(), " x");

    let mismatch = string("let").start_parse("leq x");
    let err = ParseError {
        position: SourcePosition { line: 1, column: 3 },
        errors: vec![Error::Expected("let".to_string())],
    };
    assert_eq!(mismatch, Err(err));

    let exhausted = string("let").start_parse("le");
    let eof = ParseError {
        position: SourcePosition { line: 1, column: 3 },
        errors: vec![Error::Message("End of input".to_string())],
    };
    assert_eq!(exhausted, Err(eof));

    let empty = string("").start_parse("abc").map(|(v, s)| (v, s.into_inner()));
    assert_eq!(empty, Ok(("", "abc")));
}

// `or` backtracks unconditionally: the right alternative sees the whole
// input even after the left consumed part of it.
#[test]
fn or_backtracks_after_partial_consumption() {
    let p = string("ab").or(string("ax"));
    let result = p.start_parse("axe").map(|(v, s)| (v, s.into_inner()));
    assert_eq!(result, Ok(("ax", "e")));
}

// Zero-match repetitions succeed without consuming.
#[test]
fn zero_match_repetition() {
    let r1 = many(parser(digit)).start_parse("abc").map(|(v, s)| (v, s.into_inner()));
    assert_eq!(r1, Ok((vec![], "abc")));
    let r2 = sep_by(parser(digit), satisfy(|c| c == ',')).start_parse("").map(|(v, s)| (v, s.into_inner()));
    assert_eq!(r2, Ok((vec![], "")));
}

// A consumed separator followed by a failing element backtracks to
// before the separator.
#[test]
fn trailing_separator_is_not_consumed() {
    let p = sep_by(parser(digit), satisfy(|c| c == ','));
    let result = p.start_parse("1,2,x").map(|(v, s)| (v, s.into_inner()));
    assert_eq!(result, Ok((vec!['1', '2'], ",x")));
}

// A success that consumes nothing ends the repetition and matches
// nothing: the values and the state are exactly as at a failure.
#[test]
fn many_stops_when_nothing_is_consumed() {
    let p = many(optional(parser(digit)));
    let result = p.start_parse("abc").map(|(v, s)| (v, s.into_inner()));
    assert_eq!(result, Ok((vec![], "abc")));

    let q = many(string(""));
    let (first, s) = q.start_parse("").unwrap();
    assert_eq!(first, Vec::<&str>::new());
    let q2 = many(string(""));
    let (again, s2) = q2.parse(s).unwrap();
    assert_eq!(again, Vec::<&str>::new());
    assert_eq!(s2.into_inner(), "");

    let one = many1(string("")).start_parse("x").map(|(v, s)| (v, s.into_inner()));
    assert_eq!(one, Ok((vec![""], "x")));
}

// `many1` fails exactly when the first application fails.
#[test]
fn many1_requires_one() {
    let failure = many1(parser(digit)).start_parse("x");
    let err = ParseError { position: start(), errors: vec![Error::Message("Expected digit".to_string())] };
    assert_eq!(failure, Err(err));
    let ok = many1(parser(digit)).start_parse("42x").map(|(v, s)| (v, s.into_inner()));
    assert_eq!(ok, Ok((vec!['4', '2'], "x")));
}

// The engine appends to a caller-owned buffer, after what is already
// there.
#[test]
fn many_append_extends_buffer() {
    let engine = many_append(parser(digit));
    let mut buffer = vec!['x'];
    let ((), s) = engine.parse(State::new("12a"), &mut buffer).unwrap();
    assert_eq!(buffer, vec!['x', '1', '2']);
    assert_eq!(s.into_inner(), "a");
}

// A slice stream yields references to its elements, and the generic
// token rule leaves the position untouched.
#[test]
fn slice_streams_yield_references() {
    let values = [10i64, 20, 30];
    let s = State::new(&values[..]);
    let (first, s2) = s.uncons().unwrap();
    assert_eq!(*first, 10);
    assert_eq!(s2.position, SourcePosition { line: 1, column: 1 });
    let (second, s3) = s2.uncons().unwrap();
    assert_eq!(*second, 20);
    assert_eq!(s3.into_inner(), &[30]);
}

// A cloned iterator stream is consumed independently of the original.
#[test]
fn iterator_streams_are_restartable() {
    let original = CharIterator::new("ab");
    let mut copy = original.dup();
    assert_eq!(copy.next(), Some('a'));
    assert_eq!(copy.next(), Some('b'));
    assert_eq!(copy.next(), None);
    let mut original = original;
    assert_eq!(original.next(), Some('a'));
}

// Newlines advance the line and reset the column; other characters
// advance the column.
#[test]
fn position_update_rule() {
    let mut p = SourcePosition { line: 1, column: 1 };
    p.update(&'a');
    assert_eq!(p, SourcePosition { line: 1, column: 2 });
    p.update(&'\n');
    assert_eq!(p, SourcePosition { line: 2, column: 1 });
}

// The canonical textual form of a failure: a position header, then one
// reason per line.
#[test]
fn render_canonical_form() {
    let err = ParseError {
        position: SourcePosition { line: 12, column: 304 },
        errors: vec![
            Error::Unexpected('x'),
            Error::Expected("let".to_string()),
            Error::Message("in a binding".to_string()),
        ],
    };
    assert_eq!(
        err.render(),
        "Parse error at line: 12, column: 304\nUnexpected character 'x'\nExpected let\nin a binding\n"
    );
    assert_eq!(parser_combinators::decimal_string(0), "0");
    assert_eq!(parser_combinators::decimal_string(4294967295), "4294967295");
}

// `between` keeps only the body's value.
#[test]
fn between_brackets() {
    let p = parser_combinators::between(
        satisfy(|c| c == '['),
        satisfy(|c| c == ']'),
        parser(digit),
    );
    let result = p.start_parse("[7] rest").map(|(v, s)| (v, s.into_inner()));
    assert_eq!(result, Ok(('7', " rest")));
}
