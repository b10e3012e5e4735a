use parser_combinators::CharIterator;
use parser_combinators::Error;
use parser_combinators::ParseError;
use parser_combinators::ParseResult;
use parser_combinators::Parser;
use parser_combinators::ParserExt;
use parser_combinators::SourcePosition;
use parser_combinators::State;
use parser_combinators::Stream;
use parser_combinators::between;
use parser_combinators::digit;
use parser_combinators::many;
use parser_combinators::many1;
use parser_combinators::parser;
use parser_combinators::satisfy;
use parser_combinators::sep_by;
use parser_combinators::space;

fn integer<I: Stream<Item = char>>(input: State<I>) -> ParseResult<i64, I> {
    let (chars, input) = match many1(parser(digit)).parse(input) {
        Ok(x) => x,
        Err(e) => return Err(e),
    };
    let mut n = 0;
    for &c in chars.iter() {
        n = n * 10 + (c as i64 - '0' as i64);
    }
    Ok((n, input))
}

#[test]
fn test_integer() {
    let result = parser(integer).start_parse("123").map(|(x, s)| (x, s.into_inner()));
    assert_eq!(result, Ok((123i64, "")));
}

#[test]
fn list() {
    let p = sep_by(parser(integer), satisfy(|c| c == ','));
    let result = p.start_parse("123,4,56").map(|(x, s)| (x, s.into_inner()));
    assert_eq!(result, Ok((vec![123, 4, 56], "")));
}

#[test]
fn iterator() {
    let result = parser(integer).start_parse(CharIterator::new("123")).map(|(i, s)| {
        let mut it = s.into_inner();
        (i, it.next())
    });
    assert_eq!(result, Ok((123i64, None)));
}

#[test]
fn field() {
    let word = many(satisfy(|c: char| c.is_alphanumeric()));
    let word2 = many(satisfy(|c: char| c.is_alphanumeric()));
    let spaces = many(space());
    let spaces2 = many(space());
    let c_decl = word
        .skip(spaces)
        .skip(satisfy(|c| c == ':'))
        .skip(spaces2)
        .and(word2)
        .start_parse("x: int")
        .map(|(x, s)| (x, s.into_inner()));
    assert_eq!(c_decl, Ok(((vec!['x'], vec!['i', 'n', 't']), "")));
}

#[test]
fn source_position() {
    let source = "\n123\n";
    let result = many(space()).with(parser(integer)).skip(many(space())).start_parse(source);
    assert_eq!(
        result,
        Ok((123i64, State { position: SourcePosition { line: 3, column: 1 }, input: "" }))
    );
}

#[derive(Debug, PartialEq)]
enum Expr {
    Id(Vec<char>),
    Int(i64),
    Array(Vec<Expr>),
}

fn expr(input: State<&str>) -> ParseResult<Expr, &str> {
    let word = many1(satisfy(|c: char| c.is_alphabetic()));
    let int_part = parser(integer);
    let array = between(
        satisfy(|c| c == '['),
        satisfy(|c| c == ']'),
        sep_by(parser(expr), satisfy(|c| c == ',')),
    );
    let spaces = many(space());
    spaces
        .with(word.map(Expr::Id).or(int_part.map(Expr::Int)).or(array.map(Expr::Array)))
        .parse(input)
}

#[test]
fn expression() {
    let result = sep_by(parser(expr), satisfy(|c| c == ','))
        .start_parse("int, 100, [[], 123]")
        .map(|(x, s)| (x, s.into_inner()));
    let exprs = vec![
        Expr::Id(vec!['i', 'n', 't']),
        Expr::Int(100),
        Expr::Array(vec![Expr::Array(vec![]), Expr::Int(123)]),
    ];
    assert_eq!(result, Ok((exprs, "")));
}

#[test]
fn expression_error() {
    let input = "\n,123\n";
    let result = parser(expr).start_parse(input);
    let err = ParseError {
        position: SourcePosition { line: 2, column: 1 },
        errors: vec![Error::Unexpected(','), Error::Message("Expected digit".to_string())],
    };
    assert_eq!(result, Err(err));
}
