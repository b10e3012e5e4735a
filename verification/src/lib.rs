//! A parser-combinator library over restartable token streams.
//!
//! Parsers are values: primitives consume tokens from a cloneable stream,
//! and combinators compose parsers into larger ones while threading a
//! `State` (remaining input plus source position) through every step.
//! Every parser carries a specification-level denotation, `spec_parse`,
//! and its executable `parse` is proved to agree with it.

pub mod combinators;
pub mod error;
pub mod laws;
pub mod parser;
pub mod position;
pub mod primitives;
pub mod render;
pub mod state;
pub mod stream;

pub use combinators::And;
pub use combinators::Between;
pub use combinators::Many;
pub use combinators::Many1;
pub use combinators::ManyAppend;
pub use combinators::Mapped;
pub use combinators::Message;
pub use combinators::Optional;
pub use combinators::Or;
pub use combinators::ParserExt;
pub use combinators::SepBy;
pub use combinators::Skip;
pub use combinators::With;
pub use combinators::between;
pub use combinators::many;
pub use combinators::many1;
pub use combinators::many_append;
pub use combinators::optional;
pub use combinators::sep_by;
pub use error::Error;
pub use error::ParseError;
pub use parser::FnParser;
pub use parser::Parser;
pub use parser::parser;
pub use parser::parser_at;
pub use position::SourcePosition;
pub use primitives::Satisfy;
pub use primitives::StringP;
pub use primitives::char;
pub use primitives::digit;
pub use primitives::satisfy;
pub use primitives::space;
pub use primitives::string;
pub use render::decimal_string;
pub use state::ParseResult;
pub use state::State;
pub use stream::CharIterator;
pub use stream::Stream;
