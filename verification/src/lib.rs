//! Lock engine for AWS credential profiles kept in a pair of INI-like text
//! files: a line tokenizer, an entry parser, a profile model with a merge of
//! the two files' records, a round-trip serializer, and the pure state
//! transitions behind a scope-bound unlock/re-lock guard.

pub mod aws_lock;
pub mod aws_profile;
pub mod error;
pub mod line_lexer;
pub mod line_parser;
pub mod roundtrip;
pub mod text;
