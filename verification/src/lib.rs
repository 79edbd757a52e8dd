//! A grammar for annotation metadata held in a token stream: paths, argument
//! lists, `name = value` pairs and brace-delimited records, parsed into a tree
//! and rendered back to tokens and to canonical text.

pub mod attr;
pub mod buffer;
pub mod error;
pub mod expr;
pub mod grammar;
pub mod host;
pub mod laws;
pub mod render;
pub mod token;

pub use crate::attr::{
    parse_meta_after_path, Lit, Meta, MetaList, MetaNameValue, MetaPath, MetaValue, NestedMeta,
    Path, PathSegment, Payload, UnnamedMetaList,
};
pub use crate::buffer::TokenBuffer;
pub use crate::error::{ErrorKind, Failure, ParseError};
pub use crate::expr::{CustomExpr, ExprUnnamedStruct, FieldValue, Member};
pub use crate::render::stream_text;
pub use crate::token::{Delimiter, Token, TokenTree};
