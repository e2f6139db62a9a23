//! A streaming Edge Side Includes (ESI) processor: it parses a markup
//! document for ESI directives (`include`, `try`/`attempt`/`except`,
//! `comment`, `remove`), resolves fragment requests against a set of
//! backend responses, and reassembles the output in document order.
//!
//! Fragment bodies are used exactly as the oracle holds them: a runtime
//! that rewrites fragment responses applies that rewriting before filling
//! the oracle. The expression evaluator (`process_symbols`) stands on its
//! own; the directive parser does not invoke it on attribute values or
//! fragment bodies. On a document-fatal error the library returns the
//! error with no output bytes; what already reached the wire is the
//! runtime's concern.

pub mod config;
pub mod context;
pub mod dispatch;
pub mod document;
pub mod error;
pub mod esi_dollar_structs;
pub mod laws;
pub mod parse;
pub mod processor;
pub mod string_functions;
pub mod strings;
pub mod symbols;
pub mod value;
pub mod vars;
pub mod xml;

pub use config::Configuration;
pub use context::RequestContext;
pub use dispatch::{HttpRequest, UrlParts};
pub use document::{DispatchOutcome, Element, FragmentOracle, Fragment, FetchState, Task};
pub use error::ExecutionError;
pub use esi_dollar_structs::{Arg, EsiData, Function, TextOrFunction};
pub use parse::{parse_tags, Event, Include, Tag};
pub use processor::Processor;
pub use string_functions::{join, string_split};
pub use symbols::{handle_symbol, process_symbols, resolve_fn, resolve_var, tokenize_symbols, Symbol};
pub use value::EValue;
