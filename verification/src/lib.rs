//! A reader for test descriptions: a `Test` block that names a library and
//! lists typed parameters, read from text into a typed record.
//!
//! ```text
//! Test A { Library B; Parameters { In Time C = 16.6ms; } }
//! ```
//!
//! - `grammar` states the grammar: each rule is a function on a sequence of
//!   characters and a position in it.
//! - `parser` holds the readers, one for each rule, proved to compute exactly
//!   what the rule says. They are what a caller uses: `number`, `text`,
//!   `boolean`, `parameter`, `parameters` and `test_exec`.
//! - `model` holds the records that the readers return, `failure` what they
//!   return where the input is not what the grammar asks for.
//! - `chars` holds the character classes, `scan` the loops that read runs of
//!   them.
//! - `laws`, `well_formed` and `embedding` prove what holds of the grammar as
//!   a whole.

pub mod chars;
pub mod embedding;
pub mod failure;
pub mod grammar;
pub mod laws;
pub mod model;
pub mod parser;
mod scan;
pub mod well_formed;

pub use failure::Expected;
pub use failure::Keyword;
pub use failure::ParseFailure;
pub use model::ArgDirection;
pub use model::Param;
pub use model::ParamType;
pub use model::Test;
pub use model::ValueType;
pub use parser::boolean;
pub use parser::number;
pub use parser::parameter;
pub use parser::parameters;
pub use parser::test_exec;
pub use parser::text;
