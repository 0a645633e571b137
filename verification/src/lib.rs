//! A PostgreSQL query-text builder whose formatting rules are verified.
//!
//! - `query`: the text of a query and the parameters bound to it;
//! - `expr`: expressions, and `CASE` expressions built from them;
//! - `pg_type`: PostgreSQL types, by OID;
//! - `text`: appending to strings, decimal notation.

pub mod expr;
pub mod literal;
pub mod pg_type;
pub mod query;
pub mod text;

pub use expr::Case;
pub use literal::Literal;
pub use pg_type::PgType;
pub use query::{Query, RowColumns, SqlFormatError, StaticQuery};
