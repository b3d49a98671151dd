//! A small static analyzer for a narrow subset of SQL `CREATE TABLE`
//! statements: a recursive-descent parser that turns a statement into a
//! [`Table`], and a linter that runs a fixed battery of rules over the
//! parsed table and reports human-readable diagnostics.

pub mod ast;
pub mod lint;
pub mod parser;

pub use ast::Col;
pub use ast::ColModel;
pub use ast::Table;
pub use ast::TableModel;
pub use lint::check_duplicate_col_names;
pub use lint::check_table_name_is_not_short;
pub use lint::lemma_distinct_cols_r1_clean;
pub use lint::lemma_long_name_r2_clean;
pub use lint::lemma_r1_pure;
pub use lint::lemma_r2_pure;
pub use lint::lemma_runner_congrats;
pub use lint::run_lints;
pub use lint::MIN_LENGTH;
pub use parser::lemma_parse_table_wf;
pub use parser::parse_col;
pub use parser::parse_table;
pub use parser::ParseError;
