//! Reconciles a plain-text ledger against the rows of a bank statement.

pub mod ledger;
pub mod matcher;
pub mod resolver;
pub mod session;
pub mod statement;
pub mod text;
