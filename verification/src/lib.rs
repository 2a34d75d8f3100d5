//! An expense-splitting library: users own projects, projects collect members
//! and expenses, and a balance engine nets each member's position under an
//! equal-split policy.
//!
//! The store model keeps users, projects, memberships and expenses in memory,
//! enforces the relational constraints (unique ids, unique and well-formed
//! emails, foreign keys) and manages the creation and update timestamps with
//! its own logical clock. The balance engine is a pure computation over a
//! project's members and expenses.

pub mod balance;
pub mod cli;
pub mod error;
pub mod expense;
pub mod project;
pub mod store;
pub mod user;

pub use error::Error;
