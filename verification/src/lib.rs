//! WQL, the query language of WooriDB, and the pure parts of the database
//! engine that act on parsed queries.

pub mod text;
pub mod types;
pub mod numbers;
pub mod values;
pub mod compound;
pub mod ast;
pub mod statements;
pub mod where_clause;
pub mod select;
pub mod parser;
pub mod model;
pub mod log;
pub mod tx;
pub mod auth;
pub mod error;
pub mod compare;
pub mod relation;
pub mod clauses;
pub mod query;
pub mod algebra;
pub mod options;
pub mod state;
pub mod context;
pub mod controllers;
pub mod when;
pub mod when_at;
pub mod steps;
pub mod join;
pub mod debug;
pub mod uniques;
pub mod scheduler;
