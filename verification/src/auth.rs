//! Users, roles, sessions and the administrator's credentials.

pub mod schemas;
pub mod models;
pub mod middlewares;
pub mod controllers;
