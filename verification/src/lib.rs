//! A localhost service core that lets a viewer page run code snippets taken
//! from local documents: path-scoped, short-lived tokens, a registry of
//! per-language runners, and the checks a run request passes before anything
//! is executed.

pub mod auth;
pub mod auth_laws;
pub mod config;
pub mod requests;
pub mod route;
pub mod run;
pub mod text;
