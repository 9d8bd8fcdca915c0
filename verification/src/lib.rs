//! Access rules, stores and request parsing of a small self-hosted git forge.
pub mod text;
pub mod keyed;
pub mod access;
pub mod issues;
pub mod request;
pub mod cgi;
pub mod accounts;
pub mod releases;
pub mod web;
pub mod laws;
