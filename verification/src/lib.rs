//! A client of the KUMA REST API: the settings it is run with, the requests
//! it builds, what it makes of the answers, and the command line that drives
//! it. Talking to the network, the terminal and the file system is left to
//! the program that uses this library.
pub mod text;
pub mod json;
pub mod config;
pub mod http;
pub mod api;
pub mod assets;
pub mod services;
pub mod tenants;
pub mod cli;
