//! The core of a command-line client for weather services: the providers
//! and their catalogue, the reading of replies from a REST service, the
//! configuration that is kept between runs, and what the commands decide.
//! Requests, files and the terminal are left to the program around it.

pub mod commands;
pub mod config;
pub mod date;
pub mod provider;
pub mod provider_registry;
pub mod rest;
pub mod text;
pub mod text_map;
