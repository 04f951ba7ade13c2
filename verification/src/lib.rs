//! Verified core of the Survi Minecraft launcher: account building, rule
//! evaluation, download planning, Java selection and launch arguments.

pub mod texto;
pub mod cripto;
pub mod auth;
pub mod security;
pub mod config;
pub mod admin;
pub mod java;
pub mod downloader;
pub mod process;
pub mod instance;
