//! Login backend for TapTap accounts.

pub mod api;
pub mod config;
pub mod crypto;
pub mod device;
pub mod encoding;
pub mod flows;
pub mod json;
pub mod jwt;
pub mod pages;
pub mod qr;
pub mod session;
pub mod taptap;
pub mod text;
pub mod url;
pub mod web;
