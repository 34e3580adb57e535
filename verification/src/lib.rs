//! Verified core of the Scala 3 BSP semantic language server.

pub mod bootstrap;
pub mod bsp;
pub mod build_scheduler;
pub mod calendar;
pub mod capabilities;
pub mod cli;
pub mod config;
pub mod convert;
pub mod diagnostics;
pub mod doctor;
pub mod documents;
pub mod formatting;
pub mod json;
pub mod jsonrpc;
pub mod lifecycle;
pub mod lines;
pub mod logging;
pub mod numerals;
pub mod order;
pub mod output;
pub mod params;
pub mod paths;
pub mod pc;
pub mod pc_abi;
pub mod pc_convert;
pub mod pc_diagnostics;
pub mod pc_lsp;
pub mod pc_overlay;
pub mod protocol;
pub mod server;
pub mod strmap;
pub mod text;
