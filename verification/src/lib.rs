//! Printer discovery and the PDF-to-printer pipeline, with the rules that the
//! `inkdrop` web server, the `inkdrop-print` command and the simulated printer
//! share.

pub mod buffer;
pub mod cli;
pub mod compression;
pub mod discovery;
pub mod message;
pub mod path;
pub mod pdf;
pub mod pipeline;
pub mod points;
pub mod printing;
pub mod raster;
pub mod request;
pub mod server;
pub mod simulator;
pub mod table;
pub mod text;
pub mod uri;
