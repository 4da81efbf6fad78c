//! A simulated IPP printer that decodes what it is sent instead of printing
//! it.

pub mod ipp_server;
pub mod jobs;
pub mod raster;
