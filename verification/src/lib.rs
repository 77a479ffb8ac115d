//! Planning and bookkeeping for a batch image compressor.

pub mod batch;
pub mod cli;
pub mod codec;
pub mod compressor;
pub mod paths;
pub mod utils;
