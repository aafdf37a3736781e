//! Line editor building blocks: UTF-8 decoding, input parsing, line
//! buffers, history, terminal bookkeeping and output generation.

pub mod utf8;
pub mod input;
pub mod line_buffer;
pub mod terminal;
pub mod history;
pub mod output;
pub mod editor;
pub mod testlib;
