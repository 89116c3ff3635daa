//! Reconstruction of a structured media stream from a raw one-directional
//! capture of a real-time streaming protocol connection: a resumable
//! chunk-stream demultiplexer, a message decoder with a self-describing
//! binary object notation, and a tagged-container muxer.

pub mod amf0;
pub mod bytes;
pub mod demux;
pub mod flv;
pub mod message;
