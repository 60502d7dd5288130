//! Background speech-to-text dictation: the decisions of the daemon, verified.
pub mod asr;
pub mod audio;
pub mod batch;
pub mod cli;
pub mod daemon;
pub mod injector;
pub mod model;
pub mod offline;
pub mod onnx;
pub mod stream;
pub mod text;
pub mod transcript;
pub mod vad;
