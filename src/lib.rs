//! Streaming spectrogram core: a single-producer/single-consumer sample
//! transport, the scheduling of overlapping analysis windows, and a bounded
//! queue of spectrogram columns.
//!
//! Samples travel through the library as the 32-bit pattern of their
//! single-precision value: the transport and the scheduler only move them,
//! in order, and never look at their numeric value.
pub mod fifo_queue;
pub mod spectrum_queue;
pub mod stft;
pub mod stft_handler;
pub mod transport;
