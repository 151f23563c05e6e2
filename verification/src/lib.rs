//! Reception, validation and decoding of Mitutoyo Digimatic measurement frames.
//!
//! Data flows from a raw transport frame (a text line such as `FFFF001234520`
//! or 52 raw bits) through the nibble parser into a validated
//! [`frame::DigimaticFrame`] and from there into a [`frame::Measurement`],
//! the single intermediate representation that the logger, console and GUI use.

pub mod args;
pub mod communicator;
pub mod config;
pub mod decoder_digi_frame;
pub mod errors;
pub mod frame;
pub mod frame_array_builder;
pub mod logger;
pub mod measurement_history;
pub mod parser;
pub mod presentation;
pub mod received_data_handler;
pub mod ring_buffer;
pub mod scanner;
pub mod text;
pub mod validater;
pub mod validater_rx_frame;
