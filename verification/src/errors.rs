//! Error types of the frame parser, the argument parser and the system layer.

use vstd::prelude::*;

verus! {

/// Errors of the parser / validation layer.
#[derive(Debug, Clone, Copy, PartialEq, Eq)]
pub enum FrameParseError {
    InvalidBitLength { expected: usize, found: usize },
    IncompleteNibble(usize),
    HeaderMismatch,
    InvalidSign,
    InvalidPoint,
    InvalidUnit,
    InvalidHexChar(char),
    InvalidChar(char),
    NibbleOutOfRange(u8),
    NonAscii,
}

/// Errors of the command-line argument parser.
#[derive(Debug, Clone)]
pub enum ArgumentError {
    InvalidArgs(String),
    TooManyArgs(String),
    MissingArgs(String),
}

/// System-layer error with a numeric code and a message.
#[derive(Debug)]
pub struct SystemError {
    pub code: i32,
    pub message: String,
}

/// The kind of an application error: the layer it comes from and, for the
/// communication layer, the failure.
#[derive(Debug, Clone, Copy, PartialEq, Eq)]
pub enum ErrorKind {
    CommIo,
    CommSerial,
    CommProtocol,
    CommConnectionClosed,
    CommTimeout,
    Parse,
    System,
    Argument,
    Gui,
}

/// Whether an error of this kind ends the application: a connection timeout
/// and a frame parse error do not, every other error does.
pub fn is_fatal(kind: ErrorKind) -> (r: bool)
    ensures
        r == !(kind == ErrorKind::CommTimeout || kind == ErrorKind::Parse),
{
    match kind {
        ErrorKind::CommTimeout => false,
        ErrorKind::CommIo | ErrorKind::CommSerial | ErrorKind::CommConnectionClosed => true,
        ErrorKind::CommProtocol => true,
        ErrorKind::Parse => false,
        _ => true,
    }
}

} // verus!
