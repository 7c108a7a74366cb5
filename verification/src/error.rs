//! The error returned by every decoder of this crate.
use vstd::prelude::*;

verus! {

/// Why a packet, or one of its fields, could not be decoded or encoded.
#[derive(Debug, Clone)]
pub enum AprsError {
    // --- Header parsing ---
    EmptyPacket,
    MissingDestinationDelimiter,
    MissingInfoDelimiter,
    InvalidCallsign { raw: Vec<u8> },
    InvalidVia { raw: Vec<u8> },
    // --- AX.25 frame parsing ---
    Ax25FrameTooShort { len: usize },
    Ax25MissingEoa,
    Ax25NotUiFrame { byte: u8 },
    Ax25NotAprsPid { byte: u8 },
    // --- Position ---
    InvalidLatitude { raw: Vec<u8> },
    InvalidLongitude { raw: Vec<u8> },
    UnsupportedPositionFormat,
    // --- Timestamp ---
    TimestampDayOutOfRange { day: u8 },
    TimestampHourOutOfRange { hour: u8 },
    TimestampMinuteOutOfRange { minute: u8 },
    TimestampSecondOutOfRange { second: u8 },
    InvalidTimestampFormat { raw: Vec<u8> },
    // --- Message ---
    InvalidMessageMissingDelimiter,
    // --- Object / Item ---
    InvalidObject { detail: &'static str },
    InvalidItem { detail: &'static str },
    // --- MIC-E ---
    InvalidMicEDestination { raw: Vec<u8> },
    MicETooShort { len: usize },
    // --- Compressed position ---
    InvalidCompressedByte { byte: u8 },
    // --- General ---
    TruncatedPacket { expected: usize, got: usize },
    NonAsciiByte { byte: u8 },
    // --- Encoding ---
    EncodeError { detail: &'static str },
}

/// Mathematical model of [`AprsError`]: byte fields become sequences.
pub enum AprsErrorView {
    EmptyPacket,
    MissingDestinationDelimiter,
    MissingInfoDelimiter,
    InvalidCallsign { raw: Seq<u8> },
    InvalidVia { raw: Seq<u8> },
    Ax25FrameTooShort { len: usize },
    Ax25MissingEoa,
    Ax25NotUiFrame { byte: u8 },
    Ax25NotAprsPid { byte: u8 },
    InvalidLatitude { raw: Seq<u8> },
    InvalidLongitude { raw: Seq<u8> },
    UnsupportedPositionFormat,
    TimestampDayOutOfRange { day: u8 },
    TimestampHourOutOfRange { hour: u8 },
    TimestampMinuteOutOfRange { minute: u8 },
    TimestampSecondOutOfRange { second: u8 },
    InvalidTimestampFormat { raw: Seq<u8> },
    InvalidMessageMissingDelimiter,
    InvalidObject { detail: &'static str },
    InvalidItem { detail: &'static str },
    InvalidMicEDestination { raw: Seq<u8> },
    MicETooShort { len: usize },
    InvalidCompressedByte { byte: u8 },
    TruncatedPacket { expected: usize, got: usize },
    NonAsciiByte { byte: u8 },
    EncodeError { detail: &'static str },
}

impl View for AprsError {
    type V = AprsErrorView;

    open spec fn view(&self) -> AprsErrorView {
        match self {
            AprsError::EmptyPacket => AprsErrorView::EmptyPacket,
            AprsError::MissingDestinationDelimiter => AprsErrorView::MissingDestinationDelimiter,
            AprsError::MissingInfoDelimiter => AprsErrorView::MissingInfoDelimiter,
            AprsError::InvalidCallsign { raw } => AprsErrorView::InvalidCallsign { raw: raw@ },
            AprsError::InvalidVia { raw } => AprsErrorView::InvalidVia { raw: raw@ },
            AprsError::Ax25FrameTooShort { len } => AprsErrorView::Ax25FrameTooShort { len: *len },
            AprsError::Ax25MissingEoa => AprsErrorView::Ax25MissingEoa,
            AprsError::Ax25NotUiFrame { byte } => AprsErrorView::Ax25NotUiFrame { byte: *byte },
            AprsError::Ax25NotAprsPid { byte } => AprsErrorView::Ax25NotAprsPid { byte: *byte },
            AprsError::InvalidLatitude { raw } => AprsErrorView::InvalidLatitude { raw: raw@ },
            AprsError::InvalidLongitude { raw } => AprsErrorView::InvalidLongitude { raw: raw@ },
            AprsError::UnsupportedPositionFormat => AprsErrorView::UnsupportedPositionFormat,
            AprsError::TimestampDayOutOfRange { day } => AprsErrorView::TimestampDayOutOfRange {
                day: *day,
            },
            AprsError::TimestampHourOutOfRange { hour } => AprsErrorView::TimestampHourOutOfRange {
                hour: *hour,
            },
            AprsError::TimestampMinuteOutOfRange { minute } =>
                AprsErrorView::TimestampMinuteOutOfRange { minute: *minute },
            AprsError::TimestampSecondOutOfRange { second } =>
                AprsErrorView::TimestampSecondOutOfRange { second: *second },
            AprsError::InvalidTimestampFormat { raw } => AprsErrorView::InvalidTimestampFormat {
                raw: raw@,
            },
            AprsError::InvalidMessageMissingDelimiter =>
                AprsErrorView::InvalidMessageMissingDelimiter,
            AprsError::InvalidObject { detail } => AprsErrorView::InvalidObject { detail: *detail },
            AprsError::InvalidItem { detail } => AprsErrorView::InvalidItem { detail: *detail },
            AprsError::InvalidMicEDestination { raw } => AprsErrorView::InvalidMicEDestination {
                raw: raw@,
            },
            AprsError::MicETooShort { len } => AprsErrorView::MicETooShort { len: *len },
            AprsError::InvalidCompressedByte { byte } => AprsErrorView::InvalidCompressedByte {
                byte: *byte,
            },
            AprsError::TruncatedPacket { expected, got } => AprsErrorView::TruncatedPacket {
                expected: *expected,
                got: *got,
            },
            AprsError::NonAsciiByte { byte } => AprsErrorView::NonAsciiByte { byte: *byte },
            AprsError::EncodeError { detail } => AprsErrorView::EncodeError { detail: *detail },
        }
    }
}

} // verus!
