//! Parsing and encoding of APRS packets, in the textual APRS-IS form and as
//! binary AX.25 UI frames.
//!
//! Every decoder states what it returns as a function of the bytes it reads,
//! and every encoder states the bytes it writes; [`round_trip`] proves that a
//! decoded packet is written back into bytes that decode to the same packet.
pub mod error;
pub mod text;
pub mod util;

pub mod callsign;
pub mod digipeater;

pub mod compressed;
pub mod extensions;
pub mod location;
pub mod lonlat;
pub mod numtext;
pub mod symbol;
pub mod timestamp;

pub mod capabilities;
pub mod grid;
pub mod item;
pub mod message;
pub mod mic_e;
pub mod nmea;
pub mod object;
pub mod position;
pub mod query;
pub mod status;
pub mod telemetry;
pub mod third_party;
pub mod user_defined;
pub mod weather;

pub mod packet;
pub mod round_trip;

pub use callsign::Callsign;
pub use capabilities::AprsCapabilities;
pub use compressed::{
    Altitude, CompressedAltitude, CompressedCs, CompressionType, CourseSpeed, GpsFix, NmeaSource,
    Origin, RadioRange,
};
pub use digipeater::{Digipeater, QConstruct};
pub use error::AprsError;
pub use extensions::{Directivity, Extension};
pub use grid::AprsGridLocator;
pub use item::AprsItem;
pub use location::{Dao, Position};
pub use lonlat::{Latitude, Longitude, Precision};
pub use message::{AprsMessage, MessageSubtype};
pub use mic_e::{AprsMicE, MicECourse, MicEDevice, MicEMessage, MicESpeed};
pub use nmea::AprsNmea;
pub use object::AprsObject;
pub use packet::{AprsData, AprsPacket, AprsThirdParty};
pub use position::AprsPosition;
pub use query::{AprsQuery, QueryFootprint};
pub use status::AprsStatus;
pub use symbol::Symbol;
pub use telemetry::{AprsTelemetry, TelemetryEquation, TelemetryMetadata};
pub use timestamp::Timestamp;
pub use user_defined::AprsUserDefined;
pub use weather::{
    AprsPositionlessWeather, AprsWeatherData, Humidity, Luminosity, Pressure, Rainfall, Snowfall,
    Temperature, WindDirection, WindSpeed,
};
