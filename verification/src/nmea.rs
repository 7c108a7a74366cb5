//! Raw NMEA sentences (DTI `$`).
use crate::status::after_dti;
use crate::util::{copy_from, extend};
use vstd::prelude::*;

verus! {

/// A raw NMEA GPS sentence received via APRS.
///
/// DTI: `$`
///
/// The NMEA sentence is stored opaque — callers can parse specific sentence
/// types (GPGGA, GPRMC, etc.) from the `data` field themselves.
#[derive(Debug, PartialEq, Eq)]
pub struct AprsNmea {
    pub data: Vec<u8>,
}

impl AprsNmea {
    /// Decode from the information field (including the leading `$` DTI byte).
    pub fn parse(info: &[u8]) -> (r: Self)
        ensures
            r.data@ == after_dti(info@),
    {
        AprsNmea { data: copy_from(info, 1) }
    }

    pub fn encode(&self) -> (r: Vec<u8>)
        ensures
            r@ == seq![36u8] + self.data@,
    {
        let mut out: Vec<u8> = Vec::new();
        out.push('$' as u8);
        extend(&mut out, self.data.as_slice());
        out
    }
}

impl Clone for AprsNmea {
    fn clone(&self) -> (r: Self)
        ensures
            r.data@ == self.data@,
    {
        AprsNmea { data: crate::util::copy_vec(&self.data) }
    }
}

} // verus!
