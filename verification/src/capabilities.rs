//! Station capabilities reports (DTI `<`).
use crate::status::after_dti;
use crate::util::{copy_from, extend};
use vstd::prelude::*;

verus! {

/// An APRS Station Capabilities report.
///
/// DTI: `<`
///
/// Lists the capabilities of the station, typically as a comma-separated
/// list of `KEY=VALUE` pairs or bare tokens (e.g. `IGATE,MSG_CNT=0`).
/// The content is stored verbatim — the spec doesn't define a normative format.
#[derive(Debug, PartialEq, Eq)]
pub struct AprsCapabilities {
    /// Raw capability string (everything after the `<` DTI byte).
    pub raw: Vec<u8>,
}

impl AprsCapabilities {
    /// Decode from the information field (including the leading `<` DTI byte).
    pub fn parse(info: &[u8]) -> (r: Self)
        ensures
            r.raw@ == after_dti(info@),
    {
        AprsCapabilities { raw: copy_from(info, 1) }
    }

    pub fn encode(&self) -> (r: Vec<u8>)
        ensures
            r@ == seq![60u8] + self.raw@,
    {
        let mut out: Vec<u8> = Vec::new();
        out.push('<' as u8);
        extend(&mut out, self.raw.as_slice());
        out
    }
}

impl Clone for AprsCapabilities {
    fn clone(&self) -> (r: Self)
        ensures
            r.raw@ == self.raw@,
    {
        AprsCapabilities { raw: crate::util::copy_vec(&self.raw) }
    }
}

} // verus!
