//! User-defined and experimental packets (DTI `{`).
use crate::status::after_dti;
use crate::util::{copy_from, extend};
use vstd::prelude::*;

verus! {

/// A user-defined / experimental APRS packet.
///
/// DTI: `{`
///
/// The first byte after the DTI is a single-character experimenter ID, the
/// second is a packet type character, and the rest is opaque payload.
#[derive(Debug, PartialEq, Eq)]
pub struct AprsUserDefined {
    /// Experimenter / user ID (single byte).
    pub user_id: u8,
    /// User-defined packet type (single byte).
    pub packet_type: u8,
    /// Opaque payload.
    pub data: Vec<u8>,
}

impl AprsUserDefined {
    /// Decode from the information field (including the leading `{` DTI byte).
    /// A missing ID or type byte reads as 0.
    pub fn parse(info: &[u8]) -> (r: Self)
        ensures
            r.user_id == (if info@.len() > 1 { info@[1] } else { 0 }),
            r.packet_type == (if info@.len() > 2 { info@[2] } else { 0 }),
            r.data@ == after_dti(after_dti(after_dti(info@))),
    {
        let user_id = if info.len() > 1 {
            info[1]
        } else {
            0
        };
        let packet_type = if info.len() > 2 {
            info[2]
        } else {
            0
        };
        let data = copy_from(info, 3);
        proof {
            let s = info@;
            if s.len() >= 3 {
                assert(after_dti(after_dti(after_dti(s))) =~= s.subrange(3, s.len() as int));
            } else {
                assert(after_dti(after_dti(after_dti(s))) =~= Seq::<u8>::empty());
            }
        }
        AprsUserDefined { user_id, packet_type, data }
    }

    pub fn encode(&self) -> (r: Vec<u8>)
        ensures
            r@ == seq![123u8, self.user_id, self.packet_type] + self.data@,
    {
        let mut out: Vec<u8> = Vec::new();
        out.push('{' as u8);
        out.push(self.user_id);
        out.push(self.packet_type);
        extend(&mut out, self.data.as_slice());
        assert(out@ =~= seq![123u8, self.user_id, self.packet_type] + self.data@);
        out
    }
}

impl Clone for AprsUserDefined {
    fn clone(&self) -> (r: Self)
        ensures
            r.user_id == self.user_id,
            r.packet_type == self.packet_type,
            r.data@ == self.data@,
    {
        AprsUserDefined {
            user_id: self.user_id,
            packet_type: self.packet_type,
            data: crate::util::copy_vec(&self.data),
        }
    }
}

} // verus!
