//! The trusted boundary to the IPv4 header decoder of the `etherparse`
//! crate: the framer hands it a candidate offset and receives the three
//! header fields the extraction logic works with, as plain values.

use vstd::prelude::*;
use crate::addr::Ipv4Bytes;

verus! {

/// The header fields the framer reads, as plain values.
#[derive(Clone, Copy, PartialEq, Eq, Structural, Debug)]
pub struct HeaderInfo {
    pub total_len: u16,
    pub src: Ipv4Bytes,
    pub dst: Ipv4Bytes,
}

/// Relies on `etherparse::Ipv4Header::from_slice`: on a slice whose first
/// byte is 0x45 (version 4, five 32-bit header words) and which holds at
/// least the 20 header bytes, the parse succeeds, and the header it
/// returns carries the big-endian total-length pair from offsets 2..4,
/// the source address bytes from offsets 12..16 and the destination
/// address bytes from offsets 16..20 of the slice.
#[verifier::external_body]
pub(crate) fn parse_ipv4_at(buf: &Vec<u8>, at: usize) -> (r: Option<HeaderInfo>)
    requires
        at + 20 <= buf@.len(),
        buf@[at as int] == 0x45u8,
    ensures
        ({
            let s = buf@.skip(at as int);
            match r {
                Some(h) => {
                    &&& h.total_len as int == s[2] * 256 + s[3]
                    &&& h.src == (Ipv4Bytes { a: s[12], b: s[13], c: s[14], d: s[15] })
                    &&& h.dst == (Ipv4Bytes { a: s[16], b: s[17], c: s[18], d: s[19] })
                },
                None => false,
            }
        }),
{
    match etherparse::Ipv4Header::from_slice(&buf[at..]) {
        Ok((h, _rest)) => Some(HeaderInfo {
            total_len: h.total_len,
            src: Ipv4Bytes { a: h.source[0], b: h.source[1], c: h.source[2], d: h.source[3] },
            dst: Ipv4Bytes {
                a: h.destination[0],
                b: h.destination[1],
                c: h.destination[2],
                d: h.destination[3],
            },
        }),
        Err(_) => None,
    }
}

} // verus!
