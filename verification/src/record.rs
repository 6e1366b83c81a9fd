//! Packet records: the immutable values the stream framer emits, one per
//! validated frame, together with the specification of how a record's
//! fields derive from the frame's bytes.

use vstd::prelude::*;
use crate::addr::{addr_label, addr_text, flow_key, push_addr_text, spec_flow_key, FlowKey, Ipv4Bytes};
use crate::text::{ascii_to_string, chars_of, is_ascii_bytes};
use vstd::string::StringExecFns;

verus! {

/// Well-known destination ports recognized by the protocol lookup.
#[derive(Clone, Copy, PartialEq, Eq, Structural, Debug)]
pub enum Protocol {
    Https,
    Dns,
    Ssh,
    Http,
}

impl Protocol {
    /// The label's text.
    pub open spec fn spec_name(self) -> Seq<u8> {
        match self {
            Protocol::Https => seq![72u8, 84u8, 84u8, 80u8, 83u8],
            Protocol::Dns => seq![68u8, 78u8, 83u8],
            Protocol::Ssh => seq![83u8, 83u8, 72u8],
            Protocol::Http => seq![72u8, 84u8, 84u8, 80u8],
        }
    }
}

/// The port lookup table: 443, 53, 22 and 80 carry labels, all else none.
pub open spec fn spec_port_tag(port: int) -> Option<Protocol> {
    if port == 443 {
        Some(Protocol::Https)
    } else if port == 53 {
        Some(Protocol::Dns)
    } else if port == 22 {
        Some(Protocol::Ssh)
    } else if port == 80 {
        Some(Protocol::Http)
    } else {
        None
    }
}

pub fn port_tag(port: u16) -> (r: Option<Protocol>)
    ensures
        r == spec_port_tag(port as int),
{
    if port == 443 {
        Some(Protocol::Https)
    } else if port == 53 {
        Some(Protocol::Dns)
    } else if port == 22 {
        Some(Protocol::Ssh)
    } else if port == 80 {
        Some(Protocol::Http)
    } else {
        None
    }
}

/// Mathematical model of one emitted record.
pub ghost struct RecordView {
    pub source: Ipv4Bytes,
    pub destination: Ipv4Bytes,
    pub protocol_tag: Option<Protocol>,
    pub summary: Seq<u8>,
    pub raw_bytes: Seq<u8>,
}

/// One decoded packet: addresses, protocol label, display summary, and
/// the frame's raw bytes. Immutable once emitted.
pub struct PacketUpdate {
    pub source: Ipv4Bytes,
    pub destination: Ipv4Bytes,
    pub protocol_tag: Option<Protocol>,
    pub summary: Vec<u8>,
    pub raw_data: Vec<u8>,
}

impl View for PacketUpdate {
    type V = RecordView;

    open spec fn view(&self) -> RecordView {
        RecordView {
            source: self.source,
            destination: self.destination,
            protocol_tag: self.protocol_tag,
            summary: self.summary@,
            raw_bytes: self.raw_data@,
        }
    }
}

/// Source address of the frame starting at the head of `f`.
pub open spec fn frame_src(f: Seq<u8>) -> Ipv4Bytes {
    Ipv4Bytes { a: f[12], b: f[13], c: f[14], d: f[15] }
}

/// Destination address of the frame starting at the head of `f`.
pub open spec fn frame_dst(f: Seq<u8>) -> Ipv4Bytes {
    Ipv4Bytes { a: f[16], b: f[17], c: f[18], d: f[19] }
}

/// Transport destination port, read where a 20-byte network header is
/// followed by at least the four first transport bytes.
pub open spec fn frame_port(f: Seq<u8>) -> int {
    f[22] * 256 + f[23]
}

/// Protocol label of a frame: the port lookup where the port bytes are
/// present, no label otherwise.
pub open spec fn frame_tag(f: Seq<u8>) -> Option<Protocol> {
    if f.len() >= 24 {
        spec_port_tag(frame_port(f))
    } else {
        None
    }
}

/// A frame the noise filter rejects: unspecified or broadcast endpoints.
pub open spec fn frame_noisy(f: Seq<u8>) -> bool {
    ||| frame_src(f).is_unspecified()
    ||| frame_dst(f).is_unspecified()
    ||| frame_src(f).is_broadcast()
    ||| frame_dst(f).is_broadcast()
}

/// The label's bracketed suffix in a summary: `" [NAME]"`, or nothing.
pub open spec fn tag_suffix(t: Option<Protocol>) -> Seq<u8> {
    match t {
        None => Seq::empty(),
        Some(p) => seq![32u8, 91u8] + p.spec_name() + seq![93u8],
    }
}

/// The summary's separator, UTF-8 bytes of `" \u{2794} "`: a space, the
/// heavy arrow, a space.
pub open spec fn arrow_bytes() -> Seq<u8> {
    seq![32u8, 226u8, 158u8, 148u8, 32u8]
}

/// A record's one-line summary, as its UTF-8 bytes: the two addresses
/// joined by the arrow separator, plus the label suffix.
pub open spec fn spec_summary(src: Ipv4Bytes, dst: Ipv4Bytes, tag: Option<Protocol>) -> Seq<u8> {
    addr_text(src) + arrow_bytes() + addr_text(dst) + tag_suffix(tag)
}

/// The same summary as text: the separator is the one character
/// `'\u{2794}'` between spaces; everything else is the ASCII of the
/// byte form.
pub open spec fn summary_chars(src: Ipv4Bytes, dst: Ipv4Bytes, tag: Option<Protocol>) -> Seq<
    char,
> {
    chars_of(addr_text(src)) + seq![' ', '\u{2794}', ' '] + chars_of(addr_text(dst)) + chars_of(
        tag_suffix(tag),
    )
}

/// The record a well-formed frame turns into.
pub open spec fn rec_of_frame(f: Seq<u8>) -> RecordView {
    RecordView {
        source: frame_src(f),
        destination: frame_dst(f),
        protocol_tag: frame_tag(f),
        summary: spec_summary(frame_src(f), frame_dst(f), frame_tag(f)),
        raw_bytes: f,
    }
}

/// A label suffix is ASCII.
pub proof fn lemma_tag_suffix_ascii(tag: Option<Protocol>)
    ensures
        is_ascii_bytes(tag_suffix(tag)),
{
    match tag {
        None => {},
        Some(p) => {
            assert(is_ascii_bytes(p.spec_name())) by {
                assert forall|i: int| 0 <= i < p.spec_name().len() implies p.spec_name()[i]
                    < 128 by {}
            }
            crate::text::lemma_ascii_concat(seq![32u8, 91u8], p.spec_name());
            crate::text::lemma_ascii_concat(seq![32u8, 91u8] + p.spec_name(), seq![93u8]);
        },
    }
}

impl PacketUpdate {
    /// A record as the framer emits it: summary derived from its fields.
    pub open spec fn wf(self) -> bool {
        self@.summary == spec_summary(self@.source, self@.destination, self@.protocol_tag)
    }

    /// The canonical conversation key of this record's address pair.
    pub fn flow(&self) -> (k: FlowKey)
        ensures
            k == spec_flow_key(self@.source, self@.destination),
    {
        flow_key(self.source, self.destination)
    }

    /// The summary as a `String`: the addresses and label of this
    /// record around the arrow separator.
    pub fn summary_text(&self) -> (r: String)
        ensures
            r@ == summary_chars(self@.source, self@.destination, self@.protocol_tag),
    {
        let mut s = addr_label(self.source);
        proof {
            reveal_strlit(" \u{2794} ");
        }
        let sep: &str = " \u{2794} ";
        proof {
            assert(sep@ =~= seq![' ', '\u{2794}', ' ']);
        }
        s.append(sep);
        let dst = addr_label(self.destination);
        s.append(dst.as_str());
        let mut suffix: Vec<u8> = Vec::new();
        push_tag_suffix(&mut suffix, self.protocol_tag);
        proof {
            lemma_tag_suffix_ascii(self.protocol_tag);
        }
        let suffix_text = ascii_to_string(&suffix);
        s.append(suffix_text.as_str());
        proof {
            assert(s@ =~= summary_chars(self@.source, self@.destination, self@.protocol_tag));
        }
        s
    }
}

/// Builds the record of a validated, complete frame.
pub fn make_record(frame: Vec<u8>) -> (r: PacketUpdate)
    requires
        frame@.len() >= 20,
    ensures
        r@ == rec_of_frame(frame@),
        r.wf(),
{
    let src = Ipv4Bytes { a: frame[12], b: frame[13], c: frame[14], d: frame[15] };
    let dst = Ipv4Bytes { a: frame[16], b: frame[17], c: frame[18], d: frame[19] };
    let tag = if frame.len() >= 24 {
        let port: u16 = (frame[22] as u16) * 256 + (frame[23] as u16);
        port_tag(port)
    } else {
        None
    };
    let mut summary: Vec<u8> = Vec::new();
    push_addr_text(&mut summary, src);
    summary.push(32);
    summary.push(226);
    summary.push(158);
    summary.push(148);
    summary.push(32);
    push_addr_text(&mut summary, dst);
    push_tag_suffix(&mut summary, tag);
    proof {
        assert(summary@ =~= spec_summary(src, dst, tag));
    }
    PacketUpdate { source: src, destination: dst, protocol_tag: tag, summary, raw_data: frame }
}

/// Appends a label's text to a byte string.
fn push_protocol_name(out: &mut Vec<u8>, p: Protocol)
    ensures
        final(out)@ == old(out)@ + p.spec_name(),
{
    match p {
        Protocol::Https => {
            out.push(72);
            out.push(84);
            out.push(84);
            out.push(80);
            out.push(83);
        },
        Protocol::Dns => {
            out.push(68);
            out.push(78);
            out.push(83);
        },
        Protocol::Ssh => {
            out.push(83);
            out.push(83);
            out.push(72);
        },
        Protocol::Http => {
            out.push(72);
            out.push(84);
            out.push(84);
            out.push(80);
        },
    }
    assert(out@ =~= old(out)@ + p.spec_name());
}

/// Appends a label's bracketed suffix, or nothing, to a byte string.
fn push_tag_suffix(out: &mut Vec<u8>, tag: Option<Protocol>)
    ensures
        final(out)@ == old(out)@ + tag_suffix(tag),
{
    match tag {
        None => {
            assert(out@ =~= old(out)@ + tag_suffix(tag));
        },
        Some(p) => {
            out.push(32);
            out.push(91);
            push_protocol_name(out, p);
            out.push(93);
            assert(out@ =~= old(out)@ + tag_suffix(tag));
        },
    }
}

} // verus!
