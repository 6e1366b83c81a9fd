//! IPv4 addresses as plain bytes, their dotted-decimal text, and the
//! canonical conversation key derived from an address pair.

use vstd::prelude::*;

verus! {

/// An IPv4 address held as its four dotted-decimal components.
#[derive(Clone, Copy, PartialEq, Eq, Structural, Debug)]
pub struct Ipv4Bytes {
    pub a: u8,
    pub b: u8,
    pub c: u8,
    pub d: u8,
}

/// Identity of a conversation: the address pair with direction
/// canonicalized, so that both directions of the same exchange
/// fall on one key. The numerically smaller address is `lo`.
#[derive(Clone, Copy, PartialEq, Eq, Structural, Debug)]
pub struct FlowKey {
    pub lo: Ipv4Bytes,
    pub hi: Ipv4Bytes,
}

impl Ipv4Bytes {
    /// The address `0.0.0.0`.
    pub open spec fn is_unspecified(self) -> bool {
        self.a == 0 && self.b == 0 && self.c == 0 && self.d == 0
    }

    /// The address `255.255.255.255`.
    pub open spec fn is_broadcast(self) -> bool {
        self.a == 255 && self.b == 255 && self.c == 255 && self.d == 255
    }
}

/// The address `0.0.0.0`, decided byte-wise.
pub fn is_unspecified(x: Ipv4Bytes) -> (r: bool)
    ensures
        r == x.is_unspecified(),
{
    x.a == 0 && x.b == 0 && x.c == 0 && x.d == 0
}

/// The address `255.255.255.255`, decided byte-wise.
pub fn is_broadcast(x: Ipv4Bytes) -> (r: bool)
    ensures
        r == x.is_broadcast(),
{
    x.a == 255 && x.b == 255 && x.c == 255 && x.d == 255
}

/// Numeric value of an address, most significant byte first.
pub open spec fn addr_num(x: Ipv4Bytes) -> int {
    x.a * 0x1000000 + x.b * 0x10000 + x.c * 0x100 + x.d
}

/// Numeric value of a key: the two address values in sequence.
pub open spec fn key_num(k: FlowKey) -> int {
    addr_num(k.lo) * 0x100000000 + addr_num(k.hi)
}

/// The key an emitted record's address pair maps to.
pub open spec fn spec_flow_key(src: Ipv4Bytes, dst: Ipv4Bytes) -> FlowKey {
    if addr_num(src) <= addr_num(dst) {
        FlowKey { lo: src, hi: dst }
    } else {
        FlowKey { lo: dst, hi: src }
    }
}

/// ASCII code of a decimal digit value below ten.
pub open spec fn digit(d: u8) -> u8 {
    (48 + d) as u8
}

/// Dotted-decimal text of one address component, without leading zeros.
pub open spec fn dec_text(n: u8) -> Seq<u8> {
    if n < 10 {
        seq![digit(n)]
    } else if n < 100 {
        seq![digit(n / 10), digit(n % 10)]
    } else {
        seq![digit(n / 100), digit((n / 10) % 10), digit(n % 10)]
    }
}

/// Dotted-decimal text of an address, for display and ordering.
pub open spec fn addr_text(x: Ipv4Bytes) -> Seq<u8> {
    dec_text(x.a) + seq![46u8] + dec_text(x.b) + seq![46u8] + dec_text(x.c) + seq![46u8]
        + dec_text(x.d)
}

/// Textual form of a key: both addresses joined by `" <-> "`.
pub open spec fn key_text(k: FlowKey) -> Seq<u8> {
    addr_text(k.lo) + seq![32u8, 60u8, 45u8, 62u8, 32u8] + addr_text(k.hi)
}

pub fn flow_key(src: Ipv4Bytes, dst: Ipv4Bytes) -> (k: FlowKey)
    ensures
        k == spec_flow_key(src, dst),
{
    if addr_num_u32(src) <= addr_num_u32(dst) {
        FlowKey { lo: src, hi: dst }
    } else {
        FlowKey { lo: dst, hi: src }
    }
}

pub fn addr_num_u32(x: Ipv4Bytes) -> (r: u32)
    ensures
        r as int == addr_num(x),
{
    (x.a as u32) * 0x1000000 + (x.b as u32) * 0x10000 + (x.c as u32) * 0x100 + (x.d as u32)
}

/// Appends the decimal text of one component to a byte string.
pub fn push_dec_text(out: &mut Vec<u8>, n: u8)
    ensures
        final(out)@ == old(out)@ + dec_text(n),
{
    if n >= 100 {
        out.push(48 + n / 100);
        out.push(48 + (n / 10) % 10);
        out.push(48 + n % 10);
    } else if n >= 10 {
        out.push(48 + n / 10);
        out.push(48 + n % 10);
    } else {
        out.push(48 + n);
    }
    assert(out@ =~= old(out)@ + dec_text(n));
}

/// Appends the dotted-decimal text of an address to a byte string.
pub fn push_addr_text(out: &mut Vec<u8>, x: Ipv4Bytes)
    ensures
        final(out)@ == old(out)@ + addr_text(x),
{
    push_dec_text(out, x.a);
    out.push(46);
    push_dec_text(out, x.b);
    out.push(46);
    push_dec_text(out, x.c);
    out.push(46);
    push_dec_text(out, x.d);
    assert(out@ =~= old(out)@ + addr_text(x));
}

/// The textual form of a key, as a fresh byte string.
pub fn flow_key_text(k: FlowKey) -> (r: Vec<u8>)
    ensures
        r@ == key_text(k),
{
    let mut out: Vec<u8> = Vec::new();
    push_addr_text(&mut out, k.lo);
    out.push(32);
    out.push(60);
    out.push(45);
    out.push(62);
    out.push(32);
    push_addr_text(&mut out, k.hi);
    assert(out@ =~= key_text(k));
    out
}

/// Decimal component text is ASCII.
pub proof fn lemma_dec_text_ascii(n: u8)
    ensures
        crate::text::is_ascii_bytes(dec_text(n)),
{
    assert(n % 10 < 10);
    assert((n / 10) % 10 < 10);
    assert(n / 10 < 26);
    assert(n / 100 < 3);
    assert forall|i: int| 0 <= i < dec_text(n).len() implies dec_text(n)[i] < 128 by {}
}

/// Address text is ASCII.
pub proof fn lemma_addr_text_ascii(x: Ipv4Bytes)
    ensures
        crate::text::is_ascii_bytes(addr_text(x)),
{
    lemma_dec_text_ascii(x.a);
    lemma_dec_text_ascii(x.b);
    lemma_dec_text_ascii(x.c);
    lemma_dec_text_ascii(x.d);
    crate::text::lemma_ascii_concat(dec_text(x.a), seq![46u8]);
    crate::text::lemma_ascii_concat(dec_text(x.a) + seq![46u8], dec_text(x.b));
    crate::text::lemma_ascii_concat(dec_text(x.a) + seq![46u8] + dec_text(x.b), seq![46u8]);
    crate::text::lemma_ascii_concat(
        dec_text(x.a) + seq![46u8] + dec_text(x.b) + seq![46u8],
        dec_text(x.c),
    );
    crate::text::lemma_ascii_concat(
        dec_text(x.a) + seq![46u8] + dec_text(x.b) + seq![46u8] + dec_text(x.c),
        seq![46u8],
    );
    crate::text::lemma_ascii_concat(
        dec_text(x.a) + seq![46u8] + dec_text(x.b) + seq![46u8] + dec_text(x.c) + seq![46u8],
        dec_text(x.d),
    );
}

/// Key text is ASCII.
pub proof fn lemma_key_text_ascii(k: FlowKey)
    ensures
        crate::text::is_ascii_bytes(key_text(k)),
{
    lemma_addr_text_ascii(k.lo);
    lemma_addr_text_ascii(k.hi);
    crate::text::lemma_ascii_concat(addr_text(k.lo), seq![32u8, 60u8, 45u8, 62u8, 32u8]);
    crate::text::lemma_ascii_concat(
        addr_text(k.lo) + seq![32u8, 60u8, 45u8, 62u8, 32u8],
        addr_text(k.hi),
    );
}

/// The dotted-decimal text of an address, for display.
pub fn addr_label(x: Ipv4Bytes) -> (r: String)
    ensures
        r@ == crate::text::chars_of(addr_text(x)),
{
    let mut v: Vec<u8> = Vec::new();
    push_addr_text(&mut v, x);
    proof {
        lemma_addr_text_ascii(x);
    }
    crate::text::ascii_to_string(&v)
}

/// The textual form of a key, for display.
pub fn flow_key_label(k: FlowKey) -> (r: String)
    ensures
        r@ == crate::text::chars_of(key_text(k)),
{
    let t = flow_key_text(k);
    proof {
        lemma_key_text_ascii(k);
    }
    crate::text::ascii_to_string(&t)
}

/// Two addresses with one numeric value are the same address.
pub proof fn lemma_addr_num_injective(x: Ipv4Bytes, y: Ipv4Bytes)
    requires
        addr_num(x) == addr_num(y),
    ensures
        x == y,
{
    assert(x.a == y.a);
    assert(x.b == y.b);
    assert(x.c == y.c);
    assert(x.d == y.d);
}

/// Two keys with one numeric value are the same key.
pub proof fn lemma_key_num_injective(j: FlowKey, k: FlowKey)
    requires
        key_num(j) == key_num(k),
    ensures
        j == k,
{
    assert(0 <= addr_num(j.hi) < 0x100000000);
    assert(0 <= addr_num(k.hi) < 0x100000000);
    assert(addr_num(j.lo) == addr_num(k.lo));
    assert(addr_num(j.hi) == addr_num(k.hi));
    lemma_addr_num_injective(j.lo, k.lo);
    lemma_addr_num_injective(j.hi, k.hi);
}

} // verus!
