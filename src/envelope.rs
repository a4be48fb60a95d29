//! Wire unit of the transport: a category tag and opaque payload bytes.
//!
//! An envelope travels as a little-endian `u16` category, a little-endian
//! `u32` payload length and the payload. A handshake record travels as a
//! little-endian `u32` length followed by the UTF-8 bytes of the peer id.
use vstd::arithmetic::div_mod::{lemma_div_denominator, lemma_fundamental_div_mod};
use vstd::prelude::*;
use vstd::utf8::{decode_utf8, encode_utf8, valid_utf8};

verus! {

broadcast use vstd::utf8::group_utf8_lib;

/// Category code of a heartbeat / handshake request.
pub const PING_CODE: u16 = 10000;

/// Category code of a heartbeat reply.
pub const PONG_CODE: u16 = 10001;

/// Category code that ends a session.
pub const DISCONNECT_CODE: u16 = 10002;

/// Category code that tells a peer it is no longer active.
pub const EXPIRED_CODE: u16 = 10003;

/// Whether a code is one of the control categories interpreted by the core.
pub open spec fn is_reserved(code: u16) -> bool {
    PING_CODE <= code <= EXPIRED_CODE
}

#[derive(PartialEq, Eq, Structural, Clone, Copy, Debug)]
pub enum Category {
    Ping,
    Pong,
    Disconnect,
    Expired,
    /// An application category; its code is never a reserved one.
    Custom(u16),
}

impl Category {
    pub open spec fn wf(self) -> bool {
        match self {
            Category::Custom(c) => !is_reserved(c),
            _ => true,
        }
    }

    pub open spec fn spec_code(self) -> u16 {
        match self {
            Category::Ping => PING_CODE,
            Category::Pong => PONG_CODE,
            Category::Disconnect => DISCONNECT_CODE,
            Category::Expired => EXPIRED_CODE,
            Category::Custom(c) => c,
        }
    }

    pub open spec fn spec_from_code(code: u16) -> Category {
        if code == PING_CODE {
            Category::Ping
        } else if code == PONG_CODE {
            Category::Pong
        } else if code == DISCONNECT_CODE {
            Category::Disconnect
        } else if code == EXPIRED_CODE {
            Category::Expired
        } else {
            Category::Custom(code)
        }
    }

    pub fn code(&self) -> (r: u16)
        ensures
            r == self.spec_code(),
    {
        match self {
            Category::Ping => PING_CODE,
            Category::Pong => PONG_CODE,
            Category::Disconnect => DISCONNECT_CODE,
            Category::Expired => EXPIRED_CODE,
            Category::Custom(c) => *c,
        }
    }

    pub fn from_code(code: u16) -> (r: Category)
        ensures
            r == Category::spec_from_code(code),
            r.wf(),
            r.spec_code() == code,
    {
        if code == PING_CODE {
            Category::Ping
        } else if code == PONG_CODE {
            Category::Pong
        } else if code == DISCONNECT_CODE {
            Category::Disconnect
        } else if code == EXPIRED_CODE {
            Category::Expired
        } else {
            Category::Custom(code)
        }
    }
}

/// A well-formed category survives the trip through its code.
pub proof fn lemma_category_code_round_trip(c: Category)
    requires
        c.wf(),
    ensures
        Category::spec_from_code(c.spec_code()) == c,
{
}

pub open spec fn le_u16_bytes(v: u16) -> Seq<u8> {
    seq![(v % 256) as u8, (v / 256) as u8]
}

pub open spec fn le_u32_bytes(v: u32) -> Seq<u8> {
    seq![(v % 256) as u8, ((v / 256) % 256) as u8, ((v / 65536) % 256) as u8, (v / 16777216) as u8]
}

/// The number read from two little-endian bytes.
pub open spec fn u16_of(b: Seq<u8>) -> int {
    b[0] + 256 * b[1]
}

/// The number read from four little-endian bytes.
pub open spec fn u32_of(b: Seq<u8>) -> int {
    b[0] + 256 * b[1] + 65536 * b[2] + 16777216 * b[3]
}

/// Bytes of an envelope with the given category code and payload.
pub open spec fn envelope_bytes(code: u16, payload: Seq<u8>) -> Seq<u8> {
    le_u16_bytes(code) + le_u32_bytes(payload.len() as u32) + payload
}

/// Category code and payload held by a frame, if it is a well-formed envelope.
pub open spec fn parse_envelope(b: Seq<u8>) -> Option<(u16, Seq<u8>)> {
    if b.len() >= 6 && u32_of(b.subrange(2, 6)) == b.len() - 6 {
        Some((u16_of(b) as u16, b.subrange(6, b.len() as int)))
    } else {
        None
    }
}

/// Category of a frame, if it is a well-formed envelope.
pub open spec fn category_of_frame(b: Seq<u8>) -> Option<Category> {
    match parse_envelope(b) {
        Some((code, _)) => Some(Category::spec_from_code(code)),
        None => None,
    }
}

/// Bytes of a handshake record naming the peer `id`.
pub open spec fn handshake_bytes(id: Seq<char>) -> Seq<u8> {
    le_u32_bytes(encode_utf8(id).len() as u32) + encode_utf8(id)
}

/// Peer id held by a handshake record, if the bytes are one.
pub open spec fn parse_handshake(b: Seq<u8>) -> Option<Seq<char>> {
    if b.len() >= 4 && u32_of(b.subrange(0, 4)) == b.len() - 4 && valid_utf8(
        b.subrange(4, b.len() as int),
    ) {
        Some(decode_utf8(b.subrange(4, b.len() as int)))
    } else {
        None
    }
}

/// Whether a peer id is short enough for its handshake record to be the
/// payload of an envelope.
pub open spec fn id_fits(id: Seq<char>) -> bool {
    encode_utf8(id).len() + 4 <= u32::MAX
}

/// Whether `id` is short enough for its handshake record to be framed.
pub fn fits_frame(id: &String) -> (r: bool)
    ensures
        r == id_fits(id@),
{
    id.as_str().as_bytes().len() <= (u32::MAX - 4) as usize
}

/// Peer id carried by a frame that is a valid `Ping`, if it is one.
pub open spec fn ping_peer_of_frame(b: Seq<u8>) -> Option<Seq<char>> {
    match parse_envelope(b) {
        Some((code, payload)) => if code == PING_CODE {
            parse_handshake(payload)
        } else {
            None
        },
        None => None,
    }
}

proof fn lemma_le_u16(v: u16)
    ensures
        u16_of(le_u16_bytes(v)) == v,
{
    lemma_fundamental_div_mod(v as int, 256);
}

proof fn lemma_le_u32(v: u32)
    ensures
        u32_of(le_u32_bytes(v)) == v,
{
    let a = v as int;
    lemma_fundamental_div_mod(a, 256);
    lemma_fundamental_div_mod(a / 256, 256);
    lemma_fundamental_div_mod(a / 256 / 256, 256);
    lemma_div_denominator(a, 256, 256);
    lemma_div_denominator(a / 256, 256, 256);
    lemma_div_denominator(a, 256, 65536);
    assert(a / 256 / 256 / 256 == a / 16777216) by {
        lemma_div_denominator(a, 65536, 256);
    }
}

#[derive(Clone, Debug)]
pub struct Envelope {
    pub category: Category,
    pub payload: Vec<u8>,
}

impl Envelope {
    pub open spec fn wf(&self) -> bool {
        self.category.wf() && self.payload@.len() <= u32::MAX
    }

    /// The bytes this envelope is sent as.
    pub open spec fn wire(&self) -> Seq<u8> {
        envelope_bytes(self.category.spec_code(), self.payload@)
    }

    pub fn new(category: Category, payload: Vec<u8>) -> (r: Envelope)
        ensures
            r.category == category,
            r.payload@ == payload@,
    {
        Envelope { category, payload }
    }

    pub fn serialize(&self) -> (r: Vec<u8>)
        requires
            self.payload@.len() <= u32::MAX,
        ensures
            r@ == self.wire(),
    {
        let code = self.category.code();
        let n = self.payload.len() as u32;
        let mut out: Vec<u8> = Vec::new();
        out.push((code % 256) as u8);
        out.push((code / 256) as u8);
        push_u32(&mut out, n);
        let ghost head = out@;
        assert(head =~= le_u16_bytes(code) + le_u32_bytes(n));
        let mut i: usize = 0;
        while i < self.payload.len()
            invariant
                i <= self.payload@.len(),
                out@ == head + self.payload@.subrange(0, i as int),
            decreases self.payload@.len() - i,
        {
            out.push(self.payload[i]);
            i += 1;
            assert(out@ =~= head + self.payload@.subrange(0, i as int));
        }
        assert(self.payload@.subrange(0, i as int) =~= self.payload@);
        out
    }

    pub fn deserialize(bytes: &[u8]) -> (r: Option<Envelope>)
        ensures
            match parse_envelope(bytes@) {
                Some((code, payload)) => r matches Some(e) && e.category == Category::spec_from_code(
                    code,
                ) && e.payload@ == payload,
                None => r is None,
            },
            r matches Some(e) ==> e.wf(),
    {
        if bytes.len() < 6 {
            return None;
        }
        let len = read_u32(bytes, 2);
        proof {
            assert(bytes@.subrange(2, 6) =~= seq![bytes@[2], bytes@[3], bytes@[4], bytes@[5]]);
        }
        if len as usize != bytes.len() - 6 || (len as u64) > (bytes.len() as u64) {
            return None;
        }
        let code: u16 = bytes[0] as u16 + 256 * (bytes[1] as u16);
        let payload = copy_from(bytes, 6);
        Some(Envelope { category: Category::from_code(code), payload })
    }

    /// A `Ping` envelope whose payload is the handshake record of `peer_id`.
    pub fn ping(peer_id: &String) -> (r: Envelope)
        requires
            id_fits(peer_id@),
        ensures
            r.category == Category::Ping,
            r.payload@ == handshake_bytes(peer_id@),
            r.wf(),
    {
        let record = HandshakeRecord { peer_id: peer_id.clone() };
        Envelope { category: Category::Ping, payload: record.serialize() }
    }

    /// A `Pong` envelope, with no payload.
    pub fn pong() -> (r: Envelope)
        ensures
            r.category == Category::Pong,
            r.payload@.len() == 0,
            r.wf(),
    {
        Envelope { category: Category::Pong, payload: Vec::new() }
    }

    /// A `Disconnect` envelope naming the peer that is told to go.
    pub fn disconnect(peer_id: &String) -> (r: Envelope)
        requires
            id_fits(peer_id@),
        ensures
            r.category == Category::Disconnect,
            r.payload@ == handshake_bytes(peer_id@),
            r.wf(),
    {
        let record = HandshakeRecord { peer_id: peer_id.clone() };
        Envelope { category: Category::Disconnect, payload: record.serialize() }
    }

    /// An `Expired` envelope, with no payload.
    pub fn expired() -> (r: Envelope)
        ensures
            r.category == Category::Expired,
            r.payload@.len() == 0,
            r.wf(),
    {
        Envelope { category: Category::Expired, payload: Vec::new() }
    }
}

/// Decoding the bytes of a well-formed envelope gives back its category and
/// payload.
pub proof fn lemma_envelope_round_trip(e: Envelope)
    requires
        e.wf(),
    ensures
        parse_envelope(e.wire()) == Some((e.category.spec_code(), e.payload@)),
        Category::spec_from_code(e.category.spec_code()) == e.category,
{
    let b = e.wire();
    let n = e.payload@.len() as u32;
    lemma_le_u16(e.category.spec_code());
    lemma_le_u32(n);
    assert(b.subrange(2, 6) =~= le_u32_bytes(n));
    assert(b.subrange(6, b.len() as int) =~= e.payload@);
}

/// Decoding the bytes of a handshake record gives back its peer id.
pub proof fn lemma_handshake_round_trip(id: Seq<char>)
    requires
        id_fits(id),
    ensures
        parse_handshake(handshake_bytes(id)) == Some(id),
{
    let b = handshake_bytes(id);
    let n = encode_utf8(id).len() as u32;
    lemma_le_u32(n);
    assert(b.subrange(0, 4) =~= le_u32_bytes(n));
    assert(b.subrange(4, b.len() as int) =~= encode_utf8(id));
}

/// A `Ping` sent with a peer id is read back as a `Ping` from that peer.
pub proof fn lemma_ping_names_its_peer(e: Envelope, id: Seq<char>)
    requires
        e.wf(),
        e.category == Category::Ping,
        e.payload@ == handshake_bytes(id),
        id_fits(id),
    ensures
        ping_peer_of_frame(e.wire()) == Some(id),
{
    lemma_envelope_round_trip(e);
    lemma_handshake_round_trip(id);
}

#[derive(Clone, Debug)]
pub struct HandshakeRecord {
    pub peer_id: String,
}

impl HandshakeRecord {
    pub fn serialize(&self) -> (r: Vec<u8>)
        requires
            id_fits(self.peer_id@),
        ensures
            r@ == handshake_bytes(self.peer_id@),
    {
        let text = self.peer_id.as_str().as_bytes();
        let n = text.len() as u32;
        let mut out: Vec<u8> = Vec::new();
        push_u32(&mut out, n);
        let ghost head = out@;
        let mut i: usize = 0;
        while i < text.len()
            invariant
                i <= text@.len(),
                text@ == encode_utf8(self.peer_id@),
                out@ == head + text@.subrange(0, i as int),
            decreases text@.len() - i,
        {
            out.push(text[i]);
            i += 1;
            assert(out@ =~= head + text@.subrange(0, i as int));
        }
        assert(text@.subrange(0, i as int) =~= text@);
        out
    }

    pub fn deserialize(bytes: &[u8]) -> (r: Option<HandshakeRecord>)
        ensures
            match parse_handshake(bytes@) {
                Some(id) => r matches Some(h) && h.peer_id@ == id,
                None => r is None,
            },
            r matches Some(h) ==> encode_utf8(h.peer_id@).len() + 4 == bytes@.len(),
    {
        if bytes.len() < 4 {
            return None;
        }
        let len = read_u32(bytes, 0);
        proof {
            assert(bytes@.subrange(0, 4) =~= seq![bytes@[0], bytes@[1], bytes@[2], bytes@[3]]);
        }
        if len as usize != bytes.len() - 4 || (len as u64) > (bytes.len() as u64) {
            return None;
        }
        let text = copy_from(bytes, 4);
        match text_of(text.as_slice()) {
            Some(s) => {
                proof {
                    assert(encode_utf8(s@) == text@);
                }
                Some(HandshakeRecord { peer_id: s })
            },
            None => None,
        }
    }
}

/// The text that `bytes` encode, if they are well-formed UTF-8.
pub fn text_of(bytes: &[u8]) -> (r: Option<String>)
    ensures
        r is Some <==> valid_utf8(bytes@),
        r matches Some(s) ==> s@ == decode_utf8(bytes@),
{
    match text_from_utf8(bytes) {
        Some(s) => Some(s.to_owned()),
        None => None,
    }
}

/// Relies on `std::str::from_utf8`: it accepts exactly the well-formed UTF-8
/// byte strings and yields the characters they encode.
#[verifier::external_body]
fn text_from_utf8(bytes: &[u8]) -> (r: Option<&str>)
    ensures
        r is Some <==> valid_utf8(bytes@),
        r matches Some(s) ==> s@ == decode_utf8(bytes@),
{
    std::str::from_utf8(bytes).ok()
}

fn push_u32(out: &mut Vec<u8>, n: u32)
    ensures
        final(out)@ == old(out)@ + le_u32_bytes(n),
{
    out.push((n % 256) as u8);
    out.push(((n / 256) % 256) as u8);
    out.push(((n / 65536) % 256) as u8);
    out.push((n / 16777216) as u8);
    assert(final(out)@ =~= old(out)@ + le_u32_bytes(n));
}

fn read_u32(bytes: &[u8], at: usize) -> (r: u32)
    requires
        at + 4 <= bytes@.len(),
    ensures
        r == u32_of(bytes@.subrange(at as int, at + 4)),
{
    let r: u32 = bytes[at] as u32 + 256 * (bytes[at + 1] as u32) + 65536 * (bytes[at + 2] as u32)
        + 16777216 * (bytes[at + 3] as u32);
    r
}

fn copy_from(bytes: &[u8], start: usize) -> (r: Vec<u8>)
    requires
        start <= bytes@.len(),
    ensures
        r@ == bytes@.subrange(start as int, bytes@.len() as int),
{
    let mut out: Vec<u8> = Vec::new();
    let mut i: usize = start;
    while i < bytes.len()
        invariant
            start <= i <= bytes@.len(),
            out@ == bytes@.subrange(start as int, i as int),
        decreases bytes@.len() - i,
    {
        out.push(bytes[i]);
        i += 1;
        assert(out@ =~= bytes@.subrange(start as int, i as int));
    }
    out
}

/// Whether a frame just written ends its stream: it is a `Disconnect`.
pub fn ends_stream(frame: &[u8]) -> (r: bool)
    ensures
        r == (category_of_frame(frame@) == Some(Category::Disconnect)),
{
    match Envelope::deserialize(frame) {
        Some(e) => e.category == Category::Disconnect,
        None => false,
    }
}

} // verus!
