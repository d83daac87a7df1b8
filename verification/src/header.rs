//! The 12-byte DNS message header: bit-packed flag fields and four
//! big-endian 16-bit record counts.

use vstd::prelude::*;

use crate::errors::DecodeError;

verus! {

/// The one-bit query/response indicator (bit 7 of header byte 2).
#[derive(Clone, Copy, Debug, PartialEq, Eq, Structural)]
pub enum QueryResponseIndicator {
    Query,
    Response,
}

/// The four-bit opcode (bits 6..3 of header byte 2). Wire values 3 through
/// 15 all collapse to `FutureUse`, which is written back as 3.
#[derive(Clone, Copy, Debug, PartialEq, Eq, Structural)]
pub enum OpCode {
    Query,
    InverseQuery,
    Status,
    FutureUse,
}

/// The four-bit response code (bits 3..0 of header byte 3). Wire values 6
/// through 15 are outside the defined variants and are a decode error.
#[derive(Clone, Copy, Debug, PartialEq, Eq, Structural)]
pub enum ResponseCode {
    NoError,
    FormatError,
    ServerFailure,
    NameError,
    NotImplemented,
    Refused,
}

/// The unpacked header. The `z` field stands for the three reserved bits
/// of byte 3: it is true when any of them is set, and is written back as
/// bit 4 alone.
#[derive(Clone, Copy, Debug, PartialEq, Eq, Structural)]
pub struct Header {
    pub id: u16,
    pub qr: QueryResponseIndicator,
    pub opcode: OpCode,
    pub aa: bool,
    pub tc: bool,
    pub rd: bool,
    pub ra: bool,
    pub z: bool,
    pub rcode: ResponseCode,
    pub qdcount: u16,
    pub ancount: u16,
    pub nscount: u16,
    pub arcount: u16,
}

/// The wire value of the query/response indicator.
pub open spec fn qr_value(qr: QueryResponseIndicator) -> u8 {
    match qr {
        QueryResponseIndicator::Query => 0,
        QueryResponseIndicator::Response => 1,
    }
}

/// The wire value an opcode is written back as.
pub open spec fn opcode_value(op: OpCode) -> u8 {
    match op {
        OpCode::Query => 0,
        OpCode::InverseQuery => 1,
        OpCode::Status => 2,
        OpCode::FutureUse => 3,
    }
}

/// The opcode a four-bit wire value decodes to.
pub open spec fn opcode_of(v: int) -> OpCode {
    if v == 0 {
        OpCode::Query
    } else if v == 1 {
        OpCode::InverseQuery
    } else if v == 2 {
        OpCode::Status
    } else {
        OpCode::FutureUse
    }
}

/// The wire value of a response code.
pub open spec fn rcode_value(rc: ResponseCode) -> u8 {
    match rc {
        ResponseCode::NoError => 0,
        ResponseCode::FormatError => 1,
        ResponseCode::ServerFailure => 2,
        ResponseCode::NameError => 3,
        ResponseCode::NotImplemented => 4,
        ResponseCode::Refused => 5,
    }
}

/// The response code a wire value 0 through 5 decodes to.
pub open spec fn rcode_of(v: int) -> ResponseCode
    recommends
        0 <= v <= 5,
{
    if v == 0 {
        ResponseCode::NoError
    } else if v == 1 {
        ResponseCode::FormatError
    } else if v == 2 {
        ResponseCode::ServerFailure
    } else if v == 3 {
        ResponseCode::NameError
    } else if v == 4 {
        ResponseCode::NotImplemented
    } else {
        ResponseCode::Refused
    }
}

/// A bool as the single wire bit it packs to.
pub open spec fn bit(b: bool) -> u8 {
    if b {
        1
    } else {
        0
    }
}

/// The high byte of a big-endian 16-bit field.
pub open spec fn u16_hi(x: u16) -> u8 {
    (x / 256) as u8
}

/// The low byte of a big-endian 16-bit field.
pub open spec fn u16_lo(x: u16) -> u8 {
    (x % 256) as u8
}

/// The 16-bit value read big-endian from two bytes.
pub open spec fn be16(hi: u8, lo: u8) -> u16 {
    (hi * 256 + lo) as u16
}

/// Header byte 2: QR in bit 7, opcode in bits 6..3, AA, TC, RD in
/// bits 2, 1, 0.
pub open spec fn flags_hi_byte(h: Header) -> u8 {
    (qr_value(h.qr) * 128 + opcode_value(h.opcode) * 8 + bit(h.aa) * 4 + bit(h.tc) * 2 + bit(
        h.rd,
    )) as u8
}

/// Header byte 3: RA in bit 7, the reserved field in bit 4, the response
/// code in bits 3..0.
pub open spec fn flags_lo_byte(h: Header) -> u8 {
    (bit(h.ra) * 128 + bit(h.z) * 16 + rcode_value(h.rcode)) as u8
}

/// The 12 bytes a header packs to.
pub open spec fn spec_header_bytes(h: Header) -> Seq<u8> {
    seq![
        u16_hi(h.id),
        u16_lo(h.id),
        flags_hi_byte(h),
        flags_lo_byte(h),
        u16_hi(h.qdcount),
        u16_lo(h.qdcount),
        u16_hi(h.ancount),
        u16_lo(h.ancount),
        u16_hi(h.nscount),
        u16_lo(h.nscount),
        u16_hi(h.arcount),
        u16_lo(h.arcount),
    ]
}

/// What decoding 12 header bytes at `start` yields: the unpacked header,
/// or `Truncated` when fewer than 12 bytes remain, or `BadFieldValue` when
/// the response-code nibble is outside its defined variants.
pub open spec fn spec_decode_header(buf: Seq<u8>, start: int) -> Result<Header, DecodeError> {
    if start < 0 || start + 12 > buf.len() {
        Err(DecodeError::Truncated)
    } else if buf[start + 3] % 16 > 5 {
        Err(DecodeError::BadFieldValue)
    } else {
        Ok(
            Header {
                id: be16(buf[start], buf[start + 1]),
                qr: if buf[start + 2] / 128 == 1 {
                    QueryResponseIndicator::Response
                } else {
                    QueryResponseIndicator::Query
                },
                opcode: opcode_of((buf[start + 2] / 8 % 16) as int),
                aa: buf[start + 2] / 4 % 2 == 1,
                tc: buf[start + 2] / 2 % 2 == 1,
                rd: buf[start + 2] % 2 == 1,
                ra: buf[start + 3] / 128 == 1,
                z: buf[start + 3] / 16 % 8 != 0,
                rcode: rcode_of((buf[start + 3] % 16) as int),
                qdcount: be16(buf[start + 4], buf[start + 5]),
                ancount: be16(buf[start + 6], buf[start + 7]),
                nscount: be16(buf[start + 8], buf[start + 9]),
                arcount: be16(buf[start + 10], buf[start + 11]),
            },
        )
    }
}

impl QueryResponseIndicator {
    /// Decodes the indicator from header byte 2 (bit 7).
    pub fn from_byte(byte: u8) -> (r: Self)
        ensures
            r == (if byte / 128 == 1 {
                QueryResponseIndicator::Response
            } else {
                QueryResponseIndicator::Query
            }),
    {
        if byte / 128 == 1 {
            QueryResponseIndicator::Response
        } else {
            QueryResponseIndicator::Query
        }
    }

    /// The wire value this indicator packs to.
    pub fn to_bit(&self) -> (r: u8)
        ensures
            r == qr_value(*self),
    {
        match self {
            QueryResponseIndicator::Query => 0,
            QueryResponseIndicator::Response => 1,
        }
    }
}

impl OpCode {
    /// Decodes the opcode from header byte 2 (bits 6..3). Total: wire
    /// values 3 through 15 all collapse to `FutureUse`.
    pub fn from_byte(byte: u8) -> (r: Self)
        ensures
            r == opcode_of((byte / 8 % 16) as int),
    {
        let val: u8 = byte / 8 % 16;
        if val == 0 {
            OpCode::Query
        } else if val == 1 {
            OpCode::InverseQuery
        } else if val == 2 {
            OpCode::Status
        } else {
            OpCode::FutureUse
        }
    }

    /// The wire value this opcode packs to.
    pub fn to_value(&self) -> (r: u8)
        ensures
            r == opcode_value(*self),
    {
        match self {
            OpCode::Query => 0,
            OpCode::InverseQuery => 1,
            OpCode::Status => 2,
            OpCode::FutureUse => 3,
        }
    }
}

impl ResponseCode {
    /// Decodes the response code from header byte 3 (bits 3..0). Nibble
    /// values 6 through 15 are outside the defined variants and are
    /// rejected rather than crashed on.
    pub fn from_byte(byte: u8) -> (r: Result<Self, DecodeError>)
        ensures
            byte % 16 <= 5 ==> r == Ok::<ResponseCode, DecodeError>(rcode_of((byte % 16) as int)),
            byte % 16 > 5 ==> r == Err::<ResponseCode, DecodeError>(DecodeError::BadFieldValue),
    {
        let val: u8 = byte % 16;
        if val == 0 {
            Ok(ResponseCode::NoError)
        } else if val == 1 {
            Ok(ResponseCode::FormatError)
        } else if val == 2 {
            Ok(ResponseCode::ServerFailure)
        } else if val == 3 {
            Ok(ResponseCode::NameError)
        } else if val == 4 {
            Ok(ResponseCode::NotImplemented)
        } else if val == 5 {
            Ok(ResponseCode::Refused)
        } else {
            Err(DecodeError::BadFieldValue)
        }
    }

    /// The wire value this response code packs to.
    pub fn to_value(&self) -> (r: u8)
        ensures
            r == rcode_value(*self),
    {
        match self {
            ResponseCode::NoError => 0,
            ResponseCode::FormatError => 1,
            ResponseCode::ServerFailure => 2,
            ResponseCode::NameError => 3,
            ResponseCode::NotImplemented => 4,
            ResponseCode::Refused => 5,
        }
    }
}

impl Header {
    /// Unpacks a header from 12 bytes at `start`, exactly as
    /// `spec_decode_header` describes.
    pub fn from_bytes(buf: &Vec<u8>, start: usize) -> (r: Result<Header, DecodeError>)
        ensures
            r == spec_decode_header(buf@, start as int),
    {
        if buf.len() < 12 || start > buf.len() - 12 {
            return Err(DecodeError::Truncated);
        }
        let b2: u8 = buf[start + 2];
        let b3: u8 = buf[start + 3];
        let rcode = match ResponseCode::from_byte(b3) {
            Ok(rc) => rc,
            Err(e) => {
                return Err(e);
            },
        };
        Ok(
            Header {
                id: read_be16(buf, start),
                qr: QueryResponseIndicator::from_byte(b2),
                opcode: OpCode::from_byte(b2),
                aa: b2 / 4 % 2 == 1,
                tc: b2 / 2 % 2 == 1,
                rd: b2 % 2 == 1,
                ra: b3 / 128 == 1,
                z: b3 / 16 % 8 != 0,
                rcode,
                qdcount: read_be16(buf, start + 4),
                ancount: read_be16(buf, start + 6),
                nscount: read_be16(buf, start + 8),
                arcount: read_be16(buf, start + 10),
            },
        )
    }

    /// Packs this header into its 12 wire bytes. Total: every header
    /// value can be packed.
    pub fn to_bytes(&self) -> (r: Vec<u8>)
        ensures
            r@ == spec_header_bytes(*self),
    {
        let mut out: Vec<u8> = Vec::new();
        push_be16(&mut out, self.id);
        out.push(
            self.qr.to_bit() * 128 + self.opcode.to_value() * 8 + (if self.aa {
                4
            } else {
                0
            }) + (if self.tc {
                2
            } else {
                0
            }) + (if self.rd {
                1
            } else {
                0
            }),
        );
        out.push(
            (if self.ra {
                128
            } else {
                0
            }) + (if self.z {
                16
            } else {
                0
            }) + self.rcode.to_value(),
        );
        push_be16(&mut out, self.qdcount);
        push_be16(&mut out, self.ancount);
        push_be16(&mut out, self.nscount);
        push_be16(&mut out, self.arcount);
        assert(out@ =~= spec_header_bytes(*self));
        out
    }
}

/// Splitting a 16-bit value into its big-endian bytes and reading them
/// back yields the value.
pub proof fn lemma_be16_round(x: u16)
    ensures
        be16(u16_hi(x), u16_lo(x)) == x,
{
    assert(((x / 256) as u8) * 256 + ((x % 256) as u8) == x) by (bit_vector);
}

/// Unpacking the packed flag byte 2 recovers each field.
proof fn lemma_flags_hi_unpack(v: u8, q: u8, o: u8, a: u8, t: u8, r: u8)
    by (bit_vector)
    requires
        q < 2,
        o < 16,
        a < 2,
        t < 2,
        r < 2,
        v == q * 128 + o * 8 + a * 4 + t * 2 + r,
    ensures
        v / 128 == q,
        v / 8 % 16 == o,
        v / 4 % 2 == a,
        v / 2 % 2 == t,
        v % 2 == r,
{
}

/// Unpacking the packed flag byte 3 recovers each field.
proof fn lemma_flags_lo_unpack(v: u8, ra: u8, z: u8, rc: u8)
    by (bit_vector)
    requires
        ra < 2,
        z < 2,
        rc < 16,
        v == ra * 128 + z * 16 + rc,
    ensures
        v / 128 == ra,
        v / 16 % 8 == z,
        v % 16 == rc,
{
}

/// The unpacked flag fields of bytes 2 and 3 of a packed header.
proof fn lemma_header_flags_round(h: Header)
    ensures
        flags_hi_byte(h) / 128 == qr_value(h.qr),
        flags_hi_byte(h) / 8 % 16 == opcode_value(h.opcode),
        flags_hi_byte(h) / 4 % 2 == bit(h.aa),
        flags_hi_byte(h) / 2 % 2 == bit(h.tc),
        flags_hi_byte(h) % 2 == bit(h.rd),
        flags_lo_byte(h) / 128 == bit(h.ra),
        flags_lo_byte(h) / 16 % 8 == bit(h.z),
        flags_lo_byte(h) % 16 == rcode_value(h.rcode),
{
    assert(flags_hi_byte(h) == qr_value(h.qr) * 128 + opcode_value(h.opcode) * 8 + bit(h.aa) * 4
        + bit(h.tc) * 2 + bit(h.rd));
    lemma_flags_hi_unpack(
        flags_hi_byte(h),
        qr_value(h.qr),
        opcode_value(h.opcode),
        bit(h.aa),
        bit(h.tc),
        bit(h.rd),
    );
    assert(flags_lo_byte(h) == bit(h.ra) * 128 + bit(h.z) * 16 + rcode_value(h.rcode));
    lemma_flags_lo_unpack(flags_lo_byte(h), bit(h.ra), bit(h.z), rcode_value(h.rcode));
}

/// Law: decoding the 12 bytes a header packs to yields the header back,
/// for every header value.
#[verifier::rlimit(100)]
pub proof fn lemma_header_round_trip(h: Header)
    ensures
        spec_decode_header(spec_header_bytes(h), 0) == Ok::<Header, DecodeError>(h),
{
    let s = spec_header_bytes(h);
    assert(s.len() == 12);
    assert(s[0] == u16_hi(h.id) && s[1] == u16_lo(h.id));
    assert(s[2] == flags_hi_byte(h));
    assert(s[3] == flags_lo_byte(h));
    assert(s[4] == u16_hi(h.qdcount) && s[5] == u16_lo(h.qdcount));
    assert(s[6] == u16_hi(h.ancount) && s[7] == u16_lo(h.ancount));
    assert(s[8] == u16_hi(h.nscount) && s[9] == u16_lo(h.nscount));
    assert(s[10] == u16_hi(h.arcount) && s[11] == u16_lo(h.arcount));
    lemma_be16_round(h.id);
    lemma_be16_round(h.qdcount);
    lemma_be16_round(h.ancount);
    lemma_be16_round(h.nscount);
    lemma_be16_round(h.arcount);
    lemma_header_flags_round(h);
    assert(s[3] % 16 == rcode_value(h.rcode) && rcode_value(h.rcode) <= 5);
    let d = spec_decode_header(s, 0);
    assert(d is Ok);
    let dh = d->Ok_0;
    assert(dh.id == h.id && dh.qdcount == h.qdcount && dh.ancount == h.ancount && dh.nscount
        == h.nscount && dh.arcount == h.arcount);
    assert(dh.qr == h.qr);
    assert(dh.opcode == h.opcode);
    assert(dh.aa == h.aa && dh.tc == h.tc && dh.rd == h.rd);
    assert(dh.ra == h.ra && dh.z == h.z && dh.rcode == h.rcode);
    assert(dh == h);
}

/// Reads two bytes big-endian at `at`.
pub fn read_be16(buf: &Vec<u8>, at: usize) -> (r: u16)
    requires
        at + 2 <= buf@.len(),
    ensures
        r == be16(buf@[at as int], buf@[at as int + 1]),
{
    let n: usize = buf.len();
    assert(at + 2 <= n);
    (buf[at] as u16) * 256 + (buf[at + 1] as u16)
}

/// Appends a 16-bit value big-endian.
pub fn push_be16(out: &mut Vec<u8>, x: u16)
    ensures
        final(out)@ == old(out)@ + seq![u16_hi(x), u16_lo(x)],
{
    out.push((x / 256) as u8);
    out.push((x % 256) as u8);
    assert(out@ =~= old(out)@ + seq![u16_hi(x), u16_lo(x)]);
}

} // verus!
