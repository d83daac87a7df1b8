//! Question and resource (answer) records: a name followed by fixed-width
//! big-endian fields, and for answers a length-prefixed rdata blob.

use vstd::prelude::*;

use crate::errors::DecodeError;
use crate::errors::EncodeError;
use crate::header::be16;
use crate::header::push_be16;
use crate::header::read_be16;
use crate::header::u16_hi;
use crate::header::u16_lo;
use crate::name::Label;
use crate::name::name_len_at;
use crate::name::name_text_at;
use crate::name::name_wire;
use crate::name::valid_name;

verus! {

/// The mathematical shape of a question: its name's text and two 16-bit
/// fields.
pub ghost struct QuestionV {
    pub name: Seq<u8>,
    pub qtype: u16,
    pub class: u16,
}

/// A question record: a name, a query type and a class.
#[derive(Debug, PartialEq, Eq)]
pub struct Question {
    pub name: Label,
    pub qtype: u16,
    pub class: u16,
}

impl View for Question {
    type V = QuestionV;

    open spec fn view(&self) -> QuestionV {
        QuestionV { name: self.name@, qtype: self.qtype, class: self.class }
    }
}

/// The wire form of a question whose name is valid.
pub open spec fn question_wire(q: QuestionV) -> Seq<u8> {
    name_wire(q.name) + seq![u16_hi(q.qtype), u16_lo(q.qtype), u16_hi(q.class), u16_lo(q.class)]
}

/// What decoding a question at `pos` yields: its name (compression
/// pointers may only lead strictly before `pos`), then two big-endian
/// 16-bit fields, and the bytes consumed in place.
pub open spec fn question_at(buf: Seq<u8>, pos: int) -> Result<(QuestionV, int), DecodeError> {
    match name_text_at(buf, pos, pos) {
        Err(e) => Err(e),
        Ok(txt) => match name_len_at(buf, pos) {
            Err(e) => Err(e),
            Ok(n) => if pos + n + 4 <= buf.len() {
                Ok(
                    (
                        QuestionV {
                            name: txt,
                            qtype: be16(buf[pos + n], buf[pos + n + 1]),
                            class: be16(buf[pos + n + 2], buf[pos + n + 3]),
                        },
                        n + 4,
                    ),
                )
            } else {
                Err(DecodeError::Truncated)
            },
        },
    }
}

/// A name that occupies `n` bytes in place starting at `pos` lies within
/// the buffer: `pos + n` does not pass its end.
pub proof fn lemma_name_len_bounds(buf: Seq<u8>, pos: int)
    requires
        0 <= pos,
        name_len_at(buf, pos) is Ok,
    ensures
        1 <= name_len_at(buf, pos)->Ok_0,
        pos + name_len_at(buf, pos)->Ok_0 <= buf.len(),
    decreases buf.len() - pos,
{
    if buf[pos] != 0 && buf[pos] < 192 {
        lemma_name_len_bounds(buf, pos + 1 + buf[pos] as int);
    }
}

impl Question {
    /// Decodes a question at `start`: the name, then type and class.
    pub fn from_bytes(buf: &Vec<u8>, start: usize) -> (r: Result<(Question, usize), DecodeError>)
        ensures
            r is Ok ==> question_at(buf@, start as int) == Ok::<(QuestionV, int), DecodeError>(
                (r->Ok_0.0@, r->Ok_0.1 as int),
            ),
            r is Err ==> question_at(buf@, start as int) == Err::<(QuestionV, int), DecodeError>(
                r->Err_0,
            ),
    {
        let (name, name_len) = match Label::decode(buf, start) {
            Ok(p) => p,
            Err(e) => {
                return Err(e);
            },
        };
        proof {
            lemma_name_len_bounds(buf@, start as int);
        }
        let n: usize = buf.len();
        if n - (start + name_len) < 4 {
            return Err(DecodeError::Truncated);
        }
        let qtype: u16 = read_be16(buf, start + name_len);
        let class: u16 = read_be16(buf, start + name_len + 2);
        Ok((Question { name, qtype, class }, name_len + 4))
    }

    /// Serializes this question: the name's wire form, then type and
    /// class big-endian. Succeeds exactly when the name is valid.
    pub fn to_bytes(&self) -> (r: Result<Vec<u8>, EncodeError>)
        ensures
            r is Ok <==> valid_name(self@.name),
            r is Ok ==> r->Ok_0@ == question_wire(self@),
            r is Err ==> r->Err_0 == EncodeError::InvalidName,
    {
        let mut out: Vec<u8> = match self.name.encode() {
            Ok(v) => v,
            Err(e) => {
                return Err(e);
            },
        };
        push_be16(&mut out, self.qtype);
        push_be16(&mut out, self.class);
        assert(out@ =~= question_wire(self@));
        Ok(out)
    }
}

/// The sixteen standard resource-record type codes, with wire values 1
/// through 16 in this order.
#[derive(Clone, Copy, Debug, PartialEq, Eq, Structural)]
pub enum AnswerType {
    A,
    NS,
    MD,
    MF,
    CNAME,
    SOA,
    MB,
    MG,
    MR,
    NULL,
    WKS,
    PTR,
    HINFO,
    MINFO,
    MX,
    TXT,
}

/// The wire value of a record type.
pub open spec fn atype_value(t: AnswerType) -> u16 {
    match t {
        AnswerType::A => 1,
        AnswerType::NS => 2,
        AnswerType::MD => 3,
        AnswerType::MF => 4,
        AnswerType::CNAME => 5,
        AnswerType::SOA => 6,
        AnswerType::MB => 7,
        AnswerType::MG => 8,
        AnswerType::MR => 9,
        AnswerType::NULL => 10,
        AnswerType::WKS => 11,
        AnswerType::PTR => 12,
        AnswerType::HINFO => 13,
        AnswerType::MINFO => 14,
        AnswerType::MX => 15,
        AnswerType::TXT => 16,
    }
}

/// The record type a wire value 1 through 16 decodes to.
pub open spec fn atype_of(v: int) -> AnswerType
    recommends
        1 <= v <= 16,
{
    if v == 1 {
        AnswerType::A
    } else if v == 2 {
        AnswerType::NS
    } else if v == 3 {
        AnswerType::MD
    } else if v == 4 {
        AnswerType::MF
    } else if v == 5 {
        AnswerType::CNAME
    } else if v == 6 {
        AnswerType::SOA
    } else if v == 7 {
        AnswerType::MB
    } else if v == 8 {
        AnswerType::MG
    } else if v == 9 {
        AnswerType::MR
    } else if v == 10 {
        AnswerType::NULL
    } else if v == 11 {
        AnswerType::WKS
    } else if v == 12 {
        AnswerType::PTR
    } else if v == 13 {
        AnswerType::HINFO
    } else if v == 14 {
        AnswerType::MINFO
    } else if v == 15 {
        AnswerType::MX
    } else {
        AnswerType::TXT
    }
}

impl AnswerType {
    /// The wire value this record type packs to.
    pub fn get_val(&self) -> (r: u16)
        ensures
            r == atype_value(*self),
    {
        match self {
            AnswerType::A => 1,
            AnswerType::NS => 2,
            AnswerType::MD => 3,
            AnswerType::MF => 4,
            AnswerType::CNAME => 5,
            AnswerType::SOA => 6,
            AnswerType::MB => 7,
            AnswerType::MG => 8,
            AnswerType::MR => 9,
            AnswerType::NULL => 10,
            AnswerType::WKS => 11,
            AnswerType::PTR => 12,
            AnswerType::HINFO => 13,
            AnswerType::MINFO => 14,
            AnswerType::MX => 15,
            AnswerType::TXT => 16,
        }
    }

    /// Decodes a record-type wire value; values outside 1 through 16 are
    /// outside the defined variants and are rejected.
    pub fn from_val(v: u16) -> (r: Result<AnswerType, DecodeError>)
        ensures
            1 <= v <= 16 ==> r == Ok::<AnswerType, DecodeError>(atype_of(v as int)),
            !(1 <= v <= 16) ==> r == Err::<AnswerType, DecodeError>(DecodeError::BadFieldValue),
    {
        if v == 1 {
            Ok(AnswerType::A)
        } else if v == 2 {
            Ok(AnswerType::NS)
        } else if v == 3 {
            Ok(AnswerType::MD)
        } else if v == 4 {
            Ok(AnswerType::MF)
        } else if v == 5 {
            Ok(AnswerType::CNAME)
        } else if v == 6 {
            Ok(AnswerType::SOA)
        } else if v == 7 {
            Ok(AnswerType::MB)
        } else if v == 8 {
            Ok(AnswerType::MG)
        } else if v == 9 {
            Ok(AnswerType::MR)
        } else if v == 10 {
            Ok(AnswerType::NULL)
        } else if v == 11 {
            Ok(AnswerType::WKS)
        } else if v == 12 {
            Ok(AnswerType::PTR)
        } else if v == 13 {
            Ok(AnswerType::HINFO)
        } else if v == 14 {
            Ok(AnswerType::MINFO)
        } else if v == 15 {
            Ok(AnswerType::MX)
        } else if v == 16 {
            Ok(AnswerType::TXT)
        } else {
            Err(DecodeError::BadFieldValue)
        }
    }
}

/// The mathematical shape of an answer record.
pub ghost struct AnswerV {
    pub name: Seq<u8>,
    pub atype: AnswerType,
    pub class: u16,
    pub ttl: u32,
    pub rdlength: u16,
    pub rdata: Seq<u8>,
}

/// An answer (resource) record. `rdlength` must equal the length of
/// `rdata` for the record to serialize.
#[derive(Debug, PartialEq, Eq)]
pub struct Answer {
    pub name: Label,
    pub atype: AnswerType,
    pub class: u16,
    pub ttl: u32,
    pub rdlength: u16,
    pub rdata: Vec<u8>,
}

impl View for Answer {
    type V = AnswerV;

    open spec fn view(&self) -> AnswerV {
        AnswerV {
            name: self.name@,
            atype: self.atype,
            class: self.class,
            ttl: self.ttl,
            rdlength: self.rdlength,
            rdata: self.rdata@,
        }
    }
}

/// The four big-endian bytes of a 32-bit value.
pub open spec fn be32_bytes(x: u32) -> Seq<u8> {
    seq![(x / 16777216) as u8, (x / 65536 % 256) as u8, (x / 256 % 256) as u8, (x % 256) as u8]
}

/// The 32-bit value read big-endian from four bytes.
pub open spec fn be32(b0: u8, b1: u8, b2: u8, b3: u8) -> u32 {
    (b0 * 16777216 + b1 * 65536 + b2 * 256 + b3) as u32
}

/// The wire form of an answer whose name is valid and whose `rdlength`
/// agrees with its rdata.
pub open spec fn answer_wire(a: AnswerV) -> Seq<u8> {
    name_wire(a.name) + seq![
        u16_hi(atype_value(a.atype)),
        u16_lo(atype_value(a.atype)),
        u16_hi(a.class),
        u16_lo(a.class),
    ] + be32_bytes(a.ttl) + seq![u16_hi(a.rdlength), u16_lo(a.rdlength)] + a.rdata
}

/// What decoding an answer at `pos` yields: the name, type (rejected
/// outside its sixteen variants), class, ttl, rdata length and that many
/// raw rdata bytes, plus the bytes consumed in place.
pub open spec fn answer_at(buf: Seq<u8>, pos: int) -> Result<(AnswerV, int), DecodeError> {
    match name_text_at(buf, pos, pos) {
        Err(e) => Err(e),
        Ok(txt) => match name_len_at(buf, pos) {
            Err(e) => Err(e),
            Ok(n) => if pos + n + 10 > buf.len() {
                Err(DecodeError::Truncated)
            } else {
                let tv = be16(buf[pos + n], buf[pos + n + 1]);
                if tv < 1 || tv > 16 {
                    Err(DecodeError::BadFieldValue)
                } else {
                    let rdlength = be16(buf[pos + n + 8], buf[pos + n + 9]);
                    if pos + n + 10 + rdlength > buf.len() {
                        Err(DecodeError::Truncated)
                    } else {
                        Ok(
                            (
                                AnswerV {
                                    name: txt,
                                    atype: atype_of(tv as int),
                                    class: be16(buf[pos + n + 2], buf[pos + n + 3]),
                                    ttl: be32(
                                        buf[pos + n + 4],
                                        buf[pos + n + 5],
                                        buf[pos + n + 6],
                                        buf[pos + n + 7],
                                    ),
                                    rdlength,
                                    rdata: buf.subrange(pos + n + 10, pos + n + 10 + rdlength),
                                },
                                n + 10 + rdlength,
                            ),
                        )
                    }
                }
            },
        },
    }
}

/// Appends a 32-bit value big-endian.
pub fn push_be32(out: &mut Vec<u8>, x: u32)
    ensures
        final(out)@ == old(out)@ + be32_bytes(x),
{
    assert(x / 16777216 < 256 && x / 65536 % 256 < 256 && x / 256 % 256 < 256) by (bit_vector);
    out.push((x / 16777216) as u8);
    out.push((x / 65536 % 256) as u8);
    out.push((x / 256 % 256) as u8);
    out.push((x % 256) as u8);
    assert(out@ =~= old(out)@ + be32_bytes(x));
}

impl Answer {
    /// Serializes this answer: the name's wire form, then type, class,
    /// ttl and rdata length big-endian, then the rdata verbatim. Succeeds
    /// exactly when the name is valid and `rdlength` equals the rdata's
    /// length.
    pub fn to_bytes(&self) -> (r: Result<Vec<u8>, EncodeError>)
        ensures
            r is Ok <==> (valid_name(self@.name) && self@.rdlength == self@.rdata.len()),
            r is Ok ==> r->Ok_0@ == answer_wire(self@),
            !valid_name(self@.name) ==> r is Err && r->Err_0 == EncodeError::InvalidName,
            valid_name(self@.name) && self@.rdlength != self@.rdata.len() ==> r is Err && r->Err_0
                == EncodeError::LengthMismatch,
    {
        let mut out: Vec<u8> = match self.name.encode() {
            Ok(v) => v,
            Err(e) => {
                return Err(e);
            },
        };
        if (self.rdlength as usize) != self.rdata.len() {
            return Err(EncodeError::LengthMismatch);
        }
        push_be16(&mut out, self.atype.get_val());
        push_be16(&mut out, self.class);
        push_be32(&mut out, self.ttl);
        push_be16(&mut out, self.rdlength);
        let ghost mid = out@;
        let mut i: usize = 0;
        while i < self.rdata.len()
            invariant
                i <= self.rdata.len(),
                out@ == mid + self.rdata@.take(i as int),
            decreases self.rdata.len() - i,
        {
            out.push(self.rdata[i]);
            assert(out@ =~= mid + self.rdata@.take(i as int + 1));
            i = i + 1;
        }
        assert(self.rdata@.take(self.rdata@.len() as int) =~= self.rdata@);
        assert(out@ =~= answer_wire(self@));
        Ok(out)
    }

    /// Decodes an answer at `start`, symmetrically to `to_bytes`.
    pub fn from_bytes(buf: &Vec<u8>, start: usize) -> (r: Result<(Answer, usize), DecodeError>)
        ensures
            r is Ok ==> answer_at(buf@, start as int) == Ok::<(AnswerV, int), DecodeError>(
                (r->Ok_0.0@, r->Ok_0.1 as int),
            ),
            r is Err ==> answer_at(buf@, start as int) == Err::<(AnswerV, int), DecodeError>(
                r->Err_0,
            ),
    {
        let (name, name_len) = match Label::decode(buf, start) {
            Ok(p) => p,
            Err(e) => {
                return Err(e);
            },
        };
        proof {
            lemma_name_len_bounds(buf@, start as int);
        }
        let n: usize = buf.len();
        if n - (start + name_len) < 10 {
            return Err(DecodeError::Truncated);
        }
        let at: usize = start + name_len;
        let atype = match AnswerType::from_val(read_be16(buf, at)) {
            Ok(t) => t,
            Err(e) => {
                return Err(e);
            },
        };
        let class: u16 = read_be16(buf, at + 2);
        let ttl: u32 = (buf[at + 4] as u32) * 16777216 + (buf[at + 5] as u32) * 65536 + (buf[at
            + 6] as u32) * 256 + (buf[at + 7] as u32);
        let rdlength: u16 = read_be16(buf, at + 8);
        if (rdlength as usize) > n - (at + 10) {
            return Err(DecodeError::Truncated);
        }
        let mut rdata: Vec<u8> = Vec::new();
        let mut i: usize = 0;
        while i < rdlength as usize
            invariant
                n == buf@.len(),
                at + 10 + rdlength <= n,
                i <= rdlength,
                rdata@ == buf@.subrange(at + 10, at + 10 + i),
            decreases rdlength as usize - i,
        {
            rdata.push(buf[at + 10 + i]);
            assert(rdata@ =~= buf@.subrange(at as int + 10, at as int + 10 + i + 1));
            i = i + 1;
        }
        Ok(
            (
                Answer { name, atype, class, ttl, rdlength, rdata },
                name_len + 10 + rdlength as usize,
            ),
        )
    }
}

} // verus!
