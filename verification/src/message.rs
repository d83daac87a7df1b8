//! Whole messages: a header, its questions and its answers, decoded from
//! and encoded into one fixed 512-byte buffer.

use vstd::prelude::*;

use crate::errors::DecodeError;
use crate::errors::EncodeError;
use crate::header::Header;
use crate::header::OpCode;
use crate::header::QueryResponseIndicator;
use crate::header::ResponseCode;
use crate::header::spec_decode_header;
use crate::header::spec_header_bytes;
use crate::name::valid_name;
use crate::records::Answer;
use crate::records::AnswerType;
use crate::records::AnswerV;
use crate::records::Question;
use crate::records::QuestionV;
use crate::records::answer_wire;
use crate::records::question_at;
use crate::records::question_wire;

verus! {

/// Every message travels in a buffer of exactly this many bytes.
pub const MESSAGE_SIZE: usize = 512;

/// The mathematical shape of a message.
pub ghost struct MessageV {
    pub header: Header,
    pub questions: Seq<QuestionV>,
    pub answers: Seq<AnswerV>,
}

/// A whole DNS message. Decoding fills the questions and leaves the
/// answers empty; `prepare_response` derives one stub answer per question.
#[derive(Debug, PartialEq, Eq)]
pub struct Message {
    pub header: Header,
    pub questions: Vec<Question>,
    pub answers: Vec<Answer>,
}

impl View for Message {
    type V = MessageV;

    open spec fn view(&self) -> MessageV {
        MessageV {
            header: self.header,
            questions: self.questions@.map_values(|q: Question| q@),
            answers: self.answers@.map_values(|a: Answer| a@),
        }
    }
}

/// What decoding `n` questions one after another from `pos` yields: the
/// questions and the position just past them.
pub open spec fn questions_at(buf: Seq<u8>, pos: int, n: int) -> Result<
    (Seq<QuestionV>, int),
    DecodeError,
>
    decreases n,
{
    if n <= 0 {
        Ok((Seq::empty(), pos))
    } else {
        match question_at(buf, pos) {
            Err(e) => Err(e),
            Ok((q, used)) => match questions_at(buf, pos + used, n - 1) {
                Err(e) => Err(e),
                Ok((qs, end)) => Ok((seq![q] + qs, end)),
            },
        }
    }
}

/// A successful run of `n` question decodes yields exactly `n` questions.
pub proof fn lemma_questions_at_count(buf: Seq<u8>, pos: int, n: int)
    requires
        n >= 0,
        questions_at(buf, pos, n) is Ok,
    ensures
        questions_at(buf, pos, n)->Ok_0.0.len() == n,
    decreases n,
{
    if n > 0 {
        let used = question_at(buf, pos)->Ok_0.1;
        lemma_questions_at_count(buf, pos + used, n - 1);
    }
}

/// What decoding a whole inbound message yields: the header, then exactly
/// `qdcount` questions from byte 12 on, and no answers — inbound
/// datagrams are queries, whose answer sections are empty.
pub open spec fn spec_decode_message(buf: Seq<u8>) -> Result<MessageV, DecodeError> {
    match spec_decode_header(buf, 0) {
        Err(e) => Err(e),
        Ok(h) => match questions_at(buf, 12, h.qdcount as int) {
            Err(e) => Err(e),
            Ok((qs, _)) => Ok(MessageV { header: h, questions: qs, answers: Seq::empty() }),
        },
    }
}

/// The concatenated wire forms of a run of questions, or the first error.
pub open spec fn encode_questions(qs: Seq<QuestionV>) -> Result<Seq<u8>, EncodeError>
    decreases qs.len(),
{
    if qs.len() == 0 {
        Ok(Seq::empty())
    } else if !valid_name(qs[0].name) {
        Err(EncodeError::InvalidName)
    } else {
        match encode_questions(qs.skip(1)) {
            Err(e) => Err(e),
            Ok(rest) => Ok(question_wire(qs[0]) + rest),
        }
    }
}

/// The concatenated wire forms of a run of answers, or the first error.
pub open spec fn encode_answers(ans: Seq<AnswerV>) -> Result<Seq<u8>, EncodeError>
    decreases ans.len(),
{
    if ans.len() == 0 {
        Ok(Seq::empty())
    } else if !valid_name(ans[0].name) {
        Err(EncodeError::InvalidName)
    } else if ans[0].rdlength != ans[0].rdata.len() {
        Err(EncodeError::LengthMismatch)
    } else {
        match encode_answers(ans.skip(1)) {
            Err(e) => Err(e),
            Ok(rest) => Ok(answer_wire(ans[0]) + rest),
        }
    }
}

/// What encoding a message yields: header bytes, question wires, answer
/// wires, zero-padded to exactly 512 bytes — or `TooLong` when the
/// content would not fit the fixed buffer.
pub open spec fn spec_encode_message(m: MessageV) -> Result<Seq<u8>, EncodeError> {
    match encode_questions(m.questions) {
        Err(e) => Err(e),
        Ok(qb) => match encode_answers(m.answers) {
            Err(e) => Err(e),
            Ok(ab) => {
                let content = spec_header_bytes(m.header) + qb + ab;
                if content.len() <= 512 {
                    Ok(content + Seq::new((512 - content.len()) as nat, |i: int| 0u8))
                } else {
                    Err(EncodeError::TooLong)
                }
            },
        },
    }
}

/// The response code a synthesized response carries: only the standard
/// Query opcode is implemented, everything else is answered NotImplemented.
pub open spec fn derived_rcode(op: OpCode) -> ResponseCode {
    if op == OpCode::Query {
        ResponseCode::NoError
    } else {
        ResponseCode::NotImplemented
    }
}

/// The stub answer synthesized for a question name.
pub open spec fn answer_stub(name: Seq<u8>, ttl: u32, rdata: Seq<u8>) -> AnswerV {
    AnswerV {
        name,
        atype: AnswerType::A,
        class: 1,
        ttl,
        rdlength: rdata.len() as u16,
        rdata,
    }
}

impl Message {
    /// Decodes one inbound 512-byte datagram, exactly as
    /// `spec_decode_message` describes.
    pub fn from_bytes(buf: &Vec<u8>) -> (r: Result<Message, DecodeError>)
        requires
            buf@.len() == 512,
        ensures
            r is Ok ==> spec_decode_message(buf@) == Ok::<MessageV, DecodeError>(r->Ok_0@),
            r is Ok ==> r->Ok_0@.questions.len() == r->Ok_0.header.qdcount as int
                && r->Ok_0@.answers.len() == 0,
            r is Err ==> spec_decode_message(buf@) == Err::<MessageV, DecodeError>(r->Err_0),
    {
        let header = match Header::from_bytes(buf, 0) {
            Ok(h) => h,
            Err(e) => {
                return Err(e);
            },
        };
        let mut questions: Vec<Question> = Vec::new();
        let mut pos: usize = 12;
        let mut i: u16 = 0;
        proof {
            let r0 = questions_at(buf@, 12, header.qdcount as int);
            if r0 is Ok {
                assert(Seq::<QuestionV>::empty() + r0->Ok_0.0 =~= r0->Ok_0.0);
            }
            assert(questions@.map_values(|q: Question| q@) =~= Seq::<QuestionV>::empty());
        }
        while i < header.qdcount
            invariant
                buf@.len() == 512,
                i <= header.qdcount,
                spec_decode_header(buf@, 0) == Ok::<Header, DecodeError>(header),
                questions_at(buf@, 12, header.qdcount as int) == (match questions_at(
                    buf@,
                    pos as int,
                    header.qdcount - i,
                ) {
                    Ok((qs, end)) => Ok::<(Seq<QuestionV>, int), DecodeError>(
                        (questions@.map_values(|q: Question| q@) + qs, end),
                    ),
                    Err(e) => Err::<(Seq<QuestionV>, int), DecodeError>(e),
                }),
            decreases header.qdcount - i,
        {
            let ghost qs_in = questions@.map_values(|q: Question| q@);
            let (q, used) = match Question::from_bytes(buf, pos) {
                Ok(p) => p,
                Err(e) => {
                    return Err(e);
                },
            };
            proof {
                let rest = questions_at(buf@, pos + used, header.qdcount - i - 1);
                if rest is Ok {
                    assert((qs_in + seq![q@]) + rest->Ok_0.0 =~= qs_in + (seq![q@]
                        + rest->Ok_0.0));
                }
            }
            questions.push(q);
            proof {
                assert(questions@.map_values(|q: Question| q@) =~= qs_in + seq![q@]);
            }
            pos = pos + used;
            i = i + 1;
        }
        let m = Message { header, questions, answers: Vec::new() };
        proof {
            assert(m@.answers =~= Seq::<AnswerV>::empty());
            let rfin = questions_at(buf@, pos as int, 0);
            assert(m@.questions + rfin->Ok_0.0 =~= m@.questions);
            lemma_questions_at_count(buf@, 12, header.qdcount as int);
        }
        Ok(m)
    }

    /// Serializes this message into its 512-byte datagram, exactly as
    /// `spec_encode_message` describes: content that would overrun the
    /// fixed buffer is reported as `TooLong`, never written out of bounds.
    pub fn to_bytes(&self) -> (r: Result<Vec<u8>, EncodeError>)
        ensures
            r is Ok ==> spec_encode_message(self@) == Ok::<Seq<u8>, EncodeError>(r->Ok_0@)
                && r->Ok_0@.len() == 512,
            r is Err ==> spec_encode_message(self@) == Err::<Seq<u8>, EncodeError>(r->Err_0),
    {
        let mut content: Vec<u8> = self.header.to_bytes();
        let ghost hb = spec_header_bytes(self.header);
        let mut i: usize = 0;
        let ghost mut qdone: Seq<u8> = Seq::empty();
        proof {
            let r0 = encode_questions(self@.questions);
            if r0 is Ok {
                assert(Seq::<u8>::empty() + r0->Ok_0 =~= r0->Ok_0);
            }
            assert(self@.questions.skip(0) =~= self@.questions);
            assert(content@ =~= hb + qdone);
        }
        while i < self.questions.len()
            invariant
                i <= self.questions@.len(),
                self@.questions.len() == self.questions@.len(),
                content@ == hb + qdone,
                hb == spec_header_bytes(self.header),
                encode_questions(self@.questions) == (match encode_questions(
                    self@.questions.skip(i as int),
                ) {
                    Ok(rest) => Ok::<Seq<u8>, EncodeError>(qdone + rest),
                    Err(e) => Err::<Seq<u8>, EncodeError>(e),
                }),
            decreases self.questions@.len() - i,
        {
            let qb = match self.questions[i].to_bytes() {
                Ok(v) => v,
                Err(e) => {
                    proof {
                        assert(self@.questions.skip(i as int)[0] == self@.questions[i as int]);
                    }
                    return Err(e);
                },
            };
            proof {
                let tail = self@.questions.skip(i as int);
                assert(tail[0] == self@.questions[i as int]);
                assert(tail.skip(1) =~= self@.questions.skip(i as int + 1));
                let rest = encode_questions(self@.questions.skip(i as int + 1));
                if rest is Ok {
                    assert((qdone + question_wire(tail[0])) + rest->Ok_0 =~= qdone + (
                    question_wire(tail[0]) + rest->Ok_0));
                }
            }
            let ghost mid = content@;
            let mut k: usize = 0;
            while k < qb.len()
                invariant
                    k <= qb@.len(),
                    content@ == mid + qb@.take(k as int),
                decreases qb@.len() - k,
            {
                content.push(qb[k]);
                assert(content@ =~= mid + qb@.take(k as int + 1));
                k = k + 1;
            }
            proof {
                assert(qb@.take(qb@.len() as int) =~= qb@);
                qdone = qdone + qb@;
            }
            i = i + 1;
        }
        proof {
            assert(self@.questions.skip(self.questions@.len() as int)
                =~= Seq::<QuestionV>::empty());
            let rq = encode_questions(Seq::<QuestionV>::empty());
            assert(qdone + rq->Ok_0 =~= qdone);
        }
        let ghost qb_all = qdone;
        let mut j: usize = 0;
        let ghost mut adone: Seq<u8> = Seq::empty();
        proof {
            let r0 = encode_answers(self@.answers);
            if r0 is Ok {
                assert(Seq::<u8>::empty() + r0->Ok_0 =~= r0->Ok_0);
            }
            assert(self@.answers.skip(0) =~= self@.answers);
            assert(content@ =~= (hb + qb_all) + adone);
        }
        while j < self.answers.len()
            invariant
                j <= self.answers@.len(),
                self@.answers.len() == self.answers@.len(),
                content@ == (hb + qb_all) + adone,
                hb == spec_header_bytes(self.header),
                encode_questions(self@.questions) == Ok::<Seq<u8>, EncodeError>(qb_all),
                encode_answers(self@.answers) == (match encode_answers(
                    self@.answers.skip(j as int),
                ) {
                    Ok(rest) => Ok::<Seq<u8>, EncodeError>(adone + rest),
                    Err(e) => Err::<Seq<u8>, EncodeError>(e),
                }),
            decreases self.answers@.len() - j,
        {
            let ab = match self.answers[j].to_bytes() {
                Ok(v) => v,
                Err(e) => {
                    proof {
                        assert(self@.answers.skip(j as int)[0] == self@.answers[j as int]);
                    }
                    return Err(e);
                },
            };
            proof {
                let tail = self@.answers.skip(j as int);
                assert(tail[0] == self@.answers[j as int]);
                assert(tail.skip(1) =~= self@.answers.skip(j as int + 1));
                let rest = encode_answers(self@.answers.skip(j as int + 1));
                if rest is Ok {
                    assert((adone + answer_wire(tail[0])) + rest->Ok_0 =~= adone + (answer_wire(
                        tail[0],
                    ) + rest->Ok_0));
                }
            }
            let ghost mid = content@;
            let mut k: usize = 0;
            while k < ab.len()
                invariant
                    k <= ab@.len(),
                    content@ == mid + ab@.take(k as int),
                decreases ab@.len() - k,
            {
                content.push(ab[k]);
                assert(content@ =~= mid + ab@.take(k as int + 1));
                k = k + 1;
            }
            proof {
                assert(ab@.take(ab@.len() as int) =~= ab@);
                adone = adone + ab@;
            }
            j = j + 1;
        }
        proof {
            assert(self@.answers.skip(self.answers@.len() as int) =~= Seq::<AnswerV>::empty());
            let ra = encode_answers(Seq::<AnswerV>::empty());
            assert(adone + ra->Ok_0 =~= adone);
        }
        let ghost full = content@;
        proof {
            assert(full =~= spec_header_bytes(self.header) + qb_all + adone);
        }
        if content.len() > MESSAGE_SIZE {
            return Err(EncodeError::TooLong);
        }
        while content.len() < MESSAGE_SIZE
            invariant
                full.len() <= content@.len() <= 512,
                content@.take(full.len() as int) == full,
                forall|k: int| full.len() <= k < content@.len() ==> content@[k] == 0u8,
            decreases 512 - content@.len(),
        {
            content.push(0);
            assert(content@.take(full.len() as int) =~= full);
        }
        proof {
            assert(content@ =~= full + Seq::new((512 - full.len()) as nat, |i: int| 0u8));
        }
        Ok(content)
    }

    /// Synthesizes the response in place with a caller-chosen time to live
    /// and rdata: flips QR to Response, derives the response code from the
    /// request's opcode, refreshes the question count, and derives one
    /// A-record answer per question, carrying the question's own name.
    /// Everything else in the header is kept.
    pub fn prepare_response_with(&mut self, ttl: u32, rdata: &Vec<u8>)
        requires
            old(self).questions@.len() <= 0xFFFF,
            rdata@.len() <= 0xFFFF,
        ensures
            final(self).header == (Header {
                qr: QueryResponseIndicator::Response,
                rcode: derived_rcode(old(self).header.opcode),
                qdcount: old(self).questions@.len() as u16,
                ancount: old(self).questions@.len() as u16,
                ..old(self).header
            }),
            final(self)@.questions == old(self)@.questions,
            final(self)@.answers.len() == old(self)@.questions.len(),
            final(self).header.qdcount as int == final(self)@.questions.len(),
            final(self).header.ancount as int == final(self)@.answers.len(),
            forall|k: int|
                0 <= k < final(self)@.answers.len() ==> final(self)@.answers[k] == answer_stub(
                    old(self)@.questions[k].name,
                    ttl,
                    rdata@,
                ),
    {
        let qcount: usize = self.questions.len();
        let mut answers: Vec<Answer> = Vec::new();
        let mut i: usize = 0;
        while i < qcount
            invariant
                *self == *old(self),
                qcount == self.questions@.len(),
                rdata@.len() <= 0xFFFF,
                i <= qcount,
                answers@.len() == i as int,
                forall|k: int|
                    0 <= k < i ==> answers@[k]@ == answer_stub(
                        self@.questions[k].name,
                        ttl,
                        rdata@,
                    ),
            decreases qcount - i,
        {
            let mut rd: Vec<u8> = Vec::new();
            let mut k: usize = 0;
            while k < rdata.len()
                invariant
                    k <= rdata@.len(),
                    rd@ == rdata@.take(k as int),
                decreases rdata@.len() - k,
            {
                rd.push(rdata[k]);
                assert(rd@ =~= rdata@.take(k as int + 1));
                k = k + 1;
            }
            assert(rd@ =~= rdata@);
            answers.push(
                Answer {
                    name: self.questions[i].name.clone(),
                    atype: AnswerType::A,
                    class: 1,
                    ttl,
                    rdlength: rd.len() as u16,
                    rdata: rd,
                },
            );
            i = i + 1;
        }
        self.header.qr = QueryResponseIndicator::Response;
        self.header.rcode = if self.header.opcode == OpCode::Query {
            ResponseCode::NoError
        } else {
            ResponseCode::NotImplemented
        };
        self.header.qdcount = qcount as u16;
        self.header.ancount = qcount as u16;
        self.answers = answers;
    }

    /// Synthesizes the stock stub response: one A record per question,
    /// time to live 60, rdata `8 8 8 8`.
    pub fn prepare_response(&mut self)
        requires
            old(self).questions@.len() <= 0xFFFF,
        ensures
            final(self).header == (Header {
                qr: QueryResponseIndicator::Response,
                rcode: derived_rcode(old(self).header.opcode),
                qdcount: old(self).questions@.len() as u16,
                ancount: old(self).questions@.len() as u16,
                ..old(self).header
            }),
            final(self)@.questions == old(self)@.questions,
            final(self)@.answers.len() == old(self)@.questions.len(),
            final(self).header.qdcount as int == final(self)@.questions.len(),
            final(self).header.ancount as int == final(self)@.answers.len(),
            forall|k: int|
                0 <= k < final(self)@.answers.len() ==> final(self)@.answers[k] == answer_stub(
                    old(self)@.questions[k].name,
                    60,
                    seq![8u8, 8u8, 8u8, 8u8],
                ),
    {
        let mut rdata: Vec<u8> = Vec::new();
        rdata.push(8);
        rdata.push(8);
        rdata.push(8);
        rdata.push(8);
        assert(rdata@ =~= seq![8u8, 8u8, 8u8, 8u8]);
        self.prepare_response_with(60, &rdata);
    }
}

} // verus!
