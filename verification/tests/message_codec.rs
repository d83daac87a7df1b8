use dns_codec::Answer;
use dns_codec::AnswerType;
use dns_codec::DecodeError;
use dns_codec::EncodeError;
use dns_codec::Header;
use dns_codec::Label;
use dns_codec::Message;
use dns_codec::OpCode;
use dns_codec::QueryResponseIndicator;
use dns_codec::Question;
use dns_codec::ResponseCode;

/// One 512-byte query datagram: the given header bytes, then each
/// question's wire form.
fn datagram(header: [u8; 12], questions: &[&[u8]]) -> Vec<u8> {
    let mut buf = vec![0u8; 512];
    buf[..12].copy_from_slice(&header);
    let mut at: usize = 12;
    for q in questions {
        buf[at..at + q.len()].copy_from_slice(q);
        at += q.len();
    }
    buf
}

fn question_wire(name: &[u8], qtype: u16, class: u16) -> Vec<u8> {
    let mut w = Label(name.to_vec()).encode().unwrap();
    w.extend_from_slice(&qtype.to_be_bytes());
    w.extend_from_slice(&class.to_be_bytes());
    w
}

#[test]
fn question_round_trip() {
    let q = Question { name: Label(b"example.com".to_vec()), qtype: 1, class: 1 };
    let wire = q.to_bytes().unwrap();
    let (back, used) = Question::from_bytes(&wire, 0).unwrap();
    assert_eq!(back.name.0, b"example.com".to_vec());
    assert_eq!(back.qtype, 1);
    assert_eq!(back.class, 1);
    assert_eq!(used, wire.len());
}

#[test]
fn question_fields_big_endian() {
    let q = Question { name: Label(b"ab".to_vec()), qtype: 0x0102, class: 0x0304 };
    let wire = q.to_bytes().unwrap();
    assert_eq!(wire, vec![2, b'a', b'b', 0, 1, 2, 3, 4]);
}

#[test]
fn question_invalid_name_rejected() {
    let q = Question { name: Label(b"a..b".to_vec()), qtype: 1, class: 1 };
    assert_eq!(q.to_bytes(), Err(EncodeError::InvalidName));
}

#[test]
fn question_truncated_fields_rejected() {
    // Name decodes, but fewer than four bytes follow it.
    let mut wire = Label(b"ab".to_vec()).encode().unwrap();
    wire.extend_from_slice(&[0, 1, 0]);
    assert_eq!(Question::from_bytes(&wire, 0), Err(DecodeError::Truncated));
}

#[test]
fn answer_round_trip() {
    let a = Answer {
        name: Label(b"codecrafters.io".to_vec()),
        atype: AnswerType::A,
        class: 1,
        ttl: 60,
        rdlength: 4,
        rdata: vec![8, 8, 8, 8],
    };
    let wire = a.to_bytes().unwrap();
    let (back, used) = Answer::from_bytes(&wire, 0).unwrap();
    assert_eq!(back.name.0, b"codecrafters.io".to_vec());
    assert_eq!(back.atype, AnswerType::A);
    assert_eq!(back.class, 1);
    assert_eq!(back.ttl, 60);
    assert_eq!(back.rdlength, 4);
    assert_eq!(back.rdata, vec![8, 8, 8, 8]);
    assert_eq!(used, wire.len());
}

#[test]
fn answer_bytes_exact() {
    let a = Answer {
        name: Label(b"ab".to_vec()),
        atype: AnswerType::MX,
        class: 0x0102,
        ttl: 0x01020304,
        rdlength: 2,
        rdata: vec![0xAA, 0xBB],
    };
    let wire = a.to_bytes().unwrap();
    assert_eq!(
        wire,
        vec![2, b'a', b'b', 0, 0, 15, 1, 2, 1, 2, 3, 4, 0, 2, 0xAA, 0xBB]
    );
}

#[test]
fn answer_decode_reads_big_endian_fields() {
    let wire = vec![2, b'a', b'b', 0, 0, 15, 1, 2, 1, 2, 3, 4, 0, 2, 0xAA, 0xBB];
    let (back, used) = Answer::from_bytes(&wire, 0).unwrap();
    assert_eq!(back.atype, AnswerType::MX);
    assert_eq!(back.class, 0x0102);
    assert_eq!(back.ttl, 0x01020304);
    assert_eq!(back.rdlength, 2);
    assert_eq!(back.rdata, vec![0xAA, 0xBB]);
    assert_eq!(used, 16);
}

#[test]
fn answer_length_mismatch_rejected() {
    let a = Answer {
        name: Label(b"ab".to_vec()),
        atype: AnswerType::A,
        class: 1,
        ttl: 60,
        rdlength: 3,
        rdata: vec![8, 8, 8, 8],
    };
    assert_eq!(a.to_bytes(), Err(EncodeError::LengthMismatch));
}

#[test]
fn answer_bad_type_rejected() {
    // Type code 0 and 17 are outside the sixteen defined variants.
    for bad in [0u16, 17] {
        let mut wire = Label(b"ab".to_vec()).encode().unwrap();
        wire.extend_from_slice(&bad.to_be_bytes());
        wire.extend_from_slice(&[0, 1, 0, 0, 0, 60, 0, 0]);
        assert_eq!(Answer::from_bytes(&wire, 0), Err(DecodeError::BadFieldValue));
    }
}

#[test]
fn answer_truncated_rdata_rejected() {
    let mut wire = Label(b"ab".to_vec()).encode().unwrap();
    wire.extend_from_slice(&[0, 1, 0, 1, 0, 0, 0, 60, 0, 4, 8, 8]);
    assert_eq!(Answer::from_bytes(&wire, 0), Err(DecodeError::Truncated));
}

#[test]
fn answer_type_values() {
    assert_eq!(AnswerType::A.get_val(), 1);
    assert_eq!(AnswerType::NS.get_val(), 2);
    assert_eq!(AnswerType::CNAME.get_val(), 5);
    assert_eq!(AnswerType::SOA.get_val(), 6);
    assert_eq!(AnswerType::PTR.get_val(), 12);
    assert_eq!(AnswerType::MX.get_val(), 15);
    assert_eq!(AnswerType::TXT.get_val(), 16);
}

#[test]
fn stub_response_scenario() {
    // Header 00 01 00 00 00 01 00 00 00 00 00 00: ID=1, QDCOUNT=1,
    // followed by one question for codecrafters.io, type 1, class 1.
    let header = [0, 1, 0, 0, 0, 1, 0, 0, 0, 0, 0, 0];
    let q = question_wire(b"codecrafters.io", 1, 1);
    let buf = datagram(header, &[&q]);
    let mut msg = Message::from_bytes(&buf).unwrap();
    assert_eq!(msg.header.id, 1);
    assert_eq!(msg.header.opcode, OpCode::Query);
    assert_eq!(msg.questions.len(), 1);
    assert_eq!(msg.questions[0].name.0, b"codecrafters.io".to_vec());
    assert!(msg.answers.is_empty());

    msg.prepare_response();
    assert_eq!(msg.header.qr, QueryResponseIndicator::Response);
    assert_eq!(msg.header.rcode, ResponseCode::NoError);
    assert_eq!(msg.header.ancount, 1);
    assert_eq!(msg.header.qdcount, 1);
    let a = &msg.answers[0];
    assert_eq!(a.name.0, b"codecrafters.io".to_vec());
    assert_eq!(a.atype, AnswerType::A);
    assert_eq!(a.class, 1);
    assert_eq!(a.ttl, 60);
    assert_eq!(a.rdlength, 4);
    assert_eq!(a.rdata, vec![8, 8, 8, 8]);
}

#[test]
fn future_use_opcode_drives_not_implemented() {
    // Opcode field value 5 decodes to FutureUse and the derived response
    // carries NotImplemented.
    let header = [0, 1, 5 << 3, 0, 0, 0, 0, 0, 0, 0, 0, 0];
    let buf = datagram(header, &[]);
    let mut msg = Message::from_bytes(&buf).unwrap();
    assert_eq!(msg.header.opcode, OpCode::FutureUse);
    msg.prepare_response();
    assert_eq!(msg.header.rcode, ResponseCode::NotImplemented);
    assert_eq!(msg.header.qr, QueryResponseIndicator::Response);
}

#[test]
fn prepared_counts_match_record_lists() {
    let header = [0, 7, 0, 0, 0, 2, 0, 0, 0, 0, 0, 0];
    let q1 = question_wire(b"one.example", 1, 1);
    let q2 = question_wire(b"two.example", 28, 1);
    let buf = datagram(header, &[&q1, &q2]);
    let mut msg = Message::from_bytes(&buf).unwrap();
    assert_eq!(msg.questions.len(), 2);
    msg.prepare_response();
    assert_eq!(msg.header.qdcount as usize, msg.questions.len());
    assert_eq!(msg.header.ancount as usize, msg.answers.len());
    assert_eq!(msg.answers.len(), 2);
    assert_eq!(msg.answers[0].name.0, b"one.example".to_vec());
    assert_eq!(msg.answers[1].name.0, b"two.example".to_vec());
}

#[test]
fn message_round_trip_through_buffer() {
    let header = [0x12, 0x34, 1, 0, 0, 1, 0, 0, 0, 0, 0, 0];
    let q = question_wire(b"example.com", 1, 1);
    let buf = datagram(header, &[&q]);
    let mut msg = Message::from_bytes(&buf).unwrap();
    msg.prepare_response();
    let out = msg.to_bytes().unwrap();
    assert_eq!(out.len(), 512);
    let back = Message::from_bytes(&out).unwrap();
    assert_eq!(back.header, msg.header);
    assert_eq!(back.questions.len(), 1);
    assert_eq!(back.questions[0].name.0, b"example.com".to_vec());
    // Inbound decoding never fills the answer section.
    assert!(back.answers.is_empty());
}

#[test]
fn compressed_second_question_decodes_same_name() {
    // A full name at offset 12 inside the first question; the second
    // question's name is a bare pointer to offset 12.
    let header = [0, 1, 0, 0, 0, 2, 0, 0, 0, 0, 0, 0];
    let q1 = question_wire(b"codecrafters.io", 1, 1);
    let mut q2: Vec<u8> = vec![0xC0, 12];
    q2.extend_from_slice(&[0, 1, 0, 1]);
    let buf = datagram(header, &[&q1, &q2]);
    let msg = Message::from_bytes(&buf).unwrap();
    assert_eq!(msg.questions.len(), 2);
    assert_eq!(msg.questions[1].name, msg.questions[0].name);
    assert_eq!(msg.questions[1].name.0, b"codecrafters.io".to_vec());
}

#[test]
fn message_self_pointer_rejected() {
    let header = [0, 1, 0, 0, 0, 1, 0, 0, 0, 0, 0, 0];
    let mut buf = datagram(header, &[]);
    buf[12] = 0xC0;
    buf[13] = 12;
    assert_eq!(Message::from_bytes(&buf), Err(DecodeError::BadPointer));
}

#[test]
fn message_bad_rcode_rejected() {
    let header = [0, 1, 0, 9, 0, 0, 0, 0, 0, 0, 0, 0];
    let buf = datagram(header, &[]);
    assert_eq!(Message::from_bytes(&buf), Err(DecodeError::BadFieldValue));
}

#[test]
fn message_truncated_question_rejected() {
    // QDCOUNT says one question, but its segments run off the buffer end.
    let header = [0, 1, 0, 0, 0, 1, 0, 0, 0, 0, 0, 0];
    let mut buf = datagram(header, &[]);
    let mut at: usize = 12;
    while at < 512 {
        buf[at] = 63;
        for k in 1..=63 {
            if at + k < 512 {
                buf[at + k] = b'x';
            }
        }
        at += 64;
    }
    assert_eq!(Message::from_bytes(&buf), Err(DecodeError::Truncated));
}

#[test]
fn message_too_long_rejected() {
    // Eight questions of 68 bytes each leave no room in 512 bytes.
    let name = vec![b'x'; 62];
    let mut questions = Vec::new();
    for _ in 0..8 {
        questions.push(Question { name: Label(name.clone()), qtype: 1, class: 1 });
    }
    let msg = Message {
        header: Header {
            id: 1,
            qr: QueryResponseIndicator::Query,
            opcode: OpCode::Query,
            aa: false,
            tc: false,
            rd: false,
            ra: false,
            z: false,
            rcode: ResponseCode::NoError,
            qdcount: 8,
            ancount: 0,
            nscount: 0,
            arcount: 0,
        },
        questions,
        answers: Vec::new(),
    };
    assert_eq!(msg.to_bytes(), Err(EncodeError::TooLong));
}

#[test]
fn message_with_invalid_question_name_rejected() {
    let msg = Message {
        header: Header {
            id: 1,
            qr: QueryResponseIndicator::Query,
            opcode: OpCode::Query,
            aa: false,
            tc: false,
            rd: false,
            ra: false,
            z: false,
            rcode: ResponseCode::NoError,
            qdcount: 1,
            ancount: 0,
            nscount: 0,
            arcount: 0,
        },
        questions: vec![Question { name: Label(b"a..b".to_vec()), qtype: 1, class: 1 }],
        answers: Vec::new(),
    };
    assert_eq!(msg.to_bytes(), Err(EncodeError::InvalidName));
}

#[test]
fn message_padding_is_zero_filled() {
    let header = [0, 1, 0, 0, 0, 1, 0, 0, 0, 0, 0, 0];
    let q = question_wire(b"ab", 1, 1);
    let buf = datagram(header, &[&q]);
    let msg = Message::from_bytes(&buf).unwrap();
    let out = msg.to_bytes().unwrap();
    assert_eq!(out.len(), 512);
    let content_len: usize = 12 + q.len();
    assert_eq!(&out[..content_len], &buf[..content_len]);
    assert!(out[content_len..].iter().all(|b| *b == 0));
}

#[test]
fn prepare_response_with_custom_answer() {
    let header = [0, 1, 0, 0, 0, 1, 0, 0, 0, 0, 0, 0];
    let q = question_wire(b"example.com", 1, 1);
    let buf = datagram(header, &[&q]);
    let mut msg = Message::from_bytes(&buf).unwrap();
    msg.prepare_response_with(3600, &vec![1, 2, 3, 4]);
    assert_eq!(msg.answers.len(), 1);
    assert_eq!(msg.answers[0].ttl, 3600);
    assert_eq!(msg.answers[0].rdata, vec![1, 2, 3, 4]);
    assert_eq!(msg.answers[0].rdlength, 4);
    assert_eq!(msg.header.ancount, 1);
}
