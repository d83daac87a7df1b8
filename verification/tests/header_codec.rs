use dns_codec::DecodeError;
use dns_codec::Header;
use dns_codec::OpCode;
use dns_codec::QueryResponseIndicator;
use dns_codec::ResponseCode;

fn sample_header() -> Header {
    Header {
        id: 0xABCD,
        qr: QueryResponseIndicator::Response,
        opcode: OpCode::Status,
        aa: true,
        tc: false,
        rd: true,
        ra: true,
        z: true,
        rcode: ResponseCode::Refused,
        qdcount: 3,
        ancount: 2,
        nscount: 1,
        arcount: 0xFFFF,
    }
}

#[test]
fn header_round_trip() {
    let h = sample_header();
    let bytes = h.to_bytes();
    assert_eq!(bytes.len(), 12);
    let back = Header::from_bytes(&bytes, 0).unwrap();
    assert_eq!(back, h);
}

#[test]
fn header_round_trip_all_flags_clear() {
    let h = Header {
        id: 0,
        qr: QueryResponseIndicator::Query,
        opcode: OpCode::Query,
        aa: false,
        tc: false,
        rd: false,
        ra: false,
        z: false,
        rcode: ResponseCode::NoError,
        qdcount: 0,
        ancount: 0,
        nscount: 0,
        arcount: 0,
    };
    let bytes = h.to_bytes();
    assert_eq!(bytes, vec![0u8; 12]);
    assert_eq!(Header::from_bytes(&bytes, 0).unwrap(), h);
}

#[test]
fn header_bytes_exact() {
    let h = sample_header();
    let bytes = h.to_bytes();
    // id big-endian
    assert_eq!(&bytes[0..2], &[0xAB, 0xCD]);
    // QR=1, opcode=2, AA=1, TC=0, RD=1
    assert_eq!(bytes[2], 0b1001_0101);
    // RA=1, Z bit 4 set, RCODE=5
    assert_eq!(bytes[3], 0b1001_0101);
    assert_eq!(&bytes[4..6], &[0, 3]);
    assert_eq!(&bytes[6..8], &[0, 2]);
    assert_eq!(&bytes[8..10], &[0, 1]);
    assert_eq!(&bytes[10..12], &[0xFF, 0xFF]);
}

#[test]
fn header_bad_rcode_rejected() {
    let mut bytes = vec![0u8; 12];
    bytes[3] = 6;
    assert_eq!(Header::from_bytes(&bytes, 0), Err(DecodeError::BadFieldValue));
    bytes[3] = 15;
    assert_eq!(Header::from_bytes(&bytes, 0), Err(DecodeError::BadFieldValue));
}

#[test]
fn header_truncated_rejected() {
    let bytes = vec![0u8; 11];
    assert_eq!(Header::from_bytes(&bytes, 0), Err(DecodeError::Truncated));
    let bytes12 = vec![0u8; 12];
    assert_eq!(Header::from_bytes(&bytes12, 1), Err(DecodeError::Truncated));
}

#[test]
fn qr_indicator_from_byte() {
    assert_eq!(QueryResponseIndicator::from_byte(0x00), QueryResponseIndicator::Query);
    assert_eq!(QueryResponseIndicator::from_byte(0x7F), QueryResponseIndicator::Query);
    assert_eq!(QueryResponseIndicator::from_byte(0x80), QueryResponseIndicator::Response);
    assert_eq!(QueryResponseIndicator::from_byte(0xFF), QueryResponseIndicator::Response);
}

#[test]
fn opcode_from_byte_known_values() {
    assert_eq!(OpCode::from_byte(0 << 3), OpCode::Query);
    assert_eq!(OpCode::from_byte(1 << 3), OpCode::InverseQuery);
    assert_eq!(OpCode::from_byte(2 << 3), OpCode::Status);
}

#[test]
fn opcode_future_use_range() {
    // Wire values 3 through 15 all collapse to FutureUse.
    for v in 3u8..=15 {
        assert_eq!(OpCode::from_byte(v << 3), OpCode::FutureUse);
    }
}

#[test]
fn response_code_from_byte() {
    assert_eq!(ResponseCode::from_byte(0), Ok(ResponseCode::NoError));
    assert_eq!(ResponseCode::from_byte(1), Ok(ResponseCode::FormatError));
    assert_eq!(ResponseCode::from_byte(2), Ok(ResponseCode::ServerFailure));
    assert_eq!(ResponseCode::from_byte(3), Ok(ResponseCode::NameError));
    assert_eq!(ResponseCode::from_byte(4), Ok(ResponseCode::NotImplemented));
    assert_eq!(ResponseCode::from_byte(5), Ok(ResponseCode::Refused));
    for v in 6u8..=15 {
        assert_eq!(ResponseCode::from_byte(v), Err(DecodeError::BadFieldValue));
    }
}
