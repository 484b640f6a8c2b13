use muxado::error::ErrorCode;
use muxado::frame::{decode, encode, Body, DecodeError, Frame, HEADER_LEN, MAX_BODY_LEN};

fn frame(stream_id: u32, syn: bool, fin: bool, body: Body) -> Frame {
    Frame { stream_id, syn, fin, body }
}

#[test]
fn data_frame_encodes_exactly() {
    let f = frame(0x0102_0304, true, false, Body::Data(b"hi!".to_vec()));
    let bytes = encode(&f).unwrap();
    assert_eq!(bytes, vec![0, 0, 3, 1, 0, 1, 2, 3, 4, b'h', b'i', b'!']);
    assert_eq!(bytes.len(), HEADER_LEN + 3);
}

#[test]
fn wnd_inc_and_rst_encode_big_endian() {
    let f = frame(7, false, false, Body::WndInc(0x8000));
    assert_eq!(encode(&f).unwrap(), vec![0, 0, 4, 0, 1, 0, 0, 0, 7, 0, 0, 0x80, 0]);
    let r = frame(5, false, false, Body::Rst(ErrorCode::StreamRefused.code()));
    assert_eq!(encode(&r).unwrap(), vec![0, 0, 4, 0, 2, 0, 0, 0, 5, 0, 0, 0, 6]);
}

#[test]
fn goaway_encodes_code_then_message() {
    let f = frame(3, false, false, Body::GoAway(0, b"bye".to_vec()));
    assert_eq!(
        encode(&f).unwrap(),
        vec![0, 0, 7, 0, 7, 0, 0, 0, 3, 0, 0, 0, 0, b'b', b'y', b'e']
    );
}

#[test]
fn fin_flag_is_bit_one() {
    let f = frame(1, true, true, Body::Data(Vec::new()));
    assert_eq!(encode(&f).unwrap(), vec![0, 0, 0, 3, 0, 0, 0, 0, 1]);
}

#[test]
fn round_trip_every_frame_type() {
    let frames = vec![
        frame(1, true, false, Body::Data(b"payload".to_vec())),
        frame(2, false, true, Body::Data(Vec::new())),
        frame(3, false, false, Body::WndInc(1)),
        frame(4, false, false, Body::WndInc(0x7FFF_FFFF)),
        frame(5, false, false, Body::Rst(0x0B)),
        frame(0, false, false, Body::GoAway(1, b"invalid frame".to_vec())),
        frame(u32::MAX, true, true, Body::Data(vec![0xAA; 300])),
    ];
    for f in frames {
        let mut bytes = encode(&f).unwrap();
        let n = bytes.len();
        bytes.extend_from_slice(&[9, 9, 9]);
        let (g, used) = decode(&bytes).unwrap();
        assert_eq!(g, f);
        assert_eq!(used, n);
    }
}

#[test]
fn zero_window_increment_is_refused() {
    assert_eq!(encode(&frame(1, false, false, Body::WndInc(0))), Err(ErrorCode::Protocol));
    assert_eq!(
        decode(&[0, 0, 4, 0, 1, 0, 0, 0, 1, 0, 0, 0, 0]),
        Err(DecodeError::Malformed)
    );
}

#[test]
fn negative_window_increment_is_refused() {
    assert_eq!(
        encode(&frame(1, false, false, Body::WndInc(0x8000_0000))),
        Err(ErrorCode::Protocol)
    );
    assert_eq!(
        decode(&[0, 0, 4, 0, 1, 0, 0, 0, 1, 0xFF, 0, 0, 0]),
        Err(DecodeError::Malformed)
    );
}

#[test]
fn oversized_body_is_refused() {
    let f = frame(1, false, false, Body::Data(vec![0; MAX_BODY_LEN + 1]));
    assert_eq!(encode(&f), Err(ErrorCode::Protocol));
    let g = frame(1, false, false, Body::Data(vec![0; MAX_BODY_LEN]));
    assert_eq!(encode(&g).unwrap().len(), HEADER_LEN + MAX_BODY_LEN);
}

#[test]
fn bodies_of_wrong_size_are_malformed() {
    // WND_INC with 3 bytes
    assert_eq!(decode(&[0, 0, 3, 0, 1, 0, 0, 0, 1, 0, 0, 1]), Err(DecodeError::Malformed));
    // RST with 5 bytes
    assert_eq!(
        decode(&[0, 0, 5, 0, 2, 0, 0, 0, 1, 0, 0, 0, 1, 0]),
        Err(DecodeError::Malformed)
    );
    // GOAWAY shorter than 4 bytes
    assert_eq!(decode(&[0, 0, 2, 0, 7, 0, 0, 0, 0, 0, 1]), Err(DecodeError::Malformed));
}

#[test]
fn unknown_type_is_malformed() {
    assert_eq!(decode(&[0, 0, 0, 0, 0xAA, 0, 0, 0, 1]), Err(DecodeError::Malformed));
}

#[test]
fn short_input_is_incomplete() {
    assert_eq!(decode(&[]), Err(DecodeError::Incomplete));
    assert_eq!(decode(&[0, 0, 4, 0, 0, 0, 0, 0]), Err(DecodeError::Incomplete));
    assert_eq!(decode(&[0, 0, 4, 0, 0, 0, 0, 0, 1, 1, 2]), Err(DecodeError::Incomplete));
}

#[test]
fn error_codes_round_trip() {
    for c in 0u32..20 {
        assert_eq!(ErrorCode::from_code(c).code(), c);
    }
    assert_eq!(ErrorCode::from_code(0x0A), ErrorCode::StreamsExhausted);
    assert_eq!(ErrorCode::from_code(0x99), ErrorCode::Unknown(0x99));
    assert_eq!(ErrorCode::SessionClosed.code(), 0x0B);
}
