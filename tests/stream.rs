use muxado::error::ErrorCode;
use muxado::frame::{Body, Frame};
use muxado::stream::{ReadOutcome, StreamState, WriteOutcome};

fn data(id: u32, fin: bool, d: &[u8]) -> Frame {
    Frame { stream_id: id, syn: false, fin, body: Body::Data(d.to_vec()) }
}

#[test]
fn writes_use_the_window() {
    let mut s = StreamState::new(1, 10);
    match s.write(b"hello").unwrap() {
        WriteOutcome::Sent(n, f) => {
            assert_eq!(n, 5);
            assert!(!f.syn);
            assert!(!f.fin);
            assert_eq!(f.body, Body::Data(b"hello".to_vec()));
        }
        WriteOutcome::Blocked => panic!("blocked"),
    }
    assert_eq!(s.send_window(), 5);
    match s.write(b"world!!").unwrap() {
        WriteOutcome::Sent(n, f) => {
            assert_eq!(n, 5);
            assert!(!f.syn);
            assert_eq!(f.body, Body::Data(b"world".to_vec()));
        }
        WriteOutcome::Blocked => panic!("blocked"),
    }
    assert_eq!(s.send_window(), 0);
    assert!(matches!(s.write(b"!").unwrap(), WriteOutcome::Blocked));
    s.receive(&Frame { stream_id: 1, syn: false, fin: false, body: Body::WndInc(4) }).unwrap();
    assert_eq!(s.send_window(), 4);
}

#[test]
fn writes_never_carry_syn() {
    let mut s = StreamState::new(2, 10);
    match s.write(b"x").unwrap() {
        WriteOutcome::Sent(_, f) => assert!(!f.syn),
        WriteOutcome::Blocked => panic!("blocked"),
    }
}

#[test]
fn grant_beyond_window_is_flow_control_error() {
    let mut s = StreamState::new(1, 10);
    let r = s.receive(&Frame { stream_id: 1, syn: false, fin: false, body: Body::WndInc(1) });
    assert_eq!(r, Err(ErrorCode::FlowControl));
    assert_eq!(s.send_window(), 10);
}

#[test]
fn data_beyond_window_is_flow_control_error() {
    let mut s = StreamState::new(1, 4);
    assert_eq!(s.receive(&data(1, false, b"12345")), Err(ErrorCode::FlowControl));
    assert_eq!(s.buffered(), 0);
}

#[test]
fn reads_come_in_order_and_grant_at_half_window() {
    let mut s = StreamState::new(1, 8);
    s.receive(&data(1, false, b"abc")).unwrap();
    s.receive(&data(1, false, b"defg")).unwrap();
    match s.read(2).unwrap() {
        ReadOutcome::Data(d, g) => {
            assert_eq!(d, b"ab".to_vec());
            assert!(g.is_none());
        }
        other => panic!("{:?}", other),
    }
    match s.read(100).unwrap() {
        ReadOutcome::Data(d, g) => {
            assert_eq!(d, b"cdefg".to_vec());
            let g = g.expect("grant");
            assert_eq!(g.body, Body::WndInc(7));
            assert_eq!(g.stream_id, 1);
        }
        other => panic!("{:?}", other),
    }
    assert!(matches!(s.read(1).unwrap(), ReadOutcome::Blocked));
}

#[test]
fn close_write_twice_is_once() {
    let mut s = StreamState::new(3, 16);
    let f = s.close_write().expect("fin");
    assert!(f.fin && !f.syn);
    assert_eq!(f.body, Body::Data(Vec::new()));
    assert!(s.close_write().is_none());
    assert!(s.local_closed());
    assert_eq!(s.write(b"x").unwrap_err(), ErrorCode::StreamClosed);
}

#[test]
fn reset_twice_is_once() {
    let mut s = StreamState::new(3, 16);
    let f = s.reset(ErrorCode::Cancel).expect("rst");
    assert_eq!(f.body, Body::Rst(7));
    assert!(s.reset(ErrorCode::Internal).is_none());
    assert_eq!(s.error(), Some(ErrorCode::Cancel));
    assert_eq!(s.read(4).unwrap_err(), ErrorCode::Cancel);
    assert_eq!(s.write(b"x").unwrap_err(), ErrorCode::Cancel);
    assert!(s.is_gone());
}

#[test]
fn empty_fin_gives_eof_and_keeps_buffer() {
    let mut s = StreamState::new(1, 16);
    s.receive(&data(1, false, b"tail")).unwrap();
    s.receive(&data(1, true, b"")).unwrap();
    assert!(s.remote_closed());
    assert_eq!(s.buffered(), 4);
    match s.read(16).unwrap() {
        ReadOutcome::Data(d, _) => assert_eq!(d, b"tail".to_vec()),
        other => panic!("{:?}", other),
    }
    assert!(matches!(s.read(16).unwrap(), ReadOutcome::Eof));
}

#[test]
fn data_after_fin_is_protocol_error() {
    let mut s = StreamState::new(1, 16);
    s.receive(&data(1, true, b"")).unwrap();
    assert_eq!(s.receive(&data(1, false, b"late")), Err(ErrorCode::Protocol));
}

#[test]
fn peer_reset_latches_code() {
    let mut s = StreamState::new(1, 16);
    s.receive(&Frame { stream_id: 1, syn: false, fin: false, body: Body::Rst(7) }).unwrap();
    assert_eq!(s.read(1).unwrap_err(), ErrorCode::Cancel);
    assert!(s.is_gone());
}

#[test]
fn full_window_write_reassembles_and_grants() {
    let w: u32 = 1024;
    let payload: Vec<u8> = (0..w).map(|i| (i % 251) as u8).collect();
    let mut a = StreamState::new(1, w);
    let mut b = StreamState::new(1, w);
    let f = match a.write(&payload).unwrap() {
        WriteOutcome::Sent(n, f) => {
            assert_eq!(n, w as usize);
            f
        }
        WriteOutcome::Blocked => panic!("blocked"),
    };
    b.receive(&f).unwrap();
    match b.read(w as usize).unwrap() {
        ReadOutcome::Data(d, g) => {
            assert_eq!(d, payload);
            assert_eq!(g.expect("grant").body, Body::WndInc(w));
        }
        other => panic!("{:?}", other),
    }
}
