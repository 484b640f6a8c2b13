use muxado::error::ErrorCode;
use muxado::frame::{decode, encode, Body, DecodeError, Frame};
use muxado::scheduler::{ends_session, writer_step, SendQueue, WriterAction};
use muxado::session::{SessionBuilder, SessionCore};
use muxado::stream::{ReadOutcome, WriteOutcome};

fn wire(f: &Frame) -> Frame {
    let bytes = encode(f).unwrap();
    let (g, n) = decode(&bytes).unwrap();
    assert_eq!(n, bytes.len());
    g
}

/// Hands frames to a session as its reader would; returns what it sends
/// back and the streams it accepted.
fn deliver_all(to: &mut SessionCore, frames: Vec<Frame>) -> (Vec<Frame>, Vec<u32>) {
    let mut back = Vec::new();
    let mut accepted = Vec::new();
    for f in frames {
        let step = to.handle_frame(&wire(&f));
        back.extend(step.send);
        if let Some(id) = step.accepted {
            accepted.push(id);
        }
    }
    (back, accepted)
}

fn sent(r: Result<WriteOutcome, ErrorCode>) -> (usize, Frame) {
    match r.unwrap() {
        WriteOutcome::Sent(n, f) => (n, f),
        WriteOutcome::Blocked => panic!("blocked"),
    }
}

fn read_to_end(s: &mut SessionCore, id: u32) -> (Vec<u8>, Vec<Frame>) {
    let mut out = Vec::new();
    let mut grants = Vec::new();
    loop {
        match s.manager.read(id, 1024).unwrap() {
            ReadOutcome::Data(d, g) => {
                out.extend(d);
                grants.extend(g);
            }
            ReadOutcome::Eof => return (out, grants),
            ReadOutcome::Blocked => panic!("blocked before end of stream"),
        }
    }
}

fn pair() -> (SessionCore, SessionCore) {
    let client = SessionBuilder::new().client().initial_state().unwrap();
    let server = SessionBuilder::new().server().initial_state().unwrap();
    (client, server)
}

#[test]
fn test_session() {
    let (mut client, mut server) = pair();
    let (id, syn) = client.open().expect("open stream");
    let (_, f1) = sent(client.manager.write(id, b"Hello, world!"));
    let fin = client.manager.release(id).expect("fin");
    let (_, acc) = deliver_all(&mut server, vec![syn, f1, fin]);
    let (buf, _) = read_to_end(&mut server, acc[0]);
    server.manager.release(acc[0]);
    let (sid, syn2) = server.open().expect("open stream");
    let (_, f2) = sent(server.manager.write(sid, &buf));
    let fin2 = server.manager.release(sid).expect("fin");
    let (_, acc2) = deliver_all(&mut client, vec![syn2, f2, fin2]);
    let (got, _) = read_to_end(&mut client, acc2[0]);
    assert_eq!(b"Hello, world!", &*got);
}

#[test]
fn echo_scenario_ends_with_no_live_streams() {
    let (mut client, mut server) = pair();
    let (id, syn) = client.open().unwrap();
    assert_eq!(id, 1);
    assert!(syn.syn);
    assert_eq!(syn.body, Body::Data(Vec::new()));
    let (n, f1) = sent(client.manager.write(id, b"Hello, world!"));
    assert_eq!(n, 13);
    assert!(!f1.syn);
    let fin = client.manager.close_write(id).unwrap().unwrap();
    let (back, acc) = deliver_all(&mut server, vec![syn, f1, fin]);
    assert!(back.is_empty());
    assert_eq!(acc, vec![1]);
    let (buf, _) = read_to_end(&mut server, 1);
    assert_eq!(buf, b"Hello, world!".to_vec());

    let (sid, syn2) = server.open().unwrap();
    assert_eq!(sid, 2);
    let (_, f2) = sent(server.manager.write(sid, &buf));
    let fin2 = server.manager.close_write(sid).unwrap().unwrap();
    let fin1 = server.manager.close_write(1).unwrap().unwrap();
    let (back, acc) = deliver_all(&mut client, vec![syn2, f2, fin2, fin1]);
    assert!(back.is_empty());
    assert_eq!(acc, vec![2]);
    let (got, _) = read_to_end(&mut client, 2);
    assert_eq!(got, b"Hello, world!".to_vec());
    let fin3 = client.manager.close_write(2).unwrap().unwrap();
    let (back, _) = deliver_all(&mut server, vec![fin3]);
    assert!(back.is_empty());

    assert_eq!(client.manager.live_count(), 0);
    assert_eq!(server.manager.live_count(), 0);
    assert!(client.manager.release(1).is_none());
    assert!(client.manager.release(2).is_none());
}

#[test]
fn window_stall_grants_exactly_once_after_half() {
    let kib = 1024usize;
    let mut client = SessionBuilder::new().client().window_size(64 * kib).initial_state().unwrap();
    let mut server = SessionBuilder::new().server().window_size(64 * kib).initial_state().unwrap();
    let payload: Vec<u8> = (0..128 * kib).map(|i| (i % 253) as u8).collect();
    let (id, syn) = client.open().unwrap();
    let (n, f) = sent(client.manager.write(id, &payload));
    assert_eq!(n, 64 * kib);
    assert!(matches!(client.manager.write(id, &payload[n..]).unwrap(), WriteOutcome::Blocked));
    deliver_all(&mut server, vec![syn, f]);

    let mut received = Vec::new();
    let mut grants = Vec::new();
    while received.len() < 32 * kib {
        match server.manager.read(id, 32 * kib - received.len()).unwrap() {
            ReadOutcome::Data(d, g) => {
                received.extend(d);
                grants.extend(g);
            }
            other => panic!("{:?}", other),
        }
    }
    assert_eq!(grants.len(), 1);
    assert_eq!(grants[0].body, Body::WndInc(32 * 1024));

    let mut offset = n;
    let mut pending = grants;
    while received.len() < payload.len() {
        let (back, _) = deliver_all(&mut client, std::mem::take(&mut pending));
        assert!(back.is_empty());
        let mut to_server = Vec::new();
        while offset < payload.len() {
            match client.manager.write(id, &payload[offset..]).unwrap() {
                WriteOutcome::Sent(k, f) => {
                    offset += k;
                    to_server.push(f);
                }
                WriteOutcome::Blocked => break,
            }
        }
        deliver_all(&mut server, to_server);
        loop {
            match server.manager.read(id, 4096).unwrap() {
                ReadOutcome::Data(d, g) => {
                    received.extend(d);
                    pending.extend(g);
                }
                ReadOutcome::Blocked => break,
                ReadOutcome::Eof => panic!("early end"),
            }
        }
    }
    assert_eq!(received, payload);
}

#[test]
fn peer_goaway_closes_everything() {
    let (mut client, mut server) = pair();
    let (a, sa) = client.open().unwrap();
    let (b, sb) = client.open().unwrap();
    let (_, fb) = sent(client.manager.write(b, b"two"));
    let (_, fa) = sent(client.manager.write(a, b"one"));
    let (_, acc) = deliver_all(&mut server, vec![sa, sb, fb, fa]);
    assert_eq!(acc, vec![1, 3]);

    let g = server.go_away(ErrorCode::NoError, b"bye".to_vec());
    assert_eq!(g.body, Body::GoAway(0, b"bye".to_vec()));
    // The last frame the server took was stream 1's data.
    assert_eq!(g.stream_id, 1);
    let step = client.handle_frame(&wire(&g));
    assert!(step.done);
    assert!(step.accepted.is_none());
    assert!(client.is_closed());
    assert_eq!(client.manager.session_error(), Some(ErrorCode::NoError));

    assert_eq!(client.manager.read(a, 10).unwrap_err(), ErrorCode::SessionClosed);
    assert_eq!(client.manager.write(b, b"x").unwrap_err(), ErrorCode::SessionClosed);
    assert_eq!(client.open().unwrap_err(), ErrorCode::SessionClosed);
    assert_eq!(client.manager.live_count(), 0);

    // Nothing is accepted once the session went away.
    let syn = Frame { stream_id: 2, syn: true, fin: false, body: Body::Data(Vec::new()) };
    let step = client.handle_frame(&syn);
    assert!(step.done);
    assert!(step.accepted.is_none());
}

#[test]
fn stream_limit_refuses_fifth_stream() {
    let mut client = SessionBuilder::new().client().initial_state().unwrap();
    let mut server = SessionBuilder::new().server().stream_limit(4).initial_state().unwrap();
    let mut ids = Vec::new();
    let mut frames = Vec::new();
    for _ in 0..5 {
        let (id, syn) = client.open().unwrap();
        let (_, f) = sent(client.manager.write(id, b"x"));
        ids.push(id);
        frames.push(syn);
        frames.push(f);
    }
    assert_eq!(ids, vec![1, 3, 5, 7, 9]);
    let (back, acc) = deliver_all(&mut server, frames);
    assert_eq!(acc, vec![1, 3, 5, 7]);
    // The SYN is refused; the data after it finds no stream.
    assert_eq!(back.len(), 2);
    assert_eq!(back[0].stream_id, 9);
    assert_eq!(back[0].body, Body::Rst(ErrorCode::StreamRefused.code()));
    assert_eq!(back[1].stream_id, 9);
    assert_eq!(back[1].body, Body::Rst(ErrorCode::StreamClosed.code()));
    assert_eq!(server.manager.live_count(), 4);

    let (back2, _) = deliver_all(&mut client, vec![back[0].clone()]);
    assert!(back2.is_empty());
    assert_eq!(client.manager.write(9, b"y").unwrap_err(), ErrorCode::StreamRefused);
    for id in [1u32, 3, 5, 7] {
        let (_, f) = sent(client.manager.write(id, b"more"));
        deliver_all(&mut server, vec![f]);
        match server.manager.read(id, 16).unwrap() {
            ReadOutcome::Data(d, _) => assert_eq!(d, b"xmore".to_vec()),
            other => panic!("{:?}", other),
        }
    }
}

#[test]
fn local_open_at_limit_is_exhausted() {
    let mut s = SessionBuilder::new().server().stream_limit(1).initial_state().unwrap();
    assert_eq!(s.open().unwrap().0, 2);
    assert_eq!(s.open().unwrap_err(), ErrorCode::StreamsExhausted);
    s.manager.reset(2, ErrorCode::Cancel).unwrap();
    assert_eq!(s.open().unwrap().0, 4);
}

#[test]
fn malformed_frame_sends_goaway() {
    let (_, mut server) = pair();
    let bytes = [0u8, 0, 0, 0, 0xAA, 0, 0, 0, 1];
    assert_eq!(decode(&bytes), Err(DecodeError::Malformed));
    let step = server.handle_malformed();
    assert!(step.done);
    assert!(server.is_closed());
    assert_eq!(step.send.len(), 1);
    assert_eq!(step.send[0].body, Body::GoAway(1, b"invalid frame".to_vec()));
    assert_eq!(step.send[0].stream_id, 0);
    assert_eq!(server.open().unwrap_err(), ErrorCode::SessionClosed);
}

#[test]
fn unknown_stream_gets_rst_and_no_state() {
    let (_, mut server) = pair();
    let f = Frame { stream_id: 99, syn: false, fin: false, body: Body::Data(b"?".to_vec()) };
    let step = server.handle_frame(&f);
    assert!(!step.done);
    assert_eq!(step.send.len(), 1);
    assert_eq!(step.send[0].stream_id, 99);
    assert_eq!(step.send[0].body, Body::Rst(ErrorCode::StreamClosed.code()));
    assert_eq!(server.manager.live_count(), 0);
    assert_eq!(server.manager.read(99, 1).unwrap_err(), ErrorCode::StreamClosed);
    // An RST for an unknown stream is answered with an RST too.
    let r = Frame { stream_id: 99, syn: false, fin: false, body: Body::Rst(7) };
    let step = server.handle_frame(&r);
    assert_eq!(step.send.len(), 1);
    assert_eq!(step.send[0].stream_id, 99);
    assert_eq!(step.send[0].body, Body::Rst(ErrorCode::StreamClosed.code()));
    assert_eq!(server.manager.live_count(), 0);
}

#[test]
fn open_then_close_reads_eof() {
    let (mut client, mut server) = pair();
    let (id, syn) = client.open().unwrap();
    let fin = client.manager.close_write(id).unwrap().unwrap();
    assert!(syn.syn && !syn.fin);
    assert!(fin.fin && !fin.syn);
    let (_, acc) = deliver_all(&mut server, vec![syn, fin]);
    assert_eq!(acc, vec![1]);
    assert!(matches!(server.manager.read(1, 10).unwrap(), ReadOutcome::Eof));
    let fin2 = server.manager.release(1).unwrap();
    deliver_all(&mut client, vec![fin2]);
    client.manager.release(id);
    assert_eq!(client.manager.live_count(), 0);
    assert_eq!(server.manager.live_count(), 0);
}

#[test]
fn wrong_parity_syn_tears_down() {
    let (_, mut server) = pair();
    let f = Frame { stream_id: 2, syn: true, fin: false, body: Body::Data(Vec::new()) };
    let step = server.handle_frame(&f);
    assert!(step.done);
    assert_eq!(step.send[0].body, Body::GoAway(1, b"invalid frame".to_vec()));
    assert_eq!(server.manager.session_error(), Some(ErrorCode::Protocol));
}

#[test]
fn repeated_syn_id_tears_down() {
    let (_, mut server) = pair();
    let f = Frame { stream_id: 5, syn: true, fin: false, body: Body::Data(Vec::new()) };
    assert_eq!(server.handle_frame(&f).accepted, Some(5));
    let g = Frame { stream_id: 3, syn: true, fin: false, body: Body::Data(Vec::new()) };
    let step = server.handle_frame(&g);
    assert!(step.done);
    assert_eq!(step.send[0].stream_id, 5);
}

#[test]
fn transport_end_closes_session() {
    let (mut client, _) = pair();
    let (id, _) = client.open().unwrap();
    client.handle_eof();
    assert_eq!(client.manager.read(id, 1).unwrap_err(), ErrorCode::SessionClosed);
    assert_eq!(client.manager.session_error(), Some(ErrorCode::SessionClosed));
}

#[test]
fn builder_defaults() {
    let b = SessionBuilder::new();
    assert_eq!(b.window, 256 * 1024);
    assert_eq!(b.accept_queue_size, 64);
    assert_eq!(b.stream_limit, 512);
    assert!(b.client);
    let c = b.server().accept_queue_size(3).stream_limit(9).window_size(77);
    assert_eq!(c.accept_queue_size, 3);
    assert_eq!(c.stream_limit, 9);
    assert_eq!(c.window, 77);
    assert!(!c.client);
    assert!(SessionBuilder::new().window_size(0).initial_state().is_none());
}

#[test]
fn syn_frames_follow_open_order() {
    let (mut client, mut server) = pair();
    let (a, sa) = client.open().unwrap();
    let (b, sb) = client.open().unwrap();
    assert_eq!((sa.stream_id, sb.stream_id), (1, 3));
    assert!(sa.syn && sb.syn);
    // The second stream is written first; its data still follows both SYNs.
    let (_, fb) = sent(client.manager.write(b, b"b"));
    let (_, fa) = sent(client.manager.write(a, b"a"));
    assert!(!fa.syn && !fb.syn);
    let (back, acc) = deliver_all(&mut server, vec![sa, sb, fb, fa]);
    assert!(back.is_empty());
    assert_eq!(acc, vec![1, 3]);
    assert!(!server.is_closed());
}

#[test]
fn send_queue_serves_streams_in_turn() {
    let data = |id: u32, b: u8| Frame { stream_id: id, syn: false, fin: false, body: Body::Data(vec![b]) };
    let mut q = SendQueue::new();
    assert!(q.is_empty());
    q.push(data(1, 1));
    q.push(data(1, 2));
    q.push(data(1, 3));
    q.push(data(3, 4));
    q.push(data(5, 5));
    let order: Vec<(u32, Body)> = std::iter::from_fn(|| q.pop()).map(|f| (f.stream_id, f.body)).collect();
    assert_eq!(
        order,
        vec![
            (3, Body::Data(vec![4])),
            (5, Body::Data(vec![5])),
            (1, Body::Data(vec![1])),
            (1, Body::Data(vec![2])),
            (1, Body::Data(vec![3])),
        ]
    );
    assert!(q.is_empty());
}

#[test]
fn send_queue_backlog_does_not_starve_others() {
    let data = |id: u32, b: u8| Frame { stream_id: id, syn: false, fin: false, body: Body::Data(vec![b]) };
    let mut q = SendQueue::new();
    for b in 0..10 {
        q.push(data(1, b));
    }
    assert_eq!(q.pop().unwrap().stream_id, 1);
    q.push(data(3, 0));
    // The new stream is served next, ahead of the backlog.
    assert_eq!(q.pop().unwrap().stream_id, 3);
    assert_eq!(q.pop().unwrap().stream_id, 1);
}

#[test]
fn writer_sends_system_frames_first_then_stops_when_closed() {
    let data = Frame { stream_id: 1, syn: false, fin: false, body: Body::Data(vec![1]) };
    let rst = Frame { stream_id: 3, syn: false, fin: false, body: Body::Rst(7) };
    let mut q = SendQueue::new();
    q.push(data.clone());
    match writer_step(Some(rst.clone()), &mut q, false) {
        WriterAction::Send(f) => assert_eq!(f, rst),
        other => panic!("{:?}", other),
    }
    match writer_step(None, &mut q, false) {
        WriterAction::Send(f) => assert_eq!(f, data),
        other => panic!("{:?}", other),
    }
    assert!(matches!(writer_step(None, &mut q, false), WriterAction::Wait));
    assert!(matches!(writer_step(None, &mut q, true), WriterAction::Stop));
    let g = Frame { stream_id: 0, syn: false, fin: false, body: Body::GoAway(0, Vec::new()) };
    assert!(ends_session(&g));
    assert!(!ends_session(&data));
}
