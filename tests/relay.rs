use std::sync::Arc;

use uki::args::{Commands, CustomHandshake};
use uki::cipher::Cipher;
use uki::copy::{CopyBuffer, CopyStep, WriteZero};
use uki::handler::{
    first_packet, handshake_plan, new_slot, plan, read_mode, relay_step, DialKind,
    ListenKind, Protocol, RelayAction, RelayEnd, RelayEvent, Side,
};
use uki::stream::Mode;

/// Reads `data` from `from` into `buf` through the relay and writes what it
/// asks for to the other side, `chunk` bytes at a time; returns what arrived.
fn carry(
    role: Commands,
    cipher: &Option<Arc<Cipher>>,
    from: Side,
    data: &[u8],
    chunk: usize,
) -> Vec<u8> {
    let mut buf = new_slot(64);
    let mut cb = CopyBuffer::new(&buf);
    cb.begin_read();
    buf[..data.len()].copy_from_slice(data);
    let n = data.len();
    let mut action = relay_step(role, cipher, RelayEvent::Read { from, n }, &mut cb, &mut buf);
    let mut out = Vec::new();
    while let RelayAction::Write(to) = action {
        assert_eq!(to, from.other());
        let pending = cb.pending(&buf);
        let k = pending.len().min(chunk);
        out.extend_from_slice(&pending[..k]);
        action = relay_step(role, cipher, RelayEvent::Wrote { to, n: k }, &mut cb, &mut buf);
    }
    assert_eq!(action, RelayAction::Read);
    assert_eq!(cb.step(), CopyStep::Read);
    out
}

#[test]
fn tcp_without_cipher_relays_ping_and_pong() {
    let none: Option<Arc<Cipher>> = None;
    assert_eq!(carry(Commands::Client, &none, Side::Peer, b"ping", 64), b"ping".to_vec());
    assert_eq!(carry(Commands::Client, &none, Side::Remote, b"pong", 64), b"pong".to_vec());
    let p = plan(Protocol::Tcp, Commands::Client);
    assert_eq!(p.listen, ListenKind::Tcp);
    assert_eq!(p.dial, DialKind::Tcp);
}

#[test]
fn xor_tunnel_restores_ab() {
    let key = Some(Arc::new(Cipher::try_from("xor:k").unwrap()));
    let wire = carry(Commands::Client, &key, Side::Peer, b"AB", 64);
    assert_eq!(wire, vec![0x41 ^ 0x6b, 0x42 ^ 0x6b]);
    let back = carry(Commands::Server, &key, Side::Peer, &wire, 64);
    assert_eq!(back, b"AB".to_vec());
}

#[test]
fn write_all_in_small_pieces_delivers_in_order() {
    let none: Option<Arc<Cipher>> = None;
    let data: Vec<u8> = (1u8..=40).collect();
    assert_eq!(carry(Commands::Server, &none, Side::Remote, &data, 3), data);
    assert_eq!(carry(Commands::Server, &none, Side::Remote, &data, 1), data);
}

#[test]
fn empty_read_ends_the_connection() {
    let none: Option<Arc<Cipher>> = None;
    for from in [Side::Peer, Side::Remote] {
        let mut buf = new_slot(8);
        let mut cb = CopyBuffer::new(&buf);
        cb.begin_read();
        let r = relay_step(Commands::Client, &none, RelayEvent::Read { from, n: 0 }, &mut cb, &mut buf);
        assert_eq!(r, RelayAction::Stop(RelayEnd::Closed(from)));
        assert_eq!(cb.step(), CopyStep::Done);
    }
}

#[test]
fn write_of_no_byte_ends_the_connection() {
    let none: Option<Arc<Cipher>> = None;
    let mut buf = new_slot(8);
    let mut cb = CopyBuffer::new(&buf);
    cb.begin_read();
    let r = relay_step(Commands::Client, &none, RelayEvent::Read { from: Side::Peer, n: 4 }, &mut cb, &mut buf);
    assert_eq!(r, RelayAction::Write(Side::Remote));
    let r = relay_step(Commands::Client, &none, RelayEvent::Wrote { to: Side::Remote, n: 0 }, &mut cb, &mut buf);
    assert_eq!(r, RelayAction::Stop(RelayEnd::WriteZero(Side::Remote)));
}

#[test]
fn failures_and_deadline_end_the_connection() {
    let none: Option<Arc<Cipher>> = None;
    let mut buf = new_slot(4);
    let mut cb = CopyBuffer::new(&buf);
    let mut step = |ev| relay_step(Commands::Server, &none, ev, &mut cb, &mut buf);
    assert_eq!(step(RelayEvent::ReadFailed(Side::Remote)), RelayAction::Stop(RelayEnd::ReadFailed(Side::Remote)));
    assert_eq!(step(RelayEvent::WriteFailed(Side::Peer)), RelayAction::Stop(RelayEnd::WriteFailed(Side::Peer)));
    assert_eq!(step(RelayEvent::DeadlineElapsed), RelayAction::Stop(RelayEnd::DeadlineExceeded));
}

#[test]
fn first_datagram_is_relayed_once() {
    let key = Some(Arc::new(Cipher::Xor(vec![0x01])));
    let mut buf = new_slot(16);
    let mut cb = CopyBuffer::new(&buf);
    buf[..3].copy_from_slice(b"abc");
    let r = first_packet(Commands::Client, &key, &mut cb, &mut buf, 3);
    assert_eq!(r, RelayAction::Write(Side::Remote));
    assert_eq!(cb.pending(&buf), &[b'a' ^ 1, b'b' ^ 1, b'c' ^ 1]);
    let r = relay_step(Commands::Client, &key, RelayEvent::Wrote { to: Side::Remote, n: 3 }, &mut cb, &mut buf);
    assert_eq!(r, RelayAction::Read);
    assert_eq!(cb.pending(&buf).len(), 0);
    assert_eq!(cb.amount(), 3);
}

#[test]
fn server_decrypts_first_datagram() {
    let key = Some(Arc::new(Cipher::Xor(vec![0x6b])));
    let mut buf = new_slot(4);
    let mut cb = CopyBuffer::new(&buf);
    buf[..2].copy_from_slice(&[0x41 ^ 0x6b, 0x42 ^ 0x6b]);
    assert_eq!(first_packet(Commands::Server, &key, &mut cb, &mut buf, 2), RelayAction::Write(Side::Remote));
    assert_eq!(cb.pending(&buf), b"AB");
}

#[test]
fn empty_first_datagram_leaves_nothing_to_write() {
    let none: Option<Arc<Cipher>> = None;
    let mut buf = new_slot(4);
    let mut cb = CopyBuffer::new(&buf);
    assert_eq!(first_packet(Commands::Client, &none, &mut cb, &mut buf, 0), RelayAction::Read);
    assert_eq!(cb.step(), CopyStep::Read);
}

#[test]
fn handshake_exchanges_the_configured_bytes() {
    let hs = CustomHandshake {
        request: b"GET / HTTP/1.1\r\n".to_vec().into_boxed_slice(),
        response: b"HTTP/1.1 200 OK".to_vec().into_boxed_slice(),
    };
    let client = handshake_plan(Commands::Client, &hs);
    let server = handshake_plan(Commands::Server, &hs);
    assert_eq!(client.side, Side::Remote);
    assert!(client.write_first);
    assert_eq!(client.write[..], hs.request[..]);
    assert_eq!(client.read_len, hs.response.len());
    assert_eq!(server.side, Side::Peer);
    assert!(!server.write_first);
    assert_eq!(server.write[..], hs.response[..]);
    assert_eq!(server.read_len, hs.request.len());
}

#[test]
fn protocol_names() {
    assert_eq!(Protocol::parse("udp"), Some(Protocol::Udp));
    assert_eq!(Protocol::parse("tcp"), Some(Protocol::Tcp));
    assert_eq!(Protocol::parse("uot"), Some(Protocol::Uot));
    assert_eq!(Protocol::parse("UDP"), None);
    assert_eq!(Protocol::parse(""), None);
}

#[test]
fn dispatch_table() {
    let udp = plan(Protocol::Udp, Commands::Server);
    assert_eq!((udp.listen, udp.dial, udp.peer_framed, udp.remote_framed), (ListenKind::Udp, DialKind::Udp, false, false));
    let c = plan(Protocol::Uot, Commands::Client);
    assert_eq!((c.listen, c.dial, c.peer_framed, c.remote_framed), (ListenKind::Udp, DialKind::Tcp, false, true));
    let s = plan(Protocol::Uot, Commands::Server);
    assert_eq!((s.listen, s.dial, s.peer_framed, s.remote_framed), (ListenKind::Tcp, DialKind::Udp, true, false));
}

#[test]
fn read_modes_by_role() {
    assert_eq!(read_mode(Commands::Client, Side::Peer), Mode::Encrypt);
    assert_eq!(read_mode(Commands::Client, Side::Remote), Mode::Decrypt);
    assert_eq!(read_mode(Commands::Server, Side::Peer), Mode::Decrypt);
    assert_eq!(read_mode(Commands::Server, Side::Remote), Mode::Encrypt);
}

#[test]
fn slots_are_zeroed_and_distinct() {
    let mut a = new_slot(4096);
    let b = new_slot(4096);
    assert_eq!(a.len(), 4096);
    assert!(a.iter().all(|&x| x == 0));
    a[0] = 9;
    assert_eq!(b[0], 0);
}

#[test]
fn copy_buffer_counts_bytes() {
    let buf = new_slot(8);
    let mut cb = CopyBuffer::new(&buf);
    assert_eq!(cb.step(), CopyStep::Read);
    cb.begin_read();
    cb.on_read(&buf, 5);
    assert_eq!(cb.step(), CopyStep::Write);
    assert_eq!(cb.on_written(&buf, 2), Ok(()));
    assert_eq!(cb.pending(&buf).len(), 3);
    assert_eq!(cb.on_written(&buf, 0), Err(WriteZero));
    assert_eq!(cb.on_written(&buf, 3), Ok(()));
    assert_eq!(cb.amount(), 5);
    assert_eq!(cb.step(), CopyStep::Read);
}

#[test]
fn write_claiming_too_much_ends_the_connection() {
    let none: Option<Arc<Cipher>> = None;
    let mut buf = new_slot(8);
    let mut cb = CopyBuffer::new(&buf);
    cb.begin_read();
    let r = relay_step(Commands::Server, &none, RelayEvent::Read { from: Side::Remote, n: 3 }, &mut cb, &mut buf);
    assert_eq!(r, RelayAction::Write(Side::Peer));
    assert_eq!(cb.remaining(), 3);
    let r = relay_step(Commands::Server, &none, RelayEvent::Wrote { to: Side::Peer, n: 4 }, &mut cb, &mut buf);
    assert_eq!(r, RelayAction::Stop(RelayEnd::WriteOverrun(Side::Peer)));
    assert_eq!(cb.remaining(), 3);
}

#[test]
fn stream_of_fills_arrives_whole_and_counted() {
    let none: Option<Arc<Cipher>> = None;
    let fills: [&[u8]; 3] = [b"first", b"second chunk", b"3"];
    let mut buf = new_slot(16);
    let mut cb = CopyBuffer::new(&buf);
    let mut out = Vec::new();
    for (k, fill) in fills.iter().enumerate() {
        assert_eq!(cb.step(), CopyStep::Read);
        cb.begin_read();
        buf[..fill.len()].copy_from_slice(fill);
        let ev = RelayEvent::Read { from: Side::Peer, n: fill.len() };
        let mut action = relay_step(Commands::Client, &none, ev, &mut cb, &mut buf);
        while let RelayAction::Write(to) = action {
            let pending = cb.pending(&buf);
            let piece = pending.len().min(k + 2);
            out.extend_from_slice(&pending[..piece]);
            let ev = RelayEvent::Wrote { to, n: piece };
            action = relay_step(Commands::Client, &none, ev, &mut cb, &mut buf);
        }
        assert_eq!(action, RelayAction::Read);
    }
    cb.begin_read();
    let end = relay_step(Commands::Client, &none, RelayEvent::Read { from: Side::Peer, n: 0 }, &mut cb, &mut buf);
    assert_eq!(end, RelayAction::Stop(RelayEnd::Closed(Side::Peer)));
    assert_eq!(cb.step(), CopyStep::Done);
    assert_eq!(out, b"firstsecond chunk3".to_vec());
    assert_eq!(cb.amount(), 18);
}
