use bbqueue::BBBuffer;
use kernel_transport::drivers::frame::Message;
use kernel_transport::drivers::ring::USB_BUF_SZ;
use kernel_transport::drivers::usb_serial::{
    settle, setup_usb_uart, UsbStatus, UsbUartIsr, UsbUartParts, UsbUartSys,
};

/// Plays the wire: hands `bytes` to the incoming ring as the interrupt
/// handler would.
fn wire_in(isr: &mut UsbUartIsr, bytes: &[u8]) {
    let mut bytes = bytes;
    while !bytes.is_empty() {
        let mut grant = isr.next_input().expect("the incoming ring is full");
        let n = grant.buf().len().min(bytes.len());
        grant.buf()[..n].copy_from_slice(&bytes[..n]);
        assert_eq!(UsbUartIsr::input_done(grant, UsbStatus::Moved(n)), Ok(n));
        bytes = &bytes[n..];
    }
}

/// Plays the wire: takes everything that the outgoing ring holds.
fn wire_out(isr: &mut UsbUartIsr) -> Vec<u8> {
    let mut all = Vec::new();
    while let Some(grant) = isr.next_output() {
        let n = grant.buf().len();
        all.extend_from_slice(grant.buf());
        assert_eq!(UsbUartIsr::output_done(grant, UsbStatus::Moved(n)), Ok(n));
    }
    all
}

/// The frame for `data` on `port`, as it goes over the wire.
fn frame(port: u16, data: &[u8]) -> Vec<u8> {
    let mut buf = vec![0u8; data.len() + data.len() / 254 + 8];
    let used = Message { port, data }.encode_to(&mut buf).unwrap();
    buf.truncate(used);
    buf
}

/// Cuts a stream of frames apart and gives back port and payload of each.
fn frames_of(stream: &[u8]) -> Vec<(u16, Vec<u8>)> {
    let mut out = Vec::new();
    for piece in stream.split(|b| *b == 0) {
        if piece.is_empty() {
            continue;
        }
        let mut piece = piece.to_vec();
        let msg = Message::decode_in_place(&mut piece).unwrap();
        out.push((msg.port, msg.data.to_vec()));
    }
    out
}

fn recv_all(sys: &mut UsbUartSys, port: u16, sizes: &[usize]) -> Vec<u8> {
    let mut all = Vec::new();
    for size in sizes {
        let mut buf = vec![0xEEu8; *size];
        let n = sys.recv(port, &mut buf).unwrap();
        assert!(buf[n..].iter().all(|b| *b == 0xEE));
        all.extend_from_slice(&buf[..n]);
    }
    all
}

#[test]
fn rings_split_once() {
    let inc = BBBuffer::<USB_BUF_SZ>::new();
    let out = BBBuffer::<USB_BUF_SZ>::new();
    assert!(setup_usb_uart(&inc, &out).is_ok());
    assert!(setup_usb_uart(&inc, &out).is_err());
}

#[test]
fn port_lifecycle() {
    let inc = BBBuffer::<USB_BUF_SZ>::new();
    let out = BBBuffer::<USB_BUF_SZ>::new();
    let mut sys = setup_usb_uart(&inc, &out).ok().unwrap().sys;
    assert_eq!(sys.register_port(5), Ok(()));
    assert_eq!(sys.register_port(5), Err(()));
    assert_eq!(sys.release_port(0), Err(()));
    let mut buf = [0u8; 4];
    assert_eq!(sys.recv(9, &mut buf), Err(()));
    assert_eq!(sys.recv_queued(9, &mut buf), Err(()));
    assert_eq!(sys.send(9, b"abc"), Err(&b"abc"[..]));
    assert_eq!(sys.send(9, b""), Err(&b""[..]));
    assert_eq!(sys.release_port(9), Err(()));
    assert_eq!(sys.release_port(5), Ok(()));
    assert_eq!(sys.release_port(5), Err(()));
    assert_eq!(sys.recv(5, &mut buf), Err(()));
    assert_eq!(sys.register_port(5), Ok(()));
    assert_eq!(sys.recv(5, &mut buf), Ok(0));
}

#[test]
fn standard_port_is_open_from_the_start() {
    let inc = BBBuffer::<USB_BUF_SZ>::new();
    let out = BBBuffer::<USB_BUF_SZ>::new();
    let mut sys = setup_usb_uart(&inc, &out).ok().unwrap().sys;
    assert_eq!(sys.register_port(0), Err(()));
    let mut buf = [0u8; 4];
    assert_eq!(sys.recv(0, &mut buf), Ok(0));
    assert_eq!(sys.send(0, b""), Ok(()));
}

#[test]
fn table_takes_eight_ports() {
    let inc = BBBuffer::<USB_BUF_SZ>::new();
    let out = BBBuffer::<USB_BUF_SZ>::new();
    let mut sys = setup_usb_uart(&inc, &out).ok().unwrap().sys;
    for port in 1..8 {
        assert_eq!(sys.register_port(port), Ok(()));
    }
    assert_eq!(sys.register_port(8), Err(()));
    assert_eq!(sys.release_port(3), Ok(()));
    assert_eq!(sys.register_port(8), Ok(()));
    assert_eq!(sys.register_port(3), Err(()));
}

#[test]
fn send_puts_one_frame_on_the_wire() {
    let inc = BBBuffer::<USB_BUF_SZ>::new();
    let out = BBBuffer::<USB_BUF_SZ>::new();
    let mut parts = setup_usb_uart(&inc, &out).ok().unwrap();
    assert_eq!(parts.sys.register_port(5), Ok(()));
    assert_eq!(parts.sys.send(5, b"hi"), Ok(()));
    assert_eq!(wire_out(&mut parts.isr), vec![0x02, 0x05, 0x03, b'h', b'i', 0x00]);
    assert_eq!(parts.sys.send(5, b""), Ok(()));
    assert!(wire_out(&mut parts.isr).is_empty());
}

#[test]
fn recv_gives_what_came_for_the_port() {
    let inc = BBBuffer::<USB_BUF_SZ>::new();
    let out = BBBuffer::<USB_BUF_SZ>::new();
    let mut parts = setup_usb_uart(&inc, &out).ok().unwrap();
    assert_eq!(parts.sys.register_port(5), Ok(()));
    assert_eq!(parts.sys.register_port(6), Ok(()));
    wire_in(&mut parts.isr, &[0x02, 0x05, 0x03, b'h', b'i', 0x00]);
    wire_in(&mut parts.isr, &frame(6, b"other"));
    wire_in(&mut parts.isr, &frame(5, b" there"));
    let mut buf = [0xEEu8; 16];
    assert_eq!(parts.sys.recv(5, &mut buf), Ok(8));
    assert_eq!(&buf[..8], b"hi there");
    assert!(buf[8..].iter().all(|b| *b == 0xEE));
    assert_eq!(parts.sys.recv(5, &mut buf), Ok(0));
    assert_eq!(parts.sys.recv(6, &mut buf), Ok(5));
    assert_eq!(&buf[..5], b"other");
}

#[test]
fn recv_keeps_the_order_for_buffers_of_any_size() {
    let chunks: [&[u8]; 5] = [b"alpha", b"", b"be", b"gamma-delta", b"e"];
    let whole: Vec<u8> = chunks.concat();
    for size in 1..=whole.len() + 1 {
        let inc = BBBuffer::<USB_BUF_SZ>::new();
        let out = BBBuffer::<USB_BUF_SZ>::new();
        let mut parts = setup_usb_uart(&inc, &out).ok().unwrap();
        assert_eq!(parts.sys.register_port(7), Ok(()));
        for chunk in chunks {
            wire_in(&mut parts.isr, &frame(7, chunk));
        }
        let sizes = vec![size; whole.len()];
        assert_eq!(recv_all(&mut parts.sys, 7, &sizes), whole);
        let mut buf = [0u8; 4];
        assert_eq!(parts.sys.recv(7, &mut buf), Ok(0));
    }
}

#[test]
fn recv_with_mixed_buffer_sizes() {
    let inc = BBBuffer::<USB_BUF_SZ>::new();
    let out = BBBuffer::<USB_BUF_SZ>::new();
    let mut parts = setup_usb_uart(&inc, &out).ok().unwrap();
    assert_eq!(parts.sys.register_port(7), Ok(()));
    wire_in(&mut parts.isr, &frame(7, b"0123456789"));
    wire_in(&mut parts.isr, &frame(7, b"abcdef"));
    let mut buf = [0u8; 3];
    assert_eq!(parts.sys.recv(7, &mut buf), Ok(3));
    assert_eq!(&buf, b"012");
    let mut none: [u8; 0] = [];
    assert_eq!(parts.sys.recv(7, &mut none), Ok(0));
    let mut buf = [0u8; 9];
    assert_eq!(parts.sys.recv(7, &mut buf), Ok(9));
    assert_eq!(&buf, b"3456789ab");
    wire_in(&mut parts.isr, &frame(7, b"XY"));
    let mut buf = [0u8; 32];
    assert_eq!(parts.sys.recv(7, &mut buf), Ok(6));
    assert_eq!(&buf[..6], b"cdefXY");
}

#[test]
fn frame_may_arrive_in_pieces() {
    let inc = BBBuffer::<USB_BUF_SZ>::new();
    let out = BBBuffer::<USB_BUF_SZ>::new();
    let mut parts = setup_usb_uart(&inc, &out).ok().unwrap();
    assert_eq!(parts.sys.register_port(5), Ok(()));
    let bytes = frame(5, b"piecewise");
    let mut buf = [0u8; 32];
    for byte in &bytes[..bytes.len() - 1] {
        wire_in(&mut parts.isr, &[*byte]);
        assert_eq!(parts.sys.recv(5, &mut buf), Ok(0));
    }
    wire_in(&mut parts.isr, &bytes[bytes.len() - 1..]);
    assert_eq!(parts.sys.recv(5, &mut buf), Ok(9));
    assert_eq!(&buf[..9], b"piecewise");
}

#[test]
fn ingest_and_enqueue_feed_the_queues_directly() {
    let inc = BBBuffer::<USB_BUF_SZ>::new();
    let out = BBBuffer::<USB_BUF_SZ>::new();
    let mut sys = setup_usb_uart(&inc, &out).ok().unwrap().sys;
    assert_eq!(sys.register_port(5), Ok(()));
    let mut stream = frame(5, b"one");
    stream.extend_from_slice(&frame(5, b"two"));
    stream.extend_from_slice(&frame(4, b"lost"));
    sys.ingest(&stream);
    assert!(sys.enqueue(5, b"three".to_vec()));
    assert!(!sys.enqueue(4, b"lost".to_vec()));
    let mut buf = [0u8; 32];
    assert_eq!(sys.recv_queued(5, &mut buf), Ok(11));
    assert_eq!(&buf[..11], b"onetwothree");
}

#[test]
fn what_comes_for_the_standard_port_is_sent_back() {
    let inc = BBBuffer::<USB_BUF_SZ>::new();
    let out = BBBuffer::<USB_BUF_SZ>::new();
    let mut parts = setup_usb_uart(&inc, &out).ok().unwrap();
    assert_eq!(parts.sys.register_port(5), Ok(()));
    wire_in(&mut parts.isr, &frame(0, b"ping"));
    wire_in(&mut parts.isr, &frame(5, b"quiet"));
    parts.sys.process();
    assert_eq!(wire_out(&mut parts.isr), frame(0, b"ping"));
    let mut buf = [0u8; 8];
    assert_eq!(parts.sys.recv(0, &mut buf), Ok(4));
    assert_eq!(&buf[..4], b"ping");
}

#[test]
fn bad_and_unaddressed_frames_are_dropped() {
    let inc = BBBuffer::<USB_BUF_SZ>::new();
    let out = BBBuffer::<USB_BUF_SZ>::new();
    let mut parts = setup_usb_uart(&inc, &out).ok().unwrap();
    assert_eq!(parts.sys.register_port(5), Ok(()));
    wire_in(&mut parts.isr, &[0x09, 0x01, 0x00]);
    wire_in(&mut parts.isr, &frame(9, b"nobody"));
    wire_in(&mut parts.isr, &[0x02, 0x05, 0x00]);
    wire_in(&mut parts.isr, &frame(5, b"ok"));
    let mut buf = [0u8; 8];
    assert_eq!(parts.sys.recv(5, &mut buf), Ok(2));
    assert_eq!(&buf[..2], b"ok");
    assert_eq!(parts.sys.recv(0, &mut buf), Ok(0));
}

#[test]
fn oversize_frame_is_dropped_and_the_link_goes_on() {
    let inc = BBBuffer::<USB_BUF_SZ>::new();
    let out = BBBuffer::<USB_BUF_SZ>::new();
    let mut parts = setup_usb_uart(&inc, &out).ok().unwrap();
    assert_eq!(parts.sys.register_port(5), Ok(()));
    let big = vec![b'x'; 1100];
    wire_in(&mut parts.isr, &frame(5, &big));
    wire_in(&mut parts.isr, &frame(5, b"after"));
    let mut buf = [0u8; 2048];
    assert_eq!(parts.sys.recv(5, &mut buf), Ok(5));
    assert_eq!(&buf[..5], b"after");
}

#[test]
fn full_queue_drops_what_comes_next() {
    let inc = BBBuffer::<USB_BUF_SZ>::new();
    let out = BBBuffer::<USB_BUF_SZ>::new();
    let mut parts = setup_usb_uart(&inc, &out).ok().unwrap();
    assert_eq!(parts.sys.register_port(5), Ok(()));
    for i in 0..20u8 {
        wire_in(&mut parts.isr, &frame(5, &[b'a' + i]));
    }
    parts.sys.process();
    let mut buf = [0u8; 64];
    assert_eq!(parts.sys.recv(5, &mut buf), Ok(16));
    assert_eq!(&buf[..16], b"abcdefghijklmnop");
    wire_in(&mut parts.isr, &frame(5, b"z"));
    assert_eq!(parts.sys.recv(5, &mut buf), Ok(1));
    assert_eq!(&buf[..1], b"z");
}

#[test]
fn send_hands_back_what_the_ring_does_not_take() {
    let inc = BBBuffer::<USB_BUF_SZ>::new();
    let out = BBBuffer::<USB_BUF_SZ>::new();
    let mut parts = setup_usb_uart(&inc, &out).ok().unwrap();
    assert_eq!(parts.sys.register_port(5), Ok(()));
    let data: Vec<u8> = (0..6000u32).map(|i| (i % 253) as u8).collect();
    let rest = parts.sys.send(5, &data).unwrap_err();
    assert!(!rest.is_empty());
    assert!(rest.len() < data.len());
    let sent = data.len() - rest.len();
    assert_eq!(rest, &data[sent..]);
    let rest = rest.to_vec();
    // Nothing has left the ring: a second try sends nothing.
    assert_eq!(parts.sys.send(5, &rest), Err(&rest[..]));
    let on_wire = frames_of(&wire_out(&mut parts.isr));
    assert!(on_wire.iter().all(|(port, payload)| *port == 5 && !payload.is_empty()));
    let payload: Vec<u8> = on_wire.into_iter().flat_map(|(_, payload)| payload).collect();
    assert_eq!(payload, &data[..sent]);
    // With the ring drained the rest goes out.
    let mut rest = &rest[..];
    let mut later = Vec::new();
    for _ in 0..8 {
        match parts.sys.send(5, rest) {
            Ok(()) => {
                rest = &[];
            }
            Err(left) => {
                rest = left;
            }
        }
        let on_wire = frames_of(&wire_out(&mut parts.isr));
        later.extend(on_wire.into_iter().flat_map(|(_, payload)| payload));
        if rest.is_empty() {
            break;
        }
    }
    assert!(rest.is_empty());
    assert_eq!(later, &data[sent..]);
}

#[test]
fn long_send_goes_out_as_several_frames() {
    let inc = BBBuffer::<USB_BUF_SZ>::new();
    let out = BBBuffer::<USB_BUF_SZ>::new();
    let mut parts = setup_usb_uart(&inc, &out).ok().unwrap();
    let data: Vec<u8> = (0..3000u32).map(|i| (1 + i % 255) as u8).collect();
    // Move the ring on so that the send meets its end.
    assert_eq!(parts.sys.send(0, &data[..2000]), Ok(()));
    assert_eq!(frames_of(&wire_out(&mut parts.isr)), vec![(0, data[..2000].to_vec())]);
    assert_eq!(parts.sys.send(0, &data), Ok(()));
    let on_wire = frames_of(&wire_out(&mut parts.isr));
    assert!(on_wire.len() > 1);
    let payload: Vec<u8> = on_wire.into_iter().flat_map(|(_, payload)| payload).collect();
    assert_eq!(payload, data);
}

#[test]
fn transfer_settles_by_what_the_port_said() {
    assert_eq!(settle(UsbStatus::Moved(5), 8), Ok(5));
    assert_eq!(settle(UsbStatus::Moved(0), 8), Ok(0));
    assert_eq!(settle(UsbStatus::Moved(9), 8), Ok(8));
    assert_eq!(settle(UsbStatus::WouldBlock, 8), Ok(0));
    assert_eq!(settle(UsbStatus::Fault, 8), Err(()));
}

#[test]
fn bytes_that_did_not_go_over_stay_in_the_ring() {
    let inc = BBBuffer::<USB_BUF_SZ>::new();
    let out = BBBuffer::<USB_BUF_SZ>::new();
    let mut parts = setup_usb_uart(&inc, &out).ok().unwrap();
    assert_eq!(parts.sys.send(0, b"hello"), Ok(()));
    let wire = frame(0, b"hello");
    let grant = parts.isr.next_output().unwrap();
    assert_eq!(grant.buf(), &wire[..]);
    assert_eq!(UsbUartIsr::output_done(grant, UsbStatus::WouldBlock), Ok(0));
    let grant = parts.isr.next_output().unwrap();
    assert_eq!(grant.buf(), &wire[..]);
    assert_eq!(UsbUartIsr::output_done(grant, UsbStatus::Moved(3)), Ok(3));
    let grant = parts.isr.next_output().unwrap();
    assert_eq!(grant.buf(), &wire[3..]);
    assert_eq!(UsbUartIsr::output_done(grant, UsbStatus::Fault), Err(()));
    let grant = parts.isr.next_output().unwrap();
    assert_eq!(grant.buf(), &wire[3..]);
    assert_eq!(UsbUartIsr::output_done(grant, UsbStatus::Moved(100)), Ok(wire.len() - 3));
    assert!(parts.isr.next_output().is_none());
}

#[test]
fn input_is_asked_for_in_small_regions() {
    let inc = BBBuffer::<USB_BUF_SZ>::new();
    let out = BBBuffer::<USB_BUF_SZ>::new();
    let mut parts = setup_usb_uart(&inc, &out).ok().unwrap();
    let mut grant = parts.isr.next_input().unwrap();
    assert_eq!(grant.buf().len(), 128);
    assert_eq!(UsbUartIsr::input_done(grant, UsbStatus::WouldBlock), Ok(0));
    let mut buf = [0u8; 8];
    assert_eq!(parts.sys.recv(0, &mut buf), Ok(0));
}

#[test]
fn driver_is_made_from_the_ends_of_two_rings() {
    let inc = BBBuffer::<USB_BUF_SZ>::new();
    let out = BBBuffer::<USB_BUF_SZ>::new();
    let mut parts = UsbUartParts::from_ends(inc.try_split().unwrap(), out.try_split().unwrap());
    let mut buf = [0u8; 8];
    assert_eq!(parts.sys.recv(0, &mut buf), Ok(0));
    assert_eq!(parts.sys.recv(1, &mut buf), Err(()));
    assert_eq!(parts.sys.release_port(0), Err(()));
    assert!(parts.isr.next_output().is_none());
    // What the one side sends goes out through the other, and the other way round.
    assert_eq!(parts.sys.send(0, b"up"), Ok(()));
    assert_eq!(wire_out(&mut parts.isr), frame(0, b"up"));
    assert_eq!(parts.sys.register_port(1), Ok(()));
    wire_in(&mut parts.isr, &frame(1, b"down"));
    assert_eq!(parts.sys.recv(1, &mut buf), Ok(4));
    assert_eq!(&buf[..4], b"down");
}

#[test]
fn payload_without_bytes_takes_a_place_in_the_queue() {
    let inc = BBBuffer::<USB_BUF_SZ>::new();
    let out = BBBuffer::<USB_BUF_SZ>::new();
    let mut parts = setup_usb_uart(&inc, &out).ok().unwrap();
    assert_eq!(parts.sys.register_port(5), Ok(()));
    for _ in 0..16 {
        wire_in(&mut parts.isr, &frame(5, b""));
    }
    wire_in(&mut parts.isr, &frame(5, b"late"));
    let mut buf = [0u8; 8];
    assert_eq!(parts.sys.recv(5, &mut buf), Ok(0));
    wire_in(&mut parts.isr, &frame(5, b"next"));
    assert_eq!(parts.sys.recv(5, &mut buf), Ok(4));
    assert_eq!(&buf[..4], b"next");
}
