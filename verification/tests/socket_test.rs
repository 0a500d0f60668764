use link::base::error::Error;
use link::base::link::{Handler, Linkable, Settings};
use link::base::state::Mode;
use link::guard::{Auth, Crypt};
use link::net::socket::{encode_length, frame_length};
use link::net::Socket;

struct Plain;

impl Handler for Plain {
    fn handle(&self, data: &[u8]) -> Result<Vec<u8>, Error> {
        Ok(data.to_vec())
    }
}

struct Append(u8);

impl Handler for Append {
    fn handle(&self, data: &[u8]) -> Result<Vec<u8>, Error> {
        let mut out = data.to_vec();
        out.push(self.0);
        Ok(out)
    }
}

struct Refuse;

impl Handler for Refuse {
    fn handle(&self, _: &[u8]) -> Result<Vec<u8>, Error> {
        Err(Error::Guard("refused".into()))
    }
}

#[test]
fn test_socket_connection() {
    let mut socket: Socket<Plain> = Socket::new(Settings::default());
    // A connection has no lifecycle of its own: it always reports Ready.
    assert!(matches!(socket.state().unwrap(), Mode::Ready));

    socket.start().unwrap();
    assert!(matches!(socket.state().unwrap(), Mode::Ready));

    socket.stop().unwrap();
    assert!(matches!(socket.state().unwrap(), Mode::Ready));
}

#[test]
fn test_socket_data_transfer() {
    let mut socket: Socket<Plain> = Socket::new(Settings::default());
    socket.start().unwrap();

    let data = vec![1, 2, 3, 4];
    let mut wire = Vec::new();
    let sent = socket.send(&data, &mut wire).unwrap();
    assert_eq!(sent, data.len());
    assert_eq!(wire, vec![0, 0, 0, 4, 1, 2, 3, 4]);

    let prefix = [wire[0], wire[1], wire[2], wire[3]];
    let length = frame_length(&prefix);
    assert_eq!(length, 4);
    let mut buf = vec![0; 4];
    let received = socket.receive(&wire[4..4 + length], &mut buf).unwrap();
    assert_eq!(received, data.len());
    assert_eq!(buf, data);
}

#[test]
fn test_socket_prefix_is_big_endian() {
    assert_eq!(encode_length(0), [0, 0, 0, 0]);
    assert_eq!(encode_length(1), [0, 0, 0, 1]);
    assert_eq!(encode_length(0x0102_0304), [1, 2, 3, 4]);
    assert_eq!(encode_length(0xFFFF_FFFF), [255, 255, 255, 255]);
    assert_eq!(frame_length(&[0, 0, 1, 0]), 256);
    assert_eq!(frame_length(&[1, 2, 3, 4]), 0x0102_0304);
    assert_eq!(frame_length(&[255, 255, 255, 255]), 0xFFFF_FFFF);
    for n in [0usize, 5, 255, 256, 65535, 65536, 0x00FF_FFFF, 0x0100_0000, 0xFFFF_FFFF] {
        assert_eq!(frame_length(&encode_length(n)), n);
        assert_eq!(encode_length(n), (n as u32).to_be_bytes());
    }
}

#[test]
fn test_socket_send_appends_frames() {
    let mut socket = Socket::new(Settings::default());
    socket.add_handler(Append(9));
    let mut wire = vec![0xAA];
    assert_eq!(socket.send(b"ab", &mut wire).unwrap(), 2);
    assert_eq!(wire, vec![0xAA, 0, 0, 0, 3, b'a', b'b', 9]);
    assert_eq!(socket.send(b"", &mut wire).unwrap(), 0);
    assert_eq!(wire, vec![0xAA, 0, 0, 0, 3, b'a', b'b', 9, 0, 0, 0, 1, 9]);
}

#[test]
fn test_socket_stages_out_in_order_and_in_reversed() {
    let mut socket = Socket::new(Settings::default());
    socket.add_handler(Append(1));
    socket.add_handler(Append(2));
    assert_eq!(socket.process_outgoing(b"x").unwrap(), vec![b'x', 1, 2]);
    assert_eq!(socket.process_incoming(b"x").unwrap(), vec![b'x', 2, 1]);
}

#[test]
fn test_socket_receive_cuts_to_buffer() {
    let socket: Socket<Plain> = Socket::new(Settings::default());
    let mut small = [0u8; 2];
    assert_eq!(socket.receive(&[1, 2, 3, 4], &mut small).unwrap(), 2);
    assert_eq!(small, [1, 2]);
    let mut large = [7u8; 6];
    assert_eq!(socket.receive(&[1, 2, 3, 4], &mut large).unwrap(), 4);
    assert_eq!(large, [1, 2, 3, 4, 7, 7]);
    let mut none: [u8; 0] = [];
    assert_eq!(socket.receive(&[1, 2, 3, 4], &mut none).unwrap(), 0);
}

#[test]
fn test_socket_stage_error_leaves_wire_and_buffer() {
    let mut socket: Socket<Box<dyn Handler>> = Socket::new(Settings::default());
    socket.add_handler(Box::new(Append(1)));
    socket.add_handler(Box::new(Refuse));
    let mut wire = vec![5u8];
    match socket.send(b"abc", &mut wire) {
        Err(Error::Guard(m)) => assert_eq!(m, "refused"),
        _ => panic!("expected the stage's error"),
    }
    assert_eq!(wire, vec![5u8]);
    let mut buf = [3u8; 4];
    assert!(matches!(socket.receive(b"abc", &mut buf), Err(Error::Guard(_))));
    assert_eq!(buf, [3u8; 4]);
}

#[test]
fn test_socket_with_encryption_round_trip() {
    // The sending end encrypts; the receiving end holds the stage that undoes
    // it, here by exposing what arrived.
    let mut sender = Socket::new(Settings::default());
    sender.add_handler(Crypt::new(b"shared key"));
    let mut wire = Vec::new();
    assert_eq!(sender.send(b"secret", &mut wire).unwrap(), 6);
    let length = frame_length(&[wire[0], wire[1], wire[2], wire[3]]);
    assert_eq!(length, 6 + 28);
    assert_eq!(wire.len(), 4 + length);
    let opened = {
        let crypt = Crypt::new(b"shared key");
        link::base::link::Guardable::expose(&crypt, &wire[4..]).unwrap()
    };
    assert_eq!(opened, b"secret");
}

#[test]
fn test_socket_with_signing_stage_on_the_wire() {
    let auth = Auth::new(b"k");
    let signed = link::base::link::Guardable::protect(&auth, b"hello").unwrap();
    let mut sender = Socket::new(Settings::default());
    sender.add_handler(auth);
    let mut wire = Vec::new();
    assert_eq!(sender.send(b"hello", &mut wire).unwrap(), 5);
    // The prefix, then the signature, then the content.
    assert_eq!(&wire[..4], &[0, 0, 0, 37]);
    assert_eq!(&wire[4..], &signed[..]);
    assert_eq!(&wire[36..], b"hello");
    let opened = link::base::link::Guardable::expose(&Auth::new(b"k"), &wire[4..]).unwrap();
    assert_eq!(opened, b"hello");
}
