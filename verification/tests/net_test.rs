use link::base::link::{Handler, Linkable, Settings};
use link::base::state::Mode;
use link::base::error::Error;
use link::net::route::Entry;
use link::net::socket::frame_length;
use link::net::{Group, Route, Socket};

struct Plain;

impl Handler for Plain {
    fn handle(&self, data: &[u8]) -> Result<Vec<u8>, Error> {
        Ok(data.to_vec())
    }
}

/// Carries one frame from a wire to the other end's buffer, as a stream
/// would: the prefix first, then as many bytes as it tells.
fn deliver(wire: &mut Vec<u8>, to: &Socket<Plain>, buf: &mut [u8]) -> usize {
    let prefix = [wire[0], wire[1], wire[2], wire[3]];
    let length = frame_length(&prefix);
    let payload: Vec<u8> = wire[4..4 + length].to_vec();
    wire.drain(..4 + length);
    to.receive(&payload, buf).unwrap()
}

#[test]
fn test_net_components_integration() {
    let settings = Settings { size: 100, wait: 50, ..Settings::default() };

    let mut route = Route::new(settings.clone());
    route.start().unwrap();
    route.add("server".into(), Entry { addr: "127.0.0.1:8087".into(), weight: 1 }).unwrap();
    assert_eq!(route.get("server").unwrap().addr, "127.0.0.1:8087");

    let mut group: Group<Socket<Plain>> = Group::new(10, settings.clone());
    group.start().unwrap();
    group.add(Socket::new(settings.clone())).unwrap();

    let server: Socket<Plain> = Socket::new(settings);

    let mut holder = group.get().unwrap();
    let data = vec![1, 2, 3, 4];
    let mut to_server = Vec::new();
    let sent = holder.socket().send(&data, &mut to_server).unwrap();
    assert_eq!(sent, data.len());

    let mut buf = vec![0; 4];
    let received = deliver(&mut to_server, &server, &mut buf);
    assert_eq!(received, 4);
    assert_eq!(buf, data, "Server received incorrect data");
    assert!(to_server.is_empty());

    let mut to_client = Vec::new();
    server.send(&buf, &mut to_client).unwrap();
    let mut back = vec![0; 4];
    let received = deliver(&mut to_client, holder.socket(), &mut back);
    assert_eq!(received, 4);
    assert_eq!(back, data, "Client received incorrect data");

    holder.release(&mut group);
    group.stop().unwrap();
    route.stop().unwrap();
}

#[test]
fn test_net_error_handling() {
    let settings = Settings::default();
    let route = Route::new(settings.clone());
    assert!(route.get("invalid").is_err());

    let mut group: Group<Socket<Plain>> = Group::new(1, settings);
    let result = group.get();
    assert!(result.is_err());
}

#[test]
fn test_net_state_propagation() {
    let settings = Settings::default();

    let mut group: Group<Socket<Plain>> = Group::new(1, settings.clone());
    group.start().unwrap();
    assert!(matches!(group.state().unwrap(), Mode::Ready));

    let mut socket: Socket<Plain> = Socket::new(settings);

    socket.start().unwrap();
    assert!(matches!(socket.state().unwrap(), Mode::Ready));

    group.add(socket).unwrap();
    group.stop().unwrap();
    assert!(matches!(group.state().unwrap(), Mode::Close));
}
