use link::base::error::Error;
use link::base::link::{Handler, Link, Linkable, Movable, Settings};
use link::base::state::Mode;
use link::guard::Auth;

struct TestHandler;

impl Handler for TestHandler {
    fn handle(&self, data: &[u8]) -> Result<Vec<u8>, Error> {
        Ok(data.to_vec())
    }
}

#[test]
fn test_link_creation() {
    let settings = Settings::default();
    let link: Link<TestHandler> = Link::new(settings);
    assert!(matches!(link.state().unwrap(), Mode::Init));
}

#[test]
fn test_link_lifecycle() {
    let mut link: Link<TestHandler> = Link::new(Settings::default());

    assert!(matches!(link.state().unwrap(), Mode::Init));

    link.start().unwrap();
    assert!(matches!(link.state().unwrap(), Mode::Ready));

    link.stop().unwrap();
    assert!(matches!(link.state().unwrap(), Mode::Close));
}

#[test]
fn test_link_data_transfer() {
    let mut link: Link<TestHandler> = Link::new(Settings::default());
    link.start().unwrap();

    let data = vec![1, 2, 3, 4];
    let sent = link.send(&data).unwrap();
    assert_eq!(sent, data.len());

    let mut buf = vec![0; 4];
    let received = link.receive(&mut buf).unwrap();
    assert_eq!(received, buf.len());
}

#[test]
fn test_link_size_limits() {
    let settings = Settings { size: 4, ..Settings::default() };
    let mut link: Link<TestHandler> = Link::new(settings);
    link.start().unwrap();

    let data = vec![0; 8];
    let result = link.send(&data);
    assert!(matches!(result, Err(Error::Net(_))));

    let mut buf = vec![0; 8];
    let result = link.receive(&mut buf);
    assert!(matches!(result, Err(Error::Net(_))));
}

#[test]
fn test_link_handler() {
    let mut link = Link::new(Settings::default());
    link.add_handler(TestHandler);
    link.start().unwrap();

    let data = vec![1, 2, 3, 4];
    let sent = link.send(&data).unwrap();
    assert_eq!(sent, data.len());
}

#[test]
fn test_settings_default_values() {
    let settings = Settings::default();
    assert_eq!(settings.name, "link");
    assert_eq!(settings.size, 65536);
    assert_eq!(settings.wait, 30);
}

#[test]
fn test_link_send_counts_processed_length() {
    let mut link: Link<TestHandler> = Link::new(Settings::default());
    link.start().unwrap();
    assert_eq!(link.send(&[7u8; 5]).unwrap(), 5);
    assert_eq!(link.send(&[7u8; 11]).unwrap(), 11);
    let measure = link.measure().unwrap();
    assert_eq!(measure.send, 16);
    assert_eq!(measure.receive, 0);
    assert_eq!(measure.error, 0);
    assert!(measure.start_timestamp.is_some());
}

#[test]
fn test_link_send_at_the_limit() {
    let settings = Settings { size: 4, ..Settings::default() };
    let mut link: Link<TestHandler> = Link::new(settings);
    link.start().unwrap();
    assert_eq!(link.send(&[1, 2, 3, 4]).unwrap(), 4);
    assert_eq!(link.send(&[]).unwrap(), 0);
    assert!(matches!(link.send(&[1, 2, 3, 4, 5]), Err(Error::Net(_))));
    assert_eq!(link.measure().unwrap().send, 4);
}

#[test]
fn test_link_send_not_ready_leaves_measure() {
    let mut link: Link<TestHandler> = Link::new(Settings::default());
    let data = vec![1, 2, 3, 4];

    match link.send(&data) {
        Err(Error::State(m)) => assert_eq!(m, "link is not ready"),
        _ => panic!("expected a state error in mode Init"),
    }
    let measure = link.measure().unwrap();
    assert_eq!(measure.send, 0);
    assert!(measure.start_timestamp.is_none());

    link.start().unwrap();
    link.send(&data).unwrap();
    link.stop().unwrap();
    match link.send(&data) {
        Err(Error::State(m)) => assert_eq!(m, "link is not ready"),
        _ => panic!("expected a state error in mode Close"),
    }
    assert_eq!(link.measure().unwrap().send, 4);

    let mut buf = vec![0u8; 4];
    assert!(matches!(link.receive(&mut buf), Err(Error::State(_))));
    assert_eq!(link.measure().unwrap().receive, 0);
}

#[test]
fn test_link_size_error_messages() {
    let settings = Settings { size: 2, ..Settings::default() };
    let mut link: Link<TestHandler> = Link::new(settings);
    link.start().unwrap();
    match link.send(&[0u8; 3]) {
        Err(Error::Net(m)) => assert_eq!(m, "data too large"),
        _ => panic!("expected a size error"),
    }
    let mut buf = [0u8; 3];
    match link.receive(&mut buf) {
        Err(Error::Net(m)) => assert_eq!(m, "buffer too large"),
        _ => panic!("expected a size error"),
    }
    let measure = link.measure().unwrap();
    assert_eq!(measure.send, 0);
    assert_eq!(measure.receive, 0);
}

#[test]
fn test_link_receive_records_buffer_length() {
    let mut link: Link<TestHandler> = Link::new(Settings::default());
    link.start().unwrap();
    let mut buf = vec![9u8; 6];
    assert_eq!(link.receive(&mut buf).unwrap(), 6);
    assert_eq!(buf, vec![9u8; 6]);
    let measure = link.measure().unwrap();
    assert_eq!(measure.receive, 6);
    assert_eq!(measure.send, 0);
    assert!(measure.start_timestamp.is_some());
}

#[test]
fn test_link_with_signing_stage_counts_what_comes_out() {
    let mut link = Link::new(Settings::default());
    link.add_handler(Auth::new(b"key"));
    link.start().unwrap();
    // The signature is 32 bytes in front of the data.
    assert_eq!(link.send(b"hello").unwrap(), 32 + 5);
    assert_eq!(link.measure().unwrap().send, 37);
    assert_eq!(link.send(b"").unwrap(), 32);
    assert_eq!(link.measure().unwrap().send, 69);
}

#[test]
fn test_error_to_string() {
    assert_eq!(Error::Net("x".to_string()).to_string(), "Network error: x");
    assert_eq!(Error::Guard("y".to_string()).to_string(), "Guard error: y");
    assert_eq!(Error::State("z".to_string()).to_string(), "State error: z");
    assert_eq!(Error::Store("s".to_string()).to_string(), "Store error: s");
    assert_eq!(Error::System("t".to_string()).to_string(), "System error: t");
}

#[test]
fn test_link_try_send_and_try_receive() {
    let mut link: Link<TestHandler> = Link::new(Settings { size: 4, ..Settings::default() });
    assert!(matches!(link.try_send(b"ab"), Some(Err(Error::State(_)))));
    assert!(matches!(link.try_receive(2), Some(Err(Error::State(_)))));
    link.start().unwrap();
    assert!(matches!(link.try_send(b"ab"), Some(Ok(2))));
    assert!(matches!(link.try_send(b"abcde"), Some(Err(Error::Net(_)))));
    assert!(matches!(link.try_receive(3), Some(Ok(3))));
    assert!(matches!(link.try_receive(5), Some(Err(Error::Net(_)))));
    let measure = link.measure().unwrap();
    assert_eq!(measure.send, 2);
    assert_eq!(measure.receive, 3);
}
