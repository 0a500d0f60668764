use link::base::error::Error;
use link::base::link::{Handler, Link, Linkable, Movable, Settings};
use link::base::state::Mode;

struct EchoHandler;

impl Handler for EchoHandler {
    fn handle(&self, data: &[u8]) -> Result<Vec<u8>, Error> {
        Ok(data.to_vec())
    }
}

struct ReverseHandler;

impl Handler for ReverseHandler {
    fn handle(&self, data: &[u8]) -> Result<Vec<u8>, Error> {
        let mut reversed = data.to_vec();
        reversed.reverse();
        Ok(reversed)
    }
}

struct ErrorHandler;

impl Handler for ErrorHandler {
    fn handle(&self, _: &[u8]) -> Result<Vec<u8>, Error> {
        Err(Error::Guard("test error".into()))
    }
}

struct Doubler;

impl Handler for Doubler {
    fn handle(&self, data: &[u8]) -> Result<Vec<u8>, Error> {
        let mut twice = data.to_vec();
        twice.extend_from_slice(data);
        Ok(twice)
    }
}

#[test]
fn test_link_with_handlers() {
    let mut link: Link<Box<dyn Handler>> = Link::new(Settings::default());

    link.add_handler(Box::new(EchoHandler));
    link.add_handler(Box::new(ReverseHandler));

    link.start().unwrap();
    assert!(matches!(link.state().unwrap(), Mode::Ready));

    let data = vec![1, 2, 3, 4];
    let sent = link.send(&data).unwrap();
    assert_eq!(sent, data.len());

    let mut buf = vec![0; 4];
    let received = link.receive(&mut buf).unwrap();
    assert_eq!(received, buf.len());

    link.stop().unwrap();
    assert!(matches!(link.state().unwrap(), Mode::Close));
}

#[test]
fn test_link_error_handling() {
    let mut link: Link<Box<dyn Handler>> = Link::new(Settings::default());

    let data = vec![1, 2, 3, 4];
    let result = link.send(&data);
    match result {
        Ok(_) => panic!("Expected error when sending data in init state"),
        Err(e) => println!("Got error: {:?}", e),
    }

    let mut buf = vec![0; 4];
    let result = link.receive(&mut buf);
    match result {
        Ok(_) => panic!("Expected error when receiving data in init state"),
        Err(e) => println!("Got error: {:?}", e),
    }

    link.add_handler(Box::new(ErrorHandler));

    link.start().unwrap();

    let result = link.send(&data);
    assert!(matches!(result, Err(Error::Guard(_))), "Expected Guard error from handler");

    link.stop().unwrap();

    let result = link.send(&data);
    match result {
        Ok(_) => panic!("Expected error when sending data in closed state"),
        Err(e) => println!("Got error: {:?}", e),
    }
}

#[test]
fn test_link_concurrent_access() {
    let settings = Settings { size: 1024, ..Settings::default() };
    let mut link: Link<EchoHandler> = Link::new(settings);

    link.start().unwrap();

    for i in 0..10u8 {
        let data = vec![i; 4];
        link.send(&data).unwrap();

        let mut buf = vec![0; 4];
        link.receive(&mut buf).unwrap();
    }

    let state = link.state().unwrap();
    assert!(matches!(state, Mode::Ready));
    let measure = link.measure().unwrap();
    assert_eq!(measure.send, 40);
    assert_eq!(measure.receive, 40);
}

#[test]
fn test_link_failing_stage_ends_chain_and_keeps_error() {
    let mut link: Link<Box<dyn Handler>> = Link::new(Settings::default());
    link.add_handler(Box::new(Doubler));
    link.add_handler(Box::new(ErrorHandler));
    link.add_handler(Box::new(Doubler));
    link.start().unwrap();
    match link.send(&[1, 2, 3]) {
        Err(Error::Guard(m)) => assert_eq!(m, "test error"),
        _ => panic!("expected the stage's own error"),
    }
    assert_eq!(link.measure().unwrap().send, 0);
}

#[test]
fn test_link_stages_run_in_order() {
    let mut link: Link<Box<dyn Handler>> = Link::new(Settings { size: 4, ..Settings::default() });
    link.add_handler(Box::new(Doubler));
    link.add_handler(Box::new(Doubler));
    link.start().unwrap();
    // The limit is held against the data as given; the count is what comes out.
    assert_eq!(link.send(&[1, 2, 3]).unwrap(), 12);
    assert_eq!(link.measure().unwrap().send, 12);
}
