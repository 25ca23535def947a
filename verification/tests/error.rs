use trajan::error::{Error, ErrorKind};

#[test]
fn from_invalid_format() {
    let err = Error::invalid_format("test".to_string());
    assert_eq!(*err.kind(), ErrorKind::InvalidFormat { error: "test".to_string() });
}

#[test]
fn message_text() {
    assert_eq!(Error::new(ErrorKind::Io).message(), "I/O Error");
    assert_eq!(Error::new(ErrorKind::ParseError).message(), "Parse Value Error");
    assert_eq!(
        Error::invalid_format("H 1.0".to_string()).message(),
        "Invalid Format: H 1.0"
    );
}

#[test]
fn new_carries_kind() {
    let err = Error::new(ErrorKind::Io);
    assert_eq!(*err.kind(), ErrorKind::Io);
    let err = Error::new(ErrorKind::ParseError);
    assert_eq!(*err.kind(), ErrorKind::ParseError);
}
