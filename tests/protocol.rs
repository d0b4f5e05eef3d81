use tinc_rs::protocol::{Request, PROT_MAJOR, PROT_MINOR, REQUEST_LAST};

#[test]
fn wire_numbers() {
    assert_eq!(Request::from_code(0), Some(Request::Id));
    assert_eq!(Request::from_code(2), Some(Request::Challenge));
    assert_eq!(Request::from_code(23), Some(Request::MtuInfo));
    assert_eq!(Request::from_code(-1), None);
    assert_eq!(Request::from_code(REQUEST_LAST), None);
    for c in 0..REQUEST_LAST {
        assert_eq!(Request::from_code(c).unwrap().code(), c);
    }
    assert_eq!(Request::Pong.code(), 9);
    assert_eq!((PROT_MAJOR, PROT_MINOR), (17, 7));
}
