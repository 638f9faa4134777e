use libsync::endpoint::{host_and_port, InvalidPort};

#[test]
fn a_host_alone_gets_the_default_port() {
    assert_eq!(host_and_port("127.0.0.1", 7070), Ok(("127.0.0.1", 7070)));
    assert_eq!(host_and_port("", 7070), Ok(("", 7070)));
    assert_eq!(host_and_port("localhost", libsync::PORT), Ok(("localhost", 7070)));
    assert_eq!(libsync::server::DEFAULT_PORT, 7070);
}

#[test]
fn a_port_follows_the_first_colon() {
    assert_eq!(host_and_port("127.0.0.1:80", 7070), Ok(("127.0.0.1", 80)));
    assert_eq!(host_and_port(":+080", 7070), Ok(("", 80)));
    assert_eq!(host_and_port("h\u{f6}st:65535", 7070), Ok(("h\u{f6}st", 65535)));
}

#[test]
fn what_is_no_port_is_refused() {
    let refused =
        ["a:", "a:+", "a:-1", "a:x", "a:1x", "a:65536", "a:99999999999", "::1", "a:1:2"];
    for address in refused {
        assert_eq!(host_and_port(address, 7070), Err(InvalidPort));
    }
}

#[test]
fn ports_read_as_the_standard_parser_reads_them() {
    for text in ["0", "00", "+0", "++1", "1+", " 1", "65535", "65536", "070", "\u{661}", ""] {
        let address = format!("host:{}", text);
        let expected = match text.parse::<u16>() {
            Ok(port) => Ok(("host", port)),
            Err(_) => Err(InvalidPort),
        };
        assert_eq!(host_and_port(&address, 7070), expected);
    }
}
