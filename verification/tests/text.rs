use ip_tcp::cli::parse::{
    parse_command, ParseDownError, ParseError, ParseOpenListenSocketError, ParseSendError,
    ParseTcpShutdownError, ParseUpError,
};
use ip_tcp::cli::Command;
use ip_tcp::addr::VirtualIp;
use ip_tcp::protocol::tcp::prelude::Port;
use ip_tcp::protocol::Protocol;
use ip_tcp::text::{
    chars_of, is_whitespace, parse_decimal, split_at, split_whitespace, string_of, word_is,
};

fn chars(s: &str) -> Vec<char> {
    s.chars().collect()
}

fn words(s: &str) -> Vec<String> {
    split_whitespace(&chars(s)).iter().map(|w| w.iter().collect()).collect()
}

#[test]
fn words_are_split_as_the_standard_library_splits_them() {
    for line in [
        "",
        " ",
        "a",
        " a ",
        "send 10.0.0.1 0 hello   world",
        "\ttab\u{a0}and\u{2003}wide\u{3000}space\r\n",
        "no-break\u{feff}here",
        "x\u{85}y\u{1680}z\u{2028}w\u{2029}v\u{202f}u\u{205f}t",
    ] {
        let expected: Vec<String> = line.split_whitespace().map(|w| w.to_string()).collect();
        assert_eq!(words(line), expected);
    }
}

#[test]
fn white_space_is_what_the_standard_library_says() {
    let mut c = 0u32;
    while c < 0x3100 {
        if let Some(ch) = char::from_u32(c) {
            assert_eq!(is_whitespace(ch), ch.is_whitespace());
        }
        c += 1;
    }
}

#[test]
fn numbers_are_read_as_the_standard_library_reads_them() {
    for text in [
        "0", "7", "007", "+7", "65535", "65536", "+65535", "-1", "", "+", "++1", "1+", "12a",
        " 1", "1 ", "99999999999999999999999", "٣",
    ] {
        let expected = text.parse::<u16>().ok().map(|v| v as u64);
        assert_eq!(parse_decimal(&chars(text), 0xffff), expected);
    }
    assert_eq!(parse_decimal(&chars("18446744073709551615"), u64::MAX), Some(u64::MAX));
    assert_eq!(parse_decimal(&chars("18446744073709551616"), u64::MAX), None);
    assert_eq!(parse_decimal(&chars("255"), 255), Some(255));
    assert_eq!(parse_decimal(&chars("256"), 255), None);
    assert_eq!(parse_decimal(&chars("5"), 4), None);
}

#[test]
fn fields_keep_what_is_empty() {
    let fields = |s: &str| -> Vec<String> {
        split_at(&chars(s), '.').iter().map(|w| w.iter().collect()).collect()
    };
    assert_eq!(fields("1.2.3.4"), vec!["1", "2", "3", "4"]);
    assert_eq!(fields(""), vec![""]);
    assert_eq!(fields("."), vec!["", ""]);
    assert_eq!(fields("a..b."), vec!["a", "", "b", ""]);
}

#[test]
fn texts_and_characters() {
    assert_eq!(chars_of("héllo"), vec!['h', 'é', 'l', 'l', 'o']);
    assert_eq!(string_of(&['h', 'é', 'y']), "héy");
    assert!(word_is(&chars("both"), "both"));
    assert!(!word_is(&chars("bot"), "both"));
    assert!(!word_is(&chars("bath"), "both"));
    assert!(word_is(&[], ""));
}

#[test]
fn parse_interfaces_and_links() {
    assert_eq!(parse_command("lr".into()).unwrap(), Command::ListRoute(None));
    assert_eq!(
        parse_command("routes f".into()).unwrap(),
        Command::ListRoute(Some("f".into()))
    );
    assert_eq!(parse_command("ls".into()).unwrap(), Command::ListSockets(None));
    assert_eq!(
        parse_command("ls out".into()).unwrap(),
        Command::ListSockets(Some("out".into()))
    );
    assert_eq!(parse_command("down 3".into()).unwrap(), Command::InterfaceDown(3));
    assert_eq!(parse_command("up 0".into()).unwrap(), Command::InterfaceUp(0));
    assert_eq!(
        parse_command("down".into()).unwrap_err(),
        ParseDownError::NoLinkId.into()
    );
    assert_eq!(
        parse_command("down x".into()).unwrap_err(),
        ParseDownError::InvalidLinkId.into()
    );
    assert_eq!(parse_command("up".into()).unwrap_err(), ParseUpError::NoLinkId.into());
    assert_eq!(
        parse_command("up 65536".into()).unwrap_err(),
        ParseUpError::InvalidLinkId.into()
    );
    assert_eq!(parse_command("a 80".into()).unwrap(), Command::OpenListenSocket(Port(80)));
    assert_eq!(
        parse_command("a".into()).unwrap_err(),
        ParseOpenListenSocketError::NoPort.into()
    );
    assert_eq!(
        parse_command("a -1".into()).unwrap_err(),
        ParseOpenListenSocketError::InvalidPort.into()
    );
}

#[test]
fn parse_send() {
    assert_eq!(parse_command("send".into()).unwrap_err(), ParseSendError::NoIp.into());
    assert_eq!(
        parse_command("send 1.2.3.4".into()).unwrap_err(),
        ParseSendError::NoProtocol.into()
    );
    assert_eq!(
        parse_command("send 1.2.3.4 0".into()).unwrap_err(),
        ParseSendError::NoPayload.into()
    );
    // the payload is looked for before the address and the protocol are read
    assert_eq!(
        parse_command("send nowhere 9".into()).unwrap_err(),
        ParseSendError::NoPayload.into()
    );
    assert_eq!(
        parse_command("send nowhere 0 x".into()).unwrap_err(),
        ParseSendError::InvalidIp.into()
    );
    assert_eq!(
        parse_command("send 1.2.3.4 9 x".into()).unwrap_err(),
        ParseSendError::InvalidProtocol.into()
    );
    assert_eq!(
        parse_command("send 1.2.3.4 0 hello  big   world".into()).unwrap(),
        Command::SendIPv4Packet {
            virtual_ip: VirtualIp::new(1, 2, 3, 4),
            protocol: Protocol::Test,
            payload: "hellobigworld".into()
        }
    );
}

#[test]
fn messages() {
    assert_eq!(ParseError::Unknown.message(), "Unknown command");
    assert_eq!(
        ParseError::from(ParseDownError::InvalidLinkId).message(),
        "Invalid down command. Usage: down <integer>. Error: InvalidLinkId"
    );
    assert_eq!(
        parse_command("up".into()).unwrap_err().message(),
        "Invalid up command. Usage: up <integer>. Error: NoLinkId"
    );
    assert_eq!(
        parse_command("send".into()).unwrap_err().message(),
        "Invalid send command. Usage: send <vip> <proto> <string>. Error: NoIp"
    );
    assert_eq!(
        parse_command("a".into()).unwrap_err().message(),
        "Invalid open socket command. Usage: a <port>. Error: NoPort"
    );
    assert_eq!(
        parse_command("c 1.2.3.4 x".into()).unwrap_err().message(),
        "Invalid connect command. Usage: c <ip> <port>. Error: InvalidPort"
    );
    assert_eq!(
        parse_command("s 1".into()).unwrap_err().message(),
        "Invalid send command. Usage: s <socket_id> <data>. Error: NoPayload"
    );
    assert_eq!(
        parse_command("r 1 2 3".into()).unwrap_err().message(),
        "Invalid read command. Usage: r <socket ID> <numbytes> <y|N>. Error: InvalidBlockingIndicator"
    );
    assert_eq!(
        parse_command("sd 1 a\"b".into()).unwrap_err().message(),
        "Invalid shutdown command. Usage: sd <socket ID> <read|write|both>. Error: InvalidShutdownType(\"a\\\"b\")"
    );
    assert_eq!(
        ParseError::from(ParseTcpShutdownError::NoSocketDescriptor).message(),
        "Invalid shutdown command. Usage: sd <socket ID> <read|write|both>. Error: NoSocketDescriptor"
    );
    assert_eq!(
        parse_command("cl".into()).unwrap_err().message(),
        "Invalid close command. Usage: cl <socket ID>. Error: NoSocketDescriptor"
    );
    assert_eq!(
        parse_command("sf".into()).unwrap_err().message(),
        "Invalid send file command. Usage: sf <filename> <ip> <port>. Error: NoFile"
    );
    assert_eq!(
        parse_command("rf f".into()).unwrap_err().message(),
        "Invalid receive file command. Usage: rf <filename> <port>. Error: NoPort"
    );
}
