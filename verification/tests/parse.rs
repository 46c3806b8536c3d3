use ip_tcp::addr::VirtualIp;
use ip_tcp::cli::parse::{
    parse_command, ParseCloseError, ParseConnectError, ParseError, ParseRecvFileError,
    ParseSendFileError, ParseTcpReadError, ParseTcpSendError, ParseTcpShutdownError,
};
use ip_tcp::cli::{Command, TcpShutdownKind};
use ip_tcp::protocol::tcp::prelude::{Port, SocketDescriptor};

#[test]
fn parse_connect() {
    assert_eq!(
        parse_command("c".into()).unwrap_err(),
        ParseConnectError::NoIp.into()
    );

    assert_eq!(
        parse_command("c 1".into()).unwrap_err(),
        ParseConnectError::InvalidIp.into()
    );

    assert_eq!(
        parse_command("c 1.2.3.4".into()).unwrap_err(),
        ParseConnectError::NoPort.into()
    );

    assert_eq!(
        parse_command("c 1.2.3.4 ss".into()).unwrap_err(),
        ParseConnectError::InvalidPort.into()
    );

    let c = parse_command("c 1.2.3.4 33".into()).unwrap();
    let expected = Command::ConnectSocket(VirtualIp::new(1, 2, 3, 4), 33u16.into());
    assert_eq!(c, expected);
}

#[test]
fn parse_tcp_send() {
    assert_eq!(
        parse_command("s".into()).unwrap_err(),
        ParseTcpSendError::NoSocketDescriptor.into(),
    );

    assert_eq!(
        parse_command("s ssss".into()).unwrap_err(),
        ParseTcpSendError::InvalidSocketDescriptor.into(),
    );

    assert_eq!(
        parse_command("s 33".into()).unwrap_err(),
        ParseTcpSendError::NoPayload.into(),
    );

    let c = parse_command("s 33 heehee".into()).unwrap();
    let expected = Command::SendTCPPacket(
        SocketDescriptor(33),
        String::from("heehee").as_bytes().into(),
    );
    assert_eq!(c, expected);
}

#[test]
fn parse_tcp_read() {
    assert_eq!(
        parse_command("r".into()).unwrap_err(),
        ParseTcpReadError::NoSocketDescriptor.into(),
    );

    assert_eq!(
        parse_command("r ssss".into()).unwrap_err(),
        ParseTcpReadError::InvalidSocketDescriptor.into(),
    );

    assert_eq!(
        parse_command("r 33".into()).unwrap_err(),
        ParseTcpReadError::NoNumBytesToRead.into(),
    );

    assert_eq!(
        parse_command("r 33 heehee".into()).unwrap_err(),
        ParseTcpReadError::InvalidNumBytesToRead.into()
    );

    assert_eq!(
        parse_command("r 33 100 n".into()).unwrap_err(),
        ParseTcpReadError::InvalidBlockingIndicator.into()
    );

    let c = parse_command("r 33 100 y".into()).unwrap();
    assert_eq!(
        c,
        Command::ReadSocket {
            descriptor: SocketDescriptor(33),
            num_bytes: 100,
            would_block: true
        }
    );
    let c = parse_command("r 33 100 N".into()).unwrap();
    assert_eq!(
        c,
        Command::ReadSocket {
            descriptor: SocketDescriptor(33),
            num_bytes: 100,
            would_block: false
        }
    );
    let c = parse_command("r 33 100".into()).unwrap();
    assert_eq!(
        c,
        Command::ReadSocket {
            descriptor: SocketDescriptor(33),
            num_bytes: 100,
            would_block: false
        }
    );
}

#[test]
fn parse_tcp_shutdown() {
    assert_eq!(
        parse_command("sd".into()).unwrap_err(),
        ParseTcpShutdownError::NoSocketDescriptor.into(),
    );

    assert_eq!(
        parse_command("sd ss".into()).unwrap_err(),
        ParseTcpShutdownError::InvalidSocketDescriptor.into(),
    );

    assert_eq!(
        parse_command("sd 3 yes".into()).unwrap_err(),
        ParseTcpShutdownError::InvalidShutdownType("yes".into()).into(),
    );

    let c = parse_command("sd 3".into()).unwrap();
    assert_eq!(
        c,
        Command::Shutdown(SocketDescriptor(3), TcpShutdownKind::Write)
    );

    let c = parse_command("sd 3 r".into()).unwrap();
    assert_eq!(
        c,
        Command::Shutdown(SocketDescriptor(3), TcpShutdownKind::Read)
    );

    let c = parse_command("sd 3 read".into()).unwrap();
    assert_eq!(
        c,
        Command::Shutdown(SocketDescriptor(3), TcpShutdownKind::Read)
    );

    let c = parse_command("sd 3 w".into()).unwrap();
    assert_eq!(
        c,
        Command::Shutdown(SocketDescriptor(3), TcpShutdownKind::Write)
    );

    let c = parse_command("sd 3 write".into()).unwrap();
    assert_eq!(
        c,
        Command::Shutdown(SocketDescriptor(3), TcpShutdownKind::Write)
    );

    let c = parse_command("sd 3 both".into()).unwrap();
    assert_eq!(
        c,
        Command::Shutdown(SocketDescriptor(3), TcpShutdownKind::ReadWrite)
    );
}

#[test]
fn parse_close_socket() {
    assert_eq!(
        parse_command("cl".into()).unwrap_err(),
        ParseCloseError::NoSocketDescriptor.into(),
    );

    assert_eq!(
        parse_command("cl xx".into()).unwrap_err(),
        ParseCloseError::InvalidSocketDescriptor.into(),
    );

    let c = parse_command("cl 33".into()).unwrap();
    assert_eq!(c, Command::Close(SocketDescriptor(33)));
}

#[test]
fn parse_send_file() {
    assert_eq!(
        parse_command("sf".into()).unwrap_err(),
        ParseSendFileError::NoFile.into(),
    );

    assert_eq!(
        parse_command("sf hello_world".into()).unwrap_err(),
        ParseSendFileError::NoIp.into(),
    );

    assert_eq!(
        parse_command("sf hello_world 121".into()).unwrap_err(),
        ParseSendFileError::InvalidIp.into(),
    );

    assert_eq!(
        parse_command("sf hello_world 1.2.3.4".into()).unwrap_err(),
        ParseSendFileError::NoPort.into(),
    );

    assert_eq!(
        parse_command("sf hello_world 1.2.3.4 xxx".into()).unwrap_err(),
        ParseSendFileError::InvalidPort.into(),
    );

    let c = parse_command("sf hello 1.2.3.4 3434".into()).unwrap();
    assert_eq!(
        c,
        Command::SendFile {
            path: "hello".into(),
            dest_ip: VirtualIp::new(1, 2, 3, 4),
            port: Port(3434)
        }
    );
}

#[test]
fn parse_recv_file() {
    assert_eq!(
        parse_command("rf".into()).unwrap_err(),
        ParseRecvFileError::NoFile.into()
    );

    assert_eq!(
        parse_command("rf hello".into()).unwrap_err(),
        ParseRecvFileError::NoPort.into()
    );

    assert_eq!(
        parse_command("rf hello xx".into()).unwrap_err(),
        ParseRecvFileError::InvalidPort.into()
    );

    let c = parse_command("rf hello 5000".into()).unwrap();
    assert_eq!(
        c,
        Command::RecvFile {
            out_path: "hello".into(),
            port: Port(5000)
        }
    );
}

#[test]
fn unknown_and_empty_lines() {
    assert_eq!(parse_command("".into()).unwrap(), Command::Empty);
    assert_eq!(parse_command("  \t ".into()).unwrap(), Command::Empty);
    assert_eq!(parse_command("frobnicate 1".into()).unwrap_err(), ParseError::Unknown);
    assert_eq!(parse_command("q".into()).unwrap(), Command::Quit);
    assert_eq!(parse_command(" li ".into()).unwrap(), Command::ListInterface(None));
    assert_eq!(
        parse_command("interfaces out.txt".into()).unwrap(),
        Command::ListInterface(Some("out.txt".into()))
    );
}
