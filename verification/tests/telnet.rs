use myterm::session::event_name;
use myterm::telnet::{
    process_telnet_bytes, telnet_port, telnet_reader_action, terminal_reader_action,
    ReadEvent, ReaderAction,
};

#[test]
fn plain_bytes_pass_through() {
    assert_eq!(process_telnet_bytes(b"login: "), (b"login: ".to_vec(), Vec::new()));
}

#[test]
fn negotiation_is_refused_in_a_reply_and_not_shown() {
    assert_eq!(
        process_telnet_bytes(&[0xFF, 0xFD, 24, b'h', b'i']),
        (b"hi".to_vec(), vec![0xFF, 0xFC, 24])
    );
    assert_eq!(process_telnet_bytes(&[0xFF, 0xFE, 1]), (Vec::new(), vec![0xFF, 0xFC, 1]));
    assert_eq!(process_telnet_bytes(&[0xFF, 0xFB, 3]), (Vec::new(), vec![0xFF, 0xFE, 3]));
    assert_eq!(process_telnet_bytes(&[0xFF, 0xFC, 3]), (Vec::new(), vec![0xFF, 0xFE, 3]));
    assert_eq!(
        process_telnet_bytes(&[b'a', 0xFF, 0xFB, 1, b'b', 0xFF, 0xFD, 31]),
        (b"ab".to_vec(), vec![0xFF, 0xFE, 1, 0xFF, 0xFC, 31])
    );
}

#[test]
fn other_commands_are_dropped_and_partial_ones_kept() {
    assert_eq!(process_telnet_bytes(&[b'x', 0xFF, 0xF1, b'y']), (vec![b'x', b'y'], Vec::new()));
    assert_eq!(process_telnet_bytes(&[0xFF, 0xFD]), (vec![0xFF, 0xFD], Vec::new()));
    assert_eq!(process_telnet_bytes(&[b'z', 0xFF]), (vec![b'z', 0xFF], Vec::new()));
}

#[test]
fn reader_decisions() {
    assert!(matches!(telnet_reader_action(ReadEvent::Nothing), ReaderAction::Exit));
    assert!(matches!(telnet_reader_action(ReadEvent::WouldBlock), ReaderAction::Wait));
    assert!(matches!(terminal_reader_action(ReadEvent::Nothing, false), ReaderAction::Wait));
    assert!(matches!(terminal_reader_action(ReadEvent::Nothing, true), ReaderAction::Exit));
    assert!(matches!(terminal_reader_action(ReadEvent::Data, true), ReaderAction::Emit));
    assert!(matches!(terminal_reader_action(ReadEvent::Failed, false), ReaderAction::Exit));
}

#[test]
fn ports_and_event_names() {
    assert_eq!(telnet_port(None), 23);
    assert_eq!(telnet_port(Some(2323)), 2323);
    assert_eq!(event_name("telnet-output", "abc"), "telnet-output-abc");
}
