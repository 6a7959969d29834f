use std::str;

use mikrotik_api::protocol::command::{Command, CommandBuffer, CommandBuilder, QueryOperator};

#[test]
fn test_command_builder_with_tag() {
    let tag = 1234;
    let builder = CommandBuilder::new(tag, &[]);
    assert_eq!(builder.tag, tag);
}

#[test]
fn test_command_builder_command() {
    let builder = CommandBuilder::new(1234, b"/interface/print");
    println!("{:?}", builder.cmd.0);
    assert_eq!(builder.cmd.0.len(), 27);
    assert_eq!(builder.cmd.0[1..17], b"/interface/print"[..]);
    assert_eq!(builder.cmd.0[18..27], b".tag=1234"[..]);
}

#[test]
fn test_command_builder_attribute() {
    let builder = CommandBuilder::new(1234, b"/interface/print").attribute(b"name", b"ether1");

    assert_eq!(builder.cmd.0[28..40], b"=name=ether1"[..]);
}

#[test]
fn test_command_builder_login() {
    let command = CommandBuilder::login(1, b"admin", Some(b"password"));

    assert!(str::from_utf8(&command.data).unwrap().contains("/login"));
    assert!(str::from_utf8(&command.data).unwrap().contains("name=admin"));
    assert!(str::from_utf8(&command.data).unwrap().contains("password=password"));
}

#[test]
fn test_command_builder_cancel() {
    let command = CommandBuilder::cancel(1234);

    assert!(str::from_utf8(&command.data).unwrap().contains("/cancel"));
    assert!(str::from_utf8(&command.data).unwrap().contains("tag=1234"));
}

#[test]
fn test_command_buffer_write_len() {
    let mut buffer = CommandBuffer::default();

    buffer.write_len(0x7F);
    assert_eq!(buffer.0, vec![0x7F]);

    buffer.0.clear();
    buffer.write_len(0x80);
    assert_eq!(buffer.0, vec![0x80, 0x80]);

    buffer.0.clear();
    buffer.write_len(0x4000);
    assert_eq!(buffer.0, vec![0xC0, 0x40, 0x00]);

    buffer.0.clear();
    buffer.write_len(0x200000);
    assert_eq!(buffer.0, vec![0xE0, 0x20, 0x00, 0x00]);

    buffer.0.clear();
    buffer.write_len(0x10000000);
    assert_eq!(buffer.0, vec![0xF0, 0x10, 0x00, 0x00, 0x00]);
}

#[test]
fn test_command_buffer_write_word() {
    let mut buffer = CommandBuffer::default();
    buffer.write_word(b"test");
    assert_eq!(buffer.0, vec![0x04, b't', b'e', b's', b't']);
}

#[test]
fn login_without_password_has_bare_flag_attribute() {
    let command = CommandBuilder::login(0, b"admin", None::<&[u8]>);

    // The word is exactly `=password=`: ten content bytes after a
    // one-byte size prefix of 10, with no value following the second `=`.
    let expected: &[u8] = b"\x0a=password=";
    let found = command
        .data
        .windows(expected.len())
        .any(|w| w == expected);
    assert!(found);
    // And no longer `=password=...` word with a value was written: the
    // next byte after the flag word is the terminator.
    assert_eq!(command.data[command.data.len() - 1], 0x00);
    assert!(str::from_utf8(&command.data).unwrap().ends_with("=password=\x00"));
}

#[test]
fn full_command_bytes_are_exact() {
    let command = CommandBuilder::new(1234, b"/interface/print")
        .attribute(b"name", b"ether1")
        .flag_attribute(b"disabled")
        .build();

    let expected: Vec<u8> = [
        &b"\x10/interface/print"[..],
        &b"\x09.tag=1234"[..],
        &b"\x0c=name=ether1"[..],
        &b"\x0a=disabled="[..],
        &b"\x00"[..],
    ]
    .concat();
    assert_eq!(command.data, expected);
}

#[test]
fn query_words_are_exact() {
    let builder = CommandBuilder::new(7, b"/interface/print")
        .query_is_present(b"comment")
        .query_not_present(b"disabled")
        .query_equal(b"name", b"ether1")
        .query_gt(b"mtu", b"1000")
        .query_lt(b"mtu", b"2000")
        .query_operations(&vec![
            QueryOperator::Not,
            QueryOperator::And,
            QueryOperator::Or,
            QueryOperator::Dot,
        ]);
    let text = str::from_utf8(&builder.cmd.0).unwrap().to_string();
    assert!(text.contains("?comment"));
    assert!(text.contains("?-disabled"));
    assert!(text.contains("?name=ether1"));
    assert!(text.contains("?>mtu=1000"));
    assert!(text.contains("?<mtu=2000"));
    assert!(text.contains("?#!&|."));
}

#[test]
fn query_operator_codes() {
    assert_eq!(QueryOperator::Not.code(), '!');
    assert_eq!(QueryOperator::And.code(), '&');
    assert_eq!(QueryOperator::Or.code(), '|');
    assert_eq!(QueryOperator::Dot.code(), '.');
}

#[test]
fn built_command_keeps_tag() {
    let command: Command = CommandBuilder::new(42, b"/system/resource/print").build();
    assert_eq!(command.tag, 42);
    assert_eq!(*command.data.last().unwrap(), 0x00);
}
