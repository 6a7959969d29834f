use mikrotik_api::protocol::command::{CommandBuffer, CommandBuilder};
use mikrotik_api::protocol::error::ProtocolError;
use mikrotik_api::protocol::word::{next_sentence, read_length, TrapCategory, Word, WordCategory, WordType};

fn encode_len(len: u32) -> Vec<u8> {
    let mut buffer = CommandBuffer::default();
    buffer.write_len(len);
    buffer.0
}

#[test]
fn length_prefix_round_trip() {
    let cases: [(u32, usize); 9] = [
        (0, 1),
        (0x7F, 1),
        (0x80, 2),
        (0x3FFF, 2),
        (0x4000, 3),
        (0x1FFFFF, 3),
        (0x200000, 4),
        (0xFFFFFFF, 4),
        (0x10000000, 5),
    ];
    for (len, width) in cases {
        let encoded = encode_len(len);
        assert_eq!(encoded.len(), width);
        assert_eq!(read_length(&encoded), Ok((len, width)));
        // Trailing bytes must not change what the prefix decodes to.
        let mut extended = encoded.clone();
        extended.push(0xAB);
        assert_eq!(read_length(&extended), Ok((len, width)));
    }
}

#[test]
fn length_prefix_truncated_is_incomplete() {
    assert_eq!(read_length(&[]), Err(ProtocolError::Incomplete));
    assert_eq!(read_length(&[0x80]), Err(ProtocolError::Incomplete));
    assert_eq!(read_length(&[0xC0, 0x40]), Err(ProtocolError::Incomplete));
    assert_eq!(read_length(&[0xE0, 0x20, 0x00]), Err(ProtocolError::Incomplete));
    assert_eq!(read_length(&[0xF0, 0x10, 0x00, 0x00]), Err(ProtocolError::Incomplete));
}

#[test]
fn length_prefix_invalid_leading_byte() {
    assert_eq!(read_length(&[0xF8]), Err(ProtocolError::PrefixLength));
    assert_eq!(read_length(&[0xFF, 0, 0, 0, 0]), Err(ProtocolError::PrefixLength));
}

#[test]
fn word_classification() {
    assert_eq!(Word::parse(b".tag=123"), Ok(Word::Tag(123)));
    assert_eq!(Word::parse(b".tag=0"), Ok(Word::Tag(0)));
    assert_eq!(Word::parse(b".tag=65535"), Ok(Word::Tag(65535)));
    assert_eq!(
        Word::parse(b"=name=ether1"),
        Ok(Word::Attribute { key: b"name".to_vec(), value: Some(b"ether1".to_vec()) })
    );
    assert_eq!(
        Word::parse(b"=disabled"),
        Ok(Word::Attribute { key: b"disabled".to_vec(), value: None })
    );
    assert_eq!(
        Word::parse(b"=disabled="),
        Ok(Word::Attribute { key: b"disabled".to_vec(), value: Some(Vec::new()) })
    );
    assert_eq!(Word::parse(b"!done"), Ok(Word::Category(WordCategory::Done)));
    assert_eq!(Word::parse(b"!re"), Ok(Word::Category(WordCategory::Reply)));
    assert_eq!(Word::parse(b"!trap"), Ok(Word::Category(WordCategory::Trap)));
    assert_eq!(Word::parse(b"!fatal"), Ok(Word::Category(WordCategory::Fatal)));
    assert_eq!(
        Word::parse(b"not connected"),
        Ok(Word::Message(b"not connected".to_vec()))
    );
    // A `.tag` word too short for the prefix rule is free text.
    assert_eq!(Word::parse(b".tag"), Ok(Word::Message(b".tag".to_vec())));
}

#[test]
fn word_classification_errors() {
    assert_eq!(
        Word::parse(b".tag=99999"),
        Err(ProtocolError::InvalidTag(b"99999".to_vec()))
    );
    assert_eq!(
        Word::parse(b".tag=12a"),
        Err(ProtocolError::InvalidTag(b"12a".to_vec()))
    );
    assert_eq!(
        Word::parse(b".tag="),
        Err(ProtocolError::InvalidTag(b"".to_vec()))
    );
    assert_eq!(
        Word::parse(b".tag=\xff1"),
        Err(ProtocolError::InvalidTagDigits(b"\xff1".to_vec()))
    );
    assert_eq!(
        Word::parse(b"!nope"),
        Err(ProtocolError::InvalidCategory(b"nope".to_vec()))
    );
}

#[test]
fn trap_category_codes() {
    assert_eq!(TrapCategory::parse(b"0"), Some(TrapCategory::MissingItemOrCommand));
    assert_eq!(TrapCategory::parse(b"1"), Some(TrapCategory::ArgumentValueFailure));
    assert_eq!(TrapCategory::parse(b"2"), Some(TrapCategory::ExecutionInterrupted));
    assert_eq!(TrapCategory::parse(b"3"), Some(TrapCategory::ScriptingError));
    assert_eq!(TrapCategory::parse(b"4"), Some(TrapCategory::GeneralError));
    assert_eq!(TrapCategory::parse(b"5"), Some(TrapCategory::ApiError));
    assert_eq!(TrapCategory::parse(b"6"), Some(TrapCategory::TtyError));
    assert_eq!(TrapCategory::parse(b"7"), Some(TrapCategory::ReturnValue));
    assert_eq!(TrapCategory::parse(b"8"), None);
    assert_eq!(TrapCategory::parse(b"00"), None);
    assert_eq!(TrapCategory::parse(b""), None);
}

#[test]
fn word_types() {
    assert_eq!(Word::Tag(1).word_type(), WordType::Tag);
    assert_eq!(Word::Category(WordCategory::Done).word_type(), WordType::Category);
    assert_eq!(
        Word::Attribute { key: Vec::new(), value: None }.word_type(),
        WordType::Attribute
    );
    assert_eq!(Word::Message(Vec::new()).word_type(), WordType::Message);
}

fn reply_sentence_bytes() -> Vec<u8> {
    [
        &b"\x03!re"[..],
        &b"\x06.tag=5"[..],
        &b"\x0c=name=ether1"[..],
        &b"\x00"[..],
    ]
    .concat()
}

#[test]
fn sentence_parse_complete() {
    let data = reply_sentence_bytes();
    let (words, consumed) = next_sentence(&data).unwrap();
    assert_eq!(consumed, data.len());
    assert_eq!(
        words,
        vec![
            Word::Category(WordCategory::Reply),
            Word::Tag(5),
            Word::Attribute { key: b"name".to_vec(), value: Some(b"ether1".to_vec()) },
        ]
    );
}

#[test]
fn sentence_parse_reports_remainder() {
    let mut data = reply_sentence_bytes();
    let full = data.len();
    data.extend_from_slice(b"\x05!done");
    let (_, consumed) = next_sentence(&data).unwrap();
    assert_eq!(consumed, full);
}

#[test]
fn sentence_truncated_anywhere_is_incomplete_and_resumes() {
    let data = reply_sentence_bytes();
    let (words, consumed) = next_sentence(&data).unwrap();
    for cut in 0..data.len() {
        // Truncated inside a prefix or payload: incomplete, not an error.
        let head = &data[..cut];
        assert_eq!(
            next_sentence(head),
            Err(ProtocolError::Incomplete),
            "cut at {cut}"
        );
        // Once the remaining bytes arrive, the identical sentence comes
        // out, no matter where the split occurred.
        let mut rejoined = head.to_vec();
        rejoined.extend_from_slice(&data[cut..]);
        let (words2, consumed2) = next_sentence(&rejoined).unwrap();
        assert_eq!(words2, words);
        assert_eq!(consumed2, consumed);
    }
}

#[test]
fn sentence_word_error_aborts() {
    let data: Vec<u8> = [&b"\x05!oops"[..], &b"\x00"[..]].concat();
    assert_eq!(
        next_sentence(&data),
        Err(ProtocolError::InvalidCategory(b"oops".to_vec()))
    );
}

#[test]
fn sentence_bad_prefix_aborts() {
    let data: Vec<u8> = vec![0xF9, 0x00];
    assert_eq!(next_sentence(&data), Err(ProtocolError::PrefixLength));
}

#[test]
fn encoded_command_replays_through_the_codec() {
    let command = CommandBuilder::new(77, b"/interface/print")
        .attribute(b"name", b"ether1")
        .build();
    let (words, consumed) = next_sentence(&command.data).unwrap();
    assert_eq!(consumed, command.data.len());
    assert_eq!(
        words,
        vec![
            Word::Message(b"/interface/print".to_vec()),
            Word::Tag(77),
            Word::Attribute { key: b"name".to_vec(), value: Some(b"ether1".to_vec()) },
        ]
    );
}
