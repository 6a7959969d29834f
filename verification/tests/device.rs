use mikrotik_api::device::{
    build_message, cancel_outstanding, is_login_confirmation, process_sentence, Delivery,
    ParsedMessage, SentenceEffect, TagCounter, TagTable,
};
use mikrotik_api::error::Error;
use mikrotik_api::protocol::error::{MissingWord, ProtocolError};
use mikrotik_api::protocol::word::{TrapCategory, Word, WordCategory, WordType};
use mikrotik_api::simple::SimpleResult;

fn attr(key: &[u8], value: Option<&[u8]>) -> Word {
    Word::Attribute { key: key.to_vec(), value: value.map(|v| v.to_vec()) }
}

fn table_with(entries: &[(u16, u64)]) -> TagTable {
    let mut table = TagTable::new();
    for (tag, slot) in entries {
        table.insert(*tag, *slot);
    }
    table
}

#[test]
fn done_removes_tag_and_later_references_fail() {
    let mut table = table_with(&[(5, 1), (9, 2)]);
    let sentence = vec![Word::Category(WordCategory::Done), Word::Tag(5)];
    let effect = process_sentence(&sentence, &mut table).unwrap();
    assert_eq!(effect, SentenceEffect::Completed { tag: 5 });
    assert!(!table.contains(5));
    assert!(table.contains(9));

    // No further delivery occurs to tag 5: a later reply for it is an
    // unknown-tag protocol error, not a delivery.
    let reply = vec![
        Word::Category(WordCategory::Reply),
        Word::Tag(5),
        attr(b"name", Some(b"ether1")),
    ];
    assert_eq!(
        process_sentence(&reply, &mut table),
        Err(ProtocolError::UnknownTag(5))
    );
}

#[test]
fn reply_delivers_attribute_list_to_the_tags_channel() {
    let mut table = table_with(&[(5, 7)]);
    let sentence = vec![
        Word::Category(WordCategory::Reply),
        Word::Tag(5),
        attr(b"name", Some(b"ether1")),
    ];
    let effect = process_sentence(&sentence, &mut table).unwrap();
    assert_eq!(
        effect,
        SentenceEffect::Deliver {
            tag: 5,
            slot: 7,
            payload: Delivery::Reply {
                attributes: vec![(b"name".to_vec(), Some(b"ether1".to_vec()))],
            },
        }
    );
    // The table keeps the entry: more replies may precede the done.
    assert!(table.contains(5));

    // The caller-side conversion sees exactly that attribute list.
    if let SentenceEffect::Deliver { payload, .. } = effect {
        let message: SimpleResult = build_message(payload);
        assert_eq!(
            message,
            SimpleResult::Sentence(vec![("name".to_string(), Some("ether1".to_string()))])
        );
    } else {
        unreachable!();
    }
}

#[test]
fn trap_without_category_delivers_protocol_error() {
    let mut table = table_with(&[(5, 3)]);
    let sentence = vec![
        Word::Category(WordCategory::Trap),
        Word::Tag(5),
        attr(b"message", Some(b"no such item")),
    ];
    let effect = process_sentence(&sentence, &mut table).unwrap();
    assert_eq!(
        effect,
        SentenceEffect::Deliver {
            tag: 5,
            slot: 3,
            payload: Delivery::Notice {
                error: Error::Protocol(ProtocolError::MissingCategoryInTrap),
            },
        }
    );
}

#[test]
fn trap_with_category_and_message_delivers_trap() {
    let mut table = table_with(&[(5, 3)]);
    let sentence = vec![
        Word::Category(WordCategory::Trap),
        Word::Tag(5),
        attr(b"category", Some(b"0")),
        attr(b"message", Some(b"no such command")),
    ];
    let effect = process_sentence(&sentence, &mut table).unwrap();
    match effect {
        SentenceEffect::Deliver { tag, slot, payload: Delivery::Trap { result } } => {
            assert_eq!(tag, 5);
            assert_eq!(slot, 3);
            assert_eq!(result.category, TrapCategory::MissingItemOrCommand);
            assert_eq!(result.message, b"no such command".to_vec());
            let message: SimpleResult = build_message(Delivery::Trap { result });
            assert_eq!(
                message,
                SimpleResult::Trap {
                    category: TrapCategory::MissingItemOrCommand,
                    message: "no such command".to_string(),
                }
            );
        }
        other => panic!("unexpected effect: {:?}", other),
    }
}

#[test]
fn trap_without_message_delivers_protocol_error() {
    let mut table = table_with(&[(5, 3)]);
    let sentence = vec![
        Word::Category(WordCategory::Trap),
        Word::Tag(5),
        attr(b"category", Some(b"4")),
    ];
    let effect = process_sentence(&sentence, &mut table).unwrap();
    assert_eq!(
        effect,
        SentenceEffect::Deliver {
            tag: 5,
            slot: 3,
            payload: Delivery::Notice {
                error: Error::Protocol(ProtocolError::MissingMessageInTrap),
            },
        }
    );
}

#[test]
fn trap_with_foreign_attribute_is_protocol_error() {
    let mut table = table_with(&[(5, 3)]);
    let sentence = vec![
        Word::Category(WordCategory::Trap),
        Word::Tag(5),
        attr(b"foo", Some(b"bar")),
    ];
    assert_eq!(
        process_sentence(&sentence, &mut table),
        Err(ProtocolError::InvalidAttributeInTrap(b"foo".to_vec()))
    );
}

#[test]
fn fatal_sentence_signals_shutdown() {
    let mut table = table_with(&[(5, 3)]);
    let sentence = vec![
        Word::Category(WordCategory::Fatal),
        Word::Message(b"session terminated".to_vec()),
    ];
    assert_eq!(
        process_sentence(&sentence, &mut table),
        Ok(SentenceEffect::Fatal)
    );
    assert!(table.contains(5));
}

#[test]
fn sentence_sequencing_violations() {
    let mut table = TagTable::new();
    assert_eq!(
        process_sentence(&Vec::new(), &mut table),
        Err(ProtocolError::IncompleteSentence(MissingWord::Category))
    );
    assert_eq!(
        process_sentence(&vec![Word::Tag(5)], &mut table),
        Err(ProtocolError::WordSequence(WordType::Tag))
    );
    assert_eq!(
        process_sentence(&vec![Word::Category(WordCategory::Done)], &mut table),
        Err(ProtocolError::IncompleteSentence(MissingWord::Tag))
    );
    assert_eq!(
        process_sentence(
            &vec![Word::Category(WordCategory::Done), Word::Message(b"x".to_vec())],
            &mut table
        ),
        Err(ProtocolError::WordSequence(WordType::Message))
    );
    assert_eq!(
        process_sentence(
            &vec![
                Word::Category(WordCategory::Reply),
                Word::Tag(5),
                Word::Category(WordCategory::Done),
            ],
            &mut table
        ),
        Err(ProtocolError::WordSequence(WordType::Category))
    );
    // A reply with no tag word at all cannot be routed.
    assert_eq!(
        process_sentence(
            &vec![Word::Category(WordCategory::Reply), attr(b"a", Some(b"b"))],
            &mut table
        ),
        Err(ProtocolError::IncompleteSentence(MissingWord::Tag))
    );
}

#[test]
fn read_error_notifies_every_outstanding_tag_once() {
    let mut table = table_with(&[(1, 10), (2, 20), (3, 30)]);
    let drained = table.drain();
    assert_eq!(table.len(), 0);
    assert_eq!(drained.len(), 3);
    let mut tags: Vec<u16> = drained.iter().map(|p| p.0).collect();
    tags.sort();
    assert_eq!(tags, vec![1, 2, 3]);
    let mut slots: Vec<u64> = drained.iter().map(|p| p.1).collect();
    slots.sort();
    assert_eq!(slots, vec![10, 20, 30]);
    // Each drained entry carries one error notification to its channel.
    for _ in &drained {
        let message: SimpleResult =
            SimpleResult::process_error(&Error::Io("connection reset".to_string()));
        assert_eq!(
            message,
            SimpleResult::Error(Error::Io("connection reset".to_string()))
        );
    }
}

#[test]
fn dropping_the_handle_cancels_every_outstanding_tag() {
    let mut table = table_with(&[(11, 1), (22, 2), (33, 3)]);
    let cancels = cancel_outstanding(&mut table);
    assert_eq!(table.len(), 0);
    assert_eq!(cancels.len(), 3);
    let mut tags: Vec<u16> = cancels.iter().map(|c| c.tag).collect();
    tags.sort();
    assert_eq!(tags, vec![11, 22, 33]);
    for command in &cancels {
        let text = String::from_utf8(command.data.clone()).unwrap();
        assert!(text.contains("/cancel"));
        assert!(text.contains(&format!("tag={}", command.tag)));
    }
}

#[test]
fn tag_table_insert_get_remove() {
    let mut table = TagTable::new();
    assert_eq!(table.len(), 0);
    table.insert(5, 100);
    assert_eq!(table.get(5), Some(100));
    assert_eq!(table.len(), 1);
    // Reinserting the same tag replaces its slot: one entry per tag.
    table.insert(5, 200);
    assert_eq!(table.get(5), Some(200));
    assert_eq!(table.len(), 1);
    table.remove(5);
    assert_eq!(table.get(5), None);
    assert_eq!(table.len(), 0);
    // Removing an absent tag is harmless.
    table.remove(5);
    assert_eq!(table.len(), 0);
}

#[test]
fn tag_counter_wraps() {
    let mut counter = TagCounter::new();
    assert_eq!(counter.advance(), 0);
    assert_eq!(counter.advance(), 1);
    counter.next = 0xFFFF;
    assert_eq!(counter.advance(), 0xFFFF);
    assert_eq!(counter.advance(), 0);
}

#[test]
fn login_confirmation_shape() {
    assert!(is_login_confirmation(&vec![
        Word::Category(WordCategory::Done),
        Word::Tag(0),
    ]));
    assert!(!is_login_confirmation(&vec![Word::Category(WordCategory::Done)]));
    assert!(!is_login_confirmation(&vec![
        Word::Category(WordCategory::Trap),
        Word::Tag(0),
    ]));
    assert!(!is_login_confirmation(&vec![
        Word::Category(WordCategory::Done),
        Word::Tag(0),
        attr(b"extra", None),
    ]));
    assert!(!is_login_confirmation(&vec![Word::Tag(0), Word::Tag(1)]));
}

#[test]
fn latin1_attribute_text_is_decoded_not_copied() {
    // 0xE9 is no valid UTF-8 on its own; Latin-1 decoding must map it to
    // the single character it names.
    let attributes = vec![(vec![0xE9u8], Some(vec![0x61u8, 0xFCu8]))];
    let message = SimpleResult::parse_message(&attributes);
    assert_eq!(
        message,
        SimpleResult::Sentence(vec![("\u{e9}".to_string(), Some("a\u{fc}".to_string()))])
    );
}
