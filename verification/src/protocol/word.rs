//! Words and sentences of the wire protocol: the variable-length size
//! prefix, classification of a byte slice into a typed word, and grouping of
//! words into terminated sentences.

use vstd::prelude::*;

use crate::protocol::error::{ProtoErrModel, ProtocolError};

verus! {

/// The kind of a response sentence, taken from its first word. The wire
/// forms are `!done`, `!re`, `!trap` and `!fatal`.
#[derive(Debug, Clone, Copy, PartialEq, Eq, Structural)]
pub enum WordCategory {
    /// A `!done` response: the command has no more results.
    Done,
    /// A `!re` response: one partial result.
    Reply,
    /// A `!trap` response: a recoverable error tied to a command.
    Trap,
    /// A `!fatal` response: the device is ending the session.
    Fatal,
}

/// The type of a word in a response.
#[derive(Debug, Copy, Clone, PartialEq, Eq, Structural)]
pub enum WordType {
    /// Tag word.
    Tag,
    /// Category word.
    Category,
    /// Attribute word.
    Attribute,
    /// Message word.
    Message,
}

/// A single decoded word. Byte payloads are owned copies of the relevant
/// slice of the read buffer.
#[derive(Debug, Clone, PartialEq)]
pub enum Word {
    /// A category word, such as `!done` or `!re`.
    Category(WordCategory),
    /// A tag word, such as `.tag=123`.
    Tag(u16),
    /// An attribute word, such as `=name=ether1` or the bare `=name=`.
    Attribute { key: Vec<u8>, value: Option<Vec<u8>> },
    /// An unrecognized word, usually a `!fatal` reason message.
    Message(Vec<u8>),
}

/// Mathematical model of a [`Word`]: byte payloads become sequences.
pub enum WordModel {
    /// A category word.
    Category(WordCategory),
    /// A tag word.
    Tag(u16),
    /// An attribute word.
    Attribute { key: Seq<u8>, value: Option<Seq<u8>> },
    /// A free-text word.
    Message(Seq<u8>),
}

impl View for Word {
    type V = WordModel;

    open spec fn view(&self) -> WordModel {
        match self {
            Word::Category(c) => WordModel::Category(*c),
            Word::Tag(t) => WordModel::Tag(*t),
            Word::Attribute { key, value } => WordModel::Attribute {
                key: key@,
                value: match value {
                    Some(v) => Some(v@),
                    None => None,
                },
            },
            Word::Message(m) => WordModel::Message(m@),
        }
    }
}

/// The [`WordType`] of a word model.
pub open spec fn model_type(w: WordModel) -> WordType {
    match w {
        WordModel::Category(_) => WordType::Category,
        WordModel::Tag(_) => WordType::Tag,
        WordModel::Attribute { .. } => WordType::Attribute,
        WordModel::Message(_) => WordType::Message,
    }
}

/// The views of a slice of words, in order.
pub open spec fn words_view(s: Seq<Word>) -> Seq<WordModel> {
    s.map_values(|w: Word| w@)
}

impl Word {
    /// The type of this word.
    pub fn word_type(&self) -> (t: WordType)
        ensures
            t == model_type(self@),
    {
        match self {
            Word::Category(_) => WordType::Category,
            Word::Tag(_) => WordType::Tag,
            Word::Attribute { .. } => WordType::Attribute,
            Word::Message(_) => WordType::Message,
        }
    }
}

/// The bytes of the word prefix `.tag=`.
pub open spec fn tag_prefix() -> Seq<u8> {
    seq![0x2eu8, 0x74u8, 0x61u8, 0x67u8, 0x3du8]
}

/// The category name `done`.
pub open spec fn done_name() -> Seq<u8> {
    seq![0x64u8, 0x6fu8, 0x6eu8, 0x65u8]
}

/// The category name `re`.
pub open spec fn re_name() -> Seq<u8> {
    seq![0x72u8, 0x65u8]
}

/// The category name `trap`.
pub open spec fn trap_name() -> Seq<u8> {
    seq![0x74u8, 0x72u8, 0x61u8, 0x70u8]
}

/// The category name `fatal`.
pub open spec fn fatal_name() -> Seq<u8> {
    seq![0x66u8, 0x61u8, 0x74u8, 0x61u8, 0x6cu8]
}

/// Every byte is ASCII.
pub open spec fn spec_is_ascii(d: Seq<u8>) -> bool {
    forall|i: int| 0 <= i < d.len() ==> d[i] < 0x80
}

/// Every byte is a decimal digit.
pub open spec fn spec_all_digits(d: Seq<u8>) -> bool {
    forall|i: int| 0 <= i < d.len() ==> 0x30 <= #[trigger] d[i] <= 0x39
}

/// The value of a sequence of decimal digit bytes.
pub open spec fn spec_dec_value(d: Seq<u8>) -> nat
    decreases d.len(),
{
    if d.len() == 0 {
        0
    } else {
        spec_dec_value(d.drop_last()) * 10 + (d.last() - 0x30) as nat
    }
}

/// The digit value grows, or stays, as digits are appended.
proof fn lemma_dec_value_mono(d: Seq<u8>, k: int, m: int)
    requires
        0 <= k <= m <= d.len(),
        forall|j: int| k <= j < m ==> d[j] >= 0x30,
    ensures
        spec_dec_value(d.take(k)) <= spec_dec_value(d.take(m)),
    decreases m - k,
{
    if k < m {
        lemma_dec_value_mono(d, k, m - 1);
        assert(d.take(m).drop_last() =~= d.take(m - 1));
        assert(spec_dec_value(d.take(m)) == spec_dec_value(d.take(m - 1)) * 10 + (d[m - 1]
            - 0x30) as nat);
    }
}

/// Classifies the digits of a `.tag=` word.
pub open spec fn spec_parse_tag_digits(d: Seq<u8>) -> Result<WordModel, ProtoErrModel> {
    if !spec_is_ascii(d) {
        Err(ProtoErrModel::InvalidTagDigits(d))
    } else if d.len() == 0 || !spec_all_digits(d) || spec_dec_value(d) > 0xFFFF {
        Err(ProtoErrModel::InvalidTag(d))
    } else {
        Ok(WordModel::Tag(spec_dec_value(d) as u16))
    }
}

/// The position of the first `=` byte in `c` at or after `i`, if any.
pub open spec fn spec_find_eq(c: Seq<u8>, i: int) -> Option<int>
    decreases c.len() - i,
{
    if i < 0 || i >= c.len() {
        None
    } else if c[i] == 0x3d {
        Some(i)
    } else {
        spec_find_eq(c, i + 1)
    }
}

/// The attribute word whose content (after the leading `=`) is `c`: the key
/// runs to the first further `=`, the value is what follows it, and a
/// content without a second `=` is a flag attribute with no value.
pub open spec fn spec_parse_attribute(c: Seq<u8>) -> WordModel {
    match spec_find_eq(c, 0) {
        Some(k) => WordModel::Attribute { key: c.take(k), value: Some(c.skip(k + 1)) },
        None => WordModel::Attribute { key: c, value: None },
    }
}

/// The category named by `c`, if `c` is one of the four valid names.
pub open spec fn spec_category_name(c: Seq<u8>) -> Option<WordCategory> {
    if c == done_name() {
        Some(WordCategory::Done)
    } else if c == re_name() {
        Some(WordCategory::Reply)
    } else if c == trap_name() {
        Some(WordCategory::Trap)
    } else if c == fatal_name() {
        Some(WordCategory::Fatal)
    } else {
        None
    }
}

/// Classifies a word's bytes by their prefix: `.tag=` starts a tag word,
/// `=` an attribute, `!` a category, and anything else is free text.
pub open spec fn spec_parse_word(b: Seq<u8>) -> Result<WordModel, ProtoErrModel> {
    if b.len() >= 5 && b.take(5) == tag_prefix() {
        spec_parse_tag_digits(b.skip(5))
    } else if b.len() >= 1 && b[0] == 0x3d {
        Ok(spec_parse_attribute(b.skip(1)))
    } else if b.len() >= 1 && b[0] == 0x21 {
        match spec_category_name(b.skip(1)) {
            Some(c) => Ok(WordModel::Category(c)),
            None => Err(ProtoErrModel::InvalidCategory(b.skip(1))),
        }
    } else {
        Ok(WordModel::Message(b))
    }
}

impl WordCategory {
    /// Recognizes a category name, or reports it as invalid.
    pub fn parse(value: &[u8]) -> (r: Result<WordCategory, ProtocolError>)
        ensures
            match spec_category_name(value@) {
                Some(c) => r matches Ok(x) && x == c,
                None => r matches Err(e) && e@ == ProtoErrModel::InvalidCategory(value@),
            },
    {
        if value.len() == 4 && value[0] == 0x64 && value[1] == 0x6f && value[2] == 0x6e && value[3]
            == 0x65 {
            proof {
                assert(value@ =~= done_name());
            }
            Ok(WordCategory::Done)
        } else if value.len() == 2 && value[0] == 0x72 && value[1] == 0x65 {
            proof {
                assert(value@ =~= re_name());
            }
            Ok(WordCategory::Reply)
        } else if value.len() == 4 && value[0] == 0x74 && value[1] == 0x72 && value[2] == 0x61
            && value[3] == 0x70 {
            proof {
                assert(value@ =~= trap_name());
            }
            Ok(WordCategory::Trap)
        } else if value.len() == 5 && value[0] == 0x66 && value[1] == 0x61 && value[2] == 0x74
            && value[3] == 0x61 && value[4] == 0x6c {
            proof {
                assert(value@ =~= fatal_name());
            }
            Ok(WordCategory::Fatal)
        } else {
            Err(ProtocolError::InvalidCategory(vstd::slice::slice_to_vec(value)))
        }
    }
}

/// Parses the digits of a `.tag=` word into a tag value.
fn parse_tag_digits(d: &[u8]) -> (r: Result<Word, ProtocolError>)
    ensures
        match spec_parse_tag_digits(d@) {
            Ok(m) => r matches Ok(w) && w@ == m,
            Err(m) => r matches Err(e) && e@ == m,
        },
{
    let len = d.len();
    let mut i: usize = 0;
    while i < len
        invariant
            0 <= i <= len,
            len == d@.len(),
            forall|j: int| 0 <= j < i ==> d@[j] < 0x80,
        decreases len - i,
    {
        if d[i] >= 0x80 {
            return Err(ProtocolError::InvalidTagDigits(vstd::slice::slice_to_vec(d)));
        }
        i += 1;
    }
    proof {
        assert(spec_is_ascii(d@));
    }
    if len == 0 {
        return Err(ProtocolError::InvalidTag(vstd::slice::slice_to_vec(d)));
    }
    let mut acc: u32 = 0;
    let mut i: usize = 0;
    while i < len
        invariant
            0 <= i <= len,
            1 <= len == d@.len(),
            spec_is_ascii(d@),
            spec_all_digits(d@.take(i as int)),
            acc == spec_dec_value(d@.take(i as int)),
            acc <= 0xFFFF,
        decreases len - i,
    {
        let b = d[i];
        if b < 0x30 || b > 0x39 {
            proof {
                assert(!(0x30 <= d@[i as int] <= 0x39));
                assert(!spec_all_digits(d@));
            }
            return Err(ProtocolError::InvalidTag(vstd::slice::slice_to_vec(d)));
        }
        acc = acc * 10 + (b - 0x30) as u32;
        proof {
            assert(d@.take(i + 1).drop_last() =~= d@.take(i as int));
        }
        i += 1;
        if acc > 0xFFFF {
            proof {
                if spec_all_digits(d@) {
                    lemma_dec_value_mono(d@, i as int, len as int);
                    assert(d@.take(len as int) =~= d@);
                }
            }
            return Err(ProtocolError::InvalidTag(vstd::slice::slice_to_vec(d)));
        }
    }
    proof {
        assert(d@.take(len as int) =~= d@);
    }
    Ok(Word::Tag(acc as u16))
}

/// The position of the first `=` byte in `c`, if any.
fn find_eq(c: &[u8]) -> (r: Option<usize>)
    ensures
        match spec_find_eq(c@, 0) {
            Some(k) => r matches Some(i) && i == k && k < c@.len(),
            None => r is None,
        },
{
    let len = c.len();
    let mut i: usize = 0;
    while i < len
        invariant
            0 <= i <= len,
            len == c@.len(),
            spec_find_eq(c@, 0) == spec_find_eq(c@, i as int),
        decreases len - i,
    {
        if c[i] == 0x3d {
            return Some(i);
        }
        i += 1;
    }
    None
}

impl Word {
    /// Classifies a byte slice into a typed word by its prefix: `.tag=`
    /// starts a tag word, `=` an attribute, `!` a category, and anything
    /// else is a free-text message.
    pub fn parse(value: &[u8]) -> (r: Result<Word, ProtocolError>)
        ensures
            match spec_parse_word(value@) {
                Ok(m) => r matches Ok(w) && w@ == m,
                Err(m) => r matches Err(e) && e@ == m,
            },
    {
        if value.len() >= 5 && value[0] == 0x2e && value[1] == 0x74 && value[2] == 0x61 && value[3]
            == 0x67 && value[4] == 0x3d {
            proof {
                assert(value@.take(5) =~= tag_prefix());
            }
            let digits = vstd::slice::slice_subrange(value, 5, value.len());
            proof {
                assert(digits@ =~= value@.skip(5));
            }
            parse_tag_digits(digits)
        } else {
            proof {
                if value@.len() >= 5 {
                    assert(value@.take(5) == tag_prefix() ==> (value@[0] == 0x2e && value@[1]
                        == 0x74 && value@[2] == 0x61 && value@[3] == 0x67 && value@[4] == 0x3d));
                }
            }
            if value.len() >= 1 && value[0] == 0x3d {
                let content = vstd::slice::slice_subrange(value, 1, value.len());
                proof {
                    assert(content@ =~= value@.skip(1));
                }
                match find_eq(content) {
                    Some(k) => {
                        let key = vstd::slice::slice_to_vec(
                            vstd::slice::slice_subrange(content, 0, k),
                        );
                        let val = vstd::slice::slice_to_vec(
                            vstd::slice::slice_subrange(content, k + 1, content.len()),
                        );
                        proof {
                            assert(key@ =~= content@.take(spec_find_eq(content@, 0)->Some_0));
                            assert(val@ =~= content@.skip(spec_find_eq(content@, 0)->Some_0 + 1));
                        }
                        Ok(Word::Attribute { key, value: Some(val) })
                    },
                    None => Ok(
                        Word::Attribute { key: vstd::slice::slice_to_vec(content), value: None },
                    ),
                }
            } else if value.len() >= 1 && value[0] == 0x21 {
                let name = vstd::slice::slice_subrange(value, 1, value.len());
                proof {
                    assert(name@ =~= value@.skip(1));
                }
                match WordCategory::parse(name) {
                    Ok(c) => Ok(Word::Category(c)),
                    Err(e) => Err(e),
                }
            } else {
                Ok(Word::Message(vstd::slice::slice_to_vec(value)))
            }
        }
    }
}

/// Result of decoding a length prefix from the front of a buffer.
pub enum LenModel {
    /// The buffer ends inside the prefix.
    Incomplete,
    /// The leading byte matches no size class.
    Invalid,
    /// A decoded length together with the number of prefix bytes read.
    Value { len: nat, width: nat },
}

/// Decodes the variable-length size prefix at the front of `d`.
///
/// The leading byte's high bits pick the size class: top bit clear is one
/// byte of raw value; `10` two bytes; `110` three; `1110` four; `11110` a
/// marker byte followed by the raw four-byte big-endian value. Any other
/// leading byte is invalid.
pub open spec fn spec_read_len(d: Seq<u8>) -> LenModel {
    if d.len() < 1 {
        LenModel::Incomplete
    } else if d[0] < 0x80 {
        LenModel::Value { len: d[0] as nat, width: 1 }
    } else if d[0] < 0xC0 {
        if d.len() < 2 {
            LenModel::Incomplete
        } else {
            LenModel::Value { len: ((d[0] - 0x80) * 0x100 + d[1]) as nat, width: 2 }
        }
    } else if d[0] < 0xE0 {
        if d.len() < 3 {
            LenModel::Incomplete
        } else {
            LenModel::Value {
                len: ((d[0] - 0xC0) * 0x10000 + d[1] * 0x100 + d[2]) as nat,
                width: 3,
            }
        }
    } else if d[0] < 0xF0 {
        if d.len() < 4 {
            LenModel::Incomplete
        } else {
            LenModel::Value {
                len: ((d[0] - 0xE0) * 0x1000000 + d[1] * 0x10000 + d[2] * 0x100 + d[3]) as nat,
                width: 4,
            }
        }
    } else if d[0] < 0xF8 {
        if d.len() < 5 {
            LenModel::Incomplete
        } else {
            LenModel::Value {
                len: (d[1] * 0x1000000 + d[2] * 0x10000 + d[3] * 0x100 + d[4]) as nat,
                width: 5,
            }
        }
    } else {
        LenModel::Invalid
    }
}

/// Encodes a word length as its size prefix, choosing the smallest class
/// that holds the value; lengths above the four-byte class get the marker
/// byte `0xF0` and the raw four-byte big-endian value.
pub open spec fn spec_encode_len(l: nat) -> Seq<u8> {
    if l <= 0x7F {
        seq![l as u8]
    } else if l <= 0x3FFF {
        seq![(0x80 + l / 0x100) as u8, (l % 0x100) as u8]
    } else if l <= 0x1FFFFF {
        seq![(0xC0 + l / 0x10000) as u8, ((l / 0x100) % 0x100) as u8, (l % 0x100) as u8]
    } else if l <= 0xFFFFFFF {
        seq![
            (0xE0 + l / 0x1000000) as u8,
            ((l / 0x10000) % 0x100) as u8,
            ((l / 0x100) % 0x100) as u8,
            (l % 0x100) as u8,
        ]
    } else {
        seq![
            0xF0u8,
            ((l / 0x1000000) % 0x100) as u8,
            ((l / 0x10000) % 0x100) as u8,
            ((l / 0x100) % 0x100) as u8,
            (l % 0x100) as u8,
        ]
    }
}

/// Round trip of the size prefix: decoding an encoded length, whatever
/// bytes follow it, returns the original value and the encoded width.
pub proof fn lemma_len_round_trip(l: nat, rest: Seq<u8>)
    requires
        l <= 0xFFFFFFFF,
    ensures
        spec_read_len(spec_encode_len(l) + rest) == (LenModel::Value {
            len: l,
            width: spec_encode_len(l).len(),
        }),
{
    let lu = l as u32;
    let e = spec_encode_len(l);
    let d = e + rest;
    if l <= 0x7F {
        assert(d[0] == l as u8);
    } else if l <= 0x3FFF {
        assert(d[0] == (0x80 + l / 0x100) as u8 && d[1] == (l % 0x100) as u8);
        assert(0x80 <= 0x80 + lu / 0x100 < 0xC0 && ((0x80 + lu / 0x100) - 0x80) * 0x100 + lu
            % 0x100 == lu) by (bit_vector)
            requires
                0x7F < lu <= 0x3FFF,
        ;
    } else if l <= 0x1FFFFF {
        assert(d[0] == (0xC0 + l / 0x10000) as u8 && d[1] == ((l / 0x100) % 0x100) as u8 && d[2]
            == (l % 0x100) as u8);
        assert(0xC0 <= 0xC0 + lu / 0x10000 < 0xE0 && ((0xC0 + lu / 0x10000) - 0xC0) * 0x10000 + ((
        lu / 0x100) % 0x100) * 0x100 + lu % 0x100 == lu) by (bit_vector)
            requires
                0x3FFF < lu <= 0x1FFFFF,
        ;
    } else if l <= 0xFFFFFFF {
        assert(d[0] == (0xE0 + l / 0x1000000) as u8 && d[1] == ((l / 0x10000) % 0x100) as u8 && d[2]
            == ((l / 0x100) % 0x100) as u8 && d[3] == (l % 0x100) as u8);
        assert(0xE0 <= 0xE0 + lu / 0x1000000 < 0xF0 && ((0xE0 + lu / 0x1000000) - 0xE0) * 0x1000000
            + ((lu / 0x10000) % 0x100) * 0x10000 + ((lu / 0x100) % 0x100) * 0x100 + lu % 0x100
            == lu) by (bit_vector)
            requires
                0x1FFFFF < lu <= 0xFFFFFFF,
        ;
    } else {
        assert(d[0] == 0xF0 && d[1] == ((l / 0x1000000) % 0x100) as u8 && d[2] == ((l / 0x10000)
            % 0x100) as u8 && d[3] == ((l / 0x100) % 0x100) as u8 && d[4] == (l % 0x100) as u8);
        assert(((lu / 0x1000000) % 0x100) * 0x1000000 + ((lu / 0x10000) % 0x100) * 0x10000 + ((lu
            / 0x100) % 0x100) * 0x100 + lu % 0x100 == lu) by (bit_vector)
            requires
                0xFFFFFFF < lu,
        ;
    }
}

/// Reads the length prefix at the front of `data`, returning the decoded
/// length and the number of prefix bytes consumed.
///
/// A buffer that ends inside the prefix yields [`ProtocolError::Incomplete`];
/// a leading byte outside every size class yields
/// [`ProtocolError::PrefixLength`].
pub fn read_length(data: &[u8]) -> (r: Result<(u32, usize), ProtocolError>)
    ensures
        match spec_read_len(data@) {
            LenModel::Value { len, width } => r matches Ok((l, w)) && l == len && w == width
                && 1 <= width <= data@.len(),
            LenModel::Incomplete => r matches Err(e) && e@ == ProtoErrModel::Incomplete,
            LenModel::Invalid => r matches Err(e) && e@ == ProtoErrModel::PrefixLength,
        },
{
    if data.len() < 1 {
        return Err(ProtocolError::Incomplete);
    }
    let b0 = data[0];
    if b0 < 0x80 {
        Ok((b0 as u32, 1))
    } else if b0 < 0xC0 {
        if data.len() < 2 {
            return Err(ProtocolError::Incomplete);
        }
        Ok((((b0 - 0x80) as u32) * 0x100 + data[1] as u32, 2))
    } else if b0 < 0xE0 {
        if data.len() < 3 {
            return Err(ProtocolError::Incomplete);
        }
        Ok((((b0 - 0xC0) as u32) * 0x10000 + (data[1] as u32) * 0x100 + data[2] as u32, 3))
    } else if b0 < 0xF0 {
        if data.len() < 4 {
            return Err(ProtocolError::Incomplete);
        }
        Ok(
            (
                ((b0 - 0xE0) as u32) * 0x1000000 + (data[1] as u32) * 0x10000 + (data[2] as u32)
                    * 0x100 + data[3] as u32,
                4,
            ),
        )
    } else if b0 < 0xF8 {
        if data.len() < 5 {
            return Err(ProtocolError::Incomplete);
        }
        Ok(
            (
                (data[1] as u32) * 0x1000000 + (data[2] as u32) * 0x10000 + (data[3] as u32) * 0x100
                    + data[4] as u32,
                5,
            ),
        )
    } else {
        Err(ProtocolError::PrefixLength)
    }
}

/// A decoded trap: a numeric category and a text message, both mandatory
/// on the wire.
#[derive(Debug, Clone, PartialEq)]
pub struct TrapResult {
    /// The trap's category.
    pub category: TrapCategory,
    /// The trap's message text.
    pub message: Vec<u8>,
}

/// The numeric category of a trap, decoded from its single-digit code.
#[derive(Debug, Copy, Clone, PartialEq, Eq, Structural)]
pub enum TrapCategory {
    /// Code 0: missing item or command.
    MissingItemOrCommand,
    /// Code 1: argument value failure.
    ArgumentValueFailure,
    /// Code 2: execution of a command interrupted.
    ExecutionInterrupted,
    /// Code 3: scripting related failure.
    ScriptingError,
    /// Code 4: general failure.
    GeneralError,
    /// Code 5: API related failure.
    ApiError,
    /// Code 6: TTY related failure.
    TtyError,
    /// Code 7: value generated with `:return`.
    ReturnValue,
}

/// The trap category a `category` attribute value names, if any.
pub open spec fn spec_trap_category(v: Seq<u8>) -> Option<TrapCategory> {
    if v.len() != 1 {
        None
    } else if v[0] == 0x30 {
        Some(TrapCategory::MissingItemOrCommand)
    } else if v[0] == 0x31 {
        Some(TrapCategory::ArgumentValueFailure)
    } else if v[0] == 0x32 {
        Some(TrapCategory::ExecutionInterrupted)
    } else if v[0] == 0x33 {
        Some(TrapCategory::ScriptingError)
    } else if v[0] == 0x34 {
        Some(TrapCategory::GeneralError)
    } else if v[0] == 0x35 {
        Some(TrapCategory::ApiError)
    } else if v[0] == 0x36 {
        Some(TrapCategory::TtyError)
    } else if v[0] == 0x37 {
        Some(TrapCategory::ReturnValue)
    } else {
        None
    }
}

impl TrapCategory {
    /// Decodes a trap category from its numeric code, a single decimal
    /// digit byte.
    pub fn parse(value: &[u8]) -> (r: Option<TrapCategory>)
        ensures
            r == spec_trap_category(value@),
    {
        if value.len() != 1 {
            return None;
        }
        match value[0] {
            0x30 => Some(TrapCategory::MissingItemOrCommand),
            0x31 => Some(TrapCategory::ArgumentValueFailure),
            0x32 => Some(TrapCategory::ExecutionInterrupted),
            0x33 => Some(TrapCategory::ScriptingError),
            0x34 => Some(TrapCategory::GeneralError),
            0x35 => Some(TrapCategory::ApiError),
            0x36 => Some(TrapCategory::TtyError),
            0x37 => Some(TrapCategory::ReturnValue),
            _ => None,
        }
    }
}

/// Result of parsing one sentence from the front of a buffer.
pub enum SentenceModel {
    /// The buffer ends before the terminator; wait for more bytes.
    Incomplete,
    /// A word or prefix failed to decode; the framing is untrustworthy.
    Error(ProtoErrModel),
    /// The words before the terminator, and the bytes consumed through it.
    Complete { words: Seq<WordModel>, consumed: int },
}

/// Parses one sentence from `d` starting at offset `i`: length-prefixed
/// words up to and including a zero-length terminator word.
pub open spec fn spec_sentence_from(d: Seq<u8>, i: int) -> SentenceModel
    decreases d.len() - i,
{
    if i < 0 || i > d.len() {
        SentenceModel::Incomplete
    } else {
        match spec_read_len(d.skip(i)) {
            LenModel::Incomplete => SentenceModel::Incomplete,
            LenModel::Invalid => SentenceModel::Error(ProtoErrModel::PrefixLength),
            LenModel::Value { len, width } => {
                if len == 0 {
                    SentenceModel::Complete { words: Seq::empty(), consumed: i + width }
                } else if i + width + len > d.len() {
                    SentenceModel::Incomplete
                } else {
                    match spec_parse_word(d.subrange(i + width, i + width + len)) {
                        Err(e) => SentenceModel::Error(e),
                        Ok(w) => match spec_sentence_from(d, i + width + len) {
                            SentenceModel::Complete { words, consumed } => SentenceModel::Complete {
                                words: seq![w] + words,
                                consumed,
                            },
                            other => other,
                        },
                    }
                }
            },
        }
    }
}

/// A complete sentence consumes at least one byte and no more than the
/// buffer holds.
pub proof fn lemma_sentence_consumed_bounds(d: Seq<u8>, i: int, words: Seq<WordModel>, consumed: int)
    requires
        0 <= i <= d.len(),
        spec_sentence_from(d, i) == (SentenceModel::Complete { words, consumed }),
    ensures
        i < consumed <= d.len(),
    decreases d.len() - i,
{
    let lm = spec_read_len(d.skip(i));
    match lm {
        LenModel::Value { len, width } => {
            if len == 0 {
            } else if i + width + len <= d.len() {
                let rest = spec_sentence_from(d, i + width + len);
                match rest {
                    SentenceModel::Complete { words: w2, consumed: c2 } => {
                        lemma_sentence_consumed_bounds(d, i + width + len, w2, c2);
                    },
                    _ => {},
                }
            }
        },
        _ => {},
    }
}

/// Reading a length prefix sees only bytes both buffers share.
proof fn lemma_read_len_agree(a: Seq<u8>, b: Seq<u8>, n: int)
    requires
        0 <= n <= a.len(),
        n <= b.len(),
        forall|j: int| 0 <= j < n ==> a[j] == b[j],
    ensures
        spec_read_len(a) is Value && spec_read_len(a)->Value_width <= n ==> spec_read_len(b)
            == spec_read_len(a),
        spec_read_len(a) is Invalid && n >= 1 ==> spec_read_len(b) is Invalid,
{
}

/// A buffer cut inside a length prefix reads as incomplete.
proof fn lemma_read_len_truncated(a: Seq<u8>, b: Seq<u8>)
    requires
        b.len() <= a.len(),
        forall|j: int| 0 <= j < b.len() ==> a[j] == b[j],
        spec_read_len(a) is Value,
        b.len() < spec_read_len(a)->Value_width,
    ensures
        spec_read_len(b) is Incomplete,
{
}

/// Parsing a sentence reads only the bytes it consumes: any buffer that
/// agrees on them parses to the same sentence. In particular, once the
/// bytes left unconsumed by one read are completed by the next, the
/// sentence produced is identical, regardless of where the split occurred.
pub proof fn lemma_sentence_agree(
    d1: Seq<u8>,
    d2: Seq<u8>,
    i: int,
    words: Seq<WordModel>,
    consumed: int,
)
    requires
        0 <= i <= d1.len(),
        spec_sentence_from(d1, i) == (SentenceModel::Complete { words, consumed }),
        consumed <= d2.len(),
        forall|j: int| i <= j < consumed ==> d1[j] == d2[j],
    ensures
        spec_sentence_from(d2, i) == (SentenceModel::Complete { words, consumed }),
    decreases d1.len() - i,
{
    lemma_sentence_consumed_bounds(d1, i, words, consumed);
    let a = d1.skip(i);
    let b = d2.skip(i);
    let lm = spec_read_len(a);
    match lm {
        LenModel::Value { len, width } => {
            if len == 0 {
                assert(consumed == i + width);
                lemma_read_len_agree(a, b, width as int);
            } else {
                let next = i + width + len;
                let rest = spec_sentence_from(d1, next);
                match rest {
                    SentenceModel::Complete { words: w2, consumed: c2 } => {
                        assert(c2 == consumed && words == seq![
                            spec_parse_word(d1.subrange(i + width, next))->Ok_0,
                        ] + w2);
                        lemma_sentence_consumed_bounds(d1, next, w2, c2);
                        lemma_read_len_agree(a, b, consumed - i);
                        assert(d1.subrange(i + width, next) =~= d2.subrange(i + width, next));
                        lemma_sentence_agree(d1, d2, next, w2, consumed);
                    },
                    _ => {
                        assert(false);
                    },
                }
            }
        },
        _ => {
            assert(false);
        },
    }
}

/// A buffer truncated anywhere strictly inside a sentence — inside a
/// word's prefix or payload, or before the terminator — parses as
/// incomplete, not as an error.
pub proof fn lemma_sentence_truncated(
    d: Seq<u8>,
    i: int,
    k: int,
    words: Seq<WordModel>,
    consumed: int,
)
    requires
        0 <= i <= d.len(),
        spec_sentence_from(d, i) == (SentenceModel::Complete { words, consumed }),
        i <= k < consumed,
    ensures
        spec_sentence_from(d.take(k), i) is Incomplete,
    decreases d.len() - i,
{
    lemma_sentence_consumed_bounds(d, i, words, consumed);
    let t = d.take(k);
    let a = d.skip(i);
    let b = t.skip(i);
    let lm = spec_read_len(a);
    match lm {
        LenModel::Value { len, width } => {
            if k < i + width {
                lemma_read_len_truncated(a, b);
            } else {
                lemma_read_len_agree(a, b, k - i);
                if len == 0 {
                    assert(false);
                } else {
                    let next = i + width + len;
                    if next > k {
                    } else {
                        let rest = spec_sentence_from(d, next);
                        match rest {
                            SentenceModel::Complete { words: w2, consumed: c2 } => {
                                assert(d.subrange(i + width, next) =~= t.subrange(
                                    i + width,
                                    next,
                                ));
                                lemma_sentence_truncated(d, next, k, w2, c2);
                            },
                            _ => {
                                assert(false);
                            },
                        }
                    }
                }
            }
        },
        _ => {
            assert(false);
        },
    }
}

/// Parses the next sentence from the front of `data`.
///
/// Returns the words before the terminator together with the number of
/// bytes consumed, terminator included. A buffer that ends before a
/// complete sentence yields [`ProtocolError::Incomplete`]; a word that
/// fails to decode aborts with that word's error.
pub fn next_sentence(data: &[u8]) -> (r: Result<(Vec<Word>, usize), ProtocolError>)
    ensures
        match spec_sentence_from(data@, 0) {
            SentenceModel::Complete { words, consumed } => r matches Ok((s, n)) && words_view(s@)
                == words && n == consumed,
            SentenceModel::Incomplete => r matches Err(e) && e@ == ProtoErrModel::Incomplete,
            SentenceModel::Error(m) => r matches Err(e) && e@ == m,
        },
{
    let mut sentence: Vec<Word> = Vec::new();
    let mut idx: usize = 0;
    proof {
        assert(words_view(sentence@) =~= Seq::<WordModel>::empty());
        match spec_sentence_from(data@, 0) {
            SentenceModel::Complete { words, consumed } => {
                assert(words_view(sentence@) + words =~= words);
            },
            _ => {},
        }
    }
    loop
        invariant
            0 <= idx <= data@.len(),
            match spec_sentence_from(data@, idx as int) {
                SentenceModel::Complete { words, consumed } => spec_sentence_from(data@, 0)
                    == (SentenceModel::Complete { words: words_view(sentence@) + words, consumed }),
                SentenceModel::Incomplete => spec_sentence_from(data@, 0) is Incomplete,
                SentenceModel::Error(m) => spec_sentence_from(data@, 0) == SentenceModel::Error(m),
            },
        decreases data@.len() - idx,
    {
        let tail = vstd::slice::slice_subrange(data, idx, data.len());
        proof {
            assert(tail@ =~= data@.skip(idx as int));
        }
        match read_length(tail) {
            Err(e) => {
                return Err(e);
            },
            Ok((len, width)) => {
                if len == 0 {
                    proof {
                        match spec_sentence_from(data@, idx as int) {
                            SentenceModel::Complete { words, consumed } => {
                                assert(words_view(sentence@) + words =~= words_view(sentence@));
                            },
                            _ => {},
                        }
                    }
                    return Ok((sentence, idx + width));
                }
                let remaining = data.len() - idx - width;
                if (len as usize) > remaining {
                    return Err(ProtocolError::Incomplete);
                }
                let start = idx + width;
                let end = start + len as usize;
                let wordbytes = vstd::slice::slice_subrange(data, start, end);
                proof {
                    assert(wordbytes@ =~= data@.subrange(start as int, end as int));
                }
                match Word::parse(wordbytes) {
                    Err(e) => {
                        return Err(e);
                    },
                    Ok(w) => {
                        proof {
                            assert(words_view(sentence@.push(w)) =~= words_view(sentence@) + seq![
                                w@,
                            ]);
                            match spec_sentence_from(data@, end as int) {
                                SentenceModel::Complete { words, consumed } => {
                                    assert(words_view(sentence@) + (seq![w@] + words)
                                        =~= (words_view(sentence@) + seq![w@]) + words);
                                },
                                _ => {},
                            }
                        }
                        sentence.push(w);
                        idx = end;
                    },
                }
            },
        }
    }
}

} // verus!
