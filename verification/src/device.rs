//! The decision core of the connection actor: the table of outstanding
//! tags, sentence routing, and the broadcast and cancel rules that run on
//! termination.
//!
//! One background task owns the socket and this state; callers reach it
//! only through queues. The task's outside work — reading, writing,
//! awaiting — stays with the caller of these functions, which decide, for
//! every event, how the table changes and what must be delivered where.

use vstd::prelude::*;

use crate::error::{Error, ErrorModel};
use crate::protocol::command::{spec_cancel_command, Command, CommandBuilder};
use crate::protocol::error::{MissingWord, ProtoErrModel, ProtocolError};
use crate::protocol::word::{
    model_type, spec_trap_category, words_view, TrapCategory, TrapResult, Word, WordCategory,
    WordModel, WordType,
};

verus! {

/// A caller-supplied conversion from raw protocol outcomes to the
/// caller's own response type: one conversion for a reply's attribute
/// list, one for a connection-level error, one for a trap.
pub trait ParsedMessage: Sized {
    /// Builds a response from a reply's (key, optional value) attribute
    /// pairs.
    fn parse_message(attributes: &Vec<(Vec<u8>, Option<Vec<u8>>)>) -> Self;

    /// Builds a response from a connection-level error.
    fn process_error(error: &Error) -> Self;

    /// Builds a response from a trap.
    fn process_trap(result: TrapResult) -> Self;
}

/// Whether all keys in an association list are distinct.
pub open spec fn spec_keys_distinct(s: Seq<(u16, u64)>) -> bool {
    forall|i: int, j: int| 0 <= i < j < s.len() ==> (#[trigger] s[i]).0 != (#[trigger] s[j]).0
}

/// The map an association list stands for; later entries win.
pub open spec fn spec_as_map(s: Seq<(u16, u64)>) -> Map<u16, u64>
    decreases s.len(),
{
    if s.len() == 0 {
        Map::empty()
    } else {
        spec_as_map(s.drop_last()).insert(s.last().0, s.last().1)
    }
}

proof fn lemma_as_map_contains(s: Seq<(u16, u64)>, k: u16)
    ensures
        spec_as_map(s).dom().contains(k) <==> exists|i: int|
            0 <= i < s.len() && (#[trigger] s[i]).0 == k,
    decreases s.len(),
{
    if s.len() > 0 {
        let t = s.drop_last();
        lemma_as_map_contains(t, k);
        if spec_as_map(s).dom().contains(k) {
            if k == s.last().0 {
                assert(s[s.len() - 1].0 == k);
            } else {
                let i = choose|i: int| 0 <= i < t.len() && (#[trigger] t[i]).0 == k;
                assert(s[i].0 == k);
            }
        }
        if exists|i: int| 0 <= i < s.len() && (#[trigger] s[i]).0 == k {
            let i = choose|i: int| 0 <= i < s.len() && (#[trigger] s[i]).0 == k;
            if i < s.len() - 1 {
                assert(t[i].0 == k);
            }
        }
    }
}

proof fn lemma_as_map_get(s: Seq<(u16, u64)>, i: int)
    requires
        spec_keys_distinct(s),
        0 <= i < s.len(),
    ensures
        spec_as_map(s).dom().contains(s[i].0),
        spec_as_map(s)[s[i].0] == s[i].1,
    decreases s.len(),
{
    if i < s.len() - 1 {
        let t = s.drop_last();
        lemma_as_map_get(t, i);
        assert(s[s.len() - 1].0 != s[i].0);
    }
}

proof fn lemma_as_map_len(s: Seq<(u16, u64)>)
    requires
        spec_keys_distinct(s),
    ensures
        spec_as_map(s).dom().finite(),
        spec_as_map(s).dom().len() == s.len(),
    decreases s.len(),
{
    if s.len() > 0 {
        let t = s.drop_last();
        lemma_as_map_len(t);
        lemma_as_map_contains(t, s.last().0);
        assert(forall|i: int| 0 <= i < t.len() ==> (#[trigger] t[i]).0 == s[i].0);
        vstd::set::axiom_set_insert_len(spec_as_map(t).dom(), s.last().0);
    }
}

proof fn lemma_as_map_update(s: Seq<(u16, u64)>, i: int, v: u64)
    requires
        spec_keys_distinct(s),
        0 <= i < s.len(),
    ensures
        spec_keys_distinct(s.update(i, (s[i].0, v))),
        spec_as_map(s.update(i, (s[i].0, v))) == spec_as_map(s).insert(s[i].0, v),
    decreases s.len(),
{
    let k = s[i].0;
    let s2 = s.update(i, (k, v));
    if i == s.len() - 1 {
        assert(s2.drop_last() =~= s.drop_last());
        assert(spec_as_map(s2) =~= spec_as_map(s).insert(k, v));
    } else {
        let t = s.drop_last();
        lemma_as_map_update(t, i, v);
        assert(s2.drop_last() =~= t.update(i, (k, v)));
        assert(s.last().0 != k);
        assert(spec_as_map(s2) =~= spec_as_map(s).insert(k, v));
    }
}

proof fn lemma_as_map_push(s: Seq<(u16, u64)>, k: u16, v: u64)
    ensures
        spec_as_map(s.push((k, v))) == spec_as_map(s).insert(k, v),
{
    assert(s.push((k, v)).drop_last() =~= s);
}

proof fn lemma_as_map_remove(s: Seq<(u16, u64)>, i: int)
    requires
        spec_keys_distinct(s),
        0 <= i < s.len(),
    ensures
        spec_keys_distinct(s.remove(i)),
        spec_as_map(s.remove(i)) == spec_as_map(s).remove(s[i].0),
    decreases s.len(),
{
    let k = s[i].0;
    let s2 = s.remove(i);
    if i == s.len() - 1 {
        assert(s2 =~= s.drop_last());
        lemma_as_map_contains(s.drop_last(), k);
        assert(spec_as_map(s2) =~= spec_as_map(s).remove(k));
    } else {
        let t = s.drop_last();
        lemma_as_map_remove(t, i);
        assert(s2.drop_last() =~= t.remove(i));
        assert(s2.last() == s.last());
        assert(s.last().0 != k);
        assert(spec_as_map(s2) =~= spec_as_map(s).remove(k));
    }
}

/// The table of outstanding commands: one entry per in-flight tag,
/// mapping it to the caller-side channel slot that receives its results.
/// At most one entry per tag exists at any time.
#[derive(Debug)]
pub struct TagTable {
    entries: Vec<(u16, u64)>,
}

impl View for TagTable {
    type V = Map<u16, u64>;

    closed spec fn view(&self) -> Map<u16, u64> {
        spec_as_map(self.entries@)
    }
}

impl TagTable {
    /// The table's invariant: no tag occurs twice.
    pub closed spec fn wf(&self) -> bool {
        spec_keys_distinct(self.entries@)
    }

    /// An empty table.
    pub fn new() -> (r: TagTable)
        ensures
            r.wf(),
            r@ == Map::<u16, u64>::empty(),
    {
        TagTable { entries: Vec::new() }
    }

    /// The position of `tag` among the entries, if present.
    fn position(&self, tag: u16) -> (r: Option<usize>)
        ensures
            match r {
                Some(i) => i < self.entries@.len() && self.entries@[i as int].0 == tag,
                None => forall|i: int|
                    0 <= i < self.entries@.len() ==> (#[trigger] self.entries@[i]).0 != tag,
            },
    {
        let mut i: usize = 0;
        let len = self.entries.len();
        while i < len
            invariant
                0 <= i <= len,
                len == self.entries@.len(),
                forall|j: int| 0 <= j < i ==> (#[trigger] self.entries@[j]).0 != tag,
            decreases len - i,
        {
            if self.entries[i].0 == tag {
                return Some(i);
            }
            i += 1;
        }
        None
    }

    /// Whether `tag` has an outstanding entry.
    pub fn contains(&self, tag: u16) -> (r: bool)
        ensures
            r == self@.dom().contains(tag),
    {
        proof {
            lemma_as_map_contains(self.entries@, tag);
        }
        self.position(tag).is_some()
    }

    /// The channel slot of `tag`, if it has an outstanding entry.
    pub fn get(&self, tag: u16) -> (r: Option<u64>)
        requires
            self.wf(),
        ensures
            match r {
                Some(slot) => self@.dom().contains(tag) && self@[tag] == slot,
                None => !self@.dom().contains(tag),
            },
    {
        proof {
            lemma_as_map_contains(self.entries@, tag);
        }
        match self.position(tag) {
            Some(i) => {
                proof {
                    lemma_as_map_get(self.entries@, i as int);
                }
                Some(self.entries[i].1)
            },
            None => None,
        }
    }

    /// Registers `tag` as outstanding, delivering to `slot`. An existing
    /// entry for the same tag is replaced.
    pub fn insert(&mut self, tag: u16, slot: u64)
        requires
            old(self).wf(),
        ensures
            final (self).wf(),
            final (self)@ == old(self)@.insert(tag, slot),
    {
        match self.position(tag) {
            Some(i) => {
                proof {
                    lemma_as_map_update(self.entries@, i as int, slot);
                }
                self.entries.set(i, (tag, slot));
            },
            None => {
                proof {
                    lemma_as_map_push(self.entries@, tag, slot);
                    assert(spec_keys_distinct(self.entries@.push((tag, slot))));
                }
                self.entries.push((tag, slot));
            },
        }
    }

    /// Removes `tag`'s entry, if present.
    pub fn remove(&mut self, tag: u16)
        requires
            old(self).wf(),
        ensures
            final (self).wf(),
            final (self)@ == old(self)@.remove(tag),
    {
        match self.position(tag) {
            Some(i) => {
                proof {
                    lemma_as_map_remove(self.entries@, i as int);
                }
                self.entries.remove(i);
            },
            None => {
                proof {
                    lemma_as_map_contains(self.entries@, tag);
                    assert(self@ =~= self@.remove(tag));
                }
            },
        }
    }

    /// The number of outstanding tags.
    pub fn len(&self) -> (r: usize)
        requires
            self.wf(),
        ensures
            r == self@.dom().len(),
    {
        proof {
            lemma_as_map_len(self.entries@);
        }
        self.entries.len()
    }

    /// Empties the table, returning every (tag, slot) pair exactly once:
    /// one pair for each tag that was outstanding, in table order.
    pub fn drain(&mut self) -> (r: Vec<(u16, u64)>)
        requires
            old(self).wf(),
        ensures
            final (self).wf(),
            final (self)@ == Map::<u16, u64>::empty(),
            r@.len() == old(self)@.dom().len(),
            forall|i: int|
                0 <= i < r@.len() ==> old(self)@.contains_pair(
                    (#[trigger] r@[i]).0,
                    r@[i].1,
                ),
            forall|i: int, j: int|
                0 <= i < j < r@.len() ==> (#[trigger] r@[i]).0 != (#[trigger] r@[j]).0,
            forall|t: u16|
                #[trigger] old(self)@.dom().contains(t) ==> exists|i: int|
                    0 <= i < r@.len() && (#[trigger] r@[i]).0 == t,
    {
        let mut out: Vec<(u16, u64)> = Vec::new();
        core::mem::swap(&mut self.entries, &mut out);
        proof {
            lemma_as_map_len(out@);
            assert forall|i: int| 0 <= i < out@.len() implies old(self)@.contains_pair(
                (#[trigger] out@[i]).0,
                out@[i].1,
            ) by {
                lemma_as_map_get(out@, i);
            }
            assert forall|t: u16| #[trigger]
                old(self)@.dom().contains(t) implies exists|i: int|
                0 <= i < out@.len() && (#[trigger] out@[i]).0 == t by {
                lemma_as_map_contains(out@, t);
            }
        }
        out
    }
}

/// The client-chosen wrapping counter that assigns tags to new commands,
/// incremented independently of in-flight state.
#[derive(Debug)]
pub struct TagCounter {
    /// The tag the next command will get.
    pub next: u16,
}

impl TagCounter {
    /// A counter that starts at zero.
    pub fn new() -> (r: TagCounter)
        ensures
            r.next == 0,
    {
        TagCounter { next: 0 }
    }

    /// Returns the next tag and advances the counter, wrapping after
    /// the full tag space is used.
    pub fn advance(&mut self) -> (t: u16)
        ensures
            t == old(self).next,
            final (self).next == (if old(self).next == 0xFFFF {
                0u16
            } else {
                (old(self).next + 1) as u16
            }),
    {
        let t = self.next;
        if self.next == 0xFFFF {
            self.next = 0;
        } else {
            self.next = self.next + 1;
        }
        t
    }
}

/// The attribute key `category`.
pub open spec fn spec_category_key() -> Seq<u8> {
    seq![0x63u8, 0x61u8, 0x74u8, 0x65u8, 0x67u8, 0x6fu8, 0x72u8, 0x79u8]
}

/// The attribute key `message`.
pub open spec fn spec_message_key() -> Seq<u8> {
    seq![0x6du8, 0x65u8, 0x73u8, 0x73u8, 0x61u8, 0x67u8, 0x65u8]
}

/// The views of an attribute list's (key, optional value) byte pairs.
pub open spec fn attrs_view(s: Seq<(Vec<u8>, Option<Vec<u8>>)>) -> Seq<(Seq<u8>, Option<Seq<u8>>)> {
    s.map_values(
        |p: (Vec<u8>, Option<Vec<u8>>)|
            (
                p.0@,
                match p.1 {
                    Some(v) => Some(v@),
                    None => None::<Seq<u8>>,
                },
            ),
    )
}

/// What a routed sentence delivers to its tag's channel.
#[derive(Debug, PartialEq)]
pub enum Delivery {
    /// A reply's attribute list, in arrival order.
    Reply { attributes: Vec<(Vec<u8>, Option<Vec<u8>>)> },
    /// A decoded trap.
    Trap { result: TrapResult },
    /// An error delivered in place of a result, such as a trap that
    /// lacks its mandatory attributes.
    Notice { error: Error },
}

/// Mathematical model of a [`Delivery`].
pub enum DeliveryModel {
    /// A reply's attribute list.
    Reply(Seq<(Seq<u8>, Option<Seq<u8>>)>),
    /// A decoded trap.
    Trap { category: TrapCategory, message: Seq<u8> },
    /// An error delivered in place of a result.
    Notice(ErrorModel),
}

impl View for Delivery {
    type V = DeliveryModel;

    open spec fn view(&self) -> DeliveryModel {
        match self {
            Delivery::Reply { attributes } => DeliveryModel::Reply(attrs_view(attributes@)),
            Delivery::Trap { result } => DeliveryModel::Trap {
                category: result.category,
                message: result.message@,
            },
            Delivery::Notice { error } => DeliveryModel::Notice(error@),
        }
    }
}

/// What one parsed sentence does to the connection.
#[derive(Debug, PartialEq)]
pub enum SentenceEffect {
    /// A `!done` sentence: the tag's command has no more results and its
    /// entry left the table.
    Completed { tag: u16 },
    /// A `!re` or `!trap` sentence: deliver the payload to the tag's
    /// channel slot.
    Deliver { tag: u16, slot: u64, payload: Delivery },
    /// A `!fatal` sentence: the device is ending the session.
    Fatal,
}

/// Mathematical model of a [`SentenceEffect`].
pub enum EffectModel {
    /// A `!done` sentence removed the tag's entry.
    Completed { tag: u16 },
    /// Deliver the payload to the tag's channel slot.
    Deliver { tag: u16, slot: u64, payload: DeliveryModel },
    /// The device is ending the session.
    Fatal,
}

impl View for SentenceEffect {
    type V = EffectModel;

    open spec fn view(&self) -> EffectModel {
        match self {
            SentenceEffect::Completed { tag } => EffectModel::Completed { tag: *tag },
            SentenceEffect::Deliver { tag, slot, payload } => EffectModel::Deliver {
                tag: *tag,
                slot: *slot,
                payload: payload@,
            },
            SentenceEffect::Fatal => EffectModel::Fatal,
        }
    }
}

/// Scans the words after a `!re` category: tag and attribute words are
/// collected (a later tag word wins), any category or message word is a
/// sequencing violation.
pub open spec fn spec_scan_reply(ws: Seq<WordModel>) -> Result<
    (Option<u16>, Seq<(Seq<u8>, Option<Seq<u8>>)>),
    ProtoErrModel,
>
    decreases ws.len(),
{
    if ws.len() == 0 {
        Ok((None, Seq::empty()))
    } else {
        match spec_scan_reply(ws.drop_last()) {
            Err(e) => Err(e),
            Ok((t, attrs)) => match ws.last() {
                WordModel::Category(_) => Err(
                    ProtoErrModel::WordSequence(WordType::Category),
                ),
                WordModel::Message(_) => Err(
                    ProtoErrModel::WordSequence(WordType::Message),
                ),
                WordModel::Tag(x) => Ok((Some(x), attrs)),
                WordModel::Attribute { key, value } => Ok((t, attrs.push((key, value)))),
            },
        }
    }
}

/// Scans the words after a `!trap` category: collects the tag, the
/// decoded `category` attribute and the `message` attribute; any other
/// attribute key, or a `category` attribute without a value, is invalid,
/// and any category or message word is a sequencing violation.
pub open spec fn spec_scan_trap(ws: Seq<WordModel>) -> Result<
    (Option<u16>, Option<TrapCategory>, Option<Seq<u8>>),
    ProtoErrModel,
>
    decreases ws.len(),
{
    if ws.len() == 0 {
        Ok((None, None, None))
    } else {
        match spec_scan_trap(ws.drop_last()) {
            Err(e) => Err(e),
            Ok((t, c, m)) => match ws.last() {
                WordModel::Category(_) => Err(
                    ProtoErrModel::WordSequence(WordType::Category),
                ),
                WordModel::Message(_) => Err(
                    ProtoErrModel::WordSequence(WordType::Message),
                ),
                WordModel::Tag(x) => Ok((Some(x), c, m)),
                WordModel::Attribute { key, value } => {
                    if key == spec_category_key() {
                        match value {
                            Some(v) => Ok(
                                (
                                    t,
                                    match spec_trap_category(v) {
                                        Some(cat) => Some(cat),
                                        None => c,
                                    },
                                    m,
                                ),
                            ),
                            None => Err(ProtoErrModel::InvalidAttributeInTrap(key)),
                        }
                    } else if key == spec_message_key() {
                        Ok((t, c, value))
                    } else {
                        Err(ProtoErrModel::InvalidAttributeInTrap(key))
                    }
                },
            },
        }
    }
}

/// Routes a payload to the channel of the sentence's tag: a sentence
/// without a tag word, or with a tag that has no outstanding entry, is a
/// protocol error.
pub open spec fn spec_route(
    tag: Option<u16>,
    payload: DeliveryModel,
    table: Map<u16, u64>,
) -> Result<EffectModel, ProtoErrModel> {
    match tag {
        None => Err(ProtoErrModel::IncompleteSentence(MissingWord::Tag)),
        Some(t) => if table.dom().contains(t) {
            Ok(EffectModel::Deliver { tag: t, slot: table[t], payload })
        } else {
            Err(ProtoErrModel::UnknownTag(t))
        },
    }
}

/// What one parsed sentence does to the table of outstanding tags, and
/// what it asks the caller to deliver or conclude.
///
/// A `!done` sentence must carry a tag word next; its entry leaves the
/// table. A `!re` sentence delivers its attribute list to its tag. A
/// `!trap` sentence delivers a decoded trap, or — when the mandatory
/// `category` or `message` attribute is missing — a protocol-error
/// notice in its place. A `!fatal` sentence announces shutdown. A
/// sentence that does not begin with a category word, or that references
/// a tag with no outstanding entry, is a protocol error that leaves the
/// table unchanged.
pub open spec fn spec_process(ws: Seq<WordModel>, table: Map<u16, u64>) -> (Result<
    EffectModel,
    ProtoErrModel,
>, Map<u16, u64>) {
    if ws.len() == 0 {
        (Err(ProtoErrModel::IncompleteSentence(MissingWord::Category)), table)
    } else {
        match ws[0] {
            WordModel::Category(WordCategory::Done) => {
                if ws.len() < 2 {
                    (Err(ProtoErrModel::IncompleteSentence(MissingWord::Tag)), table)
                } else {
                    match ws[1] {
                        WordModel::Tag(t) => {
                            if table.dom().contains(t) {
                                (Ok(EffectModel::Completed { tag: t }), table.remove(t))
                            } else {
                                (Err(ProtoErrModel::UnknownTag(t)), table)
                            }
                        },
                        other => (
                            Err(
                                ProtoErrModel::WordSequence(
                                    model_type(other),
                                ),
                            ),
                            table,
                        ),
                    }
                }
            },
            WordModel::Category(WordCategory::Reply) => {
                match spec_scan_reply(ws.subrange(1, ws.len() as int)) {
                    Err(e) => (Err(e), table),
                    Ok((t, attrs)) => (spec_route(t, DeliveryModel::Reply(attrs), table), table),
                }
            },
            WordModel::Category(WordCategory::Trap) => {
                match spec_scan_trap(ws.subrange(1, ws.len() as int)) {
                    Err(e) => (Err(e), table),
                    Ok((t, c, m)) => {
                        let payload = match (c, m) {
                            (Some(cat), Some(msg)) => DeliveryModel::Trap {
                                category: cat,
                                message: msg,
                            },
                            (None, _) => DeliveryModel::Notice(
                                ErrorModel::Protocol(
                                    ProtoErrModel::MissingCategoryInTrap,
                                ),
                            ),
                            (_, None) => DeliveryModel::Notice(
                                ErrorModel::Protocol(
                                    ProtoErrModel::MissingMessageInTrap,
                                ),
                            ),
                        };
                        (spec_route(t, payload, table), table)
                    },
                }
            },
            WordModel::Category(WordCategory::Fatal) => (Ok(EffectModel::Fatal), table),
            other => (
                Err(ProtoErrModel::WordSequence(model_type(other))),
                table,
            ),
        }
    }
}

/// Once a `!done` sentence completes a tag, no later sentence delivers
/// to it: routing any payload to that tag against the table the `!done`
/// left behind fails as an unknown tag.
pub proof fn lemma_no_delivery_after_done(
    ws: Seq<WordModel>,
    table: Map<u16, u64>,
    tag: u16,
    payload: DeliveryModel,
)
    requires
        spec_process(ws, table).0 == Ok::<EffectModel, ProtoErrModel>(
            EffectModel::Completed { tag },
        ),
    ensures
        spec_route(Some(tag), payload, spec_process(ws, table).1) == Err::<
            EffectModel,
            ProtoErrModel,
        >(ProtoErrModel::UnknownTag(tag)),
{
}

/// An error hit while scanning a prefix is the whole scan's result.
proof fn lemma_scan_reply_err(ws: Seq<WordModel>, i: int)
    requires
        1 <= i <= ws.len(),
        spec_scan_reply(ws.subrange(1, i)) is Err,
    ensures
        spec_scan_reply(ws.subrange(1, ws.len() as int)) == spec_scan_reply(ws.subrange(1, i)),
    decreases ws.len() - i,
{
    if i < ws.len() {
        assert(ws.subrange(1, i + 1).drop_last() =~= ws.subrange(1, i));
        lemma_scan_reply_err(ws, i + 1);
    } else {
        assert(ws.subrange(1, i) =~= ws.subrange(1, ws.len() as int));
    }
}

/// An error hit while scanning a prefix is the whole scan's result.
proof fn lemma_scan_trap_err(ws: Seq<WordModel>, i: int)
    requires
        1 <= i <= ws.len(),
        spec_scan_trap(ws.subrange(1, i)) is Err,
    ensures
        spec_scan_trap(ws.subrange(1, ws.len() as int)) == spec_scan_trap(ws.subrange(1, i)),
    decreases ws.len() - i,
{
    if i < ws.len() {
        assert(ws.subrange(1, i + 1).drop_last() =~= ws.subrange(1, i));
        lemma_scan_trap_err(ws, i + 1);
    } else {
        assert(ws.subrange(1, i) =~= ws.subrange(1, ws.len() as int));
    }
}

/// Whether `k` is the attribute key `category`.
fn is_category_key(k: &[u8]) -> (r: bool)
    ensures
        r == (k@ == spec_category_key()),
{
    if k.len() == 8 && k[0] == 0x63 && k[1] == 0x61 && k[2] == 0x74 && k[3] == 0x65 && k[4] == 0x67
        && k[5] == 0x6f && k[6] == 0x72 && k[7] == 0x79 {
        proof {
            assert(k@ =~= spec_category_key());
        }
        true
    } else {
        false
    }
}

/// Whether `k` is the attribute key `message`.
fn is_message_key(k: &[u8]) -> (r: bool)
    ensures
        r == (k@ == spec_message_key()),
{
    if k.len() == 7 && k[0] == 0x6d && k[1] == 0x65 && k[2] == 0x73 && k[3] == 0x73 && k[4] == 0x61
        && k[5] == 0x67 && k[6] == 0x65 {
        proof {
            assert(k@ =~= spec_message_key());
        }
        true
    } else {
        false
    }
}

/// Copies an optional byte slice into an owned value.
fn clone_opt_bytes(v: &Option<Vec<u8>>) -> (r: Option<Vec<u8>>)
    ensures
        match v {
            Some(b) => r matches Some(c) && c@ == b@,
            None => r is None,
        },
{
    match v {
        Some(b) => Some(vstd::slice::slice_to_vec(b.as_slice())),
        None => None,
    }
}

/// Applies one parsed sentence to the table of outstanding tags,
/// returning what the caller must deliver or conclude, exactly as
/// [`spec_process`] lays it out: the effect (or protocol error) is the
/// first component of `spec_process`, the table afterwards is the
/// second.
pub fn process_sentence(sentence: &Vec<Word>, table: &mut TagTable) -> (r: Result<
    SentenceEffect,
    ProtocolError,
>)
    requires
        old(table).wf(),
    ensures
        final (table).wf(),
        final (table)@ == spec_process(
            words_view(sentence@),
            old(table)@,
        ).1,
        ({
            let res = spec_process(words_view(sentence@), old(table)@).0;
            match res {
                Ok(em) => r matches Ok(ef) && ef@ == em,
                Err(e) => r matches Err(pe) && pe@ == e,
            }
        }),
{
    let ghost ws = words_view(sentence@);
    let len = sentence.len();
    if len == 0 {
        return Err(ProtocolError::IncompleteSentence(MissingWord::Category));
    }
    let category = match &sentence[0] {
        Word::Category(c) => *c,
        w => {
            return Err(ProtocolError::WordSequence(w.word_type()));
        },
    };
    match category {
        WordCategory::Done => {
            if len < 2 {
                return Err(ProtocolError::IncompleteSentence(MissingWord::Tag));
            }
            let tag = match &sentence[1] {
                Word::Tag(t) => *t,
                w => {
                    return Err(ProtocolError::WordSequence(w.word_type()));
                },
            };
            if table.contains(tag) {
                table.remove(tag);
                Ok(SentenceEffect::Completed { tag })
            } else {
                Err(ProtocolError::UnknownTag(tag))
            }
        },
        WordCategory::Reply => {
            let mut found_tag: Option<u16> = None;
            let mut attributes: Vec<(Vec<u8>, Option<Vec<u8>>)> = Vec::new();
            proof {
                assert(ws.subrange(1, 1) =~= Seq::<WordModel>::empty());
                assert(attrs_view(attributes@) =~= Seq::<(Seq<u8>, Option<Seq<u8>>)>::empty());
            }
            let mut i: usize = 1;
            while i < len
                invariant
                    1 <= i <= len,
                    len == sentence@.len(),
                    ws == words_view(sentence@),
                    ws.len() == len,
                    ws[0] == WordModel::Category(WordCategory::Reply),
                    spec_scan_reply(ws.subrange(1, i as int)) == Ok::<
                        (Option<u16>, Seq<(Seq<u8>, Option<Seq<u8>>)>),
                        ProtoErrModel,
                    >((found_tag, attrs_view(attributes@))),
                    *table == *old(table),
                    old(table).wf(),
                decreases len - i,
            {
                proof {
                    assert(ws.subrange(1, i + 1).drop_last() =~= ws.subrange(1, i as int));
                    assert(ws.subrange(1, i + 1).last() == ws[i as int]);
                }
                match &sentence[i] {
                    Word::Category(_) => {
                        proof {
                            lemma_scan_reply_err(ws, i + 1);
                        }
                        return Err(
                            ProtocolError::WordSequence(WordType::Category),
                        );
                    },
                    Word::Message(_) => {
                        proof {
                            lemma_scan_reply_err(ws, i + 1);
                        }
                        return Err(
                            ProtocolError::WordSequence(WordType::Message),
                        );
                    },
                    Word::Tag(t) => {
                        found_tag = Some(*t);
                    },
                    Word::Attribute { key, value } => {
                        let k = vstd::slice::slice_to_vec(key.as_slice());
                        let v = clone_opt_bytes(value);
                        let ghost old_attrs = attributes@;
                        attributes.push((k, v));
                        proof {
                            assert(attributes@.drop_last() =~= old_attrs);
                            assert(attrs_view(attributes@) =~= attrs_view(old_attrs).push(
                                (
                                    key@,
                                    match value {
                                        Some(b) => Some(b@),
                                        None => None::<Seq<u8>>,
                                    },
                                ),
                            ));
                        }
                    },
                }
                i += 1;
            }
            proof {
                assert(ws.subrange(1, len as int) =~= ws.subrange(1, ws.len() as int));
            }
            match found_tag {
                None => Err(ProtocolError::IncompleteSentence(MissingWord::Tag)),
                Some(t) => match table.get(t) {
                    Some(slot) => Ok(
                        SentenceEffect::Deliver {
                            tag: t,
                            slot,
                            payload: Delivery::Reply { attributes },
                        },
                    ),
                    None => Err(ProtocolError::UnknownTag(t)),
                },
            }
        },
        WordCategory::Trap => {
            let mut found_tag: Option<u16> = None;
            let mut found_category: Option<TrapCategory> = None;
            let mut found_message: Option<Vec<u8>> = None;
            proof {
                assert(ws.subrange(1, 1) =~= Seq::<WordModel>::empty());
            }
            let mut i: usize = 1;
            while i < len
                invariant
                    1 <= i <= len,
                    len == sentence@.len(),
                    ws == words_view(sentence@),
                    ws.len() == len,
                    ws[0] == WordModel::Category(WordCategory::Trap),
                    spec_scan_trap(ws.subrange(1, i as int)) == Ok::<
                        (
                            Option<u16>,
                            Option<TrapCategory>,
                            Option<Seq<u8>>,
                        ),
                        ProtoErrModel,
                    >(
                        (
                            found_tag,
                            found_category,
                            match found_message {
                                Some(m) => Some(m@),
                                None => None,
                            },
                        ),
                    ),
                    *table == *old(table),
                    old(table).wf(),
                decreases len - i,
            {
                proof {
                    assert(ws.subrange(1, i + 1).drop_last() =~= ws.subrange(1, i as int));
                    assert(ws.subrange(1, i + 1).last() == ws[i as int]);
                }
                match &sentence[i] {
                    Word::Category(_) => {
                        proof {
                            lemma_scan_trap_err(ws, i + 1);
                        }
                        return Err(
                            ProtocolError::WordSequence(WordType::Category),
                        );
                    },
                    Word::Message(_) => {
                        proof {
                            lemma_scan_trap_err(ws, i + 1);
                        }
                        return Err(
                            ProtocolError::WordSequence(WordType::Message),
                        );
                    },
                    Word::Tag(t) => {
                        found_tag = Some(*t);
                    },
                    Word::Attribute { key, value } => {
                        if is_category_key(key.as_slice()) {
                            match value {
                                Some(v) => {
                                    match TrapCategory::parse(
                                        v.as_slice(),
                                    ) {
                                        Some(cat) => {
                                            found_category = Some(cat);
                                        },
                                        None => {},
                                    }
                                },
                                None => {
                                    proof {
                                        lemma_scan_trap_err(ws, i + 1);
                                    }
                                    return Err(
                                        ProtocolError::InvalidAttributeInTrap(
                                            vstd::slice::slice_to_vec(key.as_slice()),
                                        ),
                                    );
                                },
                            }
                        } else if is_message_key(key.as_slice()) {
                            found_message = clone_opt_bytes(value);
                        } else {
                            proof {
                                lemma_scan_trap_err(ws, i + 1);
                            }
                            return Err(
                                ProtocolError::InvalidAttributeInTrap(
                                    vstd::slice::slice_to_vec(key.as_slice()),
                                ),
                            );
                        }
                    },
                }
                i += 1;
            }
            proof {
                assert(ws.subrange(1, len as int) =~= ws.subrange(1, ws.len() as int));
            }
            let payload = match (found_category, found_message) {
                (Some(cat), Some(msg)) => Delivery::Trap {
                    result: TrapResult { category: cat, message: msg },
                },
                (None, _) => Delivery::Notice {
                    error: Error::Protocol(ProtocolError::MissingCategoryInTrap),
                },
                (_, None) => Delivery::Notice {
                    error: Error::Protocol(ProtocolError::MissingMessageInTrap),
                },
            };
            match found_tag {
                None => Err(ProtocolError::IncompleteSentence(MissingWord::Tag)),
                Some(t) => match table.get(t) {
                    Some(slot) => Ok(SentenceEffect::Deliver { tag: t, slot, payload }),
                    None => Err(ProtocolError::UnknownTag(t)),
                },
            }
        },
        WordCategory::Fatal => Ok(SentenceEffect::Fatal),
    }
}

/// Empties the table for termination, building one cancel command for
/// each tag still outstanding: exactly one command per tag, each the
/// cancel encoding for that tag, before the socket closes.
#[verifier::loop_isolation(false)]
pub fn cancel_outstanding(table: &mut TagTable) -> (r: Vec<Command>)
    requires
        old(table).wf(),
    ensures
        final (table).wf(),
        final (table)@ == Map::<u16, u64>::empty(),
        r@.len() == old(table)@.dom().len(),
        forall|i: int|
            0 <= i < r@.len() ==> old(table)@.dom().contains((#[trigger] r@[i]).tag)
                && r@[i].data@ == spec_cancel_command(r@[i].tag),
        forall|i: int, j: int|
            0 <= i < j < r@.len() ==> (#[trigger] r@[i]).tag != (#[trigger] r@[j]).tag,
        forall|t: u16|
            #[trigger] old(table)@.dom().contains(t) ==> exists|i: int|
                0 <= i < r@.len() && (#[trigger] r@[i]).tag == t,
{
    let drained = table.drain();
    let mut out: Vec<Command> = Vec::new();
    let mut i: usize = 0;
    while i < drained.len()
        invariant
            0 <= i <= drained@.len(),
            out@.len() == i,
            forall|j: int|
                0 <= j < i ==> (#[trigger] out@[j]).tag == drained@[j].0 && out@[j].data@
                    == spec_cancel_command(drained@[j].0),
        decreases drained@.len() - i,
    {
        out.push(CommandBuilder::cancel(drained[i].0));
        i += 1;
    }
    proof {
        assert forall|t: u16| #[trigger] old(table)@.dom().contains(t) implies exists|k: int|
            0 <= k < out@.len() && (#[trigger] out@[k]).tag == t by {
            let j = choose|j: int| 0 <= j < drained@.len() && (#[trigger] drained@[j]).0 == t;
            assert(out@[j].tag == t);
        }
    }
    out
}

/// Converts a routed delivery into the caller's response type through
/// its [`ParsedMessage`] conversions.
pub fn build_message<D: ParsedMessage>(delivery: Delivery) -> D {
    match delivery {
        Delivery::Reply { attributes } => D::parse_message(&attributes),
        Delivery::Trap { result } => D::process_trap(result),
        Delivery::Notice { error } => D::process_error(&error),
    }
}

/// Whether a sentence confirms the login handshake: exactly a `!done`
/// category word followed by a tag word.
pub open spec fn spec_login_confirmation(ws: Seq<WordModel>) -> bool {
    ws.len() == 2 && ws[0] == WordModel::Category(WordCategory::Done) && ws[1] is Tag
}

/// Recognizes the login confirmation sentence: exactly `[!done, .tag=_]`.
/// Any other first sentence fails the handshake.
pub fn is_login_confirmation(sentence: &Vec<Word>) -> (r: bool)
    ensures
        r == spec_login_confirmation(words_view(sentence@)),
{
    if sentence.len() != 2 {
        return false;
    }
    let first_ok = match &sentence[0] {
        Word::Category(WordCategory::Done) => true,
        _ => false,
    };
    let second_ok = match &sentence[1] {
        Word::Tag(_) => true,
        _ => false,
    };
    first_ok && second_ok
}

} // verus!
