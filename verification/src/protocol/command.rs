//! One-pass construction of outgoing tagged commands.

use vstd::prelude::*;

use crate::protocol::word::{spec_encode_len, tag_prefix};

verus! {

/// A word as it stands on the wire: size prefix, then content.
pub open spec fn spec_word_enc(content: Seq<u8>) -> Seq<u8> {
    spec_encode_len(content.len()) + content
}

/// The decimal digits of `n`, most significant first, no sign and no
/// leading zero (a single `0` for zero).
pub open spec fn spec_dec_digits(n: nat) -> Seq<u8>
    decreases n,
{
    if n < 10 {
        seq![(0x30 + n) as u8]
    } else {
        spec_dec_digits(n / 10) + seq![(0x30 + n % 10) as u8]
    }
}

/// Ten to the `k`.
pub open spec fn spec_pow10(k: nat) -> nat
    decreases k,
{
    if k == 0 {
        1
    } else {
        10 * spec_pow10((k - 1) as nat)
    }
}

/// A number below ten to the `k` has at most `k` decimal digits.
proof fn lemma_dec_digits_len(n: nat, k: nat)
    requires
        1 <= k,
        n < spec_pow10(k),
    ensures
        1 <= spec_dec_digits(n).len() <= k,
    decreases n,
{
    if n >= 10 {
        assert(spec_pow10(k) == 10 * spec_pow10((k - 1) as nat));
        lemma_dec_digits_len(n / 10, (k - 1) as nat);
    }
}

/// The content of the tag word `.tag=<decimal>`.
pub open spec fn spec_tag_word(tag: u16) -> Seq<u8> {
    tag_prefix() + spec_dec_digits(tag as nat)
}

/// The content of an attribute word: `=key=value`, or the bare `=key=`
/// for a flag attribute without a value.
pub open spec fn spec_attr_word(key: Seq<u8>, value: Option<Seq<u8>>) -> Seq<u8> {
    match value {
        Some(v) => seq![0x3du8] + key + seq![0x3du8] + v,
        None => seq![0x3du8] + key + seq![0x3du8],
    }
}

/// Appends the decimal digits of `n`.
fn push_decimal(out: &mut Vec<u8>, n: u16)
    ensures
        final (out)@ == old(out)@ + spec_dec_digits(n as nat),
    decreases n,
{
    if n >= 10 {
        push_decimal(out, n / 10);
    }
    out.push(0x30 + (n % 10) as u8);
    proof {
        assert(out@ =~= old(out)@ + spec_dec_digits(n as nat));
    }
}

/// A growing byte buffer for one outgoing command.
#[derive(Debug, Clone)]
pub struct CommandBuffer(pub Vec<u8>);

impl Default for CommandBuffer {
    /// An empty command buffer.
    fn default() -> (r: Self)
        ensures
            r.0@ == Seq::<u8>::empty(),
    {
        CommandBuffer(Vec::new())
    }
}

impl CommandBuffer {
    /// Appends raw bytes, without a length prefix.
    pub fn write_str(&mut self, str_buff: &[u8])
        ensures
            final (self).0@ == old(self).0@ + str_buff@,
    {
        self.0.extend_from_slice(str_buff);
    }

    /// Appends the size prefix for a word of `len` bytes, as
    /// [`spec_encode_len`](crate::protocol::word::spec_encode_len) lays it
    /// out.
    pub fn write_len(&mut self, len: u32)
        ensures
            final (self).0@ == old(self).0@ + crate::protocol::word::spec_encode_len(len as nat),
    {
        if len <= 0x7F {
            self.0.push(len as u8);
        } else if len <= 0x3FFF {
            self.0.push((0x80 + len / 0x100) as u8);
            self.0.push((len % 0x100) as u8);
        } else if len <= 0x1FFFFF {
            self.0.push((0xC0 + len / 0x10000) as u8);
            self.0.push(((len / 0x100) % 0x100) as u8);
            self.0.push((len % 0x100) as u8);
        } else if len <= 0xFFFFFFF {
            self.0.push((0xE0 + len / 0x1000000) as u8);
            self.0.push(((len / 0x10000) % 0x100) as u8);
            self.0.push(((len / 0x100) % 0x100) as u8);
            self.0.push((len % 0x100) as u8);
        } else {
            self.0.push(0xF0);
            self.0.push(((len / 0x1000000) % 0x100) as u8);
            self.0.push(((len / 0x10000) % 0x100) as u8);
            self.0.push(((len / 0x100) % 0x100) as u8);
            self.0.push((len % 0x100) as u8);
        }
        assert(self.0@ =~= old(self).0@ + crate::protocol::word::spec_encode_len(len as nat));
    }

    /// Appends one word: its size prefix, then its content.
    pub fn write_word(&mut self, w: &[u8])
        requires
            w@.len() <= 0xFFFFFFFF,
        ensures
            final (self).0@ == old(self).0@ + spec_word_enc(w@),
    {
        self.write_len(w.len() as u32);
        self.write_str(w);
        proof {
            assert(self.0@ =~= old(self).0@ + spec_word_enc(w@));
        }
    }
}

/// Builds a tagged router command: base command-path word, tag word,
/// then attribute and query words, in one linear pass.
#[derive(Debug, Clone)]
pub struct CommandBuilder {
    /// The tag that will correlate the command with its responses.
    pub tag: u16,
    /// The bytes written so far.
    pub cmd: CommandBuffer,
}

impl CommandBuilder {
    /// Begins a new command with the given tag and command path: writes
    /// the path word, then the `.tag=<decimal>` word.
    pub fn new(tag: u16, command: &[u8]) -> (r: CommandBuilder)
        requires
            command@.len() <= 0xFFFFFFFF,
        ensures
            r.tag == tag,
            r.cmd.0@ == spec_word_enc(command@) + spec_word_enc(spec_tag_word(tag)),
    {
        let mut cmd = CommandBuffer::default();
        cmd.write_word(command);
        let mut tag_word: Vec<u8> = Vec::new();
        tag_word.push(0x2e);
        tag_word.push(0x74);
        tag_word.push(0x61);
        tag_word.push(0x67);
        tag_word.push(0x3d);
        proof {
            assert(tag_word@ =~= tag_prefix());
            assert(spec_pow10(0) == 1);
            assert(spec_pow10(1) == 10);
            assert(spec_pow10(2) == 100);
            assert(spec_pow10(3) == 1000);
            assert(spec_pow10(4) == 10000);
            assert(spec_pow10(5) == 100000);
            lemma_dec_digits_len(tag as nat, 5);
        }
        push_decimal(&mut tag_word, tag);
        cmd.write_word(tag_word.as_slice());
        CommandBuilder { tag, cmd }
    }

    /// Adds an attribute word `=key=value`.
    pub fn attribute(self, key: &[u8], value: &[u8]) -> (r: CommandBuilder)
        requires
            key@.len() + value@.len() + 2 <= 0xFFFFFFFF,
        ensures
            r.tag == self.tag,
            r.cmd.0@ == self.cmd.0@ + spec_word_enc(spec_attr_word(key@, Some(value@))),
    {
        let CommandBuilder { tag, mut cmd } = self;
        let mut content: Vec<u8> = Vec::new();
        content.push(0x3d);
        content.extend_from_slice(key);
        content.push(0x3d);
        content.extend_from_slice(value);
        proof {
            assert(content@ =~= spec_attr_word(key@, Some(value@)));
        }
        cmd.write_word(content.as_slice());
        CommandBuilder { tag, cmd }
    }

    /// Adds a flag attribute word `=key=`, an attribute with no value.
    pub fn flag_attribute(self, key: &[u8]) -> (r: CommandBuilder)
        requires
            key@.len() + 2 <= 0xFFFFFFFF,
        ensures
            r.tag == self.tag,
            r.cmd.0@ == self.cmd.0@ + spec_word_enc(spec_attr_word(key@, None)),
    {
        let CommandBuilder { tag, mut cmd } = self;
        let mut content: Vec<u8> = Vec::new();
        content.push(0x3d);
        content.extend_from_slice(key);
        content.push(0x3d);
        proof {
            assert(content@ =~= spec_attr_word(key@, None));
        }
        cmd.write_word(content.as_slice());
        CommandBuilder { tag, cmd }
    }

    /// Adds a query word `?name`: matches items that have a value for
    /// the property.
    pub fn query_is_present(self, name: &[u8]) -> (r: CommandBuilder)
        requires
            name@.len() + 1 <= 0xFFFFFFFF,
        ensures
            r.tag == self.tag,
            r.cmd.0@ == self.cmd.0@ + spec_word_enc(seq![0x3fu8] + name@),
    {
        let CommandBuilder { tag, mut cmd } = self;
        let mut content: Vec<u8> = Vec::new();
        content.push(0x3f);
        content.extend_from_slice(name);
        proof {
            assert(content@ =~= seq![0x3fu8] + name@);
        }
        cmd.write_word(content.as_slice());
        CommandBuilder { tag, cmd }
    }

    /// Adds a query word `?-name`: matches items with no value for the
    /// property.
    pub fn query_not_present(self, name: &[u8]) -> (r: CommandBuilder)
        requires
            name@.len() + 2 <= 0xFFFFFFFF,
        ensures
            r.tag == self.tag,
            r.cmd.0@ == self.cmd.0@ + spec_word_enc(seq![0x3fu8, 0x2du8] + name@),
    {
        let CommandBuilder { tag, mut cmd } = self;
        let mut content: Vec<u8> = Vec::new();
        content.push(0x3f);
        content.push(0x2d);
        content.extend_from_slice(name);
        proof {
            assert(content@ =~= seq![0x3fu8, 0x2du8] + name@);
        }
        cmd.write_word(content.as_slice());
        CommandBuilder { tag, cmd }
    }

    /// Adds a query word `?name=value`: matches items whose property
    /// equals the value.
    pub fn query_equal(self, name: &[u8], value: &[u8]) -> (r: CommandBuilder)
        requires
            name@.len() + value@.len() + 2 <= 0xFFFFFFFF,
        ensures
            r.tag == self.tag,
            r.cmd.0@ == self.cmd.0@ + spec_word_enc(
                seq![0x3fu8] + name@ + seq![0x3du8] + value@,
            ),
    {
        let CommandBuilder { tag, mut cmd } = self;
        let mut content: Vec<u8> = Vec::new();
        content.push(0x3f);
        content.extend_from_slice(name);
        content.push(0x3d);
        content.extend_from_slice(value);
        proof {
            assert(content@ =~= seq![0x3fu8] + name@ + seq![0x3du8] + value@);
        }
        cmd.write_word(content.as_slice());
        CommandBuilder { tag, cmd }
    }

    /// Adds a query word `?>key=value`: matches items whose property is
    /// greater than the value.
    pub fn query_gt(self, key: &[u8], value: &[u8]) -> (r: CommandBuilder)
        requires
            key@.len() + value@.len() + 3 <= 0xFFFFFFFF,
        ensures
            r.tag == self.tag,
            r.cmd.0@ == self.cmd.0@ + spec_word_enc(
                seq![0x3fu8, 0x3eu8] + key@ + seq![0x3du8] + value@,
            ),
    {
        let CommandBuilder { tag, mut cmd } = self;
        let mut content: Vec<u8> = Vec::new();
        content.push(0x3f);
        content.push(0x3e);
        content.extend_from_slice(key);
        content.push(0x3d);
        content.extend_from_slice(value);
        proof {
            assert(content@ =~= seq![0x3fu8, 0x3eu8] + key@ + seq![0x3du8] + value@);
        }
        cmd.write_word(content.as_slice());
        CommandBuilder { tag, cmd }
    }

    /// Adds a query word `?<key=value`: matches items whose property is
    /// less than the value.
    pub fn query_lt(self, key: &[u8], value: &[u8]) -> (r: CommandBuilder)
        requires
            key@.len() + value@.len() + 3 <= 0xFFFFFFFF,
        ensures
            r.tag == self.tag,
            r.cmd.0@ == self.cmd.0@ + spec_word_enc(
                seq![0x3fu8, 0x3cu8] + key@ + seq![0x3du8] + value@,
            ),
    {
        let CommandBuilder { tag, mut cmd } = self;
        let mut content: Vec<u8> = Vec::new();
        content.push(0x3f);
        content.push(0x3c);
        content.extend_from_slice(key);
        content.push(0x3d);
        content.extend_from_slice(value);
        proof {
            assert(content@ =~= seq![0x3fu8, 0x3cu8] + key@ + seq![0x3du8] + value@);
        }
        cmd.write_word(content.as_slice());
        CommandBuilder { tag, cmd }
    }

    /// Adds the combinator word `?#` followed by one operator code per
    /// requested boolean combinator, applied to the results on the stack.
    pub fn query_operations(self, operations: &Vec<QueryOperator>) -> (r: CommandBuilder)
        requires
            operations@.len() + 2 <= 0xFFFFFFFF,
        ensures
            r.tag == self.tag,
            r.cmd.0@ == self.cmd.0@ + spec_word_enc(
                seq![0x3fu8, 0x23u8] + operations@.map_values(|op: QueryOperator| spec_op_code(op)),
            ),
    {
        let CommandBuilder { tag, mut cmd } = self;
        let mut content: Vec<u8> = Vec::new();
        content.push(0x3f);
        content.push(0x23);
        let ghost ops = operations@.map_values(|op: QueryOperator| spec_op_code(op));
        let mut i: usize = 0;
        while i < operations.len()
            invariant
                0 <= i <= operations@.len(),
                ops == operations@.map_values(|op: QueryOperator| spec_op_code(op)),
                content@ == seq![0x3fu8, 0x23u8] + ops.take(i as int),
            decreases operations@.len() - i,
        {
            let code = match operations[i] {
                QueryOperator::Not => 0x21,
                QueryOperator::And => 0x26,
                QueryOperator::Or => 0x7c,
                QueryOperator::Dot => 0x2e,
            };
            content.push(code);
            proof {
                assert(content@ =~= seq![0x3fu8, 0x23u8] + ops.take(i + 1));
            }
            i += 1;
        }
        proof {
            assert(ops.take(operations@.len() as int) =~= ops);
        }
        cmd.write_word(content.as_slice());
        CommandBuilder { tag, cmd }
    }

    /// Finalizes the command: writes the zero-length terminator and
    /// freezes the buffer.
    pub fn build(self) -> (r: Command)
        ensures
            r.tag == self.tag,
            r.data@ == self.cmd.0@ + seq![0u8],
    {
        let CommandBuilder { tag, mut cmd } = self;
        cmd.write_len(0);
        proof {
            assert(cmd.0@ =~= self.cmd.0@ + seq![0u8]);
        }
        Command { tag, data: cmd.0 }
    }

    /// Builds a login command: path `/login` with a `name` attribute and
    /// either a `password` attribute, or, when no password is supplied, a
    /// bare `password` flag attribute — never an omitted attribute.
    pub fn login(tag: u16, username: &[u8], password: Option<&[u8]>) -> (r: Command)
        requires
            username@.len() + 6 <= 0xFFFFFFFF,
            password matches Some(p) ==> p@.len() + 10 <= 0xFFFFFFFF,
        ensures
            r.tag == tag,
            r.data@ == spec_word_enc(login_path()) + spec_word_enc(spec_tag_word(tag))
                + spec_word_enc(spec_attr_word(name_key(), Some(username@))) + spec_word_enc(
                spec_attr_word(
                    password_key(),
                    match password {
                        Some(p) => Some(p@),
                        None => None,
                    },
                ),
            ) + seq![0u8],
    {
        let mut path: Vec<u8> = Vec::new();
        path.push(0x2f);
        path.push(0x6c);
        path.push(0x6f);
        path.push(0x67);
        path.push(0x69);
        path.push(0x6e);
        proof {
            assert(path@ =~= login_path());
        }
        let mut name: Vec<u8> = Vec::new();
        name.push(0x6e);
        name.push(0x61);
        name.push(0x6d);
        name.push(0x65);
        proof {
            assert(name@ =~= name_key());
        }
        let mut pw: Vec<u8> = Vec::new();
        pw.push(0x70);
        pw.push(0x61);
        pw.push(0x73);
        pw.push(0x73);
        pw.push(0x77);
        pw.push(0x6f);
        pw.push(0x72);
        pw.push(0x64);
        proof {
            assert(pw@ =~= password_key());
        }
        let builder = Self::new(tag, path.as_slice()).attribute(name.as_slice(), username);
        let builder = match password {
            Some(p) => builder.attribute(pw.as_slice(), p),
            None => builder.flag_attribute(pw.as_slice()),
        };
        builder.build()
    }

    /// Builds a cancel command: path `/cancel` with a `tag` attribute
    /// naming the command to cancel.
    pub fn cancel(tag: u16) -> (r: Command)
        ensures
            r.tag == tag,
            r.data@ == spec_cancel_command(tag),
    {
        let mut path: Vec<u8> = Vec::new();
        path.push(0x2f);
        path.push(0x63);
        path.push(0x61);
        path.push(0x6e);
        path.push(0x63);
        path.push(0x65);
        path.push(0x6c);
        proof {
            assert(path@ =~= cancel_path());
        }
        let mut key: Vec<u8> = Vec::new();
        key.push(0x74);
        key.push(0x61);
        key.push(0x67);
        proof {
            assert(key@ =~= tag_key());
            assert(spec_pow10(0) == 1);
            assert(spec_pow10(1) == 10);
            assert(spec_pow10(2) == 100);
            assert(spec_pow10(3) == 1000);
            assert(spec_pow10(4) == 10000);
            assert(spec_pow10(5) == 100000);
            lemma_dec_digits_len(tag as nat, 5);
        }
        let mut digits: Vec<u8> = Vec::new();
        push_decimal(&mut digits, tag);
        Self::new(tag, path.as_slice()).attribute(key.as_slice(), digits.as_slice()).build()
    }
}

/// The command path `/login`.
pub open spec fn login_path() -> Seq<u8> {
    seq![0x2fu8, 0x6cu8, 0x6fu8, 0x67u8, 0x69u8, 0x6eu8]
}

/// The command path `/cancel`.
pub open spec fn cancel_path() -> Seq<u8> {
    seq![0x2fu8, 0x63u8, 0x61u8, 0x6eu8, 0x63u8, 0x65u8, 0x6cu8]
}

/// The attribute key `name`.
pub open spec fn name_key() -> Seq<u8> {
    seq![0x6eu8, 0x61u8, 0x6du8, 0x65u8]
}

/// The attribute key `password`.
pub open spec fn password_key() -> Seq<u8> {
    seq![0x70u8, 0x61u8, 0x73u8, 0x73u8, 0x77u8, 0x6fu8, 0x72u8, 0x64u8]
}

/// The attribute key `tag`.
pub open spec fn tag_key() -> Seq<u8> {
    seq![0x74u8, 0x61u8, 0x67u8]
}

/// The full bytes of a cancel command for `tag`.
pub open spec fn spec_cancel_command(tag: u16) -> Seq<u8> {
    spec_word_enc(cancel_path()) + spec_word_enc(spec_tag_word(tag)) + spec_word_enc(
        spec_attr_word(tag_key(), Some(spec_dec_digits(tag as nat))),
    ) + seq![0u8]
}

/// A finished command, complete with its tag, ready to be written to the
/// socket. Produced once by [`CommandBuilder::build`] and never mutated.
#[derive(Debug)]
pub struct Command {
    /// The tag correlating the command with its responses.
    pub tag: u16,
    /// The encoded words of the command, terminator included.
    pub data: Vec<u8>,
}

/// A boolean combinator in a query's combinator word.
#[derive(Debug, Copy, Clone, Eq, PartialEq, Hash, Structural)]
pub enum QueryOperator {
    /// The `!` operator.
    Not,
    /// The `&` operator.
    And,
    /// The `|` operator.
    Or,
    /// The `.` operator.
    Dot,
}

/// The wire byte of a query combinator.
pub open spec fn spec_op_code(op: QueryOperator) -> u8 {
    match op {
        QueryOperator::Not => 0x21,
        QueryOperator::And => 0x26,
        QueryOperator::Or => 0x7c,
        QueryOperator::Dot => 0x2e,
    }
}

impl QueryOperator {
    /// The character form of this operator.
    #[inline]
    pub fn code(self) -> (c: char)
        ensures
            c as u8 == spec_op_code(self),
    {
        match self {
            QueryOperator::Not => '!',
            QueryOperator::And => '&',
            QueryOperator::Or => '|',
            QueryOperator::Dot => '.',
        }
    }
}

} // verus!
