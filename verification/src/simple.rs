//! A ready-made response type that decodes attribute bytes as Latin-1
//! text.

use vstd::prelude::*;

use crate::device::ParsedMessage;
use crate::error::Error;
use crate::protocol::word::{TrapCategory, TrapResult};

verus! {

/// Relies on `encoding_rs::mem::decode_latin1`: every byte's unsigned
/// value is taken as the Unicode scalar value it names (U+0000 through
/// U+00FF), one character per input byte.
#[verifier::external_body]
fn latin1_to_string(bytes: &[u8]) -> (r: String)
    ensures
        r@.len() == bytes@.len(),
        forall|i: int| 0 <= i < bytes@.len() ==> r@[i] == bytes@[i] as char,
{
    encoding_rs::mem::decode_latin1(bytes).into_owned()
}

/// A minimal decoded response: the attribute text of one reply, a
/// connection-level error, or a trap.
#[derive(Debug, Clone, PartialEq)]
pub enum SimpleResult {
    /// One reply's attributes as (key, optional value) text pairs, in
    /// arrival order.
    Sentence(Vec<(String, Option<String>)>),
    /// A connection-level error.
    Error(Error),
    /// A trap tied to the command.
    Trap {
        /// The trap's category.
        category: TrapCategory,
        /// The trap's message text.
        message: String,
    },
}

impl ParsedMessage for SimpleResult {
    fn parse_message(attributes: &Vec<(Vec<u8>, Option<Vec<u8>>)>) -> Self {
        let mut ret: Vec<(String, Option<String>)> = Vec::new();
        let mut i: usize = 0;
        while i < attributes.len()
            invariant
                0 <= i <= attributes@.len(),
            decreases attributes@.len() - i,
        {
            let k = latin1_to_string(attributes[i].0.as_slice());
            let v = match &attributes[i].1 {
                Some(b) => Some(latin1_to_string(b.as_slice())),
                None => None,
            };
            ret.push((k, v));
            i += 1;
        }
        SimpleResult::Sentence(ret)
    }

    fn process_error(error: &Error) -> Self {
        SimpleResult::Error(error.clone())
    }

    fn process_trap(result: TrapResult) -> Self {
        SimpleResult::Trap {
            category: result.category,
            message: latin1_to_string(result.message.as_slice()),
        }
    }
}

} // verus!
