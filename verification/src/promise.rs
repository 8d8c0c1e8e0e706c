//! What comes back from the receiver of a transfer, and how it is read.

use vstd::prelude::*;

verus! {

/// How the call that a continuation waits for ended.
pub enum PromiseResult {
    /// It returned these bytes.
    Successful(Vec<u8>),
    /// It failed, or ran out of gas.
    Failed,
}

impl DeepView for PromiseResult {
    type V = Option<Seq<u8>>;

    /// The bytes that the call returned, if it returned.
    open spec fn deep_view(&self) -> Option<Seq<u8>> {
        match self {
            PromiseResult::Successful(bytes) => Some(bytes@),
            PromiseResult::Failed => None,
        }
    }
}

/// A byte that JSON counts as white space: space, line feed, tab, carriage return.
pub open spec fn is_json_space(b: u8) -> bool {
    b == 0x20 || b == 0x0a || b == 0x09 || b == 0x0d
}

/// `s` from its first byte that is not white space.
pub open spec fn skip_json_space(s: Seq<u8>) -> Seq<u8>
    decreases s.len(),
{
    if s.len() > 0 && is_json_space(s[0]) {
        skip_json_space(s.drop_first())
    } else {
        s
    }
}

/// `s` begins with `word`, and only white space follows.
pub open spec fn is_json_word(s: Seq<u8>, word: Seq<u8>) -> bool {
    &&& s.len() >= word.len()
    &&& s.subrange(0, word.len() as int) == word
    &&& forall|i: int| word.len() <= i < s.len() ==> is_json_space(#[trigger] s[i])
}

/// The truth value that `bytes` spell in JSON: `true` or `false`, with any
/// white space before and after, and nothing else.
pub open spec fn json_bool(bytes: Seq<u8>) -> Option<bool> {
    let rest = skip_json_space(bytes);
    if is_json_word(rest, seq![0x74u8, 0x72u8, 0x75u8, 0x65u8]) {
        Some(true)
    } else if is_json_word(rest, seq![0x66u8, 0x61u8, 0x6cu8, 0x73u8, 0x65u8]) {
        Some(false)
    } else {
        None
    }
}

/// `serde_json::Error`: why bytes could not be read as a value. Nothing is
/// said of what it holds.
#[verifier::external_type_specification]
#[verifier::external_body]
pub struct ExJsonError(serde_json::Error);

/// `serde_json::from_slice::<bool>`. It reads one JSON value of type `bool`
/// from the whole of `bytes`: it skips white space, takes the word `true`
/// or `false`, and accepts only white space after it. Anything else is an
/// error.
#[verifier::external_body]
fn bool_from_json(bytes: &Vec<u8>) -> (res: Result<bool, serde_json::Error>)
    ensures
        match res {
            Ok(value) => json_bool(bytes@) == Some(value),
            Err(_) => json_bool(bytes@) is None,
        },
{
    serde_json::from_slice::<bool>(bytes.as_slice())
}

/// The receiver of a transfer wants the token to go back: its call failed, or
/// it answered with the JSON value `true`.
pub open spec fn return_requested(result: Option<Seq<u8>>) -> bool {
    match result {
        Some(bytes) => json_bool(bytes) == Some(true),
        None => true,
    }
}

impl PromiseResult {
    /// Whether the receiver wants the token to go back. An answer that is no
    /// JSON truth value counts as an acknowledgement.
    pub fn asks_return(&self) -> (res: bool)
        ensures
            res == return_requested(self.deep_view()),
    {
        match self {
            PromiseResult::Successful(bytes) => match bool_from_json(bytes) {
                Ok(return_token) => return_token,
                Err(_) => false,
            },
            PromiseResult::Failed => true,
        }
    }
}

} // verus!
