//! What a join request carries: the bytes of a text that spells the address
//! of the member that wants to be contacted.

use crate::address::{address_of, SocketAddress};
use crate::notation::{address_text, all_ascii};
use vstd::prelude::*;
use vstd::utf8::*;

verus! {

/// Why a join request is turned down.
#[derive(Clone, Copy, Debug, PartialEq, Eq, Structural)]
pub enum JoinError {
    /// The payload is not text: its bytes are not valid UTF-8.
    MalformedPayload,
    /// The payload is text, but the text is no socket address.
    InvalidAddress,
}

/// The characters that the ASCII bytes `bytes` stand for.
pub open spec fn ascii_text(bytes: Seq<u8>) -> Seq<char> {
    Seq::new(bytes.len(), |i: int| bytes[i] as char)
}

/// What a join request with `payload` comes to: the address it names, in the
/// one text under which the membership keeps it, or the reason why it names
/// none.
pub open spec fn joining_address(payload: Seq<u8>) -> Result<Seq<char>, JoinError> {
    if !valid_utf8(payload) {
        Err(JoinError::MalformedPayload)
    } else {
        match address_of(payload) {
            Some(address) => Ok(ascii_text(address_text(address))),
            None => Err(JoinError::InvalidAddress),
        }
    }
}

/// `String::from_utf8` of the standard library: the text that `bytes`
/// encode. The contract claims what its documentation says: the result is a
/// string exactly when `bytes` are valid UTF-8, and the string then holds
/// the characters that `bytes` encode.
#[verifier::external_body]
fn text_from_utf8(bytes: Vec<u8>) -> (text: Option<String>)
    ensures
        text is Some <==> valid_utf8(bytes@),
        text matches Some(s) ==> s@ == decode_utf8(bytes@),
{
    String::from_utf8(bytes).ok()
}

/// ASCII bytes are valid UTF-8, and encode the characters they stand for.
pub proof fn lemma_ascii_decodes(bytes: Seq<u8>)
    requires
        all_ascii(bytes),
    ensures
        valid_utf8(bytes),
        decode_utf8(bytes) == ascii_text(bytes),
{
    let chars = ascii_text(bytes);
    assert(is_ascii_chars(chars));
    is_ascii_chars_encode_utf8(chars);
    assert(encode_utf8(chars) =~= bytes);
    encode_utf8_valid_utf8(chars);
    encode_utf8_decode_utf8(chars);
}

impl SocketAddress {
    /// The address as text.
    pub fn to_text(&self) -> (text: String)
        ensures
            text@ == ascii_text(address_text(self@)),
    {
        let bytes = self.to_bytes();
        proof {
            lemma_ascii_decodes(bytes@);
        }
        match text_from_utf8(bytes) {
            Some(text) => text,
            None => String::new(),
        }
    }
}

/// Reads the payload of a join request: decodes it as text, reads the text
/// as a socket address, and returns the address in its one normal text.
pub fn read_join_payload(payload: Vec<u8>) -> (address: Result<String, JoinError>)
    ensures
        match address {
            Ok(text) => joining_address(payload@) == Ok::<Seq<char>, JoinError>(text@),
            Err(error) => joining_address(payload@) == Err::<Seq<char>, JoinError>(error),
        },
{
    let text = match text_from_utf8(payload) {
        Some(text) => text,
        None => {
            return Err(JoinError::MalformedPayload);
        },
    };
    proof {
        decode_utf8_encode_utf8(payload@);
    }
    let bytes = text.as_str().as_bytes();
    assert(bytes@ == payload@);
    match SocketAddress::parse(bytes) {
        Some(address) => Ok(address.to_text()),
        None => Err(JoinError::InvalidAddress),
    }
}

} // verus!
