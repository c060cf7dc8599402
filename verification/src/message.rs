//! Messages: opaque JSON values that are parsed on the way in, cloned once per
//! sink and serialized on the way out.

use vstd::prelude::*;

verus! {

/// `serde_json::Value`, a JSON value. It is carried as it is: nothing here
/// looks inside.
#[verifier::external_type_specification]
#[verifier::external_body]
pub struct ExValue(serde_json::Value);

/// `serde_json::Error`, the reason why a text was not read or a value was
/// not written.
#[verifier::external_type_specification]
#[verifier::external_body]
pub struct ExJsonError(serde_json::Error);

/// The message that `serde_json::from_str` reads from a JSON text, or `None`
/// where it rejects the text.
pub uninterp spec fn parsed(text: Seq<char>) -> Option<Message>;

/// The bytes that `serde_json::to_vec` writes for a message, its compact JSON
/// encoding, or `None` where it refuses to encode the message.
pub uninterp spec fn encoded(message: Message) -> Option<Seq<u8>>;

/// Calls `serde_json::from_str` at type `Value` and wraps the value read.
/// Trusted: the parse depends on the text alone, so its outcome is the named
/// result `parsed`.
#[verifier::external_body]
fn message_from_str(text: &str) -> (r: Result<Message, serde_json::Error>)
    ensures
        match r {
            Ok(message) => parsed(text@) == Some(message),
            Err(_) => parsed(text@) is None,
        },
{
    match serde_json::from_str::<serde_json::Value>(text) {
        Ok(value) => Ok(Message { value }),
        Err(e) => Err(e),
    }
}

/// Calls `serde_json::to_vec` on the value of a message. Trusted: the
/// encoding depends on the value alone, so its outcome is the named result
/// `encoded`.
#[verifier::external_body]
fn message_to_vec(message: &Message) -> (r: Result<Vec<u8>, serde_json::Error>)
    ensures
        match r {
            Ok(bytes) => encoded(*message) == Some(bytes@),
            Err(_) => encoded(*message) is None,
        },
{
    serde_json::to_vec(&message.value)
}

/// Calls the derived `Clone::clone` of `serde_json::Value`. Trusted: the copy
/// equals the original.
#[verifier::external_body]
fn value_clone(value: &serde_json::Value) -> (r: serde_json::Value)
    ensures
        r == *value,
{
    value.clone()
}

/// Calls the `Display` rendering of a `serde_json::Error`. Nothing is claimed
/// of the text.
#[verifier::external_body]
fn error_text(error: &serde_json::Error) -> String {
    error.to_string()
}

/// A JSON text that could not be read, or a value that could not be written,
/// with the reason in words.
#[derive(Debug)]
pub struct JsonError {
    description: String,
}

impl JsonError {
    /// The reason, as the JSON codec worded it: the text that the error
    /// holds, handed out as it is.
    pub fn description(&self) -> (text: &String)
        ensures
            text@ == self@,
    {
        &self.description
    }
}

impl View for JsonError {
    type V = Seq<char>;

    /// The reason in words.
    closed spec fn view(&self) -> Seq<char> {
        self.description@
    }
}

/// One decoded datalink message: a JSON value that the router carries without
/// looking inside.
#[derive(Debug, PartialEq)]
pub struct Message {
    value: serde_json::Value,
}

impl View for Message {
    type V = serde_json::Value;

    closed spec fn view(&self) -> serde_json::Value {
        self.value
    }
}

/// A message is nothing but the value it carries: two messages with the same
/// value are the same message.
pub proof fn lemma_message_is_its_value(one: Message, other: Message)
    ensures
        one@ == other@ <==> one == other,
{
}

impl Clone for Message {
    /// An independent copy, equal to the original.
    fn clone(&self) -> (m: Self)
        ensures
            m == *self,
    {
        Message { value: value_clone(&self.value) }
    }
}

impl Message {
    /// Wraps a JSON value.
    pub fn new(value: serde_json::Value) -> (m: Self)
        ensures
            m@ == value,
    {
        Message { value }
    }

    /// The JSON value inside.
    pub fn value(&self) -> (v: &serde_json::Value)
        ensures
            *v == self@,
    {
        &self.value
    }

    /// Unwraps the JSON value.
    pub fn into_value(self) -> (v: serde_json::Value)
        ensures
            v == self@,
    {
        self.value
    }

    /// Reads one message from a JSON text. The text must hold exactly one
    /// JSON value, with nothing but whitespace around it.
    pub fn parse(text: &str) -> (r: Result<Message, JsonError>)
        ensures
            match r {
                Ok(m) => parsed(text@) == Some(m),
                Err(_) => parsed(text@) is None,
            },
    {
        match message_from_str(text) {
            Ok(message) => Ok(message),
            Err(e) => Err(JsonError { description: error_text(&e) }),
        }
    }

    /// Encodes the message as compact JSON.
    pub fn serialize(&self) -> (r: Result<Vec<u8>, JsonError>)
        ensures
            match r {
                Ok(bytes) => encoded(*self) == Some(bytes@),
                Err(_) => encoded(*self) is None,
            },
    {
        match message_to_vec(self) {
            Ok(bytes) => Ok(bytes),
            Err(e) => Err(JsonError { description: error_text(&e) }),
        }
    }
}

} // verus!
