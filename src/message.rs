use vstd::prelude::*;
use vstd::string::StringExecFns;

verus! {

/// The payload that nodes push to each other.
#[derive(Clone, Debug, PartialEq, Eq)]
pub struct Message {
    pub message: String,
}

impl Message {
    /// A message holding a copy of `text`.
    pub fn new(text: &str) -> (r: Message)
        ensures
            r.message@ == text@,
    {
        Message { message: String::from_str(text) }
    }

    /// The message as it is shown in logs: the text behind a fixed tag.
    pub fn describe(&self) -> (r: String)
        ensures
            r@ == "p2pgossip message: "@ + self.message@,
    {
        let tag = String::from_str("p2pgossip message: ");
        tag.concat(self.message.as_str())
    }
}

impl From<String> for Message {
    fn from(other_message: String) -> (r: Message) {
        Message { message: other_message }
    }
}

impl vstd::std_specs::convert::FromSpecImpl<String> for Message {
    open spec fn obeys_from_spec() -> bool {
        true
    }

    open spec fn from_spec(v: String) -> Message {
        Message { message: v }
    }
}

impl<'a> From<&'a str> for Message {
    /// Copies the text; `Message::new` states what the copy holds.
    fn from(other_message: &'a str) -> (r: Message) {
        Message::new(other_message)
    }
}

impl<'a> vstd::std_specs::convert::FromSpecImpl<&'a str> for Message {
    /// A copied `String` is not the same value as any spec-level one, so no result is claimed here.
    open spec fn obeys_from_spec() -> bool {
        false
    }

    open spec fn from_spec(v: &'a str) -> Message {
        Message { message: arbitrary() }
    }
}

} // verus!
