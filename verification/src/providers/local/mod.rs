//! A deterministic provider for tests: it echoes the last user message.
use vstd::prelude::*;

use crate::providers::{Message, Role};
use crate::text::push_str;

verus! {

/// The echoing provider.
#[derive(Debug)]
pub struct LocalMock {}

/// The index of the last message, before `end`, written by the user.
pub open spec fn last_user_before(msgs: Seq<Message>, end: int) -> Option<int>
    decreases end,
{
    if end <= 0 {
        None
    } else if msgs[end - 1].role == Role::User {
        Some(end - 1)
    } else {
        last_user_before(msgs, end - 1)
    }
}

/// The index of the last message written by the user.
pub open spec fn last_user(msgs: Seq<Message>) -> Option<int> {
    last_user_before(msgs, msgs.len() as int)
}

/// The reply: `echo: ` followed by the last user message.
pub open spec fn echo_reply(msgs: Seq<Message>) -> Seq<char> {
    "echo: "@ + msgs[last_user(msgs)->0].content@
}

/// The source tag the provider puts on its replies.
pub open spec fn mock_source() -> Seq<char> {
    "local-mock"@
}

impl LocalMock {
    pub fn new() -> (m: LocalMock) {
        LocalMock {}
    }

    /// The tag identifying this provider's replies.
    pub fn source(&self) -> (s: &'static str)
        ensures
            s@ == mock_source(),
    {
        "local-mock"
    }

    /// Echoes the last user message. There must be one.
    pub fn reply(&self, messages: &Vec<Message>) -> (r: String)
        requires
            last_user(messages@) is Some,
        ensures
            r@ == echo_reply(messages@),
    {
        let mut i = messages.len();
        while i > 0 && messages[i - 1].role != Role::User
            invariant
                i <= messages.len(),
                last_user(messages@) == last_user_before(messages@, i as int),
            decreases i,
        {
            i -= 1;
        }
        let mut r = String::new();
        push_str(&mut r, "echo: ");
        push_str(&mut r, messages[i - 1].content.as_str());
        r
    }
}

} // verus!
