//! The plain-value pieces of chat messages: a user id and a text fragment,
//! either plain or marked up.  Sending messages is a collaborator's job.

use vstd::prelude::*;

verus! {

/// A chat user id.
#[derive(PartialEq, Hash, Eq, PartialOrd, Ord, Debug, Clone)]
pub struct SlackUserId(pub String);

#[derive(Debug, PartialEq, Eq, Clone, Copy, Structural)]
pub enum TextType {
    PlainText,
    Mrkdwn,
}

/// A text fragment with its rendering kind.
#[derive(Debug, PartialEq, Clone)]
pub struct Text {
    pub text_type: TextType,
    pub text: String,
}

impl Text {
    pub fn plain(s: &str) -> (r: Text)
        ensures
            r.text_type == TextType::PlainText,
            r.text@ == s@,
    {
        Text { text_type: TextType::PlainText, text: s.to_owned() }
    }

    pub fn mrkdwn(s: &str) -> (r: Text)
        ensures
            r.text_type == TextType::Mrkdwn,
            r.text@ == s@,
    {
        Text { text_type: TextType::Mrkdwn, text: s.to_owned() }
    }
}

} // verus!
