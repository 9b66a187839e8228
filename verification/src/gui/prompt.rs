//! A question put to the user in the window, and the channel its answer is
//! sent back on.

use vstd::prelude::*;

use std::sync::mpsc::Sender;

verus! {

#[verifier::external_type_specification]
#[verifier::external_body]
#[verifier::reject_recursive_types(T)]
pub struct ExSender<T>(Sender<T>);

/// A question, the answer typed so far, where the answer goes, and whether
/// the answer is hidden as a password.
pub struct Prompt {
    pub prompt: String,
    pub response: String,
    pub sender: Sender<String>,
    password_prompt: bool,
}

impl Prompt {
    /// Whether the answer is hidden as a password.
    pub closed spec fn is_password(&self) -> bool {
        self.password_prompt
    }

    /// The question.
    pub closed spec fn question(&self) -> Seq<char> {
        self.prompt@
    }

    /// The answer typed so far.
    pub closed spec fn answer(&self) -> Seq<char> {
        self.response@
    }

    /// Where the answer is sent.
    pub closed spec fn channel(&self) -> Sender<String> {
        self.sender
    }

    pub fn new(
        prompt: String,
        response: String,
        sender: Sender<String>,
        password_prompt: bool,
    ) -> (p: Self)
        ensures
            p.question() == prompt@,
            p.answer() == response@,
            p.channel() == sender,
            p.is_password() == password_prompt,
    {
        Self { prompt, response, sender, password_prompt }
    }
}

} // verus!
