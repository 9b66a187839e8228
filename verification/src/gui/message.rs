//! A message shown in the window for a while: an optional heading, the
//! text, and whether the time left is shown.

use vstd::prelude::*;

use crate::gui::timer::Timer;

verus! {

/// Seconds that a message stays when no length is given.
pub const DEFAULT_MESSAGE_SECS: u64 = 5;

/// Nanoseconds in a second.
pub const NANOS_PER_SEC: u128 = 1_000_000_000;

/// A message shown in the window until its timer completes.
pub struct Message {
    header: Option<String>,
    message: String,
    show_timer: bool,
    timer: Timer,
}

impl Message {
    pub closed spec fn header(&self) -> Option<Seq<char>> {
        match self.header {
            Some(h) => Some(h@),
            None => None,
        }
    }

    pub closed spec fn text(&self) -> Seq<char> {
        self.message@
    }

    pub closed spec fn shows_timer(&self) -> bool {
        self.show_timer
    }

    /// How long the message stays, in nanoseconds.
    pub closed spec fn length_nanos(&self) -> u128 {
        self.timer.length_nanos()
    }

    /// A message shown for `length_nanos` nanoseconds from now.
    pub fn new(header: Option<String>, message: String, show_timer: bool, length_nanos: u128) -> (m: Message)
        ensures
            m.header() == (match header {
                Some(h) => Some(h@),
                None => None::<Seq<char>>,
            }),
            m.text() == message@,
            m.shows_timer() == show_timer,
            m.length_nanos() == length_nanos,
    {
        Message { header, message, show_timer, timer: Timer::new(length_nanos) }
    }

    /// A message shown for the default number of seconds from now.
    pub fn new_default_duration(header: Option<String>, message: String, show_timer: bool) -> (m: Message)
        ensures
            m.header() == (match header {
                Some(h) => Some(h@),
                None => None::<Seq<char>>,
            }),
            m.text() == message@,
            m.shows_timer() == show_timer,
            m.length_nanos() == DEFAULT_MESSAGE_SECS as u128 * NANOS_PER_SEC,
    {
        let length_nanos: u128 = DEFAULT_MESSAGE_SECS as u128 * NANOS_PER_SEC;
        Message { header, message, show_timer, timer: Timer::new(length_nanos) }
    }

    /// Whether the message's time is up. The answer rests on the clock;
    /// whatever it reads, a message shown for no time is done.
    pub fn is_complete(&self) -> (done: bool)
        ensures
            self.length_nanos() == 0 ==> done,
    {
        self.timer.is_complete()
    }
}

} // verus!
