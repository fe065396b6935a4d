//! What Glk hears back from a display when it asks for input.

use vstd::prelude::*;

use crate::glk::objects::Event;

verus! {

/// A display's answer to an input ask.
#[derive(Debug, Clone, PartialEq, Eq)]
pub enum Asked<T> {
    /// The input arrived.
    Answer(T),
    /// Nothing yet: these events happened instead -- a timer firing,
    /// most likely. The request stays pending and the select comes
    /// round again, which is what lets a timer event arrive without
    /// cancelling line input.
    Instead(Vec<Event>),
    /// No input can ever arrive: the session ends rather than hanging
    /// forever.
    End,
}

/// A display that shows nothing and has no input: output is discarded,
/// and an input request ends the session, since a game waiting for
/// input that can never arrive would otherwise hang forever.
#[derive(Debug, Default, Clone, Copy, PartialEq, Eq, Structural)]
pub struct NullFrontend;

impl NullFrontend {
    /// A classic 80x24, so layout arithmetic stays sensible.
    pub fn size(&self) -> (size: (i64, i64))
        ensures
            size == (80i64, 24i64),
    {
        (80, 24)
    }

    /// A line request's answer: the end of the session.
    pub fn read_line(&mut self, _window: u32, _maxlen: u32) -> (answer: Asked<(String, u32)>)
        ensures
            answer is End,
    {
        Asked::End
    }

    /// A character request's answer: the end of the session.
    pub fn read_char(&mut self, _window: u32) -> (answer: Asked<u32>)
        ensures
            answer is End,
    {
        Asked::End
    }
}

} // verus!
