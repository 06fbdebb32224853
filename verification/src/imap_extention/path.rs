//! Mailbox names.

use vstd::prelude::*;

verus! {

/// Counters that a mailbox reports about itself.
#[derive(Debug)]
pub struct Status {
    pub messages: u32,
    pub recent: u32,
    pub unseen: u32,
}

/// A mailbox name as handed to the mail server.
pub struct Path {
    inner: String,
}

impl View for Path {
    type V = Seq<char>;

    closed spec fn view(&self) -> Seq<char> {
        self.inner@
    }
}

impl Path {
    pub fn new(path: &str) -> (r: Path)
        ensures
            r@ == path@,
    {
        Path { inner: path.to_owned() }
    }

    pub fn as_str(&self) -> (r: &str)
        ensures
            r@ == self@,
    {
        self.inner.as_str()
    }
}

} // verus!
