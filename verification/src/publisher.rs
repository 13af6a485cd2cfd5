//! The holder of the latest rendered snapshot.

use vstd::prelude::*;

verus! {

/// Holds the latest rendered snapshot. One writer replaces it after each
/// compute pass; any number of readers take it as it is.
#[derive(Debug)]
pub struct SnapshotPublisher {
    current: String,
}

impl View for SnapshotPublisher {
    type V = Seq<char>;

    /// The rendering that readers see.
    closed spec fn view(&self) -> Seq<char> {
        self.current@
    }
}

impl SnapshotPublisher {
    /// A publisher that shows `initial` until the first pass has published.
    pub fn new(initial: String) -> (publisher: SnapshotPublisher)
        ensures
            publisher@ == initial@,
    {
        SnapshotPublisher { current: initial }
    }

    /// Publishes the rendering of one pass. Where the snapshot could not be
    /// rendered (`None`), the one published before stays. The rendering is
    /// replaced as a whole: readers see the old one or the new one.
    pub fn publish(&mut self, rendered: Option<String>)
        ensures
            final(self)@ == match rendered {
                Some(text) => text@,
                None => old(self)@,
            },
    {
        match rendered {
            Some(text) => {
                self.current = text;
            },
            None => {},
        }
    }

    /// The rendering published last.
    pub fn snapshot(&self) -> (text: &String)
        ensures
            text@ == self@,
    {
        &self.current
    }
}

} // verus!
