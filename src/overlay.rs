use vstd::prelude::*;
use crate::keyboard::Key;

verus! {

/// Which prompt an overlay is.
#[derive(Clone, Copy, Debug, PartialEq, Eq, Structural)]
pub enum OverlayType {
    /// A command line.
    Prompt,
    /// Asks for the path to save the buffer to.
    SavePrompt,
    /// Asks for a file to open.
    SelectFile,
}

/// A modal prompt layered over normal key handling, with the text typed so far.
pub struct Overlay {
    kind: Option<OverlayType>,
    data: Vec<char>,
}

/// What feeding a key to an overlay gives.
#[derive(Debug, PartialEq, Eq)]
pub enum OverlayEvent {
    /// The prompt goes on.
    Continue,
    /// The prompt is over: confirmed with its text, or cancelled.
    Finished(Option<Vec<char>>),
}

/// The text of a prompt after `key` is typed into it, where it goes on.
pub open spec fn typed(data: Seq<char>, key: Key) -> Seq<char> {
    match key {
        Key::Char(c) => data.push(c),
        Key::Backspace => if data.len() == 0 {
            data
        } else {
            data.drop_last()
        },
        _ => data,
    }
}

impl Overlay {
    /// The prompt that is active, if any.
    pub closed spec fn kind(&self) -> Option<OverlayType> {
        self.kind
    }

    /// The text typed into the prompt so far.
    pub closed spec fn data(&self) -> Seq<char> {
        self.data@
    }

    /// No active prompt.
    pub fn inactive() -> (r: Overlay)
        ensures
            r.kind() is None,
            r.data().len() == 0,
    {
        Overlay { kind: None, data: Vec::new() }
    }

    /// An active prompt of type `t` with no text typed yet.
    pub fn new(t: OverlayType) -> (r: Overlay)
        ensures
            r.kind() == Some(t),
            r.data().len() == 0,
    {
        Overlay { kind: Some(t), data: Vec::new() }
    }

    /// The prompt that is active, if any.
    pub fn overlay_type(&self) -> (r: Option<OverlayType>)
        ensures
            r == self.kind(),
    {
        self.kind
    }

    /// Whether a prompt is active.
    pub fn is_active(&self) -> (r: bool)
        ensures
            r == self.kind() is Some,
    {
        self.kind.is_some()
    }

    /// Feeds one key to the prompt. A character is added to its text,
    /// backspace takes the last one away, enter confirms with the text and
    /// escape cancels. Without an active prompt nothing changes.
    pub fn handle_key(&mut self, key: Key) -> (r: OverlayEvent)
        ensures
            final(self).kind() == old(self).kind(),
            old(self).kind() is None ==> r == OverlayEvent::Continue && final(self).data() == old(
                self,
            ).data(),
            old(self).kind() is Some ==> match key {
                Key::Enter => r matches OverlayEvent::Finished(Some(d)) && d@ == old(self).data()
                    && final(self).data() == old(self).data(),
                Key::Esc => r == OverlayEvent::Finished(None) && final(self).data() == old(
                    self,
                ).data(),
                _ => r == OverlayEvent::Continue && final(self).data() == typed(old(self).data(), key),
            },
    {
        if self.kind.is_none() {
            return OverlayEvent::Continue;
        }
        match key {
            Key::Enter => {
                let mut d: Vec<char> = Vec::new();
                let mut i: usize = 0;
                while i < self.data.len()
                    invariant
                        i <= self.data@.len(),
                        d@ == self.data@.take(i as int),
                    decreases self.data@.len() - i,
                {
                    d.push(self.data[i]);
                    assert(self.data@.take(i as int + 1) =~= self.data@.take(i as int).push(
                        self.data@[i as int],
                    ));
                    i = i + 1;
                }
                assert(self.data@ =~= self.data@.take(i as int));
                OverlayEvent::Finished(Some(d))
            },
            Key::Esc => OverlayEvent::Finished(None),
            Key::Char(c) => {
                self.data.push(c);
                OverlayEvent::Continue
            },
            Key::Backspace => {
                if self.data.len() > 0 {
                    self.data.pop();
                }
                OverlayEvent::Continue
            },
            _ => OverlayEvent::Continue,
        }
    }
}

} // verus!
