//! Messages of sockets.

use vstd::prelude::*;

verus! {

/// A message: a sequence of frames, each a sequence of bytes.
#[derive(Debug)]
pub struct ZmqMessage {
    frames: Vec<Vec<u8>>,
}

/// The bytes of each of `v`.
pub open spec fn contents(v: Seq<Vec<u8>>) -> Seq<Seq<u8>> {
    Seq::new(v.len(), |i: int| v[i]@)
}

impl View for ZmqMessage {
    type V = Seq<Seq<u8>>;

    closed spec fn view(&self) -> Seq<Seq<u8>> {
        contents(self.frames@)
    }
}

impl ZmqMessage {
    /// A message of these frames.
    pub fn from_frames(frames: Vec<Vec<u8>>) -> (r: Self)
        ensures
            r@ == contents(frames@),
    {
        ZmqMessage { frames }
    }

    /// The number of frames.
    pub fn len(&self) -> (r: usize)
        ensures
            r == self@.len(),
    {
        self.frames.len()
    }

    /// The frame at `index`, if there is one.
    pub fn get(&self, index: usize) -> (r: Option<&Vec<u8>>)
        ensures
            match r {
                Some(frame) => index < self@.len() && frame@ == self@[index as int],
                None => index >= self@.len(),
            },
    {
        if index < self.frames.len() {
            Some(&self.frames[index])
        } else {
            None
        }
    }

    /// The frames.
    pub fn into_vec(self) -> (r: Vec<Vec<u8>>)
        ensures
            contents(r@) == self@,
    {
        self.frames
    }
}

/// Law: a message has exactly the frames it was made of, each with its bytes, in their order, and
/// gives them back.
pub proof fn law_messages_hold_their_frames(
    frames: Vec<Vec<u8>>,
    message: ZmqMessage,
    len: usize,
    index: usize,
    frame: Option<&Vec<u8>>,
    back: Vec<Vec<u8>>,
)
    requires
        call_ensures(ZmqMessage::from_frames, (frames,), message),
        call_ensures(ZmqMessage::len, (&message,), len),
        call_ensures(ZmqMessage::get, (&message, index), frame),
        call_ensures(ZmqMessage::into_vec, (message,), back),
    ensures
        message@.len() == frames@.len(),
        forall|i: int| 0 <= i < frames@.len() ==> #[trigger] message@[i] == frames@[i]@,
        len == frames@.len(),
        frame is Some <==> index < frames@.len(),
        frame matches Some(f) ==> f@ == frames@[index as int]@,
        back@.len() == frames@.len(),
        forall|i: int| 0 <= i < frames@.len() ==> (#[trigger] back@[i])@ == frames@[i]@,
{
    assert(contents(back@).len() == back@.len());
    assert forall|i: int| 0 <= i < frames@.len() implies (#[trigger] back@[i])@ == frames@[i]@ by {
        assert(contents(back@)[i] == back@[i]@);
    }
}

} // verus!
