//! What travels over a connection once it is framed.

use crate::message::ZmqMessage;
use vstd::prelude::*;

verus! {

/// A frame of the protocol. `G` is a greeting, `C` a command.
#[derive(Debug)]
pub enum Message<G, C> {
    Greeting(G),
    Command(C),
    Message(ZmqMessage),
}

} // verus!
