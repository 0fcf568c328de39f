//! A small chat: a server that echoes messages and sends a heartbeat.

use vstd::prelude::*;

verus! {

/// The protocol that the chat is served over.
pub const ALPN: &'static str = "h3";

/// How many heartbeats a subscriber gets.
pub const HEARTBEATS: usize = 5;

/// One heartbeat.
pub const HEARTBEAT: &'static str = "Server heartbeat\n";

/// A message of the chat.
#[derive(Debug)]
pub struct Message {
    pub sender: String,
    pub content: String,
}

/// The server's answer to a message.
pub fn broadcast_message(message: &Message) -> (reply: Message)
    ensures
        reply.sender@ == "Server"@,
        reply.content@ == "Echo: "@ + message.content@,
{
    let mut content = "Echo: ".to_owned();
    content.append(message.content.as_str());
    Message { sender: "Server".to_owned(), content }
}

/// The chunks of the heartbeat stream.
pub fn message_stream() -> (chunks: Vec<String>)
    ensures
        chunks@.len() == HEARTBEATS,
        forall|i: int| 0 <= i < chunks@.len() ==> (#[trigger] chunks@[i])@ == HEARTBEAT@,
{
    let mut chunks: Vec<String> = Vec::new();
    for i in 0..HEARTBEATS
        invariant
            chunks@.len() == i,
            forall|j: int| 0 <= j < i ==> (#[trigger] chunks@[j])@ == HEARTBEAT@,
    {
        chunks.push(HEARTBEAT.to_owned());
    }
    chunks
}

} // verus!
