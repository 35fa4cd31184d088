//! The remote-session protocol's shared types: message kinds, chat messages and terminal
//! sizes.
use vstd::prelude::*;

verus! {

/// Kinds of message on a remote session.
#[derive(Clone, Copy, Debug, PartialEq, Eq, Structural)]
pub enum MessageType {
    TerminalData,
    TerminalResize,
    ChatMessage,
    ChatResponseChunk,
    SessionMetadata,
    Keepalive,
    KeyRotation,
    SessionEnd,
}

/// The byte that carries a message kind.
pub open spec fn kind_byte(t: MessageType) -> u8 {
    match t {
        MessageType::TerminalData => 0x01,
        MessageType::TerminalResize => 0x02,
        MessageType::ChatMessage => 0x03,
        MessageType::ChatResponseChunk => 0x04,
        MessageType::SessionMetadata => 0x05,
        MessageType::Keepalive => 0x06,
        MessageType::KeyRotation => 0x10,
        MessageType::SessionEnd => 0xff,
    }
}

impl MessageType {
    /// The byte the kind is numbered with.
    pub fn to_byte(self) -> (r: u8)
        ensures
            r == kind_byte(self),
    {
        match self {
            MessageType::TerminalData => 0x01,
            MessageType::TerminalResize => 0x02,
            MessageType::ChatMessage => 0x03,
            MessageType::ChatResponseChunk => 0x04,
            MessageType::SessionMetadata => 0x05,
            MessageType::Keepalive => 0x06,
            MessageType::KeyRotation => 0x10,
            MessageType::SessionEnd => 0xff,
        }
    }
}

/// Law: each message kind has a byte of its own.
pub proof fn law_kind_bytes_distinct(a: MessageType, b: MessageType)
    ensures
        kind_byte(a) == kind_byte(b) ==> a == b,
{
}

/// Who wrote a chat message.
#[derive(Clone, Copy, Debug, PartialEq, Eq, Structural)]
pub enum ChatRole {
    User,
    Assistant,
    System,
    Tool,
}

impl ChatRole {
    /// The role's name on the wire, in lower case.
    pub fn name(self) -> (r: &'static str)
        ensures
            r@ == match self {
                ChatRole::User => "user"@,
                ChatRole::Assistant => "assistant"@,
                ChatRole::System => "system"@,
                ChatRole::Tool => "tool"@,
            },
    {
        match self {
            ChatRole::User => "user",
            ChatRole::Assistant => "assistant",
            ChatRole::System => "system",
            ChatRole::Tool => "tool",
        }
    }
}

/// One chat message.
#[derive(Clone, Debug)]
pub struct ChatMessage {
    pub role: ChatRole,
    pub content: String,
    pub timestamp: u64,
}

/// A terminal size.
#[derive(Clone, Copy, Debug, PartialEq, Eq, Structural)]
pub struct TerminalResize {
    pub cols: u16,
    pub rows: u16,
}

} // verus!
