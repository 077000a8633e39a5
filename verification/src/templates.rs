//! Models of the views the renderer consumes. Rendering itself is outside
//! the engine: these structs carry exactly the data each view is built
//! from, and the contracts of the stream driver say which of them a
//! subscriber is handed and with what contents.

use vstd::prelude::*;

use crate::rooms::Message;

verus! {

/// The room shell page.
pub struct RoomTemplate {
    pub room_id: String,
}

/// A single chat line.
pub struct MessageTemplate {
    pub message: String,
    pub person: String,
}

/// The room-has-expired notice that ends every stream.
pub struct ShutdownTemplate {}

/// The chat log, rendered from the reader's perspective.
pub struct SubmitTemplate {
    pub messages: Vec<Message>,
    pub connection_id: String,
}

/// The live typing buffers, one per named participant, in the order the
/// participants first appeared.
pub struct TypingTemplate {
    pub messages: Vec<Message>,
    pub connection_id: String,
}

/// The name prompt shown to a participant who has not chosen a name yet.
pub struct InitNameTemplate {
    pub room_id: String,
}

/// The unrecoverable-error notice with a refresh button.
pub struct MajorErrorTemplate {}

/// The chat input bound to a participant's chosen name.
pub struct ChatInputTemplate {
    pub room_id: String,
    pub person: String,
}

/// The name form re-rendered with a status message.
pub struct SetNameTemplate {
    pub room_id: String,
    pub message: String,
}

/// A status line addressed at one element of the page.
pub struct StatusMessageTemplate {
    pub target_id: String,
    pub message: String,
}

} // verus!
