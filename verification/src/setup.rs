//! Which of the driver's debug messages deserve attention.

use vstd::prelude::*;

verus! {

/// The message type of errors.
pub const DEBUG_TYPE_ERROR: u32 = 0x824C;

/// The message type of uses of deprecated behavior.
pub const DEBUG_TYPE_DEPRECATED_BEHAVIOR: u32 = 0x824D;

/// The message type of uses of undefined behavior.
pub const DEBUG_TYPE_UNDEFINED_BEHAVIOR: u32 = 0x824E;

/// The message type of uses that are not portable.
pub const DEBUG_TYPE_PORTABILITY: u32 = 0x824F;

/// What to do with a debug message.
#[derive(Clone, Copy, Debug, PartialEq, Eq, Structural)]
pub enum DebugMessageClass {
    /// Known noise; say nothing.
    Ignored,
    /// Worth a short note.
    Minor,
    /// Worth a note with type and severity.
    Important,
}

/// Whether messages with this id are known noise: the note that a shader
/// failed to compile, and the notes on buffer memory, on renderbuffer
/// storage and on synchronized pixel transfers.
pub open spec fn is_ignored_id(id: u32) -> bool {
    id == 131216 || id == 131185 || id == 131169 || id == 131154
}

/// Whether messages of this type are important: errors, and undefined,
/// deprecated or unportable behavior.
pub open spec fn is_important_type(ty: u32) -> bool {
    ty == DEBUG_TYPE_ERROR || ty == DEBUG_TYPE_UNDEFINED_BEHAVIOR || ty
        == DEBUG_TYPE_DEPRECATED_BEHAVIOR || ty == DEBUG_TYPE_PORTABILITY
}

/// The class of a message with the given id and type.
pub open spec fn debug_message_class(id: u32, ty: u32) -> DebugMessageClass {
    if is_ignored_id(id) {
        DebugMessageClass::Ignored
    } else if is_important_type(ty) {
        DebugMessageClass::Important
    } else {
        DebugMessageClass::Minor
    }
}

/// Classifies a debug message of the driver by its id and type.
pub fn gl_debug_message(id: u32, ty: u32) -> (class: DebugMessageClass)
    ensures
        class == debug_message_class(id, ty),
{
    let is_ignored_id = id == 131216 || id == 131185 || id == 131169 || id == 131154;
    if is_ignored_id {
        DebugMessageClass::Ignored
    } else {
        let is_important_type = ty == DEBUG_TYPE_ERROR || ty == DEBUG_TYPE_UNDEFINED_BEHAVIOR
            || ty == DEBUG_TYPE_DEPRECATED_BEHAVIOR || ty == DEBUG_TYPE_PORTABILITY;
        if is_important_type {
            DebugMessageClass::Important
        } else {
            DebugMessageClass::Minor
        }
    }
}

} // verus!
