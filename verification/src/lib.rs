//! Verified core of a collaborative LaTeX editor: the CRDT-backed document
//! buffer, the text-diff replay that turns local edits into sync messages,
//! the collaboration session and signaling room state machines, the LaTeX
//! line highlighter, and the pure helpers of the editor shell.

pub mod text;
pub mod crdt;
pub mod buffer;
pub mod network;
pub mod diff;
pub mod collab;
pub mod signal;
pub mod highlight;
pub mod compiler;
pub mod outline;
pub mod editor;
pub mod menu;
pub mod ids;
pub mod pdf;
pub mod client;
