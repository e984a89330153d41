//! Chats, messages and streamed generation turns of a desktop client for a
//! language-model server that runs on the same machine.

pub mod records;
pub mod stream;
pub mod streams;
