//! Notes: their decryption, and their memos.

pub mod decrypt;
pub mod memo;
