//! Core logic of a chunked, resumable file-transfer protocol.
//!
//! Files travel in fixed-size chunks addressed by index.  Every request and
//! response is one frame: an 11-byte header followed by a payload, where the
//! payload is either structured text or a compact binary prefix followed by
//! raw file bytes.  The client-driven upload ("put") and download ("get")
//! loops resume interrupted transfers by comparing chunk counts, re-sending a
//! possibly partial last chunk, and writing every chunk at its byte offset so
//! that duplicate delivery is idempotent.

pub mod chunk;
pub mod command;
pub mod dir;
pub mod dispatch;
pub mod filemodel;
pub mod frame;
pub mod get_payload;
pub mod ls_payload;
pub mod paths;
pub mod payload;
pub mod put_payload;
pub mod text;
pub mod transfer;
