//! Base64 transcoding engine (RFC 4648 standard alphabet, `=` padding).
//!
//! Two pipelines, each of two stages:
//! - `stream`: the bit repacker, regrouping 8-bit bytes into 6-bit symbols
//!   (encode) and back (decode);
//! - `translate`: the block translator, mapping 6-bit symbols to alphabet
//!   characters (encode) and back (decode), 16 lanes at a time by branchless
//!   range classification;
//! - `codec`: the orchestrator driving both stages over whole buffers and
//!   handling `=` padding, together with the library's laws.

pub mod codec;
pub mod stream;
pub mod translate;
