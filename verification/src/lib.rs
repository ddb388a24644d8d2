//! Static-site source resolution and HTML document transformation: a
//! resolver maps source URIs onto a configured root directory without ever
//! escaping it, and HTML payloads run through an ordered chain of document
//! modifiers — among them the one that strips the reserved marker element —
//! before the resolved bytes are handed back.

pub mod config;
pub mod dom;
pub mod mods;
pub mod parse;
pub mod resolve;
pub mod ser;
