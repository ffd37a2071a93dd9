//! Verified core of a desktop assistant for the Chinese university entrance
//! examination (gaokao): parsing of admission cut-off tables extracted from
//! PDF files, ToUnicode CMap decoding of PDF text, the Shanghai score-to-rank
//! table, the streaming chat protocol and the MCP tool protocol.
pub mod text;
pub mod cjk;
pub mod cutoff;
pub mod rank;
pub mod cmap;
pub mod pdf_text;
pub mod extract;
pub mod chat;
pub mod mcp;
pub mod storage;
