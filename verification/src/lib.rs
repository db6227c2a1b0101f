pub mod chunk;
pub mod chunk_type;
pub mod crc32;
pub mod encoding;
pub mod error;
pub mod png;
pub mod text;
