//! Tag and class discovery over parsed HTML, selector resolution from free
//! text, and extraction of cleaned element text.

pub mod greeting;
pub mod text;
pub mod text_laws;
pub mod index;
pub mod resolve;
pub mod extract;
pub mod output;
