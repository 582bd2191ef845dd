//! An autocorrecting line buffer: typed characters accumulate into a pending
//! word, and each completed word is replaced by its nearest dictionary entry
//! under edit distance before it joins the committed text.

pub mod buffer;
pub mod dictionary;
pub mod distance;
pub mod editor;
pub mod edits;
pub mod text;
