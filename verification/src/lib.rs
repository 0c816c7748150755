//! Decoding of archived forum-post snapshots: the multipart envelope, the
//! transfer encodings of its parts, the post record held in the HTML part,
//! and the page records made of them.
//!
//! An archive is read by [`mhtml::parse`], its post by
//! [`post::parse_groups_post`], and the page of the two is made by
//! [`page::create_page_from_mhtml`]; [`site::build_site`] puts the pages of
//! a batch in order. Nothing here reads or writes files.

pub mod dates;
pub mod emphasis;
pub mod error;
pub mod mhtml;
pub mod numerals;
pub mod page;
pub mod post;
pub mod render;
pub mod scan;
pub mod site;
pub mod text;
pub mod transfer;
pub mod utf8_bytes;
