//! Turning pasted Instagram links and instaloader target syntax into
//! download targets, and the decisions around downloading them with
//! instaloader.
use vstd::prelude::*;

pub mod download;
pub mod flow;
pub mod laws;
pub mod order;
pub mod parse;
pub mod text;

pub use download::DownloadResult;
pub use parse::parse_links;
pub use parse::parse_shortcode;
pub use parse::parse_target;
pub use parse::DownloadTarget;
pub use parse::ParseError;

verus! {

} // verus!
