pub mod util;
pub mod decoration;
pub mod loc_hint;
pub mod writer;
pub mod reconstruction;
pub mod common;
pub mod kept_comments;
pub mod default_layout;
