//! Images in messages: the text holds a reference, the image store the bytes.

pub mod attach;
pub mod clipboard;
pub mod segment;
pub mod store;

pub use attach::inline_user_attachments;
pub use segment::{parse_segments, ImageRef, Segment};
pub use store::{images_dir, is_image_path, mime_from_ext, put_bytes};
