//! The columns of the table of attachments.

use vstd::prelude::*;

verus! {

/// The primary key, and the place of the bytes in the bucket.
pub const ID: &'static str = "id";

/// The name of the file.
pub const FILENAME: &'static str = "filename";

/// The number of bytes.
pub const SIZE: &'static str = "size";

/// The media type, such as `image/png`.
pub const MEDIA_TYPE: &'static str = "media_type";

/// The state of the transfer.
pub const STATE: &'static str = "state";

/// When the state last changed, in milliseconds since the epoch.
pub const TIMESTAMP: &'static str = "timestamp";

} // verus!
