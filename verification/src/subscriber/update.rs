//! Updates pushed by hubs.
pub mod content;

use vstd::prelude::*;

pub use crate::signature::SignatureMismatch;
pub use self::content::Content;

verus! {

/// Content and metadata of an update pushed by a hub.
#[derive(Debug)]
pub struct Update {
    /// The topic URI associated with the update.
    pub topic: String,
    /// The HTTP request headers of the update: each name (in lower case) with its value.
    pub headers: Vec<(String, Vec<u8>)>,
    /// The checker of the request body of the update.
    pub content: Content,
}

} // verus!
