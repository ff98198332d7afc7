//! Where the service finds its store and where it listens.

use vstd::prelude::*;

verus! {

/// The address of the document store and the path of the socket that the
/// service listens on.
#[derive(Debug)]
pub struct Config {
    pub mongodb_url: String,
    pub socket_path: String,
}

} // verus!
