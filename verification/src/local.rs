//! The local-filesystem backend's verified part: the root path and the path
//! arithmetic for every operation.
//!
//! The adapter around this type streams bytes between the caller and the
//! file under the computed path (a true streaming copy, O(1) memory
//! overhead); the paths themselves, and the name normalization baked into
//! them, are decided here.

use vstd::prelude::*;
use vstd::string::{StrSliceExecFns, StringExecFns};

use crate::error::StowError;
use crate::normalize::{find_dot, norm_item_name, norm_name, streamline, streamline_item};

verus! {

/// A handle on a directory tree: containers are child directories of the
/// root, items are files within them.
#[derive(Clone, Debug)]
pub struct LocalLocation {
    path: String,
}

impl View for LocalLocation {
    type V = Seq<char>;

    closed spec fn view(&self) -> Seq<char> {
        self.path@
    }
}

impl LocalLocation {
    /// Normalize the root path. The adapter creates the directory right
    /// after this and fails eagerly if it cannot.
    pub fn new(path: &str) -> (r: Self)
        ensures
            r@ == norm_name(path@, '-'),
    {
        LocalLocation { path: streamline(path) }
    }

    /// The root directory every operation works under.
    pub fn root(&self) -> (r: &str)
        ensures
            r@ == self@,
    {
        self.path.as_str()
    }

    /// The directory of a container: the root, a slash, and the normalized
    /// container name.
    pub fn container_path(&self, container: &str) -> (r: String)
        ensures
            r@ == self@ + "/"@ + norm_name(container@, '-'),
    {
        let mut out = self.path.clone();
        out.append("/");
        let n = streamline(container);
        out.append(n.as_str());
        out
    }

    /// The file of an item: the container's directory, a slash, and the
    /// normalized item name. An item name without a type suffix is rejected
    /// here, before any I/O.
    pub fn item_path(&self, container: &str, item: &str) -> (r: Result<String, StowError>)
        ensures
            match r {
                Ok(s) => find_dot(item@) is Some && s@ == self@ + "/"@ + norm_name(container@, '-')
                    + "/"@ + norm_item_name(item@, '-'),
                Err(e) => find_dot(item@) is None && e == StowError::ItemTypMissing,
            },
    {
        let ni = match streamline_item(item) {
            Ok(s) => s,
            Err(e) => {
                return Err(e);
            },
        };
        let mut out = self.container_path(container);
        out.append("/");
        out.append(ni.as_str());
        Ok(out)
    }
}

} // verus!
