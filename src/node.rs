use vstd::prelude::*;

verus! {

/// A place in the tree: a path and its distance from the start directory.
pub struct Node {
    /// The path, as it is listed or as it was given.
    pub path: String,
    /// The depth of the node below the start directory, which has depth 0.
    pub depth: usize,
}

impl Node {
    /// A node for an injected path, kept only when that path exists.
    pub fn new_injected(path: &str, exists: bool) -> (r: Option<Node>)
        ensures
            exists <==> r is Some,
            r matches Some(n) ==> n.path@ == path@ && n.depth == 0,
    {
        if !exists {
            return None;
        }
        Some(Node { path: String::from_str(path), depth: 0 })
    }
}

/// What an entry is, as its metadata tells it.
pub enum EntryKind {
    File,
    Directory,
    /// A symbolic link (or a reparse point); `to_directory` tells whether it leads to a directory.
    Link { to_directory: bool },
}

/// The platform attribute bits of an entry; all of them are false where the platform has none.
#[derive(Clone, Copy)]
pub struct Attributes {
    pub hidden: bool,
    pub system: bool,
    pub directory: bool,
}

/// One child of a listed directory.
pub struct Entry {
    /// The base name; empty where none could be taken from the listing.
    pub name: String,
    pub kind: EntryKind,
    pub attributes: Attributes,
}

} // verus!
