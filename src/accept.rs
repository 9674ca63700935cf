use vstd::prelude::*;
use crate::args::{views, Args};
use crate::node::{Attributes, Entry, EntryKind};
use crate::path::{ascii_lower, contains_char, to_ascii_lowercase};

verus! {

/// A name that starts with a dot.
pub open spec fn dot_name(name: Seq<char>) -> bool {
    name.len() > 0 && name[0] == '.'
}

/// Hidden by its attributes, except a drive root: hidden, system and directory at once,
/// with no parent.
pub open spec fn hidden(attributes: Attributes, has_parent: bool) -> bool {
    attributes.hidden && !(attributes.system && attributes.directory && !has_parent)
}

/// Shown as a file: a file, or a link that does not lead to a directory.
pub open spec fn file_like(kind: EntryKind) -> bool {
    match kind {
        EntryKind::File => true,
        EntryKind::Directory => false,
        EntryKind::Link { to_directory } => !to_directory,
    }
}

/// Shown as a directory: a directory, or a link that leads to one.
pub open spec fn directory_like(kind: EntryKind) -> bool {
    match kind {
        EntryKind::File => false,
        EntryKind::Directory => true,
        EntryKind::Link { to_directory } => to_directory,
    }
}

/// A kind the walk goes down into: a directory, or a link to one unless links are not
/// to be followed.
pub open spec fn traversable(args: &Args, kind: EntryKind) -> bool {
    match kind {
        EntryKind::File => false,
        EntryKind::Directory => true,
        EntryKind::Link { to_directory } => to_directory && !args.cmd.dont_traverse_links,
    }
}

/// A name that is excluded: one that is no base name (empty, or holding the separator),
/// or one that equals an excluded name when both are in ASCII lower case.
pub open spec fn name_excluded(args: &Args, name: Seq<char>) -> bool {
    ||| name.len() == 0
    ||| name.contains(args.separator)
    ||| views(args.excluded_lowercase@).contains(ascii_lower(name))
}

/// Passes the gates that rule both output and descent: depth and name exclusion.
pub open spec fn admitted(args: &Args, entry: Entry, depth: nat) -> bool {
    depth <= args.max_depth && !name_excluded(args, entry.name@)
}

/// Passes the gates that rule output alone: dots, the hidden attribute, and the kind.
pub open spec fn displayable(args: &Args, entry: Entry) -> bool {
    &&& args.cmd.show_dots || !dot_name(entry.name@)
    &&& args.cmd.show_hidden || !hidden(entry.attributes, true)
    &&& (file_like(entry.kind) && !args.cmd.hide_files) || (directory_like(entry.kind)
        && !args.cmd.hide_directories)
}

/// Written out when met at `depth`.
pub open spec fn shown(args: &Args, entry: Entry, depth: nat) -> bool {
    admitted(args, entry, depth) && displayable(args, entry)
}

/// Walked into when met at `depth`: admitted, with room below it, not a dot entry
/// unless dots are shown, and of a traversable kind.
pub open spec fn descends(args: &Args, entry: Entry, depth: nat) -> bool {
    &&& admitted(args, entry, depth)
    &&& depth < args.max_depth
    &&& args.cmd.show_dots || !dot_name(entry.name@)
    &&& traversable(args, entry.kind)
}

/// Tells whether `name` starts with a dot.
pub fn is_dot(name: &str) -> (r: bool)
    ensures
        r == dot_name(name@),
{
    name.unicode_len() > 0 && name.get_char(0) == '.'
}

/// Tells whether the attributes hide an entry; a drive root (hidden, system and directory,
/// with no parent) is not hidden.
pub fn is_hidden(attributes: &Attributes, has_parent: bool) -> (r: bool)
    ensures
        r == hidden(*attributes, has_parent),
{
    if attributes.hidden {
        if attributes.system && attributes.directory && !has_parent {
            return false;
        }
        return true;
    }
    false
}

/// Tells whether an entry of this kind is shown as a file.
pub fn is_file(kind: &EntryKind) -> (r: bool)
    ensures
        r == file_like(*kind),
{
    match kind {
        EntryKind::File => true,
        EntryKind::Directory => false,
        EntryKind::Link { to_directory } => !*to_directory,
    }
}

/// Tells whether an entry of this kind is shown as a directory.
pub fn is_directory(kind: &EntryKind) -> (r: bool)
    ensures
        r == directory_like(*kind),
{
    match kind {
        EntryKind::File => false,
        EntryKind::Directory => true,
        EntryKind::Link { to_directory } => *to_directory,
    }
}

/// Tells whether the walk may go down into an entry of this kind.
pub fn is_traversable(args: &Args, kind: &EntryKind) -> (r: bool)
    ensures
        r == traversable(args, *kind),
{
    match kind {
        EntryKind::File => false,
        EntryKind::Directory => true,
        EntryKind::Link { to_directory } => *to_directory && !args.cmd.dont_traverse_links,
    }
}

/// Tells whether `name` is excluded: no base name, or equal to an excluded name in ASCII
/// lower case.
pub fn is_excluded(args: &Args, name: &str) -> (r: bool)
    ensures
        r == name_excluded(args, name@),
{
    if name.unicode_len() == 0 || contains_char(name, args.separator) {
        return true;
    }
    let lower = to_ascii_lowercase(name);
    let n = args.excluded_lowercase.len();
    for i in 0..n
        invariant
            n == args.excluded_lowercase@.len(),
            lower@ == ascii_lower(name@),
            forall|j: int| 0 <= j < i ==> #[trigger] args.excluded_lowercase@[j]@ != lower@,
    {
        if args.excluded_lowercase[i] == lower {
            assert(views(args.excluded_lowercase@)[i as int] == lower@);
            return true;
        }
    }
    assert forall|j: int| 0 <= j < n implies #[trigger] views(args.excluded_lowercase@)[j] != lower@ by {
        assert(args.excluded_lowercase@[j]@ != lower@);
    }
    false
}

/// The output gates of an entry: dots, the hidden attribute, and whether its kind is hidden.
pub fn accept_path(args: &Args, item: &Entry) -> (r: bool)
    ensures
        r == displayable(args, *item),
{
    if !args.cmd.show_dots && is_dot(item.name.as_str()) {
        return false;
    }
    if !args.cmd.show_hidden && is_hidden(&item.attributes, true) {
        return false;
    }
    (is_file(&item.kind) && !args.cmd.hide_files) || (is_directory(&item.kind)
        && !args.cmd.hide_directories)
}

/// Tells whether an entry met at `depth` passes the depth and name exclusion gates.
pub fn is_admitted(args: &Args, item: &Entry, depth: usize) -> (r: bool)
    ensures
        r == admitted(args, *item, depth as nat),
{
    depth <= args.max_depth && !is_excluded(args, item.name.as_str())
}

/// Tells whether the walk goes down into an entry met at `depth`.
pub fn descend_into(args: &Args, item: &Entry, depth: usize) -> (r: bool)
    ensures
        r == descends(args, *item, depth as nat),
{
    is_admitted(args, item, depth) && depth < args.max_depth && (args.cmd.show_dots || !is_dot(
        item.name.as_str(),
    )) && is_traversable(args, &item.kind)
}

} // verus!
