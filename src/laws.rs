use vstd::prelude::*;
use crate::accept::{descends, dot_name, name_excluded, shown};
use crate::args::Args;
use crate::node::{Attributes, Entry};
use crate::path::normalized;
use crate::walk::{displayed, joined, reachable, reached_by, root_shown};

verus! {

/// An entry whose name is excluded is neither written out nor walked into, so nothing
/// below it is ever listed: exclusion covers the whole subtree.
pub proof fn excluded_entry_cuts_its_subtree(args: &Args, entry: Entry, depth: nat)
    requires
        name_excluded(args, entry.name@),
    ensures
        !shown(args, entry, depth),
        !descends(args, entry, depth),
{
}

/// An entry deeper than the depth limit is neither written out nor walked into.
pub proof fn too_deep_entry_is_cut(args: &Args, entry: Entry, depth: nat)
    requires
        depth > args.max_depth,
    ensures
        !shown(args, entry, depth),
        !descends(args, entry, depth),
{
}

/// The display flags (dots, hidden attribute, hiding files or directories) do not change
/// whether the walk goes down into an entry whose name does not start with a dot: two
/// configurations that agree on the depth limit, the excluded names, the separator and
/// link following walk into the same such entries.
pub proof fn display_flags_leave_descent_alone(a: &Args, b: &Args, entry: Entry, depth: nat)
    requires
        a.max_depth == b.max_depth,
        a.excluded_lowercase@ == b.excluded_lowercase@,
        a.cmd.dont_traverse_links == b.cmd.dont_traverse_links,
        a.separator == b.separator,
        !dot_name(entry.name@),
    ensures
        descends(a, entry, depth) == descends(b, entry, depth),
{
}

/// Writing a path that lies under the start directory once normalized, without absolute
/// paths, gives `.` and the separator followed by a part that, put back behind the start
/// directory, yields the normalized path again.
pub proof fn trimming_round_trip(args: &Args, path: Seq<char>)
    requires
        args.start_dir@.is_prefix_of(normalized(path, args.separator)),
        !args.cmd.absolute_paths,
    ensures
        ({
            let t = displayed(args, path);
            &&& t.subrange(0, 2) == seq!['.', args.separator]
            &&& args.start_dir@ + t.subrange(2, t.len() as int) == normalized(path, args.separator)
        }),
{
    let full = normalized(path, args.separator);
    let t = displayed(args, path);
    let k = args.start_dir@.len() as int;
    assert(t.subrange(0, 2) =~= seq!['.', args.separator]);
    assert(full.subrange(0, k) == args.start_dir@);
    assert(args.start_dir@ + t.subrange(2, t.len() as int) =~= full);
}

/// A start directory that carries the hidden, system and directory attributes and has no
/// parent (a drive root) is written out whenever the root is asked for, whatever the
/// hidden flag says.
pub proof fn drive_root_is_shown(args: &Args, root: Attributes)
    requires
        args.cmd.show_root,
        root.hidden,
        root.system,
        root.directory,
    ensures
        root_shown(args, root, false),
{
}

/// A name that can stand as one step of a path: not empty, without the separator.
pub open spec fn step_name(name: Seq<char>, separator: char) -> bool {
    name.len() > 0 && !name.contains(separator)
}

proof fn lemma_joined_front(names: Seq<Seq<char>>, separator: char)
    requires
        names.len() >= 2,
    ensures
        joined(names, separator) == names[0] + seq![separator] + joined(names.drop_first(), separator),
    decreases names.len(),
{
    let front = names.drop_last();
    let rest = names.drop_first();
    if names.len() == 2 {
        assert(front.len() == 1 && front[0] == names[0]);
        assert(rest.len() == 1 && rest[0] == names[1]);
        assert(joined(front, separator) == names[0]);
        assert(joined(rest, separator) == names[1]);
        assert(joined(names, separator) =~= names[0] + seq![separator] + joined(rest, separator));
    } else {
        lemma_joined_front(front, separator);
        assert(front.drop_first() =~= rest.drop_last());
        assert(rest.last() == names.last());
        assert(joined(names, separator) =~= names[0] + seq![separator] + joined(rest, separator));
    }
}

proof fn lemma_same_first_step(a: Seq<char>, x: Seq<char>, b: Seq<char>, z: Seq<char>, separator: char)
    requires
        !a.contains(separator),
        !b.contains(separator),
        x.len() == 0 || x[0] == separator,
        z.len() == 0 || z[0] == separator,
        a + x == b + z,
    ensures
        a == b,
        x == z,
{
    if a.len() < b.len() {
        assert((b + z)[a.len() as int] == b[a.len() as int]);
        assert((a + x)[a.len() as int] == x[0]);
        assert(false);
    } else if b.len() < a.len() {
        assert((a + x)[b.len() as int] == a[b.len() as int]);
        assert((b + z)[b.len() as int] == z[0]);
        assert(false);
    }
    assert(a =~= (a + x).subrange(0, a.len() as int));
    assert(b =~= (b + z).subrange(0, b.len() as int));
    assert(x =~= (a + x).subrange(a.len() as int, (a + x).len() as int));
    assert(z =~= (b + z).subrange(b.len() as int, (b + z).len() as int));
}

/// The first step of a joined path and what follows it (empty, or starting with the
/// separator).
proof fn lemma_first_step(names: Seq<Seq<char>>, separator: char) -> (tail: Seq<char>)
    requires
        names.len() > 0,
    ensures
        joined(names, separator) == names[0] + tail,
        names.len() == 1 ==> tail.len() == 0,
        names.len() >= 2 ==> tail == seq![separator] + joined(names.drop_first(), separator),
{
    if names.len() == 1 {
        let t: Seq<char> = seq![];
        assert(joined(names, separator) =~= names[0] + t);
        t
    } else {
        lemma_joined_front(names, separator);
        let t = seq![separator] + joined(names.drop_first(), separator);
        assert(joined(names, separator) =~= names[0] + t);
        t
    }
}

proof fn lemma_joined_prefix(
    t: Seq<Seq<char>>,
    b: Seq<Seq<char>>,
    rest: Seq<char>,
    separator: char,
)
    requires
        forall|k: int| 0 <= k < t.len() ==> step_name(#[trigger] t[k], separator),
        forall|k: int| 0 <= k < b.len() ==> step_name(#[trigger] b[k], separator),
        b.len() > 0,
        rest.len() == 0 || rest[0] == separator,
        joined(t, separator) == joined(b, separator) + rest,
    ensures
        b.len() <= t.len(),
        forall|k: int| 0 <= k < b.len() ==> t[k] == b[k],
    decreases b.len(),
{
    assert(step_name(b[0], separator));
    if t.len() == 0 {
        assert(joined(b, separator).len() >= b[0].len()) by {
            let y = lemma_first_step(b, separator);
        }
        assert(false);
    }
    assert(step_name(t[0], separator));
    let x = lemma_first_step(t, separator);
    let y = lemma_first_step(b, separator);
    assert(joined(b, separator) + rest =~= b[0] + (y + rest));
    assert((y + rest).len() == 0 || (y + rest)[0] == separator);
    lemma_same_first_step(t[0], x, b[0], y + rest, separator);
    if b.len() >= 2 {
        let t1 = t.drop_first();
        let b1 = b.drop_first();
        assert(x.len() > 0);
        assert(t.len() >= 2);
        assert(joined(t1, separator) =~= joined(b1, separator) + rest) by {
            assert(x == seq![separator] + joined(t1, separator));
            assert(y + rest =~= seq![separator] + (joined(b1, separator) + rest));
            assert(joined(t1, separator) =~= x.drop_first());
        }
        assert forall|k: int| 0 <= k < t1.len() implies step_name(#[trigger] t1[k], separator) by {
            assert(t1[k] == t[k + 1]);
        }
        assert forall|k: int| 0 <= k < b1.len() implies step_name(#[trigger] b1[k], separator) by {
            assert(b1[k] == b[k + 1]);
        }
        lemma_joined_prefix(t1, b1, rest, separator);
        assert forall|k: int| 0 <= k < b.len() implies t[k] == b[k] by {
            if k > 0 {
                assert(t1[k - 1] == b1[k - 1]);
            }
        }
    }
}

/// Nothing is written at or below an excluded entry. Every written path is reachable
/// (see `Walker::take_listing`); no reachable path equals the path of an entry whose
/// name is excluded, nor lies below it, whatever the names that lead to that entry.
pub proof fn nothing_written_below_an_excluded_entry(
    args: &Args,
    path: Seq<char>,
    depth: nat,
    above: Seq<Seq<char>>,
    rest: Seq<char>,
)
    requires
        reachable(args, path, depth),
        above.len() > 0,
        forall|k: int| 0 <= k < above.len() ==> step_name(#[trigger] above[k], args.separator),
        name_excluded(args, above.last()),
        rest.len() == 0 || rest[0] == args.separator,
    ensures
        path != args.start_dir@ + joined(above, args.separator) + rest,
{
    let trail = choose|trail: Seq<Seq<char>>| trail.len() == depth && #[trigger] reached_by(args, path, trail);
    if path == args.start_dir@ + joined(above, args.separator) + rest {
        assert forall|k: int| 0 <= k < trail.len() implies step_name(#[trigger] trail[k], args.separator) by {
            assert(!name_excluded(args, trail[k]));
        }
        let j = joined(trail, args.separator);
        assert(args.start_dir@ + j == args.start_dir@ + (joined(above, args.separator) + rest));
        assert(j =~= (args.start_dir@ + j).subrange(args.start_dir@.len() as int, (args.start_dir@ + j).len() as int));
        assert(joined(above, args.separator) + rest =~= (args.start_dir@ + (joined(above, args.separator) + rest)).subrange(
            args.start_dir@.len() as int,
            (args.start_dir@ + (joined(above, args.separator) + rest)).len() as int,
        ));
        lemma_joined_prefix(trail, above, rest, args.separator);
        assert(trail[above.len() - 1] == above.last());
        assert(!name_excluded(args, trail[above.len() - 1]));
    }
}

} // verus!
