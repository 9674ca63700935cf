use vstd::prelude::*;
use crate::accept::{
    accept_path, descend_into, descends, hidden, is_admitted, is_hidden, name_excluded, shown,
};
use crate::args::{views, Args};
use crate::node::{Attributes, Entry, Node};
use crate::path::{normalize, normalized, push_char};

verus! {

/// A path as it is written out: normalized to the configured separator, then kept whole
/// with absolute paths, otherwise with the start directory cut off its front and `.` and
/// the separator put there instead.
pub open spec fn displayed(args: &Args, path: Seq<char>) -> Seq<char> {
    let full = normalized(path, args.separator);
    if args.cmd.absolute_paths {
        full
    } else {
        trimmed(full, args.start_dir@, args.separator)
    }
}

/// `.`, the separator, and what follows the first `start_dir.len()` characters of `path`.
pub open spec fn trimmed(path: Seq<char>, start_dir: Seq<char>, separator: char) -> Seq<char> {
    let cut = if path.len() < start_dir.len() {
        path.len()
    } else {
        start_dir.len()
    };
    seq!['.', separator] + path.subrange(cut as int, path.len() as int)
}

/// Names joined by the separator.
pub open spec fn joined(names: Seq<Seq<char>>, separator: char) -> Seq<char>
    decreases names.len(),
{
    if names.len() == 0 {
        seq![]
    } else if names.len() == 1 {
        names[0]
    } else {
        joined(names.drop_last(), separator) + seq![separator] + names.last()
    }
}

/// The path of the child `name` of directory `dir` met at `depth`; the start directory
/// (depth 0) already ends with the separator.
pub open spec fn child_path(dir: Seq<char>, depth: nat, name: Seq<char>, separator: char) -> Seq<char> {
    if depth == 0 {
        dir + name
    } else {
        dir + seq![separator] + name
    }
}

/// `path` is the start directory followed by the names of `trail`, none of them excluded.
pub open spec fn reached_by(args: &Args, path: Seq<char>, trail: Seq<Seq<char>>) -> bool {
    &&& path == args.start_dir@ + joined(trail, args.separator)
    &&& forall|k: int| 0 <= k < trail.len() ==> !name_excluded(args, #[trigger] trail[k])
}

/// `path` lies `depth` names below the start directory, through names none of which is
/// excluded.
pub open spec fn reachable(args: &Args, path: Seq<char>, depth: nat) -> bool {
    exists|trail: Seq<Seq<char>>| trail.len() == depth && #[trigger] reached_by(args, path, trail)
}

/// An entry written by the walk, as a path with its depth: it lies below the start
/// directory, no deeper than the depth limit, and is reached through names none of which
/// is excluded.
pub open spec fn written_soundly(args: &Args, entry: (Seq<char>, nat)) -> bool {
    &&& args.start_dir@.is_prefix_of(entry.0)
    &&& entry.1 <= args.max_depth
    &&& reachable(args, entry.0, entry.1)
}

/// The entries of a listing of `dir` (met at `depth`) that are written out, as paths with
/// their depth, in listing order.
pub open spec fn emitted(args: &Args, dir: Seq<char>, depth: nat, children: Seq<Entry>) -> Seq<(Seq<char>, nat)>
    decreases children.len(),
{
    if children.len() == 0 {
        seq![]
    } else {
        let prev = emitted(args, dir, depth, children.drop_last());
        let e = children.last();
        if shown(args, e, depth + 1) {
            prev.push((child_path(dir, depth, e.name@, args.separator), depth + 1))
        } else {
            prev
        }
    }
}

/// The entries of a listing of `dir` (met at `depth`) that the walk goes down into, as
/// paths with their depth, in listing order.
pub open spec fn descended(args: &Args, dir: Seq<char>, depth: nat, children: Seq<Entry>) -> Seq<(Seq<char>, nat)>
    decreases children.len(),
{
    if children.len() == 0 {
        seq![]
    } else {
        let prev = descended(args, dir, depth, children.drop_last());
        let e = children.last();
        if descends(args, e, depth + 1) {
            prev.push((child_path(dir, depth, e.name@, args.separator), depth + 1))
        } else {
            prev
        }
    }
}

/// The lines written for entries.
pub open spec fn rendered(args: &Args, entries: Seq<(Seq<char>, nat)>) -> Seq<Seq<char>> {
    entries.map_values(|p: (Seq<char>, nat)| displayed(args, p.0))
}

/// Nodes as paths with their depth.
pub open spec fn node_views(nodes: Seq<Node>) -> Seq<(Seq<char>, nat)> {
    nodes.map_values(|n: Node| (n.path@, n.depth as nat))
}

/// Whether the start directory itself is written out: when asked for, and unless its
/// attributes hide it.
pub open spec fn root_shown(args: &Args, root: Attributes, root_has_parent: bool) -> bool {
    args.cmd.show_root && (args.cmd.show_hidden || !hidden(root, root_has_parent))
}

/// The lines written before the walk: the included paths as they are, then the start
/// directory when it is shown.
pub open spec fn opening(args: &Args, root: Attributes, root_has_parent: bool) -> Seq<Seq<char>> {
    views(args.included_existing@) + if root_shown(args, root, root_has_parent) {
        seq![displayed(args, args.start_dir@)]
    } else {
        seq![]
    }
}

/// A directory waiting to be listed: reached through non-excluded names, as deep as its
/// trail is long, with room below it.
pub open spec fn node_ok(args: &Args, node: Node, trail: Seq<Seq<char>>) -> bool {
    &&& trail.len() == node.depth
    &&& reached_by(args, node.path@, trail)
    &&& node.depth < args.max_depth
}

proof fn lemma_child_reached(args: &Args, dir: Seq<char>, trail: Seq<Seq<char>>, name: Seq<char>)
    requires
        reached_by(args, dir, trail),
        !name_excluded(args, name),
    ensures
        reached_by(args, child_path(dir, trail.len(), name, args.separator), trail.push(name)),
{
    let t = trail.push(name);
    assert(t.drop_last() =~= trail);
    if trail.len() == 0 {
        assert(joined(trail, args.separator) =~= seq![]);
        assert(dir =~= args.start_dir@);
        assert(joined(t, args.separator) == name);
    } else {
        assert(joined(t, args.separator) == joined(trail, args.separator) + seq![args.separator] + name);
    }
    assert(child_path(dir, trail.len(), name, args.separator) =~= args.start_dir@ + joined(t, args.separator));
    assert forall|k: int| 0 <= k < t.len() implies !name_excluded(args, #[trigger] t[k]) by {
        if k < trail.len() {
            assert(t[k] == trail[k]);
        }
    }
}

proof fn lemma_prefix(a: Seq<char>, b: Seq<char>)
    ensures
        a.is_prefix_of(a + b),
{
    assert((a + b).subrange(0, a.len() as int) =~= a);
}

/// Writes `path` as it is shown: normalized to the configured separator, then whole with
/// absolute paths, otherwise with the start directory's length cut off its front and `.`
/// and the separator put there instead.
pub fn render_path(args: &Args, path: &str) -> (r: String)
    ensures
        r@ == displayed(args, path@),
{
    let full = normalize(path, args.separator);
    if args.cmd.absolute_paths {
        return full;
    }
    let n = full.as_str().unicode_len();
    let k = args.start_dir.as_str().unicode_len();
    let cut = if n < k {
        n
    } else {
        k
    };
    let mut r = String::new();
    push_char(&mut r, '.');
    push_char(&mut r, args.separator);
    r.append(full.as_str().substring_char(cut, n));
    proof {
        assert(r@ =~= displayed(args, path@));
    }
    r
}

/// The lines written before the walk: every existing included path, untrimmed, then the
/// start directory when `show_root` asks for it and its attributes do not hide it (a
/// drive root, hidden, system and directory with no parent, is not hidden).
pub fn opening_lines(args: &Args, root: &Attributes, root_has_parent: bool) -> (r: Vec<String>)
    ensures
        views(r@) == opening(args, *root, root_has_parent),
{
    let mut r: Vec<String> = Vec::new();
    let n = args.included_existing.len();
    for i in 0..n
        invariant
            n == args.included_existing@.len(),
            r@.len() == i,
            forall|j: int| 0 <= j < i ==> #[trigger] r@[j]@ == args.included_existing@[j]@,
    {
        r.push(args.included_existing[i].clone());
    }
    assert(views(r@) =~= views(args.included_existing@));
    if args.cmd.show_root && (args.cmd.show_hidden || !is_hidden(root, root_has_parent)) {
        let line = render_path(args, args.start_dir.as_str());
        r.push(line);
    }
    assert(views(r@) =~= opening(args, *root, root_has_parent));
    r
}

/// The state of a walk: directories waiting to be listed, and the one being listed.
/// The caller lists the directory that `next_directory` names and hands the listing to
/// `take_listing` (or calls `skip_directory` when it cannot be read), until
/// `next_directory` returns `None`.
pub struct Walker {
    pub args: Args,
    /// Directories still to list; the last one is listed next.
    pub pending: Vec<Node>,
    /// The directory handed out by `next_directory` and not yet listed.
    pub current: Option<Node>,
    /// For each pending directory, the names that lead to it from the start directory.
    pub trails: Ghost<Seq<Seq<Seq<char>>>>,
    /// The names that lead to the current directory.
    pub current_trail: Ghost<Seq<Seq<char>>>,
}

impl Walker {
    /// Every directory waiting or being listed was reached through names none of which is
    /// excluded, and has room below it.
    pub open spec fn wf(&self) -> bool {
        &&& self.args.wf()
        &&& self.trails@.len() == self.pending@.len()
        &&& forall|i: int|
            0 <= i < self.pending@.len() ==> node_ok(&self.args, #[trigger] self.pending@[i], self.trails@[i])
        &&& self.current matches Some(n) ==> node_ok(&self.args, n, self.current_trail@)
    }

    /// A walk of `args.start_dir`; the start directory is listed first unless the depth
    /// limit is 0.
    pub fn new(args: Args) -> (r: Walker)
        requires
            args.wf(),
        ensures
            r.wf(),
            r.args == args,
            r.current is None,
            node_views(r.pending@) == if 0 < args.max_depth {
                seq![(args.start_dir@, 0nat)]
            } else {
                seq![]
            },
    {
        let mut pending: Vec<Node> = Vec::new();
        if 0 < args.max_depth {
            pending.push(Node { path: args.start_dir.clone(), depth: 0 });
        }
        let ghost trails: Seq<Seq<Seq<char>>> = if 0 < args.max_depth {
            seq![seq![]]
        } else {
            seq![]
        };
        proof {
            let empty: Seq<Seq<char>> = seq![];
            assert(args.start_dir@ =~= args.start_dir@ + joined(empty, args.separator));
        }
        let ghost no_trail: Seq<Seq<char>> = seq![];
        let r = Walker {
            args,
            pending,
            current: None,
            trails: Ghost(trails),
            current_trail: Ghost(no_trail),
        };
        assert(node_views(r.pending@) =~= if 0 < r.args.max_depth {
            seq![(r.args.start_dir@, 0nat)]
        } else {
            seq![]
        });
        r
    }

    /// Hands out the next directory to list, or `None` when the walk is over. A directory
    /// handed out before and not yet listed is dropped.
    pub fn next_directory(&mut self) -> (r: Option<String>)
        requires
            old(self).wf(),
        ensures
            final(self).wf(),
            final(self).args == old(self).args,
            old(self).pending@.len() == 0 ==> r is None && final(self).current is None
                && final(self).pending@ == old(self).pending@,
            old(self).pending@.len() > 0 ==> {
                let n = old(self).pending@.last();
                &&& r matches Some(p) && p@ == n.path@
                &&& final(self).current == Some(n)
                &&& final(self).pending@ == old(self).pending@.drop_last()
            },
    {
        match self.pending.pop() {
            None => {
                self.current = None;
                None
            },
            Some(node) => {
                let path = node.path.clone();
                proof {
                    let last = self.trails@.len() - 1;
                    self.current_trail = Ghost(self.trails@[last]);
                    self.trails = Ghost(self.trails@.drop_last());
                }
                self.current = Some(node);
                Some(path)
            },
        }
    }

    /// Gives up the current directory, which could not be listed: nothing below it is walked.
    pub fn skip_directory(&mut self)
        requires
            old(self).wf(),
        ensures
            final(self).wf(),
            final(self).args == old(self).args,
            final(self).pending@ == old(self).pending@,
            final(self).current is None,
    {
        self.current = None;
    }

    /// Takes the listing of the current directory: returns the lines written for the
    /// children that pass every gate, in listing order, and queues the children that the
    /// walk goes down into. Every entry written lies below the start directory, no deeper
    /// than the depth limit, and is reached through names none of which is excluded.
    pub fn take_listing(&mut self, children: &Vec<Entry>) -> (r: Vec<String>)
        requires
            old(self).wf(),
            old(self).current is Some,
        ensures
            final(self).wf(),
            final(self).args == old(self).args,
            final(self).current is None,
            ({
                let args = &old(self).args;
                let dir = old(self).current->0;
                let out = emitted(args, dir.path@, dir.depth as nat, children@);
                &&& views(r@) == rendered(args, out)
                &&& node_views(final(self).pending@) == node_views(old(self).pending@) + descended(
                    args,
                    dir.path@,
                    dir.depth as nat,
                    children@,
                )
                &&& forall|i: int| 0 <= i < out.len() ==> written_soundly(args, #[trigger] out[i])
            }),
    {
        let dir = self.current.take().unwrap();
        let ghost trail = self.current_trail@;
        let ghost pending0 = self.pending@;
        let ghost args0 = self.args;
        let depth = dir.depth + 1;
        let mut lines: Vec<String> = Vec::new();
        let ghost mut out: Seq<(Seq<char>, nat)> = seq![];
        let n = children.len();
        for i in 0..n
            invariant
                n == children@.len(),
                self.args == args0,
                self.args.wf(),
                self.current is None,
                node_ok(&self.args, dir, trail),
                depth == dir.depth + 1,
                self.trails@.len() == self.pending@.len(),
                forall|j: int|
                    0 <= j < self.pending@.len() ==> node_ok(&self.args, #[trigger] self.pending@[j], self.trails@[j]),
                node_views(self.pending@) == node_views(pending0) + descended(
                    &self.args,
                    dir.path@,
                    dir.depth as nat,
                    children@.take(i as int),
                ),
                out == emitted(&self.args, dir.path@, dir.depth as nat, children@.take(i as int)),
                lines@.len() == out.len(),
                forall|j: int| 0 <= j < out.len() ==> #[trigger] lines@[j]@ == displayed(&self.args, out[j].0),
                forall|j: int| 0 <= j < out.len() ==> written_soundly(&self.args, #[trigger] out[j]),
        {
            let child = &children[i];
            let ghost seen = children@.take(i as int);
            let ghost next = children@.take(i + 1);
            proof {
                assert(next.drop_last() =~= seen);
                assert(next.last() == *child);
            }
            let admitted = is_admitted(&self.args, child, depth);
            let show = admitted && accept_path(&self.args, child);
            let down = descend_into(&self.args, child, depth);
            if show || down {
                let mut path = dir.path.clone();
                if dir.depth > 0 {
                    push_char(&mut path, self.args.separator);
                }
                path.append(child.name.as_str());
                let ghost child_trail = trail.push(child.name@);
                proof {
                    assert(path@ =~= child_path(dir.path@, dir.depth as nat, child.name@, self.args.separator));
                    lemma_child_reached(&self.args, dir.path@, trail, child.name@);
                    lemma_prefix(self.args.start_dir@, joined(child_trail, self.args.separator));
                    assert(reachable(&self.args, path@, depth as nat));
                }
                if show {
                    let line = render_path(&self.args, path.as_str());
                    lines.push(line);
                    proof {
                        let prev = out;
                        out = out.push((path@, depth as nat));
                        assert forall|j: int| 0 <= j < out.len() implies written_soundly(
                            &self.args,
                            #[trigger] out[j],
                        ) by {
                            if j < prev.len() {
                                assert(out[j] == prev[j]);
                                assert(written_soundly(&self.args, prev[j]));
                            } else {
                                assert(out[j] == (path@, depth as nat));
                                assert(self.args.start_dir@.is_prefix_of(path@));
                                assert(reachable(&self.args, path@, depth as nat));
                            }
                        }
                    }
                }
                if down {
                    let ghost before = self.pending@;
                    self.pending.push(Node { path, depth });
                    proof {
                        self.trails = Ghost(self.trails@.push(child_trail));
                        assert(node_views(self.pending@) =~= node_views(before).push((path@, depth as nat)));
                    }
                }
            }
            proof {
                assert(show == shown(&self.args, next.last(), dir.depth as nat + 1));
                assert(down == descends(&self.args, next.last(), dir.depth as nat + 1));
                assert(node_views(self.pending@) =~= node_views(pending0) + descended(
                    &self.args,
                    dir.path@,
                    dir.depth as nat,
                    next,
                ));
            }
        }
        proof {
            assert(children@.take(n as int) =~= children@);
            assert(views(lines@) =~= rendered(&self.args, out));
        }
        lines
    }
}

} // verus!
