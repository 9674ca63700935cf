use vstd::prelude::*;
use crate::node::Node;
use crate::path::{
    ascii_lower, contains_char, expand_home, home_expanded, normalized, start_dir_of,
    to_ascii_lowercase, without_trailing,
};

verus! {

/// The options of one run, as the user gave them.
pub struct CommandLine {
    /// Path to start from (the current directory when absent).
    pub path: Option<String>,
    /// Paths always written out, whatever the filters say.
    pub included: Vec<String>,
    /// Names of entries left out, together with all that lies below them.
    pub excluded: Vec<String>,
    /// Write out the start directory itself.
    pub show_root: bool,
    /// Deepest depth walked; children of the start directory have depth 1.
    pub max_depth: Option<usize>,
    /// Do not walk into directories reached through a symbolic link.
    pub dont_traverse_links: bool,
    /// Leave files out of the output; they are still looked at.
    pub hide_files: bool,
    /// Leave directories out of the output; they are still walked.
    pub hide_directories: bool,
    /// Write out entries whose name starts with a dot.
    pub show_dots: bool,
    /// Write out entries that carry the platform hidden attribute.
    pub show_hidden: bool,
    /// Write paths as they are, without trimming the start directory.
    pub absolute_paths: bool,
    /// Report skipped entries on the error stream.
    pub verbose: bool,
}

impl CommandLine {
    /// Whether nothing could ever be written out: files and directories hidden,
    /// no root, nothing injected.
    pub open spec fn shows_nothing(&self) -> bool {
        self.hide_files && self.hide_directories && !self.show_root && self.included@.len() == 0
    }

    /// Tells whether these options hide everything there is to show.
    pub fn nothing_to_show(&self) -> (r: bool)
        ensures
            r == self.shows_nothing(),
    {
        self.hide_files && self.hide_directories && !self.show_root && self.included.len() == 0
    }
}

/// The resolved configuration of a walk.
pub struct Args {
    /// Start directory, normalized and ending with the separator.
    pub start_dir: String,
    /// Deepest depth walked.
    pub max_depth: usize,
    /// Excluded names in ASCII lower case.
    pub excluded_lowercase: Vec<String>,
    /// Included paths that exist.
    pub included_existing: Vec<String>,
    /// The options as given.
    pub cmd: CommandLine,
    /// The separator written between path components.
    pub separator: char,
}

/// The paths whose flag in `exists`, at the same position, is set.
pub open spec fn existing(paths: Seq<String>, exists: Seq<bool>) -> Seq<Seq<char>>
    decreases paths.len(),
{
    if paths.len() == 0 {
        seq![]
    } else {
        let prev = existing(paths.drop_last(), exists);
        if exists[paths.len() - 1] {
            prev.push(paths.last()@)
        } else {
            prev
        }
    }
}

/// The views of a sequence of strings.
pub open spec fn views(s: Seq<String>) -> Seq<Seq<char>> {
    s.map_values(|x: String| x@)
}

/// The view of an optional string.
pub open spec fn opt_view(s: &Option<String>) -> Option<Seq<char>> {
    match s {
        Some(x) => Some(x@),
        None => None,
    }
}

/// The path a walk starts from, before it is checked to be a directory: the given path
/// with `~` expanded to the home directory, or the current directory when none is given.
/// `None` when a `~` needs a home directory and there is none.
pub open spec fn initial_value(
    path: Option<Seq<char>>,
    home: Option<Seq<char>>,
    current_dir: Seq<char>,
) -> Option<Seq<char>> {
    match path {
        None => Some(current_dir),
        Some(p) => if p.contains('~') {
            match home {
                Some(h) => Some(home_expanded(p, h)),
                None => None,
            }
        } else {
            Some(p)
        },
    }
}

impl Args {
    /// A start directory ending in the separator.
    pub open spec fn wf(&self) -> bool {
        &&& self.start_dir@.len() > 0
        &&& self.start_dir@.last() == self.separator
    }

    /// The options as the user gave them.
    pub fn cmd(&self) -> (r: &CommandLine)
        ensures
            *r == self.cmd,
    {
        &self.cmd
    }

    /// Resolves the configuration from the options, the path the walk starts from
    /// (see `resolve_initial_value`), which of the included paths exist, and the separator
    /// of the platform.
    pub fn new(command_line: CommandLine, initial_path: &str, included_exist: &Vec<bool>, separator: char) -> (r: Args)
        requires
            included_exist@.len() == command_line.included@.len(),
        ensures
            r.wf(),
            r.start_dir@ == without_trailing(normalized(initial_path@, separator), separator).push(separator),
            r.max_depth == match command_line.max_depth {
                Some(d) => d,
                None => usize::MAX,
            },
            r.excluded_lowercase@.len() == command_line.excluded@.len(),
            forall|j: int|
                0 <= j < r.excluded_lowercase@.len() ==> #[trigger] r.excluded_lowercase@[j]@
                    == ascii_lower(command_line.excluded@[j]@),
            views(r.included_existing@) == existing(command_line.included@, included_exist@),
            r.cmd == command_line,
            r.separator == separator,
    {
        let start_dir = start_dir_of(initial_path, separator);
        let max_depth = match command_line.max_depth {
            Some(d) => d,
            None => usize::MAX,
        };
        let mut excluded_lowercase: Vec<String> = Vec::new();
        let n = command_line.excluded.len();
        for i in 0..n
            invariant
                n == command_line.excluded@.len(),
                excluded_lowercase@.len() == i,
                forall|j: int|
                    0 <= j < i ==> #[trigger] excluded_lowercase@[j]@ == ascii_lower(
                        command_line.excluded@[j]@,
                    ),
        {
            let lower = to_ascii_lowercase(command_line.excluded[i].as_str());
            excluded_lowercase.push(lower);
        }
        let mut included_existing: Vec<String> = Vec::new();
        let m = command_line.included.len();
        for i in 0..m
            invariant
                m == command_line.included@.len(),
                m == included_exist@.len(),
                views(included_existing@) == existing(command_line.included@.take(i as int), included_exist@),
        {
            let path = command_line.included[i].as_str();
            if let Some(node) = Node::new_injected(path, included_exist[i]) {
                included_existing.push(node.path);
            }
            proof {
                let next = command_line.included@.take(i + 1);
                assert(next.drop_last() =~= command_line.included@.take(i as int));
                assert(views(included_existing@) =~= existing(next, included_exist@));
            }
        }
        assert(command_line.included@.take(m as int) =~= command_line.included@);
        Args {
            start_dir,
            max_depth,
            excluded_lowercase,
            included_existing,
            cmd: command_line,
            separator,
        }
    }

    /// The path a walk starts from: the given path with each `~` replaced by the home
    /// directory, or the current directory when no path is given. `None` when the path
    /// holds a `~` and no home directory is known.
    pub fn resolve_initial_value(path: &Option<String>, home: &Option<String>, current_dir: &str) -> (r: Option<String>)
        ensures
            opt_view(&r) == initial_value(opt_view(path), opt_view(home), current_dir@),
    {
        match path {
            None => Some(String::from_str(current_dir)),
            Some(p) => {
                if contains_char(p.as_str(), '~') {
                    match home {
                        Some(h) => Some(expand_home(p.as_str(), h.as_str())),
                        None => None,
                    }
                } else {
                    Some(p.clone())
                }
            },
        }
    }
}

} // verus!
