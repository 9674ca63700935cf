use folder_walker::accept::{accept_path, descend_into, is_dot, is_excluded, is_hidden};
use folder_walker::args::{Args, CommandLine};
use folder_walker::node::{Attributes, Entry, EntryKind, Node};
use folder_walker::walk::{opening_lines, render_path, Walker};

fn plain() -> Attributes {
    Attributes { hidden: false, system: false, directory: false }
}

fn entry(name: &str, kind: EntryKind) -> Entry {
    Entry { name: name.to_string(), kind, attributes: plain() }
}

fn options() -> CommandLine {
    CommandLine {
        path: Some("/data".to_string()),
        included: vec![],
        excluded: vec![],
        show_root: false,
        max_depth: None,
        dont_traverse_links: false,
        hide_files: false,
        hide_directories: false,
        show_dots: false,
        show_hidden: false,
        absolute_paths: false,
        verbose: false,
    }
}

fn args_of(cmd: CommandLine) -> Args {
    let exist = vec![true; cmd.included.len()];
    Args::new(cmd, "/data", &exist, '/')
}

/// The tree /data/a.txt, /data/.git/config, /data/sub/b.txt.
fn listing(dir: &str) -> Option<Vec<Entry>> {
    match dir {
        "/data/" => Some(vec![
            entry("a.txt", EntryKind::File),
            entry(".git", EntryKind::Directory),
            entry("sub", EntryKind::Directory),
        ]),
        "/data/.git" => Some(vec![entry("config", EntryKind::File)]),
        "/data/sub" => Some(vec![entry("b.txt", EntryKind::File)]),
        _ => None,
    }
}

fn run(args: Args, list: &dyn Fn(&str) -> Option<Vec<Entry>>) -> Vec<String> {
    let mut out = opening_lines(&args, &plain(), true);
    let mut walker = Walker::new(args);
    while let Some(dir) = walker.next_directory() {
        match list(&dir) {
            Some(children) => out.extend(walker.take_listing(&children)),
            None => walker.skip_directory(),
        }
    }
    out
}

fn sorted(mut v: Vec<String>) -> Vec<String> {
    v.sort();
    v
}

fn strings(v: &[&str]) -> Vec<String> {
    v.iter().map(|s| s.to_string()).collect()
}

#[test]
fn default_flags_skip_dot_entries_and_their_contents() {
    let out = run(args_of(options()), &listing);
    assert_eq!(sorted(out), strings(&["./a.txt", "./sub", "./sub/b.txt"]));
}

#[test]
fn children_of_a_directory_come_together_in_listing_order() {
    let out = run(args_of(options()), &listing);
    assert_eq!(out, strings(&["./a.txt", "./sub", "./sub/b.txt"]));
}

#[test]
fn hide_directories_still_walks_them() {
    let mut cmd = options();
    cmd.hide_directories = true;
    let out = run(args_of(cmd), &listing);
    assert_eq!(sorted(out), strings(&["./a.txt", "./sub/b.txt"]));
}

#[test]
fn hide_files_keeps_directories() {
    let mut cmd = options();
    cmd.hide_files = true;
    let out = run(args_of(cmd), &listing);
    assert_eq!(out, strings(&["./sub"]));
}

#[test]
fn excluded_name_drops_the_whole_subtree() {
    let mut cmd = options();
    cmd.excluded = vec!["sub".to_string()];
    let out = run(args_of(cmd), &listing);
    assert_eq!(out, strings(&["./a.txt"]));
}

#[test]
fn excluded_names_match_without_case() {
    let mut cmd = options();
    cmd.excluded = vec!["SuB".to_string()];
    let out = run(args_of(cmd), &listing);
    assert_eq!(out, strings(&["./a.txt"]));
}

#[test]
fn max_depth_one_stops_below_the_children_of_root() {
    let mut cmd = options();
    cmd.max_depth = Some(1);
    let out = run(args_of(cmd), &listing);
    assert_eq!(sorted(out), strings(&["./a.txt", "./sub"]));
}

#[test]
fn max_depth_zero_lists_nothing() {
    let mut cmd = options();
    cmd.max_depth = Some(0);
    let out = run(args_of(cmd), &listing);
    assert!(out.is_empty());
}

#[test]
fn included_path_appears_untrimmed_whatever_the_filters() {
    let mut cmd = options();
    cmd.included = vec!["/elsewhere/fav.txt".to_string()];
    cmd.hide_files = true;
    cmd.hide_directories = true;
    cmd.excluded = vec!["fav.txt".to_string()];
    cmd.max_depth = Some(0);
    let out = run(args_of(cmd), &listing);
    assert_eq!(out, strings(&["/elsewhere/fav.txt"]));
}

#[test]
fn included_path_that_does_not_exist_is_dropped() {
    let mut cmd = options();
    cmd.included = vec!["/gone".to_string(), "/here".to_string()];
    let args = Args::new(cmd, "/data", &vec![false, true], '/');
    assert_eq!(args.included_existing, strings(&["/here"]));
}

#[test]
fn show_dots_lists_dot_entries_and_their_contents() {
    let mut cmd = options();
    cmd.show_dots = true;
    let out = run(args_of(cmd), &listing);
    assert_eq!(
        sorted(out),
        strings(&["./.git", "./.git/config", "./a.txt", "./sub", "./sub/b.txt"])
    );
}

#[test]
fn absolute_paths_are_not_trimmed() {
    let mut cmd = options();
    cmd.absolute_paths = true;
    let out = run(args_of(cmd), &listing);
    assert_eq!(sorted(out), strings(&["/data/a.txt", "/data/sub", "/data/sub/b.txt"]));
}

#[test]
fn show_root_writes_the_start_directory_first() {
    let mut cmd = options();
    cmd.show_root = true;
    cmd.hide_directories = true;
    cmd.hide_files = true;
    let out = run(args_of(cmd), &listing);
    assert_eq!(out, strings(&["./"]));
}

#[test]
fn unreadable_directory_is_skipped() {
    let list = |dir: &str| -> Option<Vec<Entry>> {
        match dir {
            "/data/" => Some(vec![
                entry("locked", EntryKind::Directory),
                entry("x", EntryKind::File),
            ]),
            _ => None,
        }
    };
    let out = run(args_of(options()), &list);
    assert_eq!(out, strings(&["./locked", "./x"]));
}

#[test]
fn hidden_entries_are_shown_only_on_request_but_walked() {
    let list = |dir: &str| -> Option<Vec<Entry>> {
        match dir {
            "/data/" => Some(vec![Entry {
                name: "secret".to_string(),
                kind: EntryKind::Directory,
                attributes: Attributes { hidden: true, system: false, directory: true },
            }]),
            "/data/secret" => Some(vec![entry("inner.txt", EntryKind::File)]),
            _ => None,
        }
    };
    let out = run(args_of(options()), &list);
    assert_eq!(out, strings(&["./secret/inner.txt"]));
    let mut cmd = options();
    cmd.show_hidden = true;
    let out = run(args_of(cmd), &list);
    assert_eq!(out, strings(&["./secret", "./secret/inner.txt"]));
}

#[test]
fn links_to_directories_are_followed_unless_asked_not_to() {
    let list = |dir: &str| -> Option<Vec<Entry>> {
        match dir {
            "/data/" => Some(vec![entry("link", EntryKind::Link { to_directory: true })]),
            "/data/link" => Some(vec![entry("f", EntryKind::File)]),
            _ => None,
        }
    };
    let out = run(args_of(options()), &list);
    assert_eq!(out, strings(&["./link", "./link/f"]));
    let mut cmd = options();
    cmd.dont_traverse_links = true;
    let out = run(args_of(cmd), &list);
    assert_eq!(out, strings(&["./link"]));
}

#[test]
fn entry_without_a_name_is_dropped() {
    let list = |dir: &str| -> Option<Vec<Entry>> {
        match dir {
            "/data/" => Some(vec![entry("", EntryKind::Directory), entry("k", EntryKind::File)]),
            _ => None,
        }
    };
    let out = run(args_of(options()), &list);
    assert_eq!(out, strings(&["./k"]));
}

#[test]
fn drive_root_is_written_even_when_hidden() {
    let mut cmd = options();
    cmd.show_root = true;
    let args = args_of(cmd);
    let drive = Attributes { hidden: true, system: true, directory: true };
    assert_eq!(opening_lines(&args, &drive, false), strings(&["./"]));
    assert!(opening_lines(&args, &drive, true).is_empty());
    let hidden_dir = Attributes { hidden: true, system: false, directory: true };
    assert!(opening_lines(&args, &hidden_dir, false).is_empty());
}

#[test]
fn hidden_attribute_rules() {
    let drive = Attributes { hidden: true, system: true, directory: true };
    assert!(!is_hidden(&drive, false));
    assert!(is_hidden(&drive, true));
    assert!(!is_hidden(&plain(), false));
}

#[test]
fn dot_names() {
    assert!(is_dot(".git"));
    assert!(!is_dot("a.txt"));
    assert!(!is_dot(""));
}

#[test]
fn excluded_check() {
    let mut cmd = options();
    cmd.excluded = vec!["Node_Modules".to_string()];
    let args = args_of(cmd);
    assert_eq!(args.excluded_lowercase, strings(&["node_modules"]));
    assert!(is_excluded(&args, "NODE_MODULES"));
    assert!(!is_excluded(&args, "node"));
    assert!(is_excluded(&args, ""));
}

#[test]
fn accept_and_descend_decisions() {
    let args = args_of(options());
    assert!(accept_path(&args, &entry("a", EntryKind::File)));
    assert!(!accept_path(&args, &entry(".a", EntryKind::File)));
    assert!(descend_into(&args, &entry("d", EntryKind::Directory), 1));
    assert!(!descend_into(&args, &entry(".d", EntryKind::Directory), 1));
    assert!(!descend_into(&args, &entry("f", EntryKind::File), 1));
}

#[test]
fn render_trims_the_start_directory() {
    let args = args_of(options());
    assert_eq!(render_path(&args, "/data/sub/b.txt"), "./sub/b.txt");
    assert_eq!(render_path(&args, "/d"), "./");
    let mut cmd = options();
    cmd.absolute_paths = true;
    let args = args_of(cmd);
    assert_eq!(render_path(&args, "/data/sub/b.txt"), "/data/sub/b.txt");
}

#[test]
fn trimming_then_joining_gives_the_path_back() {
    let args = args_of(options());
    let full = folder_walker::path::normalize("/data/x/y.txt", '/');
    let line = render_path(&args, &full);
    assert_eq!(format!("{}{}", args.start_dir, &line[2..]), full);
}

#[test]
fn start_dir_is_normalized_with_one_trailing_separator() {
    let args = Args::new(options(), "C:/Users/me", &vec![], '\\');
    assert_eq!(args.start_dir, "C:\\Users\\me\\");
    let args = Args::new(options(), "/data/", &vec![], '/');
    assert_eq!(args.start_dir, "/data/");
    let args = Args::new(options(), "", &vec![], '/');
    assert_eq!(args.start_dir, "/");
    let args = Args::new(options(), "/data//", &vec![], '/');
    assert_eq!(args.start_dir, "/data/");
    let args = Args::new(options(), "/", &vec![], '/');
    assert_eq!(args.start_dir, "/");
    let args = Args::new(options(), "C:\\data/\\", &vec![], '\\');
    assert_eq!(args.start_dir, "C:\\data\\");
}

#[test]
fn max_depth_defaults_to_unlimited() {
    let args = args_of(options());
    assert_eq!(args.max_depth, usize::MAX);
    let mut cmd = options();
    cmd.max_depth = Some(3);
    assert_eq!(args_of(cmd).max_depth, 3);
}

#[test]
fn normalize_rewrites_slashes() {
    assert_eq!(folder_walker::path::normalize("a/b\\c", '\\'), "a\\b\\c");
    assert_eq!(folder_walker::path::normalize("a/b", '/'), "a/b");
}

#[test]
fn lowercase_is_ascii_only() {
    assert_eq!(folder_walker::path::to_ascii_lowercase("AbC-Ä"), "abc-Ä");
}

#[test]
fn home_is_expanded() {
    let r = Args::resolve_initial_value(&Some("~/src".to_string()), &Some("/home/me".to_string()), "/cwd");
    assert_eq!(r, Some("/home/me/src".to_string()));
    let r = Args::resolve_initial_value(&Some("~/src".to_string()), &None, "/cwd");
    assert_eq!(r, None);
    let r = Args::resolve_initial_value(&Some("/x".to_string()), &None, "/cwd");
    assert_eq!(r, Some("/x".to_string()));
    let r = Args::resolve_initial_value(&None, &None, "/cwd");
    assert_eq!(r, Some("/cwd".to_string()));
}

#[test]
fn nothing_to_show_is_detected() {
    let mut cmd = options();
    assert!(!cmd.nothing_to_show());
    cmd.hide_files = true;
    cmd.hide_directories = true;
    assert!(cmd.nothing_to_show());
    cmd.included = vec!["/x".to_string()];
    assert!(!cmd.nothing_to_show());
}

#[test]
fn injected_node_needs_an_existing_path() {
    assert!(Node::new_injected("/x", false).is_none());
    let n = Node::new_injected("/x", true).unwrap();
    assert_eq!(n.path, "/x");
    assert_eq!(n.depth, 0);
}

#[test]
fn options_are_kept_as_given() {
    let mut cmd = options();
    cmd.verbose = true;
    cmd.excluded = vec!["X".to_string()];
    let args = args_of(cmd);
    assert!(args.cmd().verbose);
    assert_eq!(args.cmd().excluded, strings(&["X"]));
    assert_eq!(args.cmd().path, Some("/data".to_string()));
}

#[test]
fn name_holding_the_separator_is_no_base_name() {
    let args = args_of(options());
    assert!(is_excluded(&args, "a/b"));
    assert!(!is_excluded(&args, "a\\b"));
}

#[test]
fn excluded_directory_deeper_down_hides_its_subtree() {
    let list = |dir: &str| -> Option<Vec<Entry>> {
        match dir {
            "/data/" => Some(vec![entry("src", EntryKind::Directory)]),
            "/data/src" => Some(vec![
                entry("target", EntryKind::Directory),
                entry("main.rs", EntryKind::File),
            ]),
            "/data/src/target" => Some(vec![entry("out.bin", EntryKind::File)]),
            _ => None,
        }
    };
    let mut cmd = options();
    cmd.excluded = vec!["target".to_string()];
    let out = run(args_of(cmd), &list);
    assert_eq!(out, strings(&["./src", "./src/main.rs"]));
}

#[test]
fn render_normalizes_before_trimming() {
    let args = Args::new(options(), "C:\\data", &vec![], '\\');
    assert_eq!(render_path(&args, "C:/data/a/b"), ".\\a\\b");
    let mut cmd = options();
    cmd.absolute_paths = true;
    let args = Args::new(cmd, "C:\\data", &vec![], '\\');
    assert_eq!(render_path(&args, "C:/data/a/b"), "C:\\data\\a\\b");
}
