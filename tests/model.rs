use filetree_nav::app::{App, PendingOperations, Step};
use filetree_nav::node::{build, filter_listing, Node};
use filetree_nav::order::text_less;
use filetree_nav::path::last_of_path;
use filetree_nav::status::{hint, status_hint, StatusEntry, StatusFlags, StatusHint};

fn file(p: &str) -> Node {
    Node::File { path: p.to_string() }
}

fn dir(p: &str, children: Vec<Node>) -> Node {
    Node::Dir { path: p.to_string(), children }
}

fn paths(v: &Vec<Node>) -> Vec<String> {
    v.iter().map(|n| n.path().clone()).collect()
}

#[test]
fn build_puts_directories_first_then_names() {
    let listing = vec![
        file("r/b.txt"),
        dir("r/zdir", vec![file("r/zdir/y"), file("r/zdir/X")]),
        file("r/A.txt"),
        dir("r/adir", vec![]),
        file("r/a.txt"),
    ];
    let built = build(listing);
    assert_eq!(
        vec!["r/adir", "r/zdir", "r/A.txt", "r/a.txt", "r/b.txt"],
        paths(&built)
    );
    match &built[1] {
        Node::Dir { children, .. } => assert_eq!(vec!["r/zdir/X", "r/zdir/y"], paths(children)),
        Node::File { .. } => panic!("expected a directory"),
    }
}

#[test]
fn build_of_empty_listing_is_empty() {
    assert!(build(vec![]).is_empty());
}

#[test]
fn text_order_is_by_code_point_and_prefix() {
    assert!(text_less(&"B".to_string(), &"a".to_string()));
    assert!(text_less(&"ab".to_string(), &"abc".to_string()));
    assert!(!text_less(&"abc".to_string(), &"abc".to_string()));
    assert!(!text_less(&"b".to_string(), &"abc".to_string()));
}

#[test]
fn filter_keeps_exact_matches_and_their_directories() {
    let listing = vec![
        dir("r/d", vec![file("r/d/x"), file("r/d/y")]),
        file("r/test.txt"),
        file("r/test2.txt"),
    ];
    let out = build(filter_listing(listing, &vec!["r/test.txt".to_string(), "r/d/y".to_string()]));
    assert_eq!(vec!["r/d", "r/test.txt"], paths(&out));
    match &out[0] {
        Node::Dir { children, .. } => assert_eq!(vec!["r/d/y"], paths(children)),
        Node::File { .. } => panic!("expected a directory"),
    }
}

#[test]
fn filter_keeps_a_listed_directory_without_entries() {
    let listing = vec![dir("r/d", vec![file("r/d/x")])];
    let out = filter_listing(listing, &vec!["r/d".to_string()]);
    assert_eq!(vec!["r/d"], paths(&out));
    match &out[0] {
        Node::Dir { children, .. } => assert!(children.is_empty()),
        Node::File { .. } => panic!("expected a directory"),
    }
}

#[test]
fn last_of_path_skips_dot_components() {
    assert_eq!("a", last_of_path("a/."));
    assert_eq!("b", last_of_path("a/b/."));
    assert_eq!("b", last_of_path("a/./b"));
    assert_eq!("b", last_of_path("a/b/./"));
    assert_eq!(".", last_of_path("."));
    assert_eq!(".", last_of_path("./"));
    assert_eq!(".", last_of_path("./."));
    assert_eq!("/", last_of_path("/."));
    assert_eq!("a", last_of_path("./a"));
    assert_eq!("..", last_of_path("a/.."));
    assert_eq!(".hidden", last_of_path("d/.hidden"));
}

#[test]
fn filter_keeps_each_entry_once() {
    let listing = vec![file("r/test.txt"), file("r/test2.txt")];
    let out = filter_listing(listing, &vec!["r/test.txt".to_string(), "r/test.txt".to_string()]);
    assert_eq!(vec!["r/test.txt"], paths(&out));
}

#[test]
fn last_of_path_edges() {
    assert_eq!("b", last_of_path("a/b/"));
    assert_eq!("/", last_of_path("/"));
    assert_eq!("", last_of_path(""));
    assert_eq!("x", last_of_path("/x"));
}

fn flags(wt_new: bool, wt_modified: bool, index_modified: bool, index_new: bool) -> StatusFlags {
    StatusFlags { wt_new, wt_modified, index_modified, index_new }
}

#[test]
fn status_precedence() {
    assert!(matches!(hint(&flags(true, true, true, true)), StatusHint::Untracked));
    assert!(matches!(hint(&flags(false, true, true, false)), StatusHint::WorktreeModified));
    assert!(matches!(hint(&flags(false, false, false, true)), StatusHint::IndexChanged));
    assert!(matches!(hint(&flags(false, false, true, false)), StatusHint::IndexChanged));
    assert!(matches!(hint(&flags(false, false, false, false)), StatusHint::Clean));
}

#[test]
fn status_lookup_by_dot_path() {
    let snap = vec![
        StatusEntry { path: "a.txt".to_string(), flags: flags(false, true, false, false) },
        StatusEntry { path: "b.txt".to_string(), flags: flags(true, false, false, false) },
    ];
    let a = "./a.txt".to_string();
    let b = "./b.txt".to_string();
    let c = "./c.txt".to_string();
    assert!(matches!(status_hint(&a, Some(&snap)), StatusHint::WorktreeModified));
    assert!(matches!(status_hint(&b, Some(&snap)), StatusHint::Untracked));
    assert!(matches!(status_hint(&c, Some(&snap)), StatusHint::Clean));
    assert!(matches!(status_hint(&"a.txt".to_string(), Some(&snap)), StatusHint::Clean));
    assert!(matches!(status_hint(&a, None), StatusHint::Clean));
}

fn app_over(files: &[&str]) -> App {
    App::new("r".to_string(), files.iter().map(|f| file(&format!("r/{}", f))).collect())
}

#[test]
fn confirmed_delete_returns_gate_to_idle() {
    let mut app = app_over(&["a", "b"]);
    app.handle_key('j');
    app.handle_key('d');
    assert_eq!(PendingOperations::DeleteFile, app.pending);
    match app.on_enter() {
        Step::Delete(p) => assert_eq!("r/b", p),
        _ => panic!("expected a delete"),
    }
    assert_eq!(PendingOperations::NoPending, app.pending);
}

#[test]
fn pending_gate_swallows_keys_and_q_cancels() {
    let mut app = app_over(&["a", "b"]);
    app.handle_key('d');
    app.handle_key('j');
    assert_eq!(vec![0], app.tree().state.selected());
    assert_eq!(PendingOperations::DeleteFile, app.pending);
    app.handle_key('q');
    assert_eq!(PendingOperations::NoPending, app.pending);
    assert!(!app.should_quit());
}

#[test]
fn esc_cancels_then_quits() {
    let mut app = app_over(&["a"]);
    app.handle_key('d');
    app.on_esc();
    assert_eq!(PendingOperations::NoPending, app.pending);
    assert!(!app.should_quit());
    app.on_esc();
    assert!(app.should_quit());
}

#[test]
fn enter_on_file_opens_it_and_r_asks_rescan() {
    let mut app = app_over(&["a"]);
    match app.on_enter() {
        Step::Open(p) => assert_eq!("r/a", p),
        _ => panic!("expected an open"),
    }
    assert!(matches!(app.handle_key('r'), Step::Rescan));
    assert_eq!("r", app.path());
}

#[test]
fn app_moves_with_j_k_g_and_capital_g() {
    let mut app = app_over(&["a", "b", "c"]);
    app.on_down();
    assert_eq!(vec![1], app.tree().state.selected());
    app.handle_key('G');
    assert_eq!(vec![2], app.tree().state.selected());
    app.handle_key('k');
    assert_eq!(vec![1], app.tree().state.selected());
    app.handle_key('g');
    assert_eq!(vec![0], app.tree().state.selected());
    app.on_up();
    assert_eq!(vec![0], app.tree_mut().state.selected());
}
