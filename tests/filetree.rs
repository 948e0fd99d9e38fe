use filetree_nav::filetree::{ExternalEvent, Filetree, Follow, Key, KeyInput};
use filetree_nav::node::Node;
use filetree_nav::path::last_of_path;
use filetree_nav::queue::{AppEvent, InputOperation, PendingOperation};

const ROOT: &str = "/tmp/tree";

fn file(name: &str) -> Node {
    Node::File { path: format!("{}/{}", ROOT, name) }
}

fn dir(name: &str, children: Vec<Node>) -> Node {
    Node::Dir { path: format!("{}/{}", ROOT, name), children }
}

fn at(name: &str) -> String {
    format!("{}/{}", ROOT, name)
}

fn input(code: Key, shift: bool, control: bool) -> ExternalEvent {
    ExternalEvent::Key(KeyInput { code, shift, control, other_modifiers: false })
}

fn key(c: char) -> ExternalEvent {
    input(Key::Char(c), false, false)
}

fn tree_of(listing: Vec<Node>) -> Filetree {
    Filetree::from_dir(ROOT.to_string(), listing)
}

#[test]
fn last_of_path_only_gets_last_part() {
    let name = last_of_path("t/d/d/s/test.txt");
    assert_eq!("test.txt".to_owned(), name);
}

#[test]
fn last_of_path_works_with_one_part() {
    let name = last_of_path("test.txt");
    assert_eq!("test.txt", name);
}

#[test]
fn new_filetree_selects_first() {
    let filetree = tree_of(vec![file("test.txt")]);
    assert_eq!(at("test.txt"), *filetree.get_selected().unwrap().path());
}

#[test]
fn sends_delete_event() {
    let mut filetree = tree_of(vec![file("test.txt")]);
    filetree.handle_event(&key('d'));
    assert!(filetree
        .queue
        .contains(&AppEvent::OpenPopup(PendingOperation::DeleteFile(at("test.txt")))));
}

#[test]
fn sends_new_file_and_new_dir_events() {
    let mut filetree = tree_of(vec![file("test.txt")]);
    filetree.handle_event(&key('n'));
    assert!(filetree
        .queue
        .contains(&AppEvent::OpenInput(InputOperation::NewFile { at: ROOT.to_string() })));

    filetree.handle_event(&input(Key::Char('N'), true, false));
    assert!(filetree
        .queue
        .contains(&AppEvent::OpenInput(InputOperation::NewDir { at: ROOT.to_string() })));
}

#[test]
fn makes_new_file_as_sibling_when_selected_dir_is_closed() {
    let mut filetree = tree_of(vec![dir("test", vec![file("test/test.txt")])]);
    assert_eq!(at("test"), *filetree.get_selected().unwrap().path());

    filetree.handle_event(&key('n'));
    assert!(filetree
        .queue
        .contains(&AppEvent::OpenInput(InputOperation::NewFile { at: ROOT.to_string() })));
}

#[test]
fn makes_new_file_as_child_when_selected_dir_is_open() {
    let mut filetree = tree_of(vec![dir("test", vec![file("test/test.txt")])]);
    filetree.state.toggle_selected();

    filetree.handle_event(&key('n'));
    assert!(filetree
        .queue
        .contains(&AppEvent::OpenInput(InputOperation::NewFile { at: at("test") })));
}

#[test]
fn enter_opens_when_over_dir() {
    let mut filetree = tree_of(vec![dir("test", vec![file("test/test.txt")])]);
    filetree.handle_event(&input(Key::Enter, false, false));
    assert_eq!(vec![vec![0]], filetree.state.get_all_opened());
}

#[test]
fn enter_sends_open_file_when_over_files() {
    let mut filetree = tree_of(vec![file("test.txt")]);
    filetree.handle_event(&input(Key::Enter, false, false));
    assert!(filetree.queue.contains(&AppEvent::OpenFile(at("test.txt"))));
}

#[test]
fn can_jump_down_by_three() {
    let mut filetree = tree_of(vec![
        file("test.txt"),
        file("test2.txt"),
        file("test3.txt"),
        file("test4.txt"),
    ]);
    filetree.handle_event(&input(Key::Char('n'), false, true));
    assert_eq!(3, filetree.state.selected()[0])
}

#[test]
fn can_jump_up_by_three() {
    let mut filetree = tree_of(vec![
        file("test.txt"),
        file("test2.txt"),
        file("test3.txt"),
        file("test4.txt"),
    ]);
    let inputs = vec![input(Key::Char('G'), true, false), input(Key::Char('p'), false, true)];
    for ev in inputs {
        filetree.handle_event(&ev);
    }
    assert_eq!(0, filetree.state.selected()[0])
}

#[test]
fn can_send_run_cmd() {
    let mut filetree = tree_of(vec![file("test.txt")]);
    filetree.handle_event(&key('e'));
    assert!(filetree
        .queue
        .contains(&AppEvent::OpenInput(InputOperation::Command { to: at("test.txt") })))
}

#[test]
fn can_send_search_cmd() {
    let mut filetree = tree_of(vec![]);
    filetree.handle_event(&key('/'));
    assert!(filetree.queue.contains(&AppEvent::OpenInput(InputOperation::SearchFiles)))
}

#[test]
fn can_only_include() {
    let mut filetree = tree_of(vec![file("test.txt"), file("test2.txt")]);
    filetree.only_include(vec![file("test.txt"), file("test2.txt")], vec![at("test.txt")]);
    assert!(filetree.only_included);
    assert_eq!(1, filetree.dir.len());
    assert!(matches!(&filetree.dir[0], Node::File { path } if *path == at("test.txt")));
}

#[test]
fn can_send_toggle_preview_cmd() {
    let mut filetree = tree_of(vec![]);
    filetree.handle_event(&key('t'));
    assert!(filetree.queue.contains(&AppEvent::TogglePreviewMode));
}

#[test]
fn rescan_is_asked_for_refresh_key_and_event() {
    let mut filetree = tree_of(vec![file("a")]);
    assert!(matches!(filetree.handle_event(&key('\\')), Follow::Rescan { preview: true }));
    assert!(matches!(
        filetree.handle_event(&ExternalEvent::RefreshFiletree),
        Follow::Rescan { preview: false }
    ));
    assert!(matches!(filetree.handle_event(&key('x')), Follow::Done));
}

#[test]
fn unfocused_tree_ignores_keys() {
    let mut filetree = tree_of(vec![file("a"), file("b")]);
    filetree.focus(false);
    assert!(!filetree.focused());
    filetree.handle_event(&key('j'));
    assert_eq!(vec![0], filetree.state.selected());
}

#[test]
fn moves_are_previewed_in_order() {
    let mut filetree = tree_of(vec![file("a"), file("b")]);
    filetree.handle_event(&key('j'));
    filetree.handle_event(&key('j'));
    let events = filetree.queue.drain();
    assert_eq!(3, events.len());
    assert!(events[0].same(&AppEvent::PreviewFile(at("a"))));
    assert!(events[1].same(&AppEvent::PreviewFile(at("b"))));
    assert!(events[2].same(&AppEvent::PreviewFile(at("b"))));
    assert_eq!(0, filetree.queue.len());
}

#[test]
fn stays_at_top_and_bottom() {
    let mut filetree = tree_of(vec![file("a"), file("b"), file("c")]);
    filetree.handle_event(&key('g'));
    for _ in 0..5 {
        filetree.handle_event(&key('k'));
        assert_eq!(vec![0], filetree.state.selected());
    }
    filetree.handle_event(&input(Key::Char('G'), true, false));
    for _ in 0..5 {
        filetree.handle_event(&key('j'));
        assert_eq!(vec![2], filetree.state.selected());
    }
}

#[test]
fn toggling_twice_restores_open_set() {
    let mut filetree = tree_of(vec![dir("d", vec![file("d/x")]), file("f")]);
    let before = filetree.state.get_all_opened();
    let enter = input(Key::Enter, false, false);
    filetree.handle_event(&enter);
    assert_eq!(vec![vec![0]], filetree.state.get_all_opened());
    filetree.handle_event(&enter);
    assert_eq!(before, filetree.state.get_all_opened());
}

#[test]
fn down_enters_open_directory() {
    let mut filetree = tree_of(vec![dir("d", vec![file("d/x"), file("d/y")]), file("f")]);
    filetree.handle_event(&input(Key::Enter, false, false));
    filetree.handle_event(&key('j'));
    assert_eq!(vec![0, 0], filetree.state.selected());
    assert_eq!(at("d/x"), *filetree.get_selected().unwrap().path());
    filetree.handle_event(&input(Key::Char('G'), true, false));
    assert_eq!(vec![1], filetree.state.selected());
}

#[test]
fn new_entry_in_nested_closed_dir_goes_to_parent() {
    let mut filetree = tree_of(vec![dir("d", vec![dir("d/e", vec![file("d/e/x")])])]);
    filetree.handle_event(&input(Key::Enter, false, false));
    filetree.handle_event(&key('j'));
    assert_eq!(vec![0, 0], filetree.state.selected());
    filetree.handle_event(&input(Key::Char('N'), true, false));
    assert!(filetree
        .queue
        .contains(&AppEvent::OpenInput(InputOperation::NewDir { at: at("d") })));
    assert_eq!(vec![vec![0]], filetree.state.get_all_opened());
}

#[test]
fn refresh_keeps_selection_that_still_exists() {
    let mut filetree = tree_of(vec![file("a"), file("b")]);
    filetree.handle_event(&key('j'));
    filetree.refresh(vec![file("c"), file("a"), file("b")]);
    assert_eq!(vec![1], filetree.state.selected());
    assert!(!filetree.only_included);
}

#[test]
fn refresh_resets_selection_that_is_gone() {
    let mut filetree = tree_of(vec![file("a"), file("b"), file("c")]);
    filetree.handle_event(&input(Key::Char('G'), true, false));
    assert_eq!(vec![2], filetree.state.selected());
    filetree.refresh(vec![file("a")]);
    assert_eq!(vec![0], filetree.state.selected());
}

#[test]
fn refresh_to_empty_tree_selects_nothing() {
    let mut filetree = tree_of(vec![file("a"), file("b")]);
    filetree.handle_event(&key('j'));
    filetree.refresh(vec![]);
    assert_eq!(vec![0], filetree.state.selected());
    assert!(filetree.get_selected().is_none());
}

#[test]
fn only_include_keeps_ancestors_and_drops_the_rest() {
    let listing = || {
        vec![
            dir("src", vec![file("src/lib.rs"), file("src/main.rs")]),
            dir("docs", vec![file("docs/a.md")]),
            file("README"),
        ]
    };
    let mut filetree = tree_of(listing());
    filetree.only_include(listing(), vec![at("src/main.rs")]);
    assert_eq!(1, filetree.dir.len());
    match &filetree.dir[0] {
        Node::Dir { path, children } => {
            assert_eq!(at("src"), *path);
            assert_eq!(1, children.len());
            assert_eq!(at("src/main.rs"), *children[0].path());
        }
        Node::File { .. } => panic!("expected a directory"),
    }
    assert!(filetree.queue.contains(&AppEvent::PreviewFile(at("src"))));
}

#[test]
fn only_include_with_no_match_is_empty() {
    let mut filetree = tree_of(vec![file("a")]);
    filetree.only_include(vec![file("a")], vec![at("zzz")]);
    assert_eq!(0, filetree.dir.len());
    assert!(filetree.get_selected().is_none());
}

#[test]
fn ctrl_jump_is_ignored_on_empty_tree() {
    let mut filetree = tree_of(vec![]);
    assert!(matches!(filetree.handle_event(&input(Key::Char('n'), false, true)), Follow::Done));
    assert_eq!(0, filetree.queue.len());
}
