use fm::component::app::{AppMsg, Transfer};
use fm::ops::{
    handle_drop, move_finished, move_progressed, move_started, rejects_drop, Copying, Ids, Node,
    Outcome, Progress, Walk,
};
use fm::place::Place;

/// A tree to walk: the entries of each directory, by its path.
fn entries(directory: &[u8]) -> Vec<(&'static str, bool, i64)> {
    match directory {
        b"" => vec![("sub", true, 0), ("empty", true, 0), ("top.txt", false, 3)],
        b"sub" => vec![("deeper", true, 0), ("middle.txt", false, 6)],
        b"sub/deeper" => vec![("bottom.txt", false, 7)],
        _ => vec![],
    }
}

fn walked() -> Vec<Node> {
    let mut walk = Walk::start(true, 4096);
    while let Some(directory) = walk.next() {
        for (name, is_dir, size) in entries(&directory) {
            walk.found(&directory, name.as_bytes(), is_dir, size);
        }
    }
    walk.nodes
}

fn relatives(nodes: &[Node]) -> Vec<String> {
    let mut out: Vec<String> = nodes
        .iter()
        .map(|node| String::from_utf8_lossy(&node.relative).into_owned())
        .collect();
    out.sort();
    out
}

fn node(relative: &str, is_dir: bool, size: i64) -> Node {
    Node { relative: relative.as_bytes().to_vec(), is_dir, size }
}

#[test]
fn walking_a_tree_finds_every_file_and_directory() {
    let nodes = walked();

    // The empty string is the root itself: the destination directory that
    // has to exist before anything lands inside it.
    assert_eq!(
        relatives(&nodes),
        vec![
            "",
            "empty",
            "sub",
            "sub/deeper",
            "sub/deeper/bottom.txt",
            "sub/middle.txt",
            "top.txt",
        ]
    );

    // Empty directories are nodes too, or they would vanish in the copy.
    let empty = nodes.iter().find(|n| n.relative.ends_with(b"empty")).unwrap();
    assert!(empty.is_dir);

    let bottom = nodes.iter().find(|n| n.relative.ends_with(b"bottom.txt")).unwrap();
    assert!(!bottom.is_dir);
    assert_eq!(bottom.size, 7);
}

#[test]
fn walking_a_plain_file_yields_that_file_alone() {
    let mut walk = Walk::start(false, 3);
    assert_eq!(walk.next(), None);
    let nodes = walk.nodes;

    assert_eq!(nodes.len(), 1);
    assert!(!nodes[0].is_dir);
    assert_eq!(nodes[0].relative, b"");
    assert_eq!(nodes[0].size, 3);
}

#[test]
fn a_directory_is_emitted_before_anything_inside_it() {
    let nodes = walked();
    assert_eq!(nodes[0], node("", true, 0));
    for (i, node) in nodes.iter().enumerate().skip(1) {
        let parent = match node.relative.iter().rposition(|&byte| byte == b'/') {
            Some(at) => &node.relative[..at],
            None => &[],
        };
        assert!(nodes[..i].iter().any(|n| n.is_dir && n.relative == parent));
    }
}

#[test]
fn the_last_directory_found_is_listed_first() {
    let mut walk = Walk::start(true, 0);
    assert_eq!(walk.next(), Some(Vec::new()));
    walk.found(b"", b"a", true, 0);
    walk.found(b"", b"b", true, 0);
    assert_eq!(walk.next(), Some(b"b".to_vec()));
    walk.found(b"b", b"c", true, 0);
    assert_eq!(walk.next(), Some(b"b/c".to_vec()));
    assert_eq!(walk.next(), Some(b"a".to_vec()));
    assert_eq!(walk.next(), None);
}

#[test]
fn names_that_are_not_text_are_walked_like_any_other() {
    let mut walk = Walk::start(true, 0);
    assert_eq!(walk.next(), Some(Vec::new()));
    walk.found(b"", &[0xff], true, 0);
    walk.found(b"", &[0xfe], false, 1);
    assert_eq!(walk.next(), Some(vec![0xff]));
    walk.found(&[0xff], &[0x80], false, 2);
    assert_eq!(walk.next(), None);
    let found: Vec<Vec<u8>> = walk.nodes.into_iter().map(|node| node.relative).collect();
    assert_eq!(found, vec![vec![], vec![0xff], vec![0xfe], vec![0xff, b'/', 0x80]]);
}

#[test]
fn what_directories_weigh_is_not_counted() {
    let nodes = vec![node("", true, i64::MAX), node("d", true, i64::MIN), node("f", false, 8)];
    let (mut copying, _) = Copying::start(1, nodes, None);
    assert_eq!(copying.total, 8);
    assert_eq!(copying.advance(Outcome::Done), vec![]);
    assert_eq!(copying.advance(Outcome::Done), vec![]);
    assert_eq!(copying.advance(Outcome::Done), vec![progress(1, 8, 8)]);
}

#[test]
fn only_the_root_lands_on_the_destination() {
    assert_eq!(node("", true, 0).below(), None);
    assert_eq!(node("sub/x", false, 1).below(), Some(&b"sub/x"[..]));
}

#[test]
fn an_update_is_complete_when_nothing_is_missing() {
    assert!(Progress { id: 1, current: 5, total: 5 }.is_complete());
    assert!(!Progress { id: 1, current: 4, total: 5 }.is_complete());
}

#[test]
fn every_operation_gets_its_own_number() {
    let mut ids = Ids { next: 0 };
    assert_eq!((ids.take(), ids.take(), ids.take()), (0, 1, 2));
    let mut last = Ids { next: u64::MAX };
    assert_eq!((last.take(), last.take()), (u64::MAX, 0));
}

fn progress(id: u64, current: i64, total: i64) -> AppMsg {
    AppMsg::Transfer(Transfer::Progress(Progress { id, current, total }))
}

#[test]
fn copying_a_tree_counts_its_bytes() {
    let (mut copying, begun) = Copying::start(9, walked(), Some("tree"));
    assert_eq!(
        begun,
        AppMsg::Transfer(Transfer::New { id: 9, description: "Copying 'tree'".to_owned() })
    );
    assert_eq!(copying.total, 16);
    let mut said = Vec::new();
    while copying.current().is_some() {
        said.extend(copying.advance(Outcome::Done));
    }
    assert_eq!(said.len(), 3);
    assert_eq!(said[2], progress(9, 16, 16));
    assert_eq!(copying.done, copying.total);
    assert_eq!(copying.close(), AppMsg::Transfer(Transfer::Done { id: 9 }));
}

#[test]
fn a_file_in_progress_is_offset_by_what_is_finished() {
    let nodes = vec![node("a", false, 10), node("b", false, 5)];
    let (mut copying, _) = Copying::start(1, nodes, None);
    assert_eq!(copying.reporter().progress(4), progress(1, 4, 15));
    assert_eq!(copying.advance(Outcome::Done), vec![progress(1, 10, 15)]);
    assert_eq!(copying.reporter().progress(4), progress(1, 14, 15));
}

#[test]
fn a_failure_is_reported_and_the_rest_is_copied() {
    let nodes = vec![node("", true, 0), node("a", false, 10), node("b", false, 5)];
    let (mut copying, begun) = Copying::start(1, nodes, None);
    assert_eq!(
        begun,
        AppMsg::Transfer(Transfer::New { id: 1, description: "Copying 'file'".to_owned() })
    );
    // A directory that is there already is not an error.
    assert_eq!(copying.advance(Outcome::Exists("exists".to_owned())), vec![]);
    // A file that is there already is.
    assert_eq!(
        copying.advance(Outcome::Exists("exists".to_owned())),
        vec![AppMsg::Error("exists".to_owned())]
    );
    assert_eq!(copying.advance(Outcome::Done), vec![progress(1, 5, 15)]);
    assert_eq!(copying.current(), None);
    assert_ne!(copying.done, copying.total);
}

#[test]
fn a_directory_that_cannot_be_made_is_reported() {
    let (mut copying, _) = Copying::start(1, vec![node("", true, 0)], None);
    assert_eq!(
        copying.advance(Outcome::Failed("denied".to_owned())),
        vec![AppMsg::Error("denied".to_owned())]
    );
}

#[test]
fn a_move_says_what_goes_where() {
    let description = |message| match message {
        AppMsg::Transfer(Transfer::New { id: 4, description }) => description,
        other => panic!("{other:?}"),
    };
    assert_eq!(description(move_started(4, Some("a"), Some("b"))), "Moving 'a' to 'b'");
    assert_eq!(
        description(move_started(4, None, None)),
        "Moving 'file' to 'destination'"
    );
    assert_eq!(move_progressed(4, 1, 2), progress(4, 1, 2));
}

#[test]
fn a_move_is_closed_whether_it_failed_or_not() {
    let done = AppMsg::Transfer(Transfer::Done { id: 4 });
    assert_eq!(move_finished(4, None), vec![done.clone()]);
    assert_eq!(
        move_finished(4, Some("no".to_owned())),
        vec![AppMsg::Error("no".to_owned()), done]
    );
}

#[test]
fn a_drop_moves_the_file_unless_it_is_there_already() {
    let place = |parts: &[&str]| Place {
        origin: "file://".to_owned(),
        parts: parts.iter().map(|part| (*part).to_owned()).collect(),
    };
    let file = place(&["a", "x"]);
    assert_eq!(handle_drop(&file, &place(&["b"])), Some(place(&["b", "x"])));
    assert!(!rejects_drop(&file, &place(&["b"])));
    assert_eq!(handle_drop(&file, &place(&["a"])), None);
    assert!(rejects_drop(&file, &place(&["a"])));
}
