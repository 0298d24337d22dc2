use fm::clipboard::{encode, encode_uri_list, ClipboardOp};
use fm::component::paste::{Paste, Payload, Skip, Skipped, Step};
use fm::place::{Place, LOCAL_ORIGIN};

fn file(parts: &[&str]) -> Place {
    Place {
        origin: LOCAL_ORIGIN.to_owned(),
        parts: parts.iter().map(|part| (*part).to_owned()).collect(),
    }
}

fn free(_: &str) -> bool {
    false
}

fn copy(name: &str) -> Step {
    Step::Copy(name.to_owned())
}

#[test]
fn a_directory_is_never_pasted_into_itself_or_below() {
    let mut paste = Paste::new(ClipboardOp::Copy, file(&["a", "b", "c"]));
    assert_eq!(paste.step(&file(&["a", "b", "c"]), free), Step::Skip(Skip::IntoItself));
    assert_eq!(paste.step(&file(&["a", "b"]), free), Step::Skip(Skip::IntoItself));
    // Everything is below the root.
    assert_eq!(paste.step(&file(&[]), free), Step::Skip(Skip::IntoItself));
    assert_eq!(paste.message(), "3 skipped: into itself");
    assert_eq!(paste.step(&file(&["a", "bb"]), free), copy("bb"));
    assert_eq!(paste.step(&file(&["a", "b", "c", "d"]), free), copy("d"));
    assert_eq!(paste.pasted, 2);
    assert_eq!(
        paste.skipped,
        Skipped { not_local: 0, into_itself: 3, no_name: 0, already_there: 0 }
    );
    assert_eq!(paste.message(), "2 pasted, 3 skipped");
    assert!(!paste.spends_clipboard());
}

#[test]
fn a_cut_landing_where_it_lives_is_skipped_and_a_copy_is_not() {
    let source = file(&["a", "x.txt"]);
    let mut cut = Paste::new(ClipboardOp::Cut, file(&["a"]));
    assert_eq!(cut.step(&source, free), Step::Skip(Skip::AlreadyThere));
    assert!(!cut.spends_clipboard());
    assert_eq!(cut.message(), "1 skipped: already there");
    let mut copied = Paste::new(ClipboardOp::Copy, file(&["a"]));
    // It is there already under its own name, so it gets another one.
    assert_eq!(copied.step(&source, |name| name == "x.txt"), copy("x (copy).txt"));
    assert_eq!(copied.message(), "1 file pasted");
}

#[test]
fn what_has_no_local_path_is_skipped_and_reported() {
    for op in [ClipboardOp::Copy, ClipboardOp::Cut] {
        let mut paste = Paste::new(op, file(&["a"]));
        let source = Place { origin: "smb://host".to_owned(), ..file(&["share", "x"]) };
        assert_eq!(paste.step(&source, free), Step::Skip(Skip::NotLocal));
        assert!(!paste.spends_clipboard());
        assert_eq!(paste.message(), "1 skipped: without a local path");
    }
}

#[test]
fn a_paste_that_skipped_everything_says_how_many_and_why() {
    let mut paste = Paste::new(ClipboardOp::Cut, file(&["a", "b"]));
    paste.step(&file(&["a"]), free);
    paste.step(&file(&["a", "b"]), free);
    assert_eq!(paste.message(), "2 skipped: into itself");
    paste.step(&file(&["a", "b", "x"]), free);
    assert_eq!(paste.message(), "3 skipped: 2 into itself, 1 already there");
    paste.step(&Place { origin: String::new(), ..file(&["y"]) }, free);
    paste.step(&file(&[]), free);
    paste.step(&Place { origin: "smb://host".to_owned(), ..file(&[]) }, free);
    assert_eq!(
        paste.message(),
        "6 skipped: 2 without a local path, 3 into itself, 1 already there"
    );
}

#[test]
fn a_root_has_no_name_to_be_pasted_under_elsewhere() {
    let elsewhere = Place { origin: "smb://host".to_owned(), ..file(&["share"]) };
    let mut paste = Paste::new(ClipboardOp::Copy, elsewhere);
    assert_eq!(paste.step(&file(&[]), free), Step::Skip(Skip::NoName));
    assert_eq!(paste.message(), "1 skipped: without a name");
}

#[test]
fn a_cut_of_which_nothing_was_moved_can_be_pasted_again() {
    let mut paste = Paste::new(ClipboardOp::Cut, file(&["b"]));
    assert_eq!(paste.step(&file(&["a", "x"]), free), Step::Move("x".to_owned()));
    paste.move_failed();
    assert!(!paste.spends_clipboard());
    assert_eq!(paste.message(), "1 file pasted");
    assert_eq!(paste.step(&file(&["a", "y"]), free), Step::Move("y".to_owned()));
    assert!(paste.spends_clipboard());
    assert_eq!((paste.pasted, paste.failed), (2, 1));
}

#[test]
fn a_cut_that_moved_something_spends_the_clipboard() {
    let mut paste = Paste::new(ClipboardOp::Cut, file(&["b"]));
    assert_eq!(paste.message(), "Nothing to paste");
    assert_eq!(paste.step(&file(&["a", "x"]), free), Step::Move("x".to_owned()));
    let taken = |name: &str| name == "y" || name == "y (copy)";
    assert_eq!(paste.step(&file(&["a", "y"]), taken), Step::Move("y (copy 2)".to_owned()));
    assert!(paste.spends_clipboard());
    assert_eq!(paste.message(), "2 files pasted");
}

#[test]
fn a_paste_begins_with_what_the_clipboard_offers() {
    let uris = vec!["file:///a/x".to_owned(), "file:///a/y".to_owned()];
    let gnome = encode(ClipboardOp::Cut, &uris);
    let list = encode_uri_list(&uris);
    let (paste, taken) = Paste::begin(Some(&gnome), Some(&list), file(&["b"])).unwrap();
    assert_eq!((paste.op, taken), (ClipboardOp::Cut, uris.clone()));
    let (paste, taken) = Paste::begin(None, Some(&list), file(&["b"])).unwrap();
    assert_eq!((paste.op, taken), (ClipboardOp::Copy, uris));
    for (gnome, list) in [(None, None), (Some("hello"), None), (None, Some("# no file"))] {
        assert_eq!(Paste::begin(gnome, list, file(&["b"])).unwrap_err(), "Nothing to paste");
    }
}

#[test]
fn judging_names_the_file_or_the_reason() {
    let paste = Paste::new(ClipboardOp::Copy, file(&["b"]));
    assert_eq!(paste.judge(&file(&["a", "x"])), Ok("x".to_owned()));
    assert_eq!(paste.judge(&file(&["b"])), Err(Skip::IntoItself));
}

#[test]
fn a_payload_is_put_together_from_its_chunks() {
    let sent = encode(ClipboardOp::Cut, &["file:///\u{e9}".to_owned()]);
    let bytes = sent.as_bytes();
    let mut payload = Payload::new();
    for chunk in bytes.chunks(3) {
        let mut buffer = vec![b'?'; 8];
        buffer[..chunk.len()].copy_from_slice(chunk);
        assert!(payload.take(&buffer, chunk.len()));
    }
    assert!(!payload.take(&[b'?'; 8], 0));
    assert_eq!(payload.finish(), Some(sent));
}

#[test]
fn what_is_not_text_is_discarded() {
    for bytes in [&[0xff_u8][..], &[0xc3][..], &[0xc0, 0x80][..], &[0xed, 0xa0, 0x80][..]] {
        let mut payload = Payload::new();
        payload.take(bytes, bytes.len());
        assert_eq!(payload.finish(), None);
    }
    assert_eq!(Payload::new().finish(), Some(String::new()));
}
