use fm::clipboard::{
    decode, decode_uri_list, encode, encode_uri_list, free_name, read_file_clipboard, ClipboardOp,
    GNOME_MIME, URI_LIST_MIME,
};

fn uris(paths: &[&str]) -> Vec<String> {
    paths.iter().map(|p| (*p).to_owned()).collect()
}

#[test]
fn encodes_a_copy_the_way_nautilus_reads_it() {
    let payload = encode(
        ClipboardOp::Copy,
        &uris(&["file:///a.txt", "file:///b.txt"]),
    );
    assert_eq!(payload, "copy\nfile:///a.txt\nfile:///b.txt");
}

#[test]
fn the_operation_word_is_the_only_difference_for_a_cut() {
    let payload = encode(ClipboardOp::Cut, &uris(&["file:///a.txt"]));
    assert_eq!(payload, "cut\nfile:///a.txt");
}

#[test]
fn decodes_what_it_encodes() {
    let files = uris(&["file:///a.txt", "file:///b.txt"]);
    for op in [ClipboardOp::Copy, ClipboardOp::Cut] {
        let round_trip = decode(&encode(op, &files));
        assert_eq!(round_trip, Some((op, files.clone())));
    }
}

#[test]
fn tolerates_the_trailing_newline_other_apps_add() {
    assert_eq!(
        decode("copy\nfile:///a.txt\n"),
        Some((ClipboardOp::Copy, uris(&["file:///a.txt"])))
    );
}

#[test]
fn rejects_a_payload_that_is_not_a_file_clipboard() {
    // Plain text on the clipboard must never be mistaken for files.
    assert_eq!(decode("just some copied text"), None);
    assert_eq!(decode(""), None);
    // An operation word with nothing to operate on is not actionable.
    assert_eq!(decode("copy"), None);
}

#[test]
fn a_uri_list_is_crlf_terminated() {
    assert_eq!(
        encode_uri_list(&uris(&["file:///a.txt", "file:///b.txt"])),
        "file:///a.txt\r\nfile:///b.txt\r\n"
    );
}

#[test]
fn a_uri_list_drops_its_comment_lines() {
    // Comments starting with '#' are part of RFC 2483, and some apps send them.
    let parsed = decode_uri_list("# a comment\r\nfile:///a.txt\r\n\r\nfile:///b.txt\r\n");
    assert_eq!(parsed, uris(&["file:///a.txt", "file:///b.txt"]));
}

#[test]
fn a_free_name_is_left_alone() {
    assert_eq!(free_name("notas.txt", |_| false), "notas.txt");
}

#[test]
fn a_taken_name_gets_the_copy_suffix_before_its_extension() {
    assert_eq!(
        free_name("notas.txt", |n| n == "notas.txt"),
        "notas (copy).txt"
    );
}

#[test]
fn the_suffix_counts_up_while_names_stay_taken() {
    let taken = |n: &str| matches!(n, "notas.txt" | "notas (copy).txt");
    assert_eq!(free_name("notas.txt", taken), "notas (copy 2).txt");
}

#[test]
fn a_name_without_an_extension_keeps_the_suffix_at_the_end() {
    assert_eq!(free_name("README", |n| n == "README"), "README (copy)");
}

#[test]
fn a_dotfiles_leading_dot_is_not_an_extension() {
    assert_eq!(free_name(".bashrc", |n| n == ".bashrc"), ".bashrc (copy)");
}

#[test]
fn only_the_final_suffix_counts_as_the_extension() {
    assert_eq!(
        free_name("archive.tar.gz", |n| n == "archive.tar.gz"),
        "archive.tar (copy).gz"
    );
}

#[test]
fn both_payloads_have_their_mime_types() {
    assert_eq!(GNOME_MIME, "x-special/gnome-copied-files");
    assert_eq!(URI_LIST_MIME, "text/uri-list");
}

#[test]
fn an_empty_list_cannot_be_read_back() {
    assert_eq!(encode(ClipboardOp::Cut, &[]), "cut");
    assert_eq!(decode(&encode(ClipboardOp::Cut, &[])), None);
    assert_eq!(encode_uri_list(&[]), "");
    assert_eq!(decode_uri_list(""), uris(&[]));
}

#[test]
fn white_space_around_entries_is_dropped() {
    assert_eq!(
        decode("  cut \r\n\n \u{a0}file:///a b.txt\u{3000}\r\n"),
        Some((ClipboardOp::Cut, uris(&["file:///a b.txt"])))
    );
    assert_eq!(decode("Copy\nfile:///a.txt"), None);
    assert_eq!(decode("copy \n \n"), None);
}

#[test]
fn decodes_the_uri_list_it_encodes() {
    let files = uris(&["file:///a.txt", "file:///with%20space", "trash:///x#y"]);
    assert_eq!(decode_uri_list(&encode_uri_list(&files)), files);
}

#[test]
fn the_gnome_payload_wins_over_the_uri_list() {
    assert_eq!(
        read_file_clipboard(Some("cut\nfile:///a"), Some("file:///b\r\n")),
        Some((ClipboardOp::Cut, uris(&["file:///a"])))
    );
}

#[test]
fn a_bare_uri_list_is_read_as_a_copy() {
    assert_eq!(
        read_file_clipboard(None, Some("file:///b\r\n")),
        Some((ClipboardOp::Copy, uris(&["file:///b"])))
    );
    assert_eq!(
        read_file_clipboard(Some("nonsense"), Some("#c\r\nfile:///b\r\n")),
        Some((ClipboardOp::Copy, uris(&["file:///b"])))
    );
}

#[test]
fn a_clipboard_without_files_gives_none() {
    assert_eq!(read_file_clipboard(None, None), None);
    assert_eq!(read_file_clipboard(Some("text"), Some("# only a comment\r\n")), None);
    assert_eq!(read_file_clipboard(Some("copy"), None), None);
}

#[test]
fn the_suffix_counts_into_two_digits() {
    let taken = |n: &str| n != "a (copy 12).b";
    assert_eq!(free_name("a.b", taken), "a (copy 12).b");
}

#[test]
fn a_trailing_dot_leaves_no_extension_to_keep() {
    assert_eq!(free_name("name.", |n| n == "name."), "name (copy)");
    assert_eq!(free_name("..x", |n| n == "..x"), ". (copy).x");
}

#[test]
fn no_two_attempts_try_the_same_name() {
    let seen = std::cell::RefCell::new(Vec::new());
    let free = free_name("notas.txt", |n| {
        let mut seen = seen.borrow_mut();
        assert!(!seen.contains(&n.to_owned()));
        seen.push(n.to_owned());
        seen.len() < 30
    });
    assert_eq!(seen.borrow().len(), 30);
    assert_eq!(seen.borrow().last(), Some(&free));
    assert_eq!(free, "notas (copy 29).txt");
}
