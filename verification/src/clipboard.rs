//! The freedesktop file-clipboard wire format, and collision-free naming.
//!
//! Nautilus, Thunar, PCManFM and Caja all speak `x-special/gnome-copied-files`:
//! an operation word on the first line, then one URI per line. Everything here
//! is plain string handling.

use crate::text;
use crate::text::{after_last, chars_of, decimal_text, join, same, split, text_of, trim};
use vstd::prelude::*;

verus! {

/// What a clipboard payload asks for.
#[derive(Debug, Clone, Copy, PartialEq, Eq, Structural)]
pub enum ClipboardOp {
    Copy,
    Cut,
}

/// The mime type that carries the operation word alongside the URIs.
pub const GNOME_MIME: &'static str = "x-special/gnome-copied-files";

/// The mime type nearly everything else understands. It has no operation word,
/// so a paste sourced from it is always treated as a copy.
pub const URI_LIST_MIME: &'static str = "text/uri-list";

/// The word a payload starts with.
pub open spec fn operation_word(op: ClipboardOp) -> Seq<char> {
    match op {
        ClipboardOp::Copy => "copy"@,
        ClipboardOp::Cut => "cut"@,
    }
}

/// An `x-special/gnome-copied-files` payload: the word, then the URIs, one per
/// line.
pub open spec fn encoded(op: ClipboardOp, uris: Seq<Seq<char>>) -> Seq<char> {
    text::joined(seq![operation_word(op)] + uris, "\n"@)
}

/// Builds an `x-special/gnome-copied-files` payload.
pub fn encode(op: ClipboardOp, uris: &[String]) -> (payload: String)
    ensures
        payload@ == encoded(op, text::texts(uris@)),
{
    let word: String = match op {
        ClipboardOp::Copy => "copy".to_owned(),
        ClipboardOp::Cut => "cut".to_owned(),
    };
    let mut lines: Vec<String> = Vec::new();
    proof {
        text::lemma_texts_push(lines@, word);
    }
    lines.push(word);
    let mut i: usize = 0;
    proof {
        assert(text::texts(uris@).take(0) =~= Seq::<Seq<char>>::empty());
        assert(text::texts(lines@) =~= seq![operation_word(op)] + text::texts(uris@).take(0));
    }
    while i < uris.len()
        invariant
            i <= uris@.len(),
            text::texts(lines@) == seq![operation_word(op)] + text::texts(uris@).take(i as int),
        decreases uris.len() - i,
    {
        let uri: String = uris[i].clone();
        proof {
            text::lemma_texts_push(lines@, uri);
            assert(seq![operation_word(op)] + text::texts(uris@).take(i + 1) =~= (seq![
                operation_word(op),
            ] + text::texts(uris@).take(i as int)).push(uri@));
        }
        lines.push(uri);
        i = i + 1;
    }
    proof {
        assert(text::texts(uris@).take(i as int) =~= text::texts(uris@));
    }
    join(lines.as_slice(), "\n")
}

/// The lines of a payload that say something: trimmed, and not empty.
pub open spec fn entries(payload: Seq<char>) -> Seq<Seq<char>> {
    text::pieces(payload, '\n').map_values(|line: Seq<char>| text::trimmed(line)).filter(
        |line: Seq<char>| line.len() > 0,
    )
}

/// What a payload asks for, if it is a file list at all.
pub open spec fn decoded(payload: Seq<char>) -> Option<(ClipboardOp, Seq<Seq<char>>)> {
    let lines = entries(payload);
    if lines.len() < 2 {
        None
    } else if lines[0] == "copy"@ {
        Some((ClipboardOp::Copy, lines.skip(1)))
    } else if lines[0] == "cut"@ {
        Some((ClipboardOp::Cut, lines.skip(1)))
    } else {
        None
    }
}

/// The lines of a payload that say something.
fn read_entries(payload: &str) -> (lines: Vec<String>)
    ensures
        text::texts(lines@) == entries(payload@),
{
    let parts: Vec<String> = split(payload, '\n');
    let ghost cut = |line: Seq<char>| text::trimmed(line);
    let ghost says = |line: Seq<char>| line.len() > 0;
    let ghost all = text::pieces(payload@, '\n').map_values(cut);
    let mut lines: Vec<String> = Vec::new();
    let mut i: usize = 0;
    proof {
        assert(all.take(0) =~= Seq::<Seq<char>>::empty());
        reveal(Seq::filter);
        assert(text::texts(lines@) =~= all.take(0).filter(says));
    }
    while i < parts.len()
        invariant
            i <= parts@.len(),
            text::texts(parts@) == text::pieces(payload@, '\n'),
            cut == (|line: Seq<char>| text::trimmed(line)),
            says == (|line: Seq<char>| line.len() > 0),
            all == text::pieces(payload@, '\n').map_values(cut),
            text::texts(lines@) == all.take(i as int).filter(says),
        decreases parts.len() - i,
    {
        let line: String = trim(parts[i].as_str());
        proof {
            assert(text::texts(parts@)[i as int] == parts@[i as int]@);
            assert(all[i as int] == line@);
            assert(all.take(i + 1) =~= all.take(i as int).push(line@));
            all.take(i as int).lemma_filter_push(line@, says);
            text::lemma_texts_push(lines@, line);
        }
        if !line.as_str().is_empty() {
            lines.push(line);
        }
        i = i + 1;
    }
    proof {
        assert(all.take(i as int) =~= all);
    }
    lines
}

/// Parses an `x-special/gnome-copied-files` payload.
///
/// Returns `None` when the operation word is missing or unknown, or when no URI
/// follows it, which is also how plain text on the clipboard gets rejected
/// instead of being mistaken for a file list.
pub fn decode(payload: &str) -> (parsed: Option<(ClipboardOp, Vec<String>)>)
    ensures
        match parsed {
            None => decoded(payload@) is None,
            Some((op, uris)) => decoded(payload@) == Some((op, text::texts(uris@))),
        },
{
    let mut lines: Vec<String> = read_entries(payload);
    if lines.len() < 2 {
        return None;
    }
    let ghost all = text::texts(lines@);
    let op: ClipboardOp = if same(&lines[0], "copy") {
        ClipboardOp::Copy
    } else if same(&lines[0], "cut") {
        ClipboardOp::Cut
    } else {
        return None;
    };
    let uris: Vec<String> = lines.split_off(1);
    assert(text::texts(uris@) =~= all.skip(1));
    Some((op, uris))
}

/// A `text/uri-list` payload: each URI followed by a line break.
pub open spec fn encoded_uri_list(uris: Seq<Seq<char>>) -> Seq<char>
    decreases uris.len(),
{
    if uris.len() == 0 {
        Seq::empty()
    } else {
        encoded_uri_list(uris.drop_last()) + uris.last() + "\r\n"@
    }
}

/// Builds a `text/uri-list` payload: CRLF separated with a trailing CRLF, per
/// RFC 2483.
pub fn encode_uri_list(uris: &[String]) -> (payload: String)
    ensures
        payload@ == encoded_uri_list(text::texts(uris@)),
{
    let ghost all = text::texts(uris@);
    let mut payload: String = String::new();
    let mut i: usize = 0;
    proof {
        assert(all.take(0) =~= Seq::<Seq<char>>::empty());
    }
    while i < uris.len()
        invariant
            i <= uris@.len(),
            all == text::texts(uris@),
            payload@ == encoded_uri_list(all.take(i as int)),
        decreases uris.len() - i,
    {
        proof {
            assert(all.take(i + 1).drop_last() =~= all.take(i as int));
            assert(all[i as int] == uris@[i as int]@);
        }
        payload.append(uris[i].as_str());
        payload.append("\r\n");
        i = i + 1;
    }
    proof {
        assert(all.take(i as int) =~= all);
    }
    payload
}

/// The URIs of a `text/uri-list`: its lines, without the comments.
pub open spec fn decoded_uri_list(payload: Seq<char>) -> Seq<Seq<char>> {
    entries(payload).filter(|line: Seq<char>| line[0] != '#')
}

/// Parses a `text/uri-list`. Comment lines starting with `#` are part of the
/// format and are dropped.
pub fn decode_uri_list(payload: &str) -> (uris: Vec<String>)
    ensures
        text::texts(uris@) == decoded_uri_list(payload@),
{
    let lines: Vec<String> = read_entries(payload);
    let ghost all = entries(payload@);
    let ghost names = |line: Seq<char>| line[0] != '#';
    let mut uris: Vec<String> = Vec::new();
    let mut i: usize = 0;
    proof {
        assert(all.take(0) =~= Seq::<Seq<char>>::empty());
        reveal(Seq::filter);
        assert(text::texts(uris@) =~= all.take(0).filter(names));
    }
    while i < lines.len()
        invariant
            i <= lines@.len(),
            all == entries(payload@),
            text::texts(lines@) == all,
            names == (|line: Seq<char>| line[0] != '#'),
            text::texts(uris@) == all.take(i as int).filter(names),
        decreases lines.len() - i,
    {
        let line: String = lines[i].clone();
        proof {
            assert(all[i as int] == line@);
            lemma_entries_say_something(payload@, i as int);
            assert(all.take(i + 1) =~= all.take(i as int).push(line@));
            all.take(i as int).lemma_filter_push(line@, names);
            text::lemma_texts_push(uris@, line);
        }
        if line.as_str().get_char(0) != '#' {
            uris.push(line);
        }
        i = i + 1;
    }
    proof {
        assert(all.take(i as int) =~= all);
    }
    uris
}

/// Whether a URI survives the clipboard: it is a single line with nothing
/// around it.
pub open spec fn is_clean(uri: Seq<char>) -> bool {
    &&& uri.len() > 0
    &&& text::is_trimmed(uri)
    &&& !uri.contains('\n')
}

/// Every entry of a payload is a clean line.
proof fn lemma_entries_say_something(payload: Seq<char>, i: int)
    requires
        0 <= i < entries(payload).len(),
    ensures
        is_clean(entries(payload)[i]),
{
    let cut = |line: Seq<char>| text::trimmed(line);
    let says = |line: Seq<char>| line.len() > 0;
    let raw = text::pieces(payload, '\n');
    let all = raw.map_values(cut);
    all.lemma_filter_pred(says, i);
    let entry = entries(payload)[i];
    assert(entries(payload).contains(entry));
    all.lemma_filter_contains_rev(says, entry);
    let j = choose|j: int| 0 <= j < all.len() && all[j] == entry;
    text::law_trimming_is_done_once(raw[j]);
    text::law_joining_undoes_splitting(payload, '\n');
    assert(!raw[j].contains('\n'));
    lemma_trimmed_holds_no_more(raw[j], '\n');
}

/// Trimming adds no character.
proof fn lemma_trimmed_holds_no_more(line: Seq<char>, c: char)
    requires
        !line.contains(c),
    ensures
        !text::trimmed(line).contains(c),
{
    lemma_trimmed_start_holds_no_more(line, c);
    lemma_trimmed_end_holds_no_more(text::trimmed_start(line), c);
}

proof fn lemma_trimmed_start_holds_no_more(line: Seq<char>, c: char)
    requires
        !line.contains(c),
    ensures
        !text::trimmed_start(line).contains(c),
    decreases line.len(),
{
    if line.len() > 0 && text::white_space(line[0]) {
        let rest = line.drop_first();
        if rest.contains(c) {
            let i = choose|i: int| 0 <= i < rest.len() && rest[i] == c;
            assert(line[i + 1] == c);
        }
        lemma_trimmed_start_holds_no_more(rest, c);
    }
}

proof fn lemma_trimmed_end_holds_no_more(line: Seq<char>, c: char)
    requires
        !line.contains(c),
    ensures
        !text::trimmed_end(line).contains(c),
    decreases line.len(),
{
    if line.len() > 0 && text::white_space(line.last()) {
        let rest = line.drop_last();
        if rest.contains(c) {
            let i = choose|i: int| 0 <= i < rest.len() && rest[i] == c;
            assert(line[i] == c);
        }
        lemma_trimmed_end_holds_no_more(rest, c);
    }
}

/// Lines that are clean are read back as they are.
proof fn lemma_clean_lines_are_kept(lines: Seq<Seq<char>>)
    requires
        forall|i: int| 0 <= i < lines.len() ==> is_clean(#[trigger] lines[i]),
    ensures
        lines.map_values(|line: Seq<char>| text::trimmed(line)).filter(
            |line: Seq<char>| line.len() > 0,
        ) == lines,
    decreases lines.len(),
{
    let cut = |line: Seq<char>| text::trimmed(line);
    let says = |line: Seq<char>| line.len() > 0;
    reveal(Seq::filter);
    if lines.len() == 0 {
        assert(lines.map_values(cut).filter(says) =~= lines);
    } else {
        let fewer = lines.drop_last();
        lemma_clean_lines_are_kept(fewer);
        text::law_trimming_is_done_once(lines.last());
        assert(lines.map_values(cut) =~= fewer.map_values(cut).push(lines.last()));
        fewer.map_values(cut).lemma_filter_push(lines.last(), says);
        assert(fewer.push(lines.last()) =~= lines);
    }
}

/// What is put on the clipboard is what comes back from it: the operation and
/// every URI, in order.
pub proof fn law_decoding_undoes_encoding(op: ClipboardOp, uris: Seq<Seq<char>>)
    requires
        uris.len() > 0,
        forall|i: int| 0 <= i < uris.len() ==> is_clean(#[trigger] uris[i]),
    ensures
        decoded(encoded(op, uris)) == Some((op, uris)),
{
    lemma_words();
    let lines = seq![operation_word(op)] + uris;
    assert forall|i: int| 0 <= i < lines.len() implies is_clean(#[trigger] lines[i]) by {
        if i > 0 {
            assert(lines[i] == uris[i - 1]);
        }
    }
    assert("\n"@ =~= seq!['\n']) by {
        reveal_strlit("\n");
    }
    assert forall|i: int| 0 <= i < lines.len() implies !(#[trigger] lines[i]).contains('\n') by {
        assert(is_clean(lines[i]));
    }
    text::law_splitting_undoes_joining(lines, '\n');
    lemma_clean_lines_are_kept(lines);
    assert(lines.skip(1) =~= uris);
}

/// The two words are clean, and not the same word.
proof fn lemma_words()
    ensures
        is_clean("copy"@),
        is_clean("cut"@),
        "copy"@ != "cut"@,
{
    reveal_strlit("copy");
    reveal_strlit("cut");
    assert("copy"@ =~= seq!['c', 'o', 'p', 'y']);
    assert("cut"@ =~= seq!['c', 'u', 't']);
    assert("copy"@.len() == 4);
    assert("cut"@.len() == 3);
}

/// An operation word with nothing to operate on is not actionable.
pub proof fn law_an_empty_list_is_rejected(op: ClipboardOp)
    ensures
        decoded(encoded(op, Seq::empty())) is None,
{
    lemma_words();
    let word = operation_word(op);
    let lines = seq![word] + Seq::<Seq<char>>::empty();
    assert(lines =~= seq![word]);
    assert(encoded(op, Seq::empty()) == word);
    text::lemma_pieces_single(word, '\n');
    lemma_clean_lines_are_kept(seq![word]);
}

/// Whatever is read from a payload can be put back on the clipboard and read
/// again.
pub proof fn law_what_is_decoded_is_clean(payload: Seq<char>, i: int)
    requires
        decoded(payload) is Some,
        0 <= i < decoded(payload)->Some_0.1.len(),
    ensures
        is_clean(decoded(payload)->Some_0.1[i]),
{
    lemma_entries_say_something(payload, i + 1);
}

/// Each line of a `text/uri-list` ends in a line break, so the last piece is
/// empty and the others are the URIs and what is left of the line breaks.
proof fn lemma_uri_list_pieces(uris: Seq<Seq<char>>)
    requires
        forall|i: int| 0 <= i < uris.len() ==> is_clean(#[trigger] uris[i]),
    ensures
        text::pieces(encoded_uri_list(uris), '\n') == uris.map_values(
            |uri: Seq<char>| uri.push('\r'),
        ).push(Seq::<char>::empty()),
    decreases uris.len(),
{
    let line = |uri: Seq<char>| uri.push('\r');
    if uris.len() == 0 {
        assert(uris.map_values(line).push(Seq::<char>::empty()) =~= seq![Seq::<char>::empty()]);
    } else {
        let fewer = uris.drop_last();
        let uri = uris.last();
        lemma_uri_list_pieces(fewer);
        let head = encoded_uri_list(fewer);
        assert("\r\n"@ =~= seq!['\r', '\n']) by {
            reveal_strlit("\r\n");
        }
        let most = head + uri.push('\r');
        assert(encoded_uri_list(uris) =~= most.push('\n'));
        assert(most.push('\n').drop_last() =~= most);
        lemma_appending_to_last_piece(head, uri.push('\r'), fewer.map_values(line));
        assert(uris.map_values(line) =~= fewer.map_values(line).push(uri.push('\r')));
    }
}

/// Characters without a separator extend the last piece.
proof fn lemma_appending_to_last_piece(
    head: Seq<char>,
    tail: Seq<char>,
    before: Seq<Seq<char>>,
)
    requires
        !tail.contains('\n'),
        text::pieces(head, '\n') == before.push(Seq::<char>::empty()),
    ensures
        text::pieces(head + tail, '\n') == before.push(tail),
    decreases tail.len(),
{
    if tail.len() == 0 {
        assert(head + tail =~= head);
        assert(tail =~= Seq::<char>::empty());
    } else {
        let shorter = tail.drop_last();
        assert(tail.contains(tail.last()));
        assert forall|c: char| shorter.contains(c) implies tail.contains(c) by {
            let i = choose|i: int| 0 <= i < shorter.len() && shorter[i] == c;
            assert(tail[i] == c);
        }
        lemma_appending_to_last_piece(head, shorter, before);
        assert((head + tail).drop_last() =~= head + shorter);
        assert(before.push(shorter).drop_last() =~= before);
        assert(shorter.push(tail.last()) =~= tail);
    }
}

/// A URI list comes back as it was written, comments aside.
pub proof fn law_decoding_a_uri_list_undoes_encoding(uris: Seq<Seq<char>>)
    requires
        forall|i: int| 0 <= i < uris.len() ==> is_clean(#[trigger] uris[i]) && uris[i][0] != '#',
    ensures
        decoded_uri_list(encoded_uri_list(uris)) == uris,
{
    let payload = encoded_uri_list(uris);
    let cut = |line: Seq<char>| text::trimmed(line);
    let says = |line: Seq<char>| line.len() > 0;
    let line = |uri: Seq<char>| uri.push('\r');
    lemma_uri_list_pieces(uris);
    let raw = text::pieces(payload, '\n');
    assert(raw.map_values(cut) =~= uris.push(Seq::<char>::empty())) by {
        assert forall|i: int| 0 <= i < raw.len() implies #[trigger] cut(raw[i]) == uris.push(
            Seq::<char>::empty(),
        )[i] by {
            if i < uris.len() {
                let uri = uris[i];
                assert(is_clean(uri));
                let ended = uri.push('\r');
                assert(text::trimmed_start(ended) == ended);
                assert(ended.drop_last() =~= uri);
                assert(text::trimmed_end(ended) == text::trimmed_end(uri));
            }
        }
    }
    uris.lemma_filter_push(Seq::<char>::empty(), says);
    lemma_all_kept(uris, says);
    assert(entries(payload) == uris);
    lemma_all_kept(uris, |line: Seq<char>| line[0] != '#');
}

/// Filtering by what everything satisfies drops nothing.
proof fn lemma_all_kept(lines: Seq<Seq<char>>, keeps: spec_fn(Seq<char>) -> bool)
    requires
        forall|i: int| 0 <= i < lines.len() ==> keeps(#[trigger] lines[i]),
    ensures
        lines.filter(keeps) == lines,
    decreases lines.len(),
{
    reveal(Seq::filter);
    if lines.len() > 0 {
        lemma_all_kept(lines.drop_last(), keeps);
        assert(lines.drop_last().push(lines.last()) =~= lines);
    } else {
        assert(lines.filter(keeps) =~= lines);
    }
}

/// What the clipboard holds, given the payloads it offers.
pub open spec fn file_clipboard(
    gnome: Option<Seq<char>>,
    uri_list: Option<Seq<char>>,
) -> Option<(ClipboardOp, Seq<Seq<char>>)> {
    if gnome matches Some(payload) && decoded(payload) is Some {
        decoded(gnome->Some_0)
    } else if uri_list matches Some(payload) && decoded_uri_list(payload).len() > 0 {
        Some((ClipboardOp::Copy, decoded_uri_list(uri_list->Some_0)))
    } else {
        None
    }
}

/// What the clipboard offers as one of its types, as text.
pub open spec fn offered(payload: Option<&str>) -> Option<Seq<char>> {
    match payload {
        Some(payload) => Some(payload@),
        None => None,
    }
}

/// Reads a file list off the clipboard.
///
/// The GNOME type is preferred because it carries the operation word. A bare
/// `text/uri-list`, which is what a browser or a file picker offers, has no such
/// word, so it is read as a copy: assuming a cut would delete another app's
/// files.
pub fn read_file_clipboard(gnome: Option<&str>, uri_list: Option<&str>) -> (parsed: Option<
    (ClipboardOp, Vec<String>),
>)
    ensures
        match parsed {
            None => file_clipboard(offered(gnome), offered(uri_list)) is None,
            Some((op, uris)) => file_clipboard(offered(gnome), offered(uri_list)) == Some(
                (op, text::texts(uris@)),
            ),
        },
{
    if let Some(payload) = gnome {
        let parsed: Option<(ClipboardOp, Vec<String>)> = decode(payload);
        if parsed.is_some() {
            return parsed;
        }
    }
    if let Some(payload) = uri_list {
        let uris: Vec<String> = decode_uri_list(payload);
        if uris.len() > 0 {
            return Some((ClipboardOp::Copy, uris));
        }
    }
    None
}

/// Files that another program offers without saying so are never cut.
pub proof fn law_a_bare_uri_list_is_a_copy(
    gnome: Option<Seq<char>>,
    uri_list: Option<Seq<char>>,
)
    requires
        file_clipboard(gnome, uri_list) matches Some((op, _)) && op == ClipboardOp::Cut,
    ensures
        gnome matches Some(payload) && decoded(payload) == file_clipboard(gnome, uri_list),
{
}

/// Where the last dot of a name is, or -1.
pub open spec fn last_dot(name: Seq<char>) -> int {
    text::last_position(name, '.')
}

/// The part of a name before its extension. A leading dot belongs to it.
pub open spec fn stem(name: Seq<char>) -> Seq<char> {
    if last_dot(name) > 0 {
        name.take(last_dot(name))
    } else {
        name
    }
}

/// The part of a name after its last dot, unless that dot is the leading one.
pub open spec fn extension(name: Seq<char>) -> Seq<char> {
    if last_dot(name) > 0 {
        name.skip(last_dot(name) + 1)
    } else {
        Seq::empty()
    }
}

/// Splits a file name into stem and extension. A leading dot belongs to the
/// stem, so `.bashrc` has no extension, and only the final suffix counts, so
/// `archive.tar.gz` splits into `archive.tar` and `gz`.
pub fn split_extension(name: &str) -> (parts: (String, String))
    ensures
        parts.0@ == stem(name@),
        parts.1@ == extension(name@),
{
    let chars: Vec<char> = chars_of(name);
    let i: usize = after_last(&chars, '.');
    if i <= 1 {
        (name.to_owned(), String::new())
    } else {
        proof {
            assert(chars@.subrange(0, i - 1) =~= stem(name@));
            assert(chars@.subrange(i as int, chars@.len() as int) =~= extension(name@));
        }
        (text_of(&chars, 0, i - 1), text_of(&chars, i, chars.len()))
    }
}

/// The suffix of the given attempt at a name.
pub open spec fn copy_suffix(attempt: nat) -> Seq<char> {
    if attempt == 1 {
        "(copy)"@
    } else {
        "(copy "@ + text::decimal(attempt) + ")"@
    }
}

/// The name tried at the given attempt: the name itself, then the name with a
/// suffix before its extension.
pub open spec fn candidate(name: Seq<char>, attempt: nat) -> Seq<char> {
    if attempt == 0 {
        name
    } else if extension(name).len() == 0 {
        stem(name) + " "@ + copy_suffix(attempt)
    } else {
        stem(name) + " "@ + copy_suffix(attempt) + "."@ + extension(name)
    }
}

/// Whether `taken` can only say that `name` is free.
pub open spec fn surely_free<F: Fn(&str) -> bool>(taken: F, name: Seq<char>) -> bool {
    forall|s: &str, answer: bool|
        s@ == name && #[trigger] call_ensures(taken, (s,), answer) ==> !answer
}

/// Whether some candidate is sure to be free, and can be reached.
pub open spec fn some_free<F: Fn(&str) -> bool>(name: Seq<char>, taken: F) -> bool {
    exists|attempt: nat|
        attempt <= usize::MAX && #[trigger] surely_free(taken, candidate(name, attempt))
}

/// Whether `free` is the first candidate that `taken` rejected.
pub open spec fn first_free<F: Fn(&str) -> bool>(
    name: Seq<char>,
    taken: F,
    free: Seq<char>,
) -> bool {
    exists|attempt: nat|
        {
            &&& free == #[trigger] candidate(name, attempt)
            &&& text::answers(taken, free, false)
            &&& forall|earlier: nat|
                earlier < attempt ==> text::answers(
                    taken,
                    #[trigger] candidate(name, earlier),
                    true,
                )
        }
}

/// Returns a name `taken` rejects, derived from `name`.
///
/// `notas.txt` becomes `notas (copy).txt`, then `notas (copy 2).txt`. The
/// suffix goes before the final extension so the file keeps its type. Nothing
/// in this feature ever overwrites; this is how that promise is kept.
///
/// Some candidate has to be free for the search to end.
pub fn free_name(name: &str, taken: impl Fn(&str) -> bool) -> (free: String)
    requires
        forall|s: &str| #[trigger] call_requires(taken, (s,)),
        some_free(name@, taken),
    ensures
        first_free(name@, taken, free@),
{
    if !taken(name) {
        assert(candidate(name@, 0) == name@);
        return name.to_owned();
    }
    let (base, suffix): (String, String) = split_extension(name);
    let mut attempt: usize = 1;
    proof {
        assert(candidate(name@, 0) == name@);
        assert(text::answers(taken, candidate(name@, 0), true));
    }
    loop
        invariant
            attempt >= 1,
            base@ == stem(name@),
            suffix@ == extension(name@),
            forall|s: &str| #[trigger] call_requires(taken, (s,)),
            exists|attempt: nat|
                attempt <= usize::MAX && #[trigger] surely_free(taken, candidate(name@, attempt)),
            forall|earlier: nat|
                earlier < attempt ==> text::answers(taken, #[trigger] candidate(name@, earlier), true),
        decreases usize::MAX - attempt,
    {
        let mut tried: String = base.clone();
        tried.append(" ");
        if attempt == 1 {
            tried.append("(copy)");
        } else {
            tried.append("(copy ");
            tried.append(decimal_text(attempt as u64).as_str());
            tried.append(")");
        }
        if !suffix.as_str().is_empty() {
            tried.append(".");
            tried.append(suffix.as_str());
        }
        proof {
            assert(tried@ =~= candidate(name@, attempt as nat));
        }
        if !taken(tried.as_str()) {
            return tried;
        }
        proof {
            assert(text::answers(taken, candidate(name@, attempt as nat), true));
            let open = choose|k: nat|
                k <= usize::MAX && #[trigger] surely_free(taken, candidate(name@, k));
            assert(open > attempt) by {
                if open <= attempt {
                    assert(text::answers(taken, candidate(name@, open), true));
                }
            }
        }
        attempt = attempt + 1;
    }
}

/// A suffix read from one attempt is not read from another.
proof fn lemma_suffixes_differ(a: nat, b: nat)
    requires
        a >= 1,
        b >= 1,
        copy_suffix(a) == copy_suffix(b),
    ensures
        a == b,
{
    let open = "(copy "@;
    let close = ")"@;
    reveal_strlit("(copy)");
    reveal_strlit("(copy ");
    reveal_strlit(")");
    let plain = "(copy)"@;
    assert(plain[5] == ')');
    assert(open[5] == ' ');
    if a != 1 && b != 1 {
        let left = copy_suffix(a);
        let right = copy_suffix(b);
        assert(left.subrange(open.len() as int, left.len() - 1) =~= text::decimal(a));
        assert(right.subrange(open.len() as int, right.len() - 1) =~= text::decimal(b));
        text::law_decimal_tells_numbers_apart(a, b);
    } else if a != 1 {
        assert(copy_suffix(a)[5] == open[5]);
    } else if b != 1 {
        assert(copy_suffix(b)[5] == open[5]);
    }
}

/// No two attempts try the same name.
pub proof fn law_attempts_try_different_names(name: Seq<char>, a: nat, b: nat)
    requires
        candidate(name, a) == candidate(name, b),
    ensures
        a == b,
{
    text::lemma_last_position_bound(name, '.');
    reveal_strlit(" ");
    reveal_strlit(".");
    reveal_strlit("(copy)");
    reveal_strlit("(copy ");
    let before = (stem(name) + " "@).len() as int;
    let after = if extension(name).len() == 0 {
        0
    } else {
        1 + extension(name).len()
    };
    let left = candidate(name, a);
    let right = candidate(name, b);
    if a >= 1 {
        assert(left.subrange(before, left.len() - after) =~= copy_suffix(a));
        assert(left.len() > name.len());
    }
    if b >= 1 {
        assert(right.subrange(before, right.len() - after) =~= copy_suffix(b));
        assert(right.len() > name.len());
    }
    if a >= 1 && b >= 1 {
        lemma_suffixes_differ(a, b);
    }
}

/// However many names are taken, one of that many attempts and one more is
/// free.
pub proof fn law_some_attempt_is_free(name: Seq<char>, taken: Set<Seq<char>>) -> (attempt: nat)
    requires
        taken.finite(),
    ensures
        attempt <= taken.len(),
        !taken.contains(candidate(name, attempt)),
    decreases taken.len(),
{
    let last = taken.len();
    if taken.contains(candidate(name, last)) {
        let fewer = taken.remove(candidate(name, last));
        let attempt = law_some_attempt_is_free(name, fewer);
        if taken.contains(candidate(name, attempt)) {
            law_attempts_try_different_names(name, attempt, last);
        }
        attempt
    } else {
        last
    }
}

/// The suffix goes before the extension, so the file keeps its type.
pub proof fn law_a_copy_keeps_its_extension(name: Seq<char>, attempt: nat)
    requires
        extension(name).len() > 0,
    ensures
        extension(candidate(name, attempt)) == extension(name),
{
    if attempt > 0 {
        reveal_strlit(".");
        let head = stem(name) + " "@ + copy_suffix(attempt);
        let whole = candidate(name, attempt);
        text::lemma_none_after_last_position(name, '.');
        text::lemma_last_position_bound(name, '.');
        assert(whole =~= head.push('.') + extension(name));
        text::lemma_last_position_is(head, '.', extension(name));
        assert(whole.skip(head.len() as int + 1) =~= extension(name));
    }
}

/// Stem and extension are the whole name, with the dot between them where there
/// is an extension to set off.
pub proof fn law_stem_and_extension_make_the_name(name: Seq<char>)
    ensures
        last_dot(name) > 0 ==> name == stem(name).push('.') + extension(name),
        last_dot(name) <= 0 ==> name == stem(name) && extension(name).len() == 0,
{
    text::lemma_last_position_bound(name, '.');
    if last_dot(name) > 0 {
        assert(name =~= stem(name).push('.') + extension(name));
    }
}

/// A payload is the word for the operation, and then a line for each URI. A list of
/// URIs is each of them with a line break behind it.
pub proof fn law_a_payload_has_a_line_for_each_uri(
    op: ClipboardOp,
    uris: Seq<Seq<char>>,
    uri: Seq<char>,
)
    ensures
        encoded(ClipboardOp::Copy, Seq::empty()) == "copy"@,
        encoded(ClipboardOp::Cut, Seq::empty()) == "cut"@,
        encoded(op, uris.push(uri)) == encoded(op, uris) + "\n"@ + uri,
        encoded_uri_list(Seq::empty()).len() == 0,
        encoded_uri_list(uris.push(uri)) == encoded_uri_list(uris) + uri + "\r\n"@,
{
    let none = Seq::<Seq<char>>::empty();
    assert(seq!["copy"@] + none =~= seq!["copy"@]);
    assert(seq!["cut"@] + none =~= seq!["cut"@]);
    let lines = seq![operation_word(op)] + uris;
    assert(seq![operation_word(op)] + uris.push(uri) =~= lines.push(uri));
    assert(lines.push(uri).drop_last() =~= lines);
    assert(uris.push(uri).drop_last() =~= uris);
}

proof fn lemma_entries_of_lines(lines: Seq<Seq<char>>)
    requires
        lines.len() > 0,
        forall|i: int| 0 <= i < lines.len() ==> !(#[trigger] lines[i]).contains('\n'),
    ensures
        entries(text::joined(lines, "\n"@)) == lines.map_values(
            |line: Seq<char>| text::trimmed(line),
        ).filter(|line: Seq<char>| line.len() > 0),
{
    reveal_strlit("\n");
    assert("\n"@ =~= seq!['\n']);
    text::law_splitting_undoes_joining(lines, '\n');
}

/// What a payload of clean lines says: it is a file list exactly if its first line is one
/// of the two words and at least one line follows, and those lines are the URIs.
pub proof fn law_a_payload_says_what_its_lines_say(lines: Seq<Seq<char>>)
    requires
        lines.len() > 0,
        forall|i: int|
            0 <= i < lines.len() ==> {
                let line = #[trigger] lines[i];
                &&& line.len() > 0
                &&& !line.contains('\n')
                &&& !text::white_space(line[0])
                &&& !text::white_space(line[line.len() - 1])
            },
    ensures
        ({
            let parsed = decoded(text::joined(lines, "\n"@));
            &&& lines.len() >= 2 && lines[0] == "copy"@ ==> parsed == Some(
                (ClipboardOp::Copy, lines.skip(1)),
            )
            &&& lines.len() >= 2 && lines[0] == "cut"@ ==> parsed == Some(
                (ClipboardOp::Cut, lines.skip(1)),
            )
            &&& lines.len() < 2 || (lines[0] != "copy"@ && lines[0] != "cut"@) ==> parsed is None
        }),
        (forall|i: int| 0 <= i < lines.len() ==> (#[trigger] lines[i])[0] != '#')
            ==> decoded_uri_list(text::joined(lines, "\n"@)) == lines,
{
    assert forall|i: int| 0 <= i < lines.len() implies is_clean(#[trigger] lines[i]) by {
        assert(lines[i].len() > 0);
    }
    assert forall|i: int| 0 <= i < lines.len() implies !(#[trigger] lines[i]).contains('\n') by {
        assert(lines[i].len() > 0);
    }
    lemma_entries_of_lines(lines);
    lemma_clean_lines_are_kept(lines);
    lemma_words();
    if forall|i: int| 0 <= i < lines.len() ==> (#[trigger] lines[i])[0] != '#' {
        let names = |line: Seq<char>| line[0] != '#';
        assert forall|i: int| 0 <= i < lines.len() implies names(#[trigger] lines[i]) by {
            assert(lines[i][0] != '#');
        }
        lemma_all_kept(lines, names);
    }
}

proof fn lemma_one_line(before: Seq<Seq<char>>, line: Seq<char>, behind: Seq<Seq<char>>)
    requires
        !line.contains('\n'),
        forall|i: int| 0 <= i < before.len() ==> !(#[trigger] before[i]).contains('\n'),
        forall|i: int| 0 <= i < behind.len() ==> !(#[trigger] behind[i]).contains('\n'),
    ensures
        ({
            let cut = |line: Seq<char>| text::trimmed(line);
            let says = |line: Seq<char>| line.len() > 0;
            let said = if text::trimmed(line).len() > 0 {
                seq![text::trimmed(line)]
            } else {
                Seq::empty()
            };
            &&& entries(text::joined(before + seq![line] + behind, "\n"@)) == before.map_values(
                cut,
            ).filter(says) + said + behind.map_values(cut).filter(says)
            &&& before.len() + behind.len() > 0 ==> entries(
                text::joined(before + behind, "\n"@),
            ) == before.map_values(cut).filter(says) + behind.map_values(cut).filter(says)
        }),
{
    let cut = |line: Seq<char>| text::trimmed(line);
    let says = |line: Seq<char>| line.len() > 0;
    let all = before + seq![line] + behind;
    assert forall|i: int| 0 <= i < all.len() implies !(#[trigger] all[i]).contains('\n') by {
        if i < before.len() {
            assert(all[i] == before[i]);
        } else if i > before.len() {
            assert(all[i] == behind[i - before.len() - 1]);
        }
    }
    lemma_entries_of_lines(all);
    let one = seq![text::trimmed(line)];
    assert(all.map_values(cut) =~= before.map_values(cut) + one + behind.map_values(cut));
    Seq::filter_distributes_over_add(before.map_values(cut) + one, behind.map_values(cut), says);
    Seq::filter_distributes_over_add(before.map_values(cut), one, says);
    let none = Seq::<Seq<char>>::empty();
    assert(none.filter(says) =~= none) by {
        reveal(Seq::filter);
    }
    none.lemma_filter_push(text::trimmed(line), says);
    assert(none.push(text::trimmed(line)) =~= one);
    if before.len() + behind.len() > 0 {
        let rest = before + behind;
        assert forall|i: int| 0 <= i < rest.len() implies !(#[trigger] rest[i]).contains('\n') by {
            if i < before.len() {
                assert(rest[i] == before[i]);
            } else {
                assert(rest[i] == behind[i - before.len()]);
            }
        }
        lemma_entries_of_lines(rest);
        assert(rest.map_values(cut) =~= before.map_values(cut) + behind.map_values(cut));
        Seq::filter_distributes_over_add(before.map_values(cut), behind.map_values(cut), says);
    }
}

/// A line of nothing but white space does not count, wherever it stands, in a payload of
/// either kind.
pub proof fn law_blank_lines_do_not_count(
    before: Seq<Seq<char>>,
    blank: Seq<char>,
    behind: Seq<Seq<char>>,
)
    requires
        before.len() + behind.len() > 0,
        !blank.contains('\n'),
        forall|i: int| 0 <= i < blank.len() ==> text::white_space(#[trigger] blank[i]),
        forall|i: int| 0 <= i < before.len() ==> !(#[trigger] before[i]).contains('\n'),
        forall|i: int| 0 <= i < behind.len() ==> !(#[trigger] behind[i]).contains('\n'),
    ensures
        decoded(text::joined(before + seq![blank] + behind, "\n"@)) == decoded(
            text::joined(before + behind, "\n"@),
        ),
        decoded_uri_list(text::joined(before + seq![blank] + behind, "\n"@)) == decoded_uri_list(
            text::joined(before + behind, "\n"@),
        ),
{
    text::law_trimming_takes_white_space_alone(blank, Seq::empty(), Seq::empty());
    lemma_one_line(before, blank, behind);
    let with = entries(text::joined(before + seq![blank] + behind, "\n"@));
    let without = entries(text::joined(before + behind, "\n"@));
    assert(with =~= without);
}

/// White space around a line does not count, in a payload of either kind; a carriage
/// return at its end is such white space.
pub proof fn law_space_around_a_line_does_not_count(
    before: Seq<Seq<char>>,
    left: Seq<char>,
    line: Seq<char>,
    right: Seq<char>,
    behind: Seq<Seq<char>>,
)
    requires
        !(left + line + right).contains('\n'),
        !line.contains('\n'),
        forall|i: int| 0 <= i < left.len() ==> text::white_space(#[trigger] left[i]),
        forall|i: int| 0 <= i < right.len() ==> text::white_space(#[trigger] right[i]),
        forall|i: int| 0 <= i < before.len() ==> !(#[trigger] before[i]).contains('\n'),
        forall|i: int| 0 <= i < behind.len() ==> !(#[trigger] behind[i]).contains('\n'),
    ensures
        decoded(text::joined(before + seq![left + line + right] + behind, "\n"@)) == decoded(
            text::joined(before + seq![line] + behind, "\n"@),
        ),
        decoded_uri_list(text::joined(before + seq![left + line + right] + behind, "\n"@))
            == decoded_uri_list(text::joined(before + seq![line] + behind, "\n"@)),
        text::white_space('\r'),
{
    text::law_trimming_takes_white_space_alone(left, line, right);
    lemma_one_line(before, left + line + right, behind);
    lemma_one_line(before, line, behind);
}

/// A comment in a list of URIs does not count, wherever it stands.
pub proof fn law_comments_do_not_count(
    before: Seq<Seq<char>>,
    comment: Seq<char>,
    behind: Seq<Seq<char>>,
)
    requires
        before.len() + behind.len() > 0,
        comment.len() > 0,
        comment[0] == '#',
        !comment.contains('\n'),
        forall|i: int| 0 <= i < before.len() ==> !(#[trigger] before[i]).contains('\n'),
        forall|i: int| 0 <= i < behind.len() ==> !(#[trigger] behind[i]).contains('\n'),
    ensures
        decoded_uri_list(text::joined(before + seq![comment] + behind, "\n"@)) == decoded_uri_list(
            text::joined(before + behind, "\n"@),
        ),
{
    let cut = |line: Seq<char>| text::trimmed(line);
    let says = |line: Seq<char>| line.len() > 0;
    let names = |line: Seq<char>| line[0] != '#';
    lemma_one_line(before, comment, behind);
    let a = before.map_values(cut).filter(says);
    let b = behind.map_values(cut).filter(says);
    let said = text::trimmed(comment);
    lemma_trimmed_keeps_its_start(comment);
    let one = seq![said];
    Seq::filter_distributes_over_add(a + one, b, names);
    Seq::filter_distributes_over_add(a, one, names);
    Seq::filter_distributes_over_add(a, b, names);
    let none = Seq::<Seq<char>>::empty();
    assert(none.filter(names) =~= none) by {
        reveal(Seq::filter);
    }
    none.lemma_filter_push(said, names);
    assert(none.push(said) =~= one);
    assert(one.filter(names) =~= none);
    let with = entries(text::joined(before + seq![comment] + behind, "\n"@));
    let without = entries(text::joined(before + behind, "\n"@));
    assert(with == a + one + b);
    assert(without == a + b);
    assert(a.filter(names) + none + b.filter(names) =~= a.filter(names) + b.filter(names));
}

proof fn lemma_trimmed_keeps_its_start(line: Seq<char>)
    requires
        line.len() > 0,
        !text::white_space(line[0]),
    ensures
        text::trimmed(line).len() > 0,
        text::trimmed(line)[0] == line[0],
    decreases line.len(),
{
    if text::white_space(line.last()) {
        let rest = line.drop_last();
        assert(rest.len() > 0);
        lemma_trimmed_keeps_its_start(rest);
    }
}

/// What is on the clipboard is what the payload with the operation word says, if that is
/// a file list; else a copy of what the other one lists, if it lists anything; else
/// nothing.
pub proof fn law_the_operation_word_comes_first(gnome: Seq<char>, uri_list: Seq<char>)
    ensures
        decoded(gnome) is Some ==> file_clipboard(Some(gnome), Some(uri_list)) == decoded(gnome)
            && file_clipboard(Some(gnome), None) == decoded(gnome),
        decoded(gnome) is None ==> file_clipboard(Some(gnome), Some(uri_list)) == file_clipboard(
            None,
            Some(uri_list),
        ) && file_clipboard(Some(gnome), None) is None,
        decoded_uri_list(uri_list).len() > 0 ==> file_clipboard(None, Some(uri_list)) == Some(
            (ClipboardOp::Copy, decoded_uri_list(uri_list)),
        ),
        decoded_uri_list(uri_list).len() == 0 ==> file_clipboard(None, Some(uri_list)) is None,
        file_clipboard(None, None) is None,
{
}

/// A name is split at its last dot, unless that is the leading one or there is none.
pub proof fn law_a_name_is_split_at_its_last_dot(head: Seq<char>, tail: Seq<char>)
    requires
        !tail.contains('.'),
    ensures
        head.len() > 0 ==> stem(head.push('.') + tail) == head && extension(head.push('.') + tail)
            == tail,
        stem(seq!['.'] + tail) == seq!['.'] + tail,
        extension(seq!['.'] + tail).len() == 0,
        stem(tail) == tail,
        extension(tail).len() == 0,
{
    let name = head.push('.') + tail;
    text::lemma_last_position_is(head, '.', tail);
    if head.len() > 0 {
        assert(name.take(head.len() as int) =~= head);
        assert(name.skip(head.len() as int + 1) =~= tail);
    }
    let none = Seq::<char>::empty();
    text::lemma_last_position_is(none, '.', tail);
    assert(none.push('.') + tail =~= seq!['.'] + tail);
    text::law_the_last_position_is_the_last(tail, '.', 0);
}

/// The names that are tried: the name itself, then the name with `(copy)` before its
/// extension, and then with `(copy 2)`, `(copy 3)` and so on.
pub proof fn law_copies_are_numbered(head: Seq<char>, tail: Seq<char>, attempt: nat)
    requires
        head.len() > 0,
        !tail.contains('.'),
        attempt >= 2,
    ensures
        ({
            let name = head.push('.') + tail;
            &&& candidate(name, 0) == name
            &&& tail.len() > 0 ==> candidate(name, 1) == head + " (copy)."@ + tail
            &&& tail.len() > 0 ==> candidate(name, attempt) == head + " (copy "@ + text::decimal(
                attempt,
            ) + ")."@ + tail
            &&& tail.len() == 0 ==> candidate(name, 1) == head + " (copy)"@
            &&& tail.len() == 0 ==> candidate(name, attempt) == head + " (copy "@ + text::decimal(
                attempt,
            ) + ")"@
        }),
        candidate(tail, 0) == tail,
        candidate(tail, 1) == tail + " (copy)"@,
        candidate(tail, attempt) == tail + " (copy "@ + text::decimal(attempt) + ")"@,
        candidate(seq!['.'] + tail, 0) == seq!['.'] + tail,
        candidate(seq!['.'] + tail, 1) == seq!['.'] + tail + " (copy)"@,
        candidate(seq!['.'] + tail, attempt) == seq!['.'] + tail + " (copy "@ + text::decimal(
            attempt,
        ) + ")"@,
{
    law_a_name_is_split_at_its_last_dot(head, tail);
    reveal_strlit(" ");
    reveal_strlit(".");
    reveal_strlit("(copy)");
    reveal_strlit("(copy ");
    reveal_strlit(")");
    reveal_strlit(" (copy)");
    reveal_strlit(" (copy).");
    reveal_strlit(" (copy ");
    reveal_strlit(").");
    let name = head.push('.') + tail;
    let hidden = seq!['.'] + tail;
    let number = text::decimal(attempt);
    assert(" "@ + "(copy)"@ =~= " (copy)"@);
    assert(" "@ + "(copy "@ =~= " (copy "@);
    if tail.len() > 0 {
        assert(candidate(name, 1) =~= head + " (copy)."@ + tail);
        assert(candidate(name, attempt) =~= head + " (copy "@ + number + ")."@ + tail);
    } else {
        assert(candidate(name, 1) =~= head + " (copy)"@);
        assert(candidate(name, attempt) =~= head + " (copy "@ + number + ")"@);
    }
    assert(candidate(tail, 1) =~= tail + " (copy)"@);
    assert(candidate(tail, attempt) =~= tail + " (copy "@ + number + ")"@);
    assert(candidate(hidden, 1) =~= hidden + " (copy)"@);
    assert(candidate(hidden, attempt) =~= hidden + " (copy "@ + number + ")"@);
}

/// The name that is settled on is free, and every one that was tried before it is not.
/// A name that is free itself is kept.
pub proof fn law_the_first_free_name_is_settled_on<F: Fn(&str) -> bool>(
    name: Seq<char>,
    taken: F,
    truth: spec_fn(Seq<char>) -> bool,
    free: Seq<char>,
) -> (attempt: nat)
    requires
        first_free(name, taken, free),
        forall|s: &str| #[trigger] call_ensures(taken, (s,), true) ==> truth(s@),
        forall|s: &str| #[trigger] call_ensures(taken, (s,), false) ==> !truth(s@),
    ensures
        free == candidate(name, attempt),
        !truth(free),
        forall|earlier: nat| earlier < attempt ==> truth(#[trigger] candidate(name, earlier)),
        !truth(name) ==> free == name,
{
    let attempt = choose|attempt: nat|
        {
            &&& free == #[trigger] candidate(name, attempt)
            &&& text::answers(taken, free, false)
            &&& forall|earlier: nat|
                earlier < attempt ==> text::answers(
                    taken,
                    #[trigger] candidate(name, earlier),
                    true,
                )
        };
    assert forall|earlier: nat| earlier < attempt implies truth(
        #[trigger] candidate(name, earlier),
    ) by {
        assert(text::answers(taken, candidate(name, earlier), true));
    }
    assert(candidate(name, 0) == name);
    attempt
}

} // verus!
