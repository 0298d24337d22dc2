//! Pure path shortening and markup for the window title.
//!
//! Ranger's trick: when the path outgrows the bar, ancestor names collapse to
//! their initial from the left, so `~/projects/software/dev/fm/src` becomes
//! `~/p/s/d/fm/src`. The directory the cursor is in is never abbreviated.

use crate::path;
use crate::path::{components_of, join};
use crate::text;
use crate::text::{after_last, chars_of, same, starts_with, text_of};
use vstd::prelude::*;

verus! {

/// What stands for the home directory.
pub open spec fn tilde() -> Seq<char> {
    seq!['~']
}

/// The segments the title shows for `path`: its components, with those of the
/// home directory, if it starts with them, as one `~`.
pub open spec fn shown(path: Seq<char>, home: Option<&str>) -> Seq<Seq<char>> {
    let parts = path::components(path);
    match home {
        Some(home) => if path::components(home@).is_prefix_of(parts) {
            seq![tilde()] + parts.skip(path::components(home@).len() as int)
        } else {
            parts
        },
        None => parts,
    }
}

/// Splits `path` into the segments the title shows, replacing a `home` prefix
/// with `~`.
pub fn segments(path: &str, home: Option<&str>) -> (out: Vec<String>)
    ensures
        text::texts(out@) == shown(path@, home),
{
    let parts: Vec<String> = components_of(path);
    if let Some(home) = home {
        let prefix: Vec<String> = components_of(home);
        if starts_with(&parts, &prefix) {
            let ghost all = text::texts(parts@);
            let mut out: Vec<String> = Vec::new();
            let mark: String = "~".to_owned();
            out.push(mark);
            let mut i: usize = prefix.len();
            proof {
                reveal_strlit("~");
                assert("~"@ =~= tilde());
                assert(all.subrange(prefix@.len() as int, i as int) =~= Seq::<Seq<char>>::empty());
                assert(text::texts(out@) =~= seq![tilde()]);
                assert(text::texts(out@) =~= seq![tilde()] + all.subrange(
                    prefix@.len() as int,
                    i as int,
                ));
            }
            while i < parts.len()
                invariant
                    prefix@.len() <= i <= parts@.len(),
                    all == text::texts(parts@),
                    text::texts(out@) == seq![tilde()] + all.subrange(
                        prefix@.len() as int,
                        i as int,
                    ),
                decreases parts.len() - i,
            {
                proof {
                    text::lemma_texts_push(out@, parts@[i as int]);
                    assert(all[i as int] == parts@[i as int]@);
                    assert((seq![tilde()] + all.subrange(prefix@.len() as int, i as int)).push(
                        all[i as int],
                    ) =~= seq![tilde()] + all.subrange(prefix@.len() as int, i + 1));
                }
                out.push(parts[i].clone());
                i = i + 1;
            }
            proof {
                assert(all.subrange(prefix@.len() as int, i as int) =~= all.skip(
                    prefix@.len() as int,
                ));
                assert(text::texts(prefix@).len() == prefix@.len());
            }
            return out;
        }
    }
    parts
}

/// First character of a directory name, keeping the leading dot of hidden
/// directories: `.config` becomes `.c`.
pub open spec fn abbreviation(name: Seq<char>) -> Seq<char> {
    let kept: int = if name.len() > 0 && name[0] == '.' {
        2
    } else {
        1
    };
    if name.len() <= kept {
        name
    } else {
        name.take(kept)
    }
}

/// First character of a directory name, keeping the leading dot of hidden
/// directories: `.config` becomes `.c`.
pub fn initial(name: &str) -> (out: String)
    ensures
        out@ == abbreviation(name@),
{
    let chars: Vec<char> = chars_of(name);
    let kept: usize = if chars.len() > 0 && chars[0] == '.' {
        2
    } else {
        1
    };
    let to: usize = if chars.len() < kept {
        chars.len()
    } else {
        kept
    };
    proof {
        assert(chars@.subrange(0, to as int) =~= abbreviation(chars@));
    }
    text_of(&chars, 0, to)
}

/// Whether a segment at the front is kept as it is: `~` and `/` are.
pub open spec fn stays(segment: Seq<char>) -> bool {
    segment == tilde() || segment == seq!['/']
}

/// The segments with the first `count` ancestors abbreviated. The last segment
/// and a leading `~` or `/` never are.
pub open spec fn abbreviated(segments: Seq<Seq<char>>, count: nat) -> Seq<Seq<char>> {
    Seq::new(
        segments.len(),
        |i: int|
            if i < count && i < segments.len() - 1 && !(i == 0 && stays(segments[0])) {
                abbreviation(segments[i])
            } else {
                segments[i]
            },
    )
}

/// The title with the first `count` ancestors abbreviated.
pub open spec fn title(segments: Seq<Seq<char>>, count: nat) -> Seq<char> {
    path::spelled(abbreviated(segments, count))
}

/// How many ancestors there are to abbreviate.
pub open spec fn ancestors(segments: Seq<Seq<char>>) -> nat {
    if segments.len() == 0 {
        0
    } else {
        (segments.len() - 1) as nat
    }
}

/// Whether abbreviating `count` ancestors is what asking `fits` leads to: every
/// longer title was refused, and this one was accepted or is the shortest.
pub open spec fn settled<F: Fn(&str) -> bool>(
    segments: Seq<Seq<char>>,
    fits: F,
    count: nat,
) -> bool {
    &&& count <= ancestors(segments)
    &&& forall|longer: nat|
        longer < count ==> text::answers(fits, #[trigger] title(segments, longer), false)
    &&& text::answers(fits, title(segments, count), true) || (count == ancestors(segments)
        && text::answers(fits, title(segments, count), false))
}

/// Shortens from the left until `fits` accepts the result. The last segment and
/// a leading `~` or `/` are never abbreviated; if nothing fits even fully
/// abbreviated, the caller's label ellipsises what is left.
pub fn shorten(segments: &[String], fits: impl Fn(&str) -> bool) -> (out: String)
    requires
        forall|s: &str| call_requires(fits, (s,)),
    ensures
        exists|count: nat|
            #[trigger] settled(text::texts(segments@), fits, count) && out@ == title(
                text::texts(segments@),
                count,
            ),
{
    let ghost all = text::texts(segments@);
    let mut shortened: Vec<String> = Vec::new();
    let mut i: usize = 0;
    while i < segments.len()
        invariant
            i <= segments@.len(),
            all == text::texts(segments@),
            text::texts(shortened@) == all.take(i as int),
        decreases segments.len() - i,
    {
        proof {
            text::lemma_texts_push(shortened@, segments@[i as int]);
            assert(all.take(i + 1) =~= all.take(i as int).push(all[i as int]));
        }
        shortened.push(segments[i].clone());
        i = i + 1;
    }
    let mut candidate: String = join(shortened.as_slice());
    proof {
        assert(all.take(i as int) =~= all);
        assert(abbreviated(all, 0) =~= all);
        assert(candidate@ == title(all, 0));
    }
    let accepted: bool = fits(candidate.as_str());
    assert(text::answers(fits, title(all, 0), accepted));
    if accepted || shortened.len() == 0 {
        assert(settled(all, fits, 0));
        return candidate;
    }
    let last: usize = shortened.len() - 1;
    let mut index: usize = 0;
    while index < last
        invariant
            index <= last,
            last == ancestors(all),
            shortened@.len() == last + 1,
            segments@.len() == last + 1,
            all == text::texts(segments@),
            text::texts(shortened@) == abbreviated(all, index as nat),
            candidate@ == title(all, index as nat),
            forall|s: &str| call_requires(fits, (s,)),
            forall|longer: nat|
                longer <= index ==> text::answers(fits, #[trigger] title(all, longer), false),
        decreases last - index,
    {
        let ghost before = text::texts(shortened@);
        proof {
            reveal_strlit("~");
            reveal_strlit("/");
            assert("~"@ =~= tilde());
            assert("/"@ =~= seq!['/']);
            assert(before[0] == shortened@[0]@);
            assert(before[index as int] == shortened@[index as int]@);
        }
        if index == 0 && (same(&shortened[0], "/") || same(&shortened[0], "~")) {
            proof {
                assert(abbreviated(all, 1) =~= abbreviated(all, 0));
            }
        } else {
            let short: String = initial(shortened[index].as_str());
            shortened.set(index, short);
            proof {
                assert(text::texts(shortened@) =~= before.update(index as int, short@));
                assert(text::texts(shortened@) =~= abbreviated(all, (index + 1) as nat));
            }
            candidate = join(shortened.as_slice());
            let accepted: bool = fits(candidate.as_str());
            assert(text::answers(fits, title(all, (index + 1) as nat), accepted));
            if accepted {
                assert(settled(all, fits, (index + 1) as nat));
                return candidate;
            }
        }
        index = index + 1;
    }
    assert(settled(all, fits, index as nat));
    candidate
}

/// A character as markup shows it: the three that Pango treats as syntax are
/// written as entities.
pub open spec fn entity(c: char) -> Seq<char> {
    if c == '&' {
        seq!['&', 'a', 'm', 'p', ';']
    } else if c == '<' {
        seq!['&', 'l', 't', ';']
    } else if c == '>' {
        seq!['&', 'g', 't', ';']
    } else {
        seq![c]
    }
}

/// A text as markup shows it.
pub open spec fn escaped(text: Seq<char>) -> Seq<char>
    decreases text.len(),
{
    if text.len() == 0 {
        Seq::empty()
    } else {
        entity(text[0]) + escaped(text.drop_first())
    }
}

/// Escaping a text and what follows it is done piece by piece.
pub proof fn law_escaping_is_done_piece_by_piece(a: Seq<char>, b: Seq<char>)
    ensures
        escaped(a + b) == escaped(a) + escaped(b),
    decreases a.len(),
{
    if a.len() == 0 {
        assert(a + b =~= b);
        assert(escaped(a) + escaped(b) =~= escaped(b));
    } else {
        assert((a + b).drop_first() =~= a.drop_first() + b);
        law_escaping_is_done_piece_by_piece(a.drop_first(), b);
        assert(entity(a[0]) + (escaped(a.drop_first()) + escaped(b)) =~= escaped(a) + escaped(b));
    }
}

/// Escapes the three characters Pango markup treats as syntax.
fn escape(text: &str) -> (out: String)
    ensures
        out@ == escaped(text@),
{
    let chars: Vec<char> = chars_of(text);
    let mut out: String = String::new();
    let mut i: usize = 0;
    proof {
        assert(chars@.take(0) =~= Seq::<char>::empty());
    }
    while i < chars.len()
        invariant
            i <= chars@.len(),
            out@ == escaped(chars@.take(i as int)),
        decreases chars.len() - i,
    {
        let c: char = chars[i];
        proof {
            assert(chars@.take(i + 1) =~= chars@.take(i as int) + seq![c]);
            law_escaping_is_done_piece_by_piece(chars@.take(i as int), seq![c]);
            assert(seq![c].drop_first() =~= Seq::<char>::empty());
            assert(escaped(Seq::<char>::empty()) =~= Seq::<char>::empty());
            assert(escaped(seq![c]) =~= entity(c));
            reveal_strlit("&amp;");
            reveal_strlit("&lt;");
            reveal_strlit("&gt;");
            assert("&amp;"@ =~= entity('&'));
            assert("&lt;"@ =~= entity('<'));
            assert("&gt;"@ =~= entity('>'));
        }
        if c == '&' {
            out.append("&amp;");
        } else if c == '<' {
            out.append("&lt;");
        } else if c == '>' {
            out.append("&gt;");
        } else {
            assert(out@.push(c) =~= out@ + entity(c));
            out.push(c);
        }
        i = i + 1;
    }
    proof {
        assert(chars@.take(i as int) =~= chars@);
    }
    out
}

/// The directories a path goes through: what stands before its last `/`.
pub open spec fn before_current(path: Seq<char>) -> Seq<char> {
    path.take(text::last_position(path, '/'))
}

/// The directory a path ends in: what stands behind its last `/`.
pub open spec fn current(path: Seq<char>) -> Seq<char> {
    path.skip(text::last_position(path, '/') + 1)
}

/// Pango markup for `path`: ancestors dimmed, the current directory emphasised.
pub open spec fn marked_up(path: Seq<char>) -> Seq<char> {
    if text::last_position(path, '/') < 0 {
        "<b>"@ + escaped(path) + "</b>"@
    } else {
        "<span alpha=\"55%\">"@ + escaped(before_current(path)) + "/</span><b>"@ + escaped(
            current(path),
        ) + "</b>"@
    }
}

/// Pango markup for `path`: ancestors dimmed, the current directory emphasised.
pub fn markup(path: &str) -> (out: String)
    ensures
        out@ == marked_up(path@),
{
    let chars: Vec<char> = chars_of(path);
    let after: usize = after_last(&chars, '/');
    if after == 0 {
        let mut out: String = "<b>".to_owned();
        out.append(escape(path).as_str());
        out.append("</b>");
        return out;
    }
    let ancestors: String = text_of(&chars, 0, after - 1);
    let name: String = text_of(&chars, after, chars.len());
    proof {
        assert(ancestors@ =~= before_current(path@));
        assert(name@ =~= current(path@));
    }
    let mut out: String = "<span alpha=\"55%\">".to_owned();
    out.append(escape(ancestors.as_str()).as_str());
    out.append("/</span><b>");
    out.append(escape(name.as_str()).as_str());
    out.append("</b>");
    out
}

/// However many ancestors are abbreviated, the directory the cursor is in stays
/// whole, and so does a leading `~` or `/`.
pub proof fn law_the_current_directory_is_never_abbreviated(segments: Seq<Seq<char>>, count: nat)
    requires
        segments.len() > 0,
    ensures
        abbreviated(segments, count).len() == segments.len(),
        abbreviated(segments, count).last() == segments.last(),
        stays(segments[0]) ==> abbreviated(segments, count)[0] == segments[0],
{
}

proof fn lemma_joined_is_shorter(
    a: Seq<Seq<char>>,
    b: Seq<Seq<char>>,
    separator: Seq<char>,
)
    requires
        a.len() == b.len(),
        forall|i: int| 0 <= i < a.len() ==> (#[trigger] a[i]).len() <= b[i].len(),
    ensures
        text::joined(a, separator).len() <= text::joined(b, separator).len(),
    decreases a.len(),
{
    if a.len() > 1 {
        lemma_joined_is_shorter(a.drop_last(), b.drop_last(), separator);
        assert(a[a.len() - 1].len() <= b[b.len() - 1].len());
    }
}

proof fn lemma_joined_holds_its_tail(a: Seq<Seq<char>>, separator: Seq<char>)
    requires
        a.len() > 0,
    ensures
        text::joined(a, separator).len() >= a[0].len() + text::joined(a.skip(1), separator).len(),
    decreases a.len(),
{
    if a.len() == 2 {
        assert(a.drop_last() =~= seq![a[0]]);
        assert(a.skip(1) =~= seq![a[1]]);
        lemma_joined_holds_its_tail(a.drop_last(), separator);
    } else if a.len() > 2 {
        lemma_joined_holds_its_tail(a.drop_last(), separator);
        assert(a.skip(1).drop_last() =~= a.drop_last().skip(1));
    }
}

/// Abbreviating more ancestors never makes the title longer.
pub proof fn law_abbreviating_never_lengthens(segments: Seq<Seq<char>>, less: nat, more: nat)
    requires
        less <= more,
    ensures
        title(segments, more).len() <= title(segments, less).len(),
{
    let a = abbreviated(segments, more);
    let b = abbreviated(segments, less);
    if segments.len() == 0 {
        assert(a =~= b);
    } else if b[0] == seq!['/'] {
        lemma_joined_is_shorter(a.skip(1), b.skip(1), seq!['/']);
    } else {
        lemma_joined_is_shorter(a, b, seq!['/']);
        lemma_joined_holds_its_tail(a, seq!['/']);
    }
}

proof fn lemma_escaped_starts(text: Seq<char>)
    requires
        text.len() > 0,
    ensures
        escaped(text).len() > 0,
        escaped(text)[0] == entity(text[0])[0],
        entity(text[0]).len() > 1 ==> escaped(text)[1] == entity(text[0])[1],
        escaped(text).skip(entity(text[0]).len() as int) == escaped(text.drop_first()),
{
    let rest = escaped(text.drop_first());
    assert((entity(text[0]) + rest).skip(entity(text[0]).len() as int) =~= rest);
}

/// Escaping loses nothing: different texts are shown differently.
pub proof fn law_escaping_tells_texts_apart(a: Seq<char>, b: Seq<char>)
    requires
        escaped(a) == escaped(b),
    ensures
        a == b,
    decreases a.len(),
{
    if a.len() == 0 {
        if b.len() > 0 {
            lemma_escaped_starts(b);
        }
    } else {
        lemma_escaped_starts(a);
        if b.len() > 0 {
            lemma_escaped_starts(b);
            assert(a[0] == b[0]);
            law_escaping_tells_texts_apart(a.drop_first(), b.drop_first());
            assert(seq![a[0]] + a.drop_first() =~= a);
            assert(seq![b[0]] + b.drop_first() =~= b);
        }
    }
    assert(a =~= b);
}

/// An escaped text holds no `<` and no `>`, so it can neither open nor close an
/// element of the markup around it.
pub proof fn law_an_escaped_text_is_no_markup(text: Seq<char>)
    ensures
        !escaped(text).contains('<'),
        !escaped(text).contains('>'),
    decreases text.len(),
{
    if text.len() > 0 {
        law_an_escaped_text_is_no_markup(text.drop_first());
        let rest = escaped(text.drop_first());
        let first = entity(text[0]);
        assert forall|i: int| 0 <= i < escaped(text).len() implies escaped(text)[i] != '<'
            && escaped(text)[i] != '>' by {
            if i >= first.len() {
                assert(escaped(text)[i] == rest[i - first.len()]);
                assert(rest.contains(rest[i - first.len()]));
            }
        }
    }
}

/// The dimmed and the emphasised part are the whole path, cut at the separator
/// before the current directory, whose name holds no other.
pub proof fn law_markup_shows_the_whole_path(path: Seq<char>)
    ensures
        text::last_position(path, '/') < 0 ==> !path.contains('/'),
        text::last_position(path, '/') >= 0 ==> path == before_current(path).push('/') + current(
            path,
        ) && !current(path).contains('/'),
{
    text::lemma_last_position_bound(path, '/');
    text::lemma_none_after_last_position(path, '/');
    if text::last_position(path, '/') < 0 {
        assert(path.skip(0) =~= path);
    } else {
        assert(path =~= before_current(path).push('/') + current(path));
    }
}

/// A path in the home directory is shown with one `~` for all of it, and every other
/// path as it is.
pub proof fn law_home_is_shown_as_a_tilde(
    path: Seq<char>,
    home: &str,
    rest: Seq<Seq<char>>,
    i: int,
)
    ensures
        shown(path, None) == path::components(path),
        path::components(path) == path::components(home@) + rest ==> shown(path, Some(home))
            == seq![seq!['~']] + rest,
        path::components(path).len() < path::components(home@).len() ==> shown(path, Some(home))
            == path::components(path),
        0 <= i < path::components(path).len() && i < path::components(home@).len()
            && path::components(path)[i] != path::components(home@)[i] ==> shown(path, Some(home))
            == path::components(path),
{
    let prefix = path::components(home@);
    let parts = path::components(path);
    if parts == prefix + rest {
        assert(prefix.is_prefix_of(parts));
        assert(parts.skip(prefix.len() as int) =~= rest);
    }
    if prefix.is_prefix_of(parts) && 0 <= i < parts.len() && i < prefix.len() {
        assert(parts.take(prefix.len() as int)[i] == parts[i]);
    }
}

/// A name is abbreviated to its first character, or to its first two if that is a dot.
pub proof fn law_an_initial_keeps_the_dot(c: char, rest: Seq<char>)
    requires
        c != '.',
    ensures
        abbreviation(seq![c] + rest) == seq![c],
        abbreviation(seq!['.', c] + rest) == seq!['.', c],
        abbreviation(seq!['.', '.'] + rest) == seq!['.', '.'],
        abbreviation(seq!['.']) == seq!['.'],
        abbreviation(Seq::empty()).len() == 0,
{
    let plain = seq![c] + rest;
    let hidden = seq!['.', c] + rest;
    let dots = seq!['.', '.'] + rest;
    assert(plain[0] == c);
    assert(hidden[0] == '.');
    assert(dots[0] == '.');
    assert(plain.take(1) =~= seq![c]);
    assert(hidden.take(2) =~= seq!['.', c]);
    assert(dots.take(2) =~= seq!['.', '.']);
    if rest.len() == 0 {
        assert(plain =~= seq![c]);
        assert(hidden =~= seq!['.', c]);
        assert(dots =~= seq!['.', '.']);
    }
}

/// It is the first so many segments that are abbreviated, but never the last and
/// neither a leading `~` nor a leading `/`; the others stay as they are.
pub proof fn law_segments_are_abbreviated_from_the_left(
    segments: Seq<Seq<char>>,
    count: nat,
    i: int,
)
    requires
        0 <= i < segments.len(),
    ensures
        abbreviated(segments, count).len() == segments.len(),
        i < count && i + 1 < segments.len() && (i > 0 || (segments[i] != seq!['~'] && segments[i]
            != seq!['/'])) ==> abbreviated(segments, count)[i] == abbreviation(segments[i]),
        i >= count || i + 1 == segments.len() ==> abbreviated(segments, count)[i] == segments[i],
        i == 0 && (segments[i] == seq!['~'] || segments[i] == seq!['/']) ==> abbreviated(
            segments,
            count,
        )[i] == segments[i],
        ancestors(segments) + 1 == segments.len(),
        title(segments, count) == path::spelled(abbreviated(segments, count)),
        title(segments, 0) == path::spelled(segments),
{
    assert(abbreviated(segments, 0) =~= segments);
}

/// If a title fits exactly where it is not too long, the one that is settled for is the
/// longest that fits, or the shortest there is if none does.
pub proof fn law_the_longest_title_that_fits_is_taken<F: Fn(&str) -> bool>(
    segments: Seq<Seq<char>>,
    fits: F,
    width: nat,
    count: nat,
    other: nat,
)
    requires
        settled(segments, fits, count),
        forall|s: &str| #[trigger] call_ensures(fits, (s,), true) ==> s@.len() <= width,
        forall|s: &str| #[trigger] call_ensures(fits, (s,), false) ==> s@.len() > width,
    ensures
        other < count ==> title(segments, other).len() > width,
        title(segments, count).len() <= width || segments.len() == count + 1 || segments.len() == 0,
{
    if other < count {
        assert(text::answers(fits, title(segments, other), false));
    }
}

/// The three characters that markup treats as syntax are written as entities, and every
/// other one as it is.
pub proof fn law_three_characters_are_escaped(c: char)
    requires
        c != '&',
        c != '<',
        c != '>',
    ensures
        escaped(Seq::empty()).len() == 0,
        escaped(seq!['&']) == "&amp;"@,
        escaped(seq!['<']) == "&lt;"@,
        escaped(seq!['>']) == "&gt;"@,
        escaped(seq![c]) == seq![c],
{
    let none = Seq::<char>::empty();
    reveal_strlit("&amp;");
    reveal_strlit("&lt;");
    reveal_strlit("&gt;");
    assert(escaped(none) =~= none);
    assert(seq!['&'].drop_first() =~= none);
    assert(seq!['<'].drop_first() =~= none);
    assert(seq!['>'].drop_first() =~= none);
    assert(seq![c].drop_first() =~= none);
    assert(escaped(seq!['&']) =~= "&amp;"@);
    assert(escaped(seq!['<']) =~= "&lt;"@);
    assert(escaped(seq!['>']) =~= "&gt;"@);
    assert(escaped(seq![c]) =~= seq![c]);
}

/// What stands before the last separator is dimmed, with the separator, and what stands
/// behind it is emphasised, which is everything if there is none.
pub proof fn law_the_last_name_is_emphasised(before: Seq<char>, name: Seq<char>)
    requires
        !name.contains('/'),
    ensures
        marked_up(before.push('/') + name) == "<span alpha=\"55%\">"@ + escaped(before)
            + "/</span><b>"@ + escaped(name) + "</b>"@,
        marked_up(name) == "<b>"@ + escaped(name) + "</b>"@,
{
    let path = before.push('/') + name;
    text::lemma_last_position_is(before, '/', name);
    assert(path.take(before.len() as int) =~= before);
    assert(path.skip(before.len() as int + 1) =~= name);
    text::law_the_last_position_is_the_last(name, '/', 0);
}

} // verus!
