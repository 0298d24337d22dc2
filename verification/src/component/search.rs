//! Finding a search term in entry names, without regard to the case of ASCII
//! letters.

use crate::text::chars_of;
use vstd::prelude::*;
use vstd::utf8::*;

verus! {

/// A character with its ASCII case folded away.
pub open spec fn folded_char(c: char) -> char {
    if 'A' <= c <= 'Z' {
        (c as u32 + 32) as char
    } else {
        c
    }
}

/// A text with its ASCII case folded away.
pub open spec fn folded(text: Seq<char>) -> Seq<char> {
    text.map_values(|c: char| folded_char(c))
}

/// Whether `term` stands in `text` at `at`.
pub open spec fn occurs_at(text: Seq<char>, term: Seq<char>, at: int) -> bool {
    0 <= at && at + term.len() <= text.len() && text.subrange(at, at + term.len()) == term
}

/// Whether `name` matches the search term: it holds it, in whatever case. The
/// empty term matches nothing.
pub open spec fn matched(name: Seq<char>, term: Seq<char>) -> bool {
    term.len() > 0 && exists|at: int| occurs_at(folded(name), folded(term), at)
}

/// The characters of `text` with their ASCII case folded away.
pub fn fold(text: &str) -> (out: Vec<char>)
    ensures
        out@ == folded(text@),
{
    let chars: Vec<char> = chars_of(text);
    let mut out: Vec<char> = Vec::new();
    let mut i: usize = 0;
    while i < chars.len()
        invariant
            i <= chars@.len(),
            chars@ == text@,
            out@.len() == i,
            forall|j: int| 0 <= j < i ==> out@[j] == folded_char(#[trigger] chars@[j]),
        decreases chars.len() - i,
    {
        let c: char = chars[i];
        if 'A' <= c && c <= 'Z' {
            out.push((c as u8 + 32) as char);
        } else {
            out.push(c);
        }
        i = i + 1;
    }
    assert(out@ =~= folded(text@));
    out
}

/// Whether `term` stands in `text` at `at`.
fn stands_at(text: &Vec<char>, term: &Vec<char>, at: usize) -> (out: bool)
    requires
        at <= text@.len(),
    ensures
        out == occurs_at(text@, term@, at as int),
{
    if term.len() > text.len() - at {
        return false;
    }
    let ghost there = text@.subrange(at as int, at + term@.len());
    let mut i: usize = 0;
    while i < term.len()
        invariant
            i <= term@.len(),
            at + term@.len() <= text.len(),
            there == text@.subrange(at as int, at + term@.len()),
            forall|j: int| 0 <= j < i ==> there[j] == term@[j],
        decreases term.len() - i,
    {
        assert(there[i as int] == text@[at + i]);
        if text[at + i] != term[i] {
            return false;
        }
        i = i + 1;
    }
    assert(there =~= term@);
    true
}

/// Whether `name` matches the search term.
pub fn is_match(name: &str, term: &str) -> (out: bool)
    ensures
        out == matched(name@, term@),
{
    let text: Vec<char> = fold(name);
    let wanted: Vec<char> = fold(term);
    if wanted.len() == 0 {
        return false;
    }
    let mut at: usize = 0;
    while at < text.len()
        invariant
            at <= text@.len(),
            text@ == folded(name@),
            wanted@ == folded(term@),
            wanted@.len() > 0,
            forall|j: int| 0 <= j < at ==> !occurs_at(text@, wanted@, j),
        decreases text.len() - at,
    {
        if stands_at(&text, &wanted, at) {
            return true;
        }
        at = at + 1;
    }
    false
}

/// Where `term` stands in `text` from `from` on, read from left to right and
/// starting anew behind each occurrence.
pub open spec fn occurrences(text: Seq<char>, term: Seq<char>, from: int) -> Seq<int>
    decreases text.len() - from,
{
    if term.len() == 0 || from >= text.len() {
        Seq::empty()
    } else if occurs_at(text, term, from) {
        seq![from] + occurrences(text, term, from + term.len())
    } else {
        occurrences(text, term, from + 1)
    }
}

/// A stretch of bytes: from `start` up to, not including, `end`.
#[derive(Debug, Clone, Copy, PartialEq, Eq, Structural)]
pub struct Span {
    pub start: usize,
    pub end: usize,
}

/// How many bytes the first `count` characters of a text take in UTF-8.
pub open spec fn offset(text: Seq<char>, count: int) -> int {
    encode_utf8(text.take(count)).len() as int
}

/// What is highlighted in `name`: the bytes of each occurrence of the search
/// term.
pub open spec fn highlighted(name: Seq<char>, term: Seq<char>) -> Seq<Span> {
    occurrences(folded(name), folded(term), 0).map_values(
        |at: int|
            Span {
                start: offset(name, at) as usize,
                end: offset(name, at + term.len()) as usize,
            },
    )
}

/// What is encoded one after the other is encoded together.
proof fn lemma_encoding_is_done_piece_by_piece(a: Seq<char>, b: Seq<char>)
    ensures
        encode_utf8(a + b) == encode_utf8(a) + encode_utf8(b),
    decreases a.len(),
{
    if a.len() == 0 {
        assert(a + b =~= b);
        assert(encode_utf8(a) + encode_utf8(b) =~= encode_utf8(b));
    } else {
        assert((a + b).drop_first() =~= a.drop_first() + b);
        lemma_encoding_is_done_piece_by_piece(a.drop_first(), b);
        let first = encode_scalar(a[0] as u32);
        assert(first + (encode_utf8(a.drop_first()) + encode_utf8(b)) =~= encode_utf8(a)
            + encode_utf8(b));
    }
}

proof fn lemma_offset_step(text: Seq<char>, count: int)
    requires
        0 <= count < text.len(),
    ensures
        offset(text, count + 1) == offset(text, count) + encode_scalar(text[count] as u32).len(),
{
    let c = text[count];
    assert(text.take(count + 1) =~= text.take(count) + seq![c]);
    lemma_encoding_is_done_piece_by_piece(text.take(count), seq![c]);
    assert(seq![c].drop_first() =~= Seq::<char>::empty());
    assert(encode_utf8(Seq::<char>::empty()).len() == 0);
}

proof fn lemma_offset_bound(text: Seq<char>, count: int)
    requires
        0 <= count <= text.len(),
    ensures
        offset(text, count) <= encode_utf8(text).len(),
{
    assert(text =~= text.take(count) + text.skip(count));
    lemma_encoding_is_done_piece_by_piece(text.take(count), text.skip(count));
}

/// How many bytes a character takes in UTF-8.
fn width(c: char) -> (out: usize)
    ensures
        out == encode_scalar(c as u32).len(),
        1 <= out <= 4,
{
    let n: u32 = c as u32;
    if n < 0x80 {
        1
    } else if n < 0x800 {
        2
    } else if n < 0x10000 {
        3
    } else {
        4
    }
}

/// How many bytes the characters of a text up to each position take, and after
/// them how many the whole text takes.
fn offsets(text: &str) -> (out: Vec<usize>)
    ensures
        out@.len() == text@.len() + 1,
        forall|i: int| 0 <= i <= text@.len() ==> #[trigger] out@[i] == offset(text@, i),
{
    let chars: Vec<char> = chars_of(text);
    let bytes: &[u8] = text.as_bytes();
    let mut out: Vec<usize> = Vec::new();
    out.push(0);
    let mut i: usize = 0;
    assert(text@.take(0) =~= Seq::<char>::empty());
    while i < chars.len()
        invariant
            i <= chars@.len(),
            chars@ == text@,
            bytes.len() == encode_utf8(text@).len(),
            out@.len() == i + 1,
            forall|j: int| 0 <= j <= i ==> #[trigger] out@[j] == offset(text@, j),
        decreases chars.len() - i,
    {
        proof {
            lemma_offset_step(text@, i as int);
            lemma_offset_bound(text@, i + 1);
        }
        let here: usize = out[i] + width(chars[i]);
        out.push(here);
        i = i + 1;
    }
    out
}

/// What is highlighted in `name`: the bytes of each occurrence of the search
/// term, in order and without overlap.
pub fn highlights(name: &str, term: &str) -> (out: Vec<Span>)
    ensures
        out@ == highlighted(name@, term@),
{
    let at: Vec<usize> = offsets(name);
    let text: Vec<char> = fold(name);
    let wanted: Vec<char> = fold(term);
    let ghost all = occurrences(text@, wanted@, 0);
    let ghost span = |at: int|
        Span {
            start: offset(name@, at) as usize,
            end: offset(name@, at + term@.len()) as usize,
        };
    let mut out: Vec<Span> = Vec::new();
    if wanted.len() == 0 {
        assert(out@ =~= all.map_values(span));
        return out;
    }
    let mut i: usize = 0;
    assert(out@ + all.map_values(span) =~= all.map_values(span));
    while i < text.len()
        invariant
            i <= text@.len(),
            text@.len() == name@.len(),
            wanted@.len() == term@.len() > 0,
            at@.len() == name@.len() + 1,
            forall|j: int| 0 <= j <= name@.len() ==> #[trigger] at@[j] == offset(name@, j),
            span == (|at: int|
                Span {
                    start: offset(name@, at) as usize,
                    end: offset(name@, at + term@.len()) as usize,
                }),
            out@ + occurrences(text@, wanted@, i as int).map_values(span) == all.map_values(span),
        decreases text.len() - i,
    {
        if stands_at(&text, &wanted, i) {
            let end: usize = i + wanted.len();
            let here: Span = Span { start: at[i], end: at[end] };
            proof {
                let rest = occurrences(text@, wanted@, end as int);
                assert(here == span(i as int));
                assert((seq![i as int] + rest).map_values(span) =~= seq![here] + rest.map_values(
                    span,
                ));
                assert(out@ + (seq![here] + rest.map_values(span)) =~= out@.push(here)
                    + rest.map_values(span));
            }
            out.push(here);
            i = end;
        } else {
            i = i + 1;
        }
    }
    assert(out@ + occurrences(text@, wanted@, i as int).map_values(span) =~= out@);
    out
}

/// An entry is highlighted exactly if it matches.
pub proof fn law_what_matches_is_highlighted(name: Seq<char>, term: Seq<char>)
    ensures
        highlighted(name, term).len() > 0 <==> matched(name, term),
{
    let text = folded(name);
    let wanted = folded(term);
    let all = occurrences(text, wanted, 0);
    if all.len() > 0 {
        lemma_occurrences_occur(text, wanted, 0, 0);
    }
    if matched(name, term) {
        let at = choose|at: int| occurs_at(text, wanted, at);
        lemma_an_occurrence_is_noticed(text, wanted, 0, at);
    }
}

proof fn lemma_occurrences_occur(text: Seq<char>, term: Seq<char>, from: int, i: int)
    requires
        0 <= from,
        0 <= i < occurrences(text, term, from).len(),
    ensures
        occurs_at(text, term, occurrences(text, term, from)[i]),
        from <= occurrences(text, term, from)[i],
        term.len() > 0,
    decreases text.len() - from,
{
    if occurs_at(text, term, from) {
        if i > 0 {
            lemma_occurrences_occur(text, term, from + term.len(), i - 1);
        }
    } else {
        lemma_occurrences_occur(text, term, from + 1, i);
    }
}

proof fn lemma_an_occurrence_is_noticed(text: Seq<char>, term: Seq<char>, from: int, at: int)
    requires
        0 <= from <= at,
        term.len() > 0,
        occurs_at(text, term, at),
    ensures
        occurrences(text, term, from).len() > 0,
    decreases at - from,
{
    if !occurs_at(text, term, from) {
        lemma_an_occurrence_is_noticed(text, term, from + 1, at);
    }
}

/// Each occurrence that is highlighted is one, and they follow one another
/// without overlap.
pub proof fn law_highlights_do_not_overlap(text: Seq<char>, term: Seq<char>, i: int, j: int)
    requires
        0 <= i < j < occurrences(text, term, 0).len(),
    ensures
        occurs_at(text, term, occurrences(text, term, 0)[i]),
        occurs_at(text, term, occurrences(text, term, 0)[j]),
        occurrences(text, term, 0)[i] + term.len() <= occurrences(text, term, 0)[j],
{
    lemma_occurrences_occur(text, term, 0, i);
    lemma_occurrences_occur(text, term, 0, j);
    lemma_occurrences_keep_apart(text, term, 0, i, j);
}

proof fn lemma_occurrences_keep_apart(
    text: Seq<char>,
    term: Seq<char>,
    from: int,
    i: int,
    j: int,
)
    requires
        0 <= from,
        0 <= i < j < occurrences(text, term, from).len(),
    ensures
        occurrences(text, term, from)[i] + term.len() <= occurrences(text, term, from)[j],
    decreases text.len() - from,
{
    if occurs_at(text, term, from) {
        let rest = occurrences(text, term, from + term.len());
        if i == 0 {
            lemma_occurrences_occur(text, term, from + term.len(), j - 1);
        } else {
            lemma_occurrences_keep_apart(text, term, from + term.len(), i - 1, j - 1);
        }
        assert(occurrences(text, term, from)[j] == rest[j - 1]);
    } else {
        lemma_occurrences_keep_apart(text, term, from + 1, i, j);
    }
}

/// Whether two characters are the same letter, or the same character.
proof fn lemma_same_letter(a: char, b: char)
    ensures
        folded_char(a) == folded_char(b) <==> a == b || ('A' <= a <= 'Z' && b as u32 == a as u32
            + 32) || ('A' <= b <= 'Z' && a as u32 == b as u32 + 32),
{
}

/// A name matches a term if the term is not empty and somewhere in the name its
/// characters stand one after the other, where an ASCII letter may be of either case
/// and everything else has to be the same.
pub proof fn law_what_holds_the_term_matches(name: Seq<char>, term: Seq<char>, at: int)
    requires
        term.len() > 0,
        0 <= at,
        at + term.len() <= name.len(),
        forall|k: int|
            at <= k < at + term.len() ==> {
                let c = #[trigger] name[k];
                let d = term[k - at];
                c == d || ('A' <= c <= 'Z' && d as u32 == c as u32 + 32) || ('A' <= d <= 'Z'
                    && c as u32 == d as u32 + 32)
            },
    ensures
        matched(name, term),
{
    let there = folded(name).subrange(at, at + term.len());
    assert forall|i: int| 0 <= i < term.len() implies there[i] == folded(term)[i] by {
        let c = name[at + i];
        lemma_same_letter(c, term[i]);
    }
    assert(there =~= folded(term));
    assert(occurs_at(folded(name), folded(term), at));
}

/// A name that matches a term holds it somewhere: there its characters stand one after
/// the other, ASCII letters in whatever case. The empty term matches nothing.
pub proof fn law_what_matches_holds_the_term(name: Seq<char>, term: Seq<char>) -> (at: int)
    requires
        matched(name, term),
    ensures
        term.len() > 0,
        0 <= at,
        at + term.len() <= name.len(),
        forall|k: int|
            at <= k < at + term.len() ==> {
                let c = #[trigger] name[k];
                let d = term[k - at];
                c == d || ('A' <= c <= 'Z' && d as u32 == c as u32 + 32) || ('A' <= d <= 'Z'
                    && c as u32 == d as u32 + 32)
            },
{
    let at = choose|at: int| occurs_at(folded(name), folded(term), at);
    let there = folded(name).subrange(at, at + term.len());
    assert forall|k: int| at <= k < at + term.len() implies {
        let c = #[trigger] name[k];
        let d = term[k - at];
        c == d || ('A' <= c <= 'Z' && d as u32 == c as u32 + 32) || ('A' <= d <= 'Z' && c as u32
            == d as u32 + 32)
    } by {
        assert(there[k - at] == folded_char(name[k]));
        assert(there[k - at] == folded(term)[k - at]);
        lemma_same_letter(name[k], term[k - at]);
    }
    at
}

proof fn lemma_covered(text: Seq<char>, term: Seq<char>, from: int, at: int) -> (i: int)
    requires
        0 <= from <= at,
        term.len() > 0,
        occurs_at(text, term, at),
    ensures
        0 <= i < occurrences(text, term, from).len(),
        occurrences(text, term, from)[i] <= at < occurrences(text, term, from)[i] + term.len(),
    decreases at - from,
{
    let all = occurrences(text, term, from);
    if occurs_at(text, term, from) {
        let rest = occurrences(text, term, from + term.len());
        assert(all == seq![from] + rest);
        if at < from + term.len() {
            assert(all[0] == from);
            0
        } else {
            let j = lemma_covered(text, term, from + term.len(), at);
            assert(all[j + 1] == rest[j]);
            j + 1
        }
    } else {
        lemma_covered(text, term, from + 1, at)
    }
}

/// No occurrence goes without a highlight: wherever the term stands in a name, a
/// highlighted occurrence begins there or runs on there.
pub proof fn law_no_occurrence_goes_unnoticed(name: Seq<char>, term: Seq<char>, at: int)
    requires
        term.len() > 0,
        0 <= at,
        at + term.len() <= name.len(),
        folded(name).subrange(at, at + term.len()) == folded(term),
    ensures
        exists|i: int|
            0 <= i < occurrences(folded(name), folded(term), 0).len() && #[trigger] occurrences(
                folded(name),
                folded(term),
                0,
            )[i] <= at < occurrences(folded(name), folded(term), 0)[i] + term.len(),
{
    assert(occurs_at(folded(name), folded(term), at));
    let i = lemma_covered(folded(name), folded(term), 0, at);
}

/// What is highlighted are the bytes of the occurrences: each highlight covers the
/// bytes of as many characters as the term has, from where the occurrence begins.
pub proof fn law_highlights_cover_the_bytes(name: Seq<char>, term: Seq<char>, i: int)
    requires
        encode_utf8(name).len() <= usize::MAX,
        0 <= i < occurrences(folded(name), folded(term), 0).len(),
    ensures
        highlighted(name, term).len() == occurrences(folded(name), folded(term), 0).len(),
        ({
            let at = occurrences(folded(name), folded(term), 0)[i];
            let span = highlighted(name, term)[i];
            &&& 0 <= at
            &&& at + term.len() <= name.len()
            &&& span.start == encode_utf8(name.take(at)).len()
            &&& span.end == encode_utf8(name.take(at)).len() + encode_utf8(
                name.subrange(at, at + term.len()),
            ).len()
        }),
{
    let at = occurrences(folded(name), folded(term), 0)[i];
    lemma_occurrences_occur(folded(name), folded(term), 0, i);
    lemma_offset_bound(name, at);
    lemma_offset_bound(name, at + term.len());
    lemma_encoding_is_done_piece_by_piece(name.take(at), name.subrange(at, at + term.len()));
    assert(name.take(at) + name.subrange(at, at + term.len()) =~= name.take(at + term.len()));
}

} // verus!
