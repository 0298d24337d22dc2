//! Text as sequences of characters: the few string operations that everything
//! else is built from.

use vstd::prelude::*;

verus! {

/// `String::push` appends the given character to the end of the string. What is
/// claimed of it is that and nothing else.
pub assume_specification[ String::push ](string: &mut String, ch: char)
    ensures
        final(string)@ == old(string)@.push(ch),
;

/// The characters of `text`, in order.
pub fn chars_of(text: &str) -> (chars: Vec<char>)
    ensures
        chars@ == text@,
{
    let mut chars: Vec<char> = Vec::new();
    for c in it: text.chars()
        invariant
            chars@ == it.seq().take(it.index()),
            it.seq() == text@,
    {
        proof {
            assert(it.seq().take(it.index() + 1) =~= it.seq().take(it.index()).push(c));
        }
        chars.push(c);
    }
    assert(text@.take(text@.len() as int) =~= text@);
    chars
}

/// The text made of the characters from `from` up to, not including, `to`.
pub fn text_of(chars: &Vec<char>, from: usize, to: usize) -> (text: String)
    requires
        from <= to <= chars@.len(),
    ensures
        text@ == chars@.subrange(from as int, to as int),
{
    let mut text: String = String::new();
    let mut i: usize = from;
    while i < to
        invariant
            from <= i <= to <= chars@.len(),
            text@ == chars@.subrange(from as int, i as int),
        decreases to - i,
    {
        proof {
            assert(chars@.subrange(from as int, i + 1) =~= chars@.subrange(
                from as int,
                i as int,
            ).push(chars@[i as int]));
        }
        text.push(chars[i]);
        i = i + 1;
    }
    text
}

/// The decimal digit `d`.
pub open spec fn digit(d: nat) -> char {
    (48 + d) as char
}

/// The decimal digits of `n`, the most significant first.
pub open spec fn decimal(n: nat) -> Seq<char>
    decreases n,
{
    if n < 10 {
        seq![digit(n)]
    } else {
        decimal(n / 10).push(digit(n % 10))
    }
}

/// `n` in decimal.
pub fn decimal_text(n: u64) -> (text: String)
    ensures
        text@ == decimal(n as nat),
    decreases n,
{
    let mut text: String = if n < 10 {
        String::new()
    } else {
        decimal_text(n / 10)
    };
    text.push((48 + (n % 10) as u8) as char);
    assert(n < 10 ==> text@ =~= seq![digit(n as nat)]);
    text
}

/// Different numbers read differently in decimal.
pub proof fn law_decimal_tells_numbers_apart(a: nat, b: nat)
    requires
        decimal(a) == decimal(b),
    ensures
        a == b,
    decreases a,
{
    assert(decimal(a).last() == digit(a % 10));
    assert(decimal(b).last() == digit(b % 10));
    if a >= 10 && b >= 10 {
        assert(decimal(a).drop_last() =~= decimal(a / 10));
        assert(decimal(b).drop_last() =~= decimal(b / 10));
        law_decimal_tells_numbers_apart(a / 10, b / 10);
    } else if a >= 10 {
        lemma_decimal_not_empty(a / 10);
    } else if b >= 10 {
        lemma_decimal_not_empty(b / 10);
    }
}

/// Every number has a digit.
pub proof fn lemma_decimal_not_empty(n: nat)
    ensures
        decimal(n).len() >= 1,
    decreases n,
{
    if n >= 10 {
        lemma_decimal_not_empty(n / 10);
    }
}

/// The texts of a list of strings.
pub open spec fn texts(strings: Seq<String>) -> Seq<Seq<char>> {
    strings.map_values(|s: String| s@)
}

/// Adding a string adds its text.
pub proof fn lemma_texts_push(strings: Seq<String>, s: String)
    ensures
        texts(strings.push(s)) == texts(strings).push(s@),
{
    assert(texts(strings.push(s)) =~= texts(strings).push(s@));
}

/// Whether `text` reads the same as `other`.
pub fn same(text: &String, other: &str) -> (out: bool)
    ensures
        out == (text@ == other@),
{
    let owned: String = other.to_owned();
    *text == owned
}

/// Whether `list` starts with `prefix`.
pub fn starts_with(list: &Vec<String>, prefix: &Vec<String>) -> (out: bool)
    ensures
        out == texts(prefix@).is_prefix_of(texts(list@)),
{
    let ghost all = texts(list@);
    let ghost start = texts(prefix@);
    if prefix.len() > list.len() {
        return false;
    }
    let mut i: usize = 0;
    while i < prefix.len()
        invariant
            i <= prefix@.len() <= list@.len(),
            all == texts(list@),
            start == texts(prefix@),
            forall|j: int| 0 <= j < i ==> start[j] == all[j],
        decreases prefix.len() - i,
    {
        proof {
            assert(all[i as int] == list@[i as int]@);
            assert(start[i as int] == prefix@[i as int]@);
        }
        if list[i] != prefix[i] {
            proof {
                if start.is_prefix_of(all) {
                    assert(start[i as int] == all.subrange(0, start.len() as int)[i as int]);
                }
            }
            return false;
        }
        i = i + 1;
    }
    assert(start =~= all.subrange(0, start.len() as int));
    true
}

/// Whether `chars` starts with `prefix`.
pub fn begins_with(chars: &Vec<char>, prefix: &Vec<char>) -> (out: bool)
    ensures
        out == prefix@.is_prefix_of(chars@),
{
    if prefix.len() > chars.len() {
        return false;
    }
    let mut i: usize = 0;
    while i < prefix.len()
        invariant
            i <= prefix@.len() <= chars@.len(),
            forall|j: int| 0 <= j < i ==> prefix@[j] == chars@[j],
        decreases prefix.len() - i,
    {
        if chars[i] != prefix[i] {
            proof {
                if prefix@.is_prefix_of(chars@) {
                    assert(prefix@[i as int] == chars@.subrange(0, prefix@.len() as int)[i as int]);
                }
            }
            return false;
        }
        i = i + 1;
    }
    assert(prefix@ =~= chars@.subrange(0, prefix@.len() as int));
    true
}

/// Whether `c` is white space: the characters with the Unicode property
/// `White_Space`.
pub open spec fn white_space(c: char) -> bool {
    ||| 0x09 <= c as u32 <= 0x0d
    ||| c as u32 == 0x20
    ||| c as u32 == 0x85
    ||| c as u32 == 0xa0
    ||| c as u32 == 0x1680
    ||| 0x2000 <= c as u32 <= 0x200a
    ||| c as u32 == 0x2028
    ||| c as u32 == 0x2029
    ||| c as u32 == 0x202f
    ||| c as u32 == 0x205f
    ||| c as u32 == 0x3000
}

/// Whether `c` is white space.
pub fn is_white_space(c: char) -> (out: bool)
    ensures
        out == white_space(c),
{
    let n: u32 = c as u32;
    (0x09 <= n && n <= 0x0d) || n == 0x20 || n == 0x85 || n == 0xa0 || n == 0x1680 || (0x2000 <= n
        && n <= 0x200a) || n == 0x2028 || n == 0x2029 || n == 0x202f || n == 0x205f || n == 0x3000
}

/// `text` without the white space it starts with.
pub open spec fn trimmed_start(text: Seq<char>) -> Seq<char>
    decreases text.len(),
{
    if text.len() > 0 && white_space(text[0]) {
        trimmed_start(text.drop_first())
    } else {
        text
    }
}

/// `text` without the white space it ends with.
pub open spec fn trimmed_end(text: Seq<char>) -> Seq<char>
    decreases text.len(),
{
    if text.len() > 0 && white_space(text.last()) {
        trimmed_end(text.drop_last())
    } else {
        text
    }
}

/// `text` without the white space around it.
pub open spec fn trimmed(text: Seq<char>) -> Seq<char> {
    trimmed_end(trimmed_start(text))
}

/// `text` without the white space around it.
pub fn trim(text: &str) -> (out: String)
    ensures
        out@ == trimmed(text@),
{
    let chars: Vec<char> = chars_of(text);
    let mut from: usize = 0;
    proof {
        assert(chars@.skip(0) =~= chars@);
    }
    while from < chars.len() && is_white_space(chars[from])
        invariant
            from <= chars@.len(),
            trimmed_start(chars@.skip(from as int)) == trimmed_start(chars@),
        decreases chars.len() - from,
    {
        proof {
            assert(chars@.skip(from as int).drop_first() =~= chars@.skip(from + 1));
        }
        from = from + 1;
    }
    let mut to: usize = chars.len();
    let ghost start = chars@.skip(from as int);
    proof {
        assert(start =~= chars@.subrange(from as int, to as int));
        assert(trimmed_start(chars@) == start);
    }
    while to > from && is_white_space(chars[to - 1])
        invariant
            from <= to <= chars@.len(),
            trimmed_end(chars@.subrange(from as int, to as int)) == trimmed_end(start),
        decreases to,
    {
        proof {
            assert(chars@.subrange(from as int, to as int).drop_last() =~= chars@.subrange(
                from as int,
                to - 1,
            ));
        }
        to = to - 1;
    }
    text_of(&chars, from, to)
}

/// Whether `text` neither starts nor ends with white space.
pub open spec fn is_trimmed(text: Seq<char>) -> bool {
    text.len() > 0 ==> !white_space(text[0]) && !white_space(text.last())
}

proof fn lemma_trimmed_end_is_trimmed(text: Seq<char>)
    requires
        text.len() > 0 ==> !white_space(text[0]),
    ensures
        is_trimmed(trimmed_end(text)),
    decreases text.len(),
{
    if text.len() > 0 && white_space(text.last()) {
        lemma_trimmed_end_is_trimmed(text.drop_last());
    }
}

proof fn lemma_trimmed_start_starts(text: Seq<char>)
    ensures
        trimmed_start(text).len() > 0 ==> !white_space(trimmed_start(text)[0]),
    decreases text.len(),
{
    if text.len() > 0 && white_space(text[0]) {
        lemma_trimmed_start_starts(text.drop_first());
    }
}

/// What was trimmed has no white space around it, and trimming such a text
/// changes nothing.
pub proof fn law_trimming_is_done_once(text: Seq<char>)
    ensures
        is_trimmed(trimmed(text)),
        is_trimmed(text) ==> trimmed(text) == text,
{
    lemma_trimmed_start_starts(text);
    lemma_trimmed_end_is_trimmed(trimmed_start(text));
}

/// The pieces of `text` between the occurrences of `separator`.
pub open spec fn pieces(text: Seq<char>, separator: char) -> Seq<Seq<char>>
    decreases text.len(),
{
    if text.len() == 0 {
        seq![Seq::<char>::empty()]
    } else {
        let before = pieces(text.drop_last(), separator);
        if text.last() == separator {
            before.push(Seq::<char>::empty())
        } else {
            before.drop_last().push(before.last().push(text.last()))
        }
    }
}

/// The pieces of `text` between the occurrences of `separator`.
pub fn split(text: &str, separator: char) -> (out: Vec<String>)
    ensures
        texts(out@) == pieces(text@, separator),
{
    let chars: Vec<char> = chars_of(text);
    let mut out: Vec<String> = Vec::new();
    let mut piece: String = String::new();
    let mut i: usize = 0;
    proof {
        assert(chars@.take(0) =~= Seq::<char>::empty());
        assert(texts(out@).push(piece@) =~= seq![Seq::<char>::empty()]);
    }
    while i < chars.len()
        invariant
            i <= chars@.len(),
            texts(out@).push(piece@) == pieces(chars@.take(i as int), separator),
        decreases chars.len() - i,
    {
        let ghost before = texts(out@);
        let ghost built = piece@;
        proof {
            assert(chars@.take(i + 1).drop_last() =~= chars@.take(i as int));
            assert(before.push(built).drop_last() =~= before);
        }
        if chars[i] == separator {
            proof {
                lemma_texts_push(out@, piece);
            }
            out.push(piece);
            piece = String::new();
        } else {
            piece.push(chars[i]);
        }
        i = i + 1;
    }
    proof {
        assert(chars@.take(i as int) =~= chars@);
        lemma_texts_push(out@, piece);
    }
    out.push(piece);
    out
}

/// `parts` one after the other with `separator` between them.
pub open spec fn joined(parts: Seq<Seq<char>>, separator: Seq<char>) -> Seq<char>
    decreases parts.len(),
{
    if parts.len() == 0 {
        Seq::empty()
    } else if parts.len() == 1 {
        parts[0]
    } else {
        joined(parts.drop_last(), separator) + separator + parts.last()
    }
}

/// `parts` one after the other with `separator` between them.
pub fn join(parts: &[String], separator: &str) -> (out: String)
    ensures
        out@ == joined(texts(parts@), separator@),
{
    let ghost all = texts(parts@);
    let mut out: String = String::new();
    let mut i: usize = 0;
    proof {
        assert(all.take(0) =~= Seq::<Seq<char>>::empty());
    }
    while i < parts.len()
        invariant
            i <= parts@.len(),
            all == texts(parts@),
            out@ == joined(all.take(i as int), separator@),
        decreases parts.len() - i,
    {
        proof {
            assert(all.take(i + 1).drop_last() =~= all.take(i as int));
            assert(all[i as int] == parts@[i as int]@);
        }
        if i > 0 {
            out.append(separator);
        }
        out.append(parts[i].as_str());
        proof {
            if i == 0 {
                assert(out@ =~= parts@[0]@);
            }
        }
        i = i + 1;
    }
    proof {
        assert(all.take(i as int) =~= all);
    }
    out
}

/// Cutting at a separator and taking the pieces apart are one step each.
pub proof fn lemma_pieces_of_tail(head: Seq<char>, separator: char, tail: Seq<char>)
    requires
        !tail.contains(separator),
    ensures
        pieces(head.push(separator) + tail, separator) == pieces(head, separator).push(tail),
    decreases tail.len(),
{
    let whole = head.push(separator) + tail;
    if tail.len() == 0 {
        assert(whole =~= head.push(separator));
        assert(whole.drop_last() =~= head);
        assert(tail =~= Seq::<char>::empty());
    } else {
        let shorter = tail.drop_last();
        assert(tail.contains(tail.last()));
        assert(whole.drop_last() =~= head.push(separator) + shorter);
        assert forall|c: char| shorter.contains(c) implies tail.contains(c) by {
            let i = choose|i: int| 0 <= i < shorter.len() && shorter[i] == c;
            assert(tail[i] == c);
        }
        lemma_pieces_of_tail(head, separator, shorter);
        let before = pieces(head, separator);
        assert(before.push(shorter).drop_last() =~= before);
        assert(shorter.push(tail.last()) =~= tail);
    }
}

/// A text without the separator is a single piece.
pub proof fn lemma_pieces_single(text: Seq<char>, separator: char)
    requires
        !text.contains(separator),
    ensures
        pieces(text, separator) == seq![text],
    decreases text.len(),
{
    if text.len() > 0 {
        let shorter = text.drop_last();
        assert(text.contains(text.last()));
        assert forall|c: char| shorter.contains(c) implies text.contains(c) by {
            let i = choose|i: int| 0 <= i < shorter.len() && shorter[i] == c;
            assert(text[i] == c);
        }
        lemma_pieces_single(shorter, separator);
        assert(seq![shorter].drop_last() =~= Seq::<Seq<char>>::empty());
        assert(shorter.push(text.last()) =~= text);
        assert(Seq::<Seq<char>>::empty().push(text) =~= seq![text]);
    } else {
        assert(text =~= Seq::<char>::empty());
    }
}

/// Splitting undoes joining, for parts that do not hold the separator.
pub proof fn law_splitting_undoes_joining(parts: Seq<Seq<char>>, separator: char)
    requires
        parts.len() > 0,
        forall|i: int| 0 <= i < parts.len() ==> !(#[trigger] parts[i]).contains(separator),
    ensures
        pieces(joined(parts, seq![separator]), separator) == parts,
    decreases parts.len(),
{
    if parts.len() == 1 {
        lemma_pieces_single(parts[0], separator);
        assert(parts =~= seq![parts[0]]);
    } else {
        let fewer = parts.drop_last();
        law_splitting_undoes_joining(fewer, separator);
        let head = joined(fewer, seq![separator]);
        assert(head + seq![separator] + parts.last() =~= head.push(separator) + parts.last());
        lemma_pieces_of_tail(head, separator, parts.last());
        assert(fewer.push(parts.last()) =~= parts);
    }
}

/// The pieces of a text hold no separator, and joining them gives the text back.
pub proof fn law_joining_undoes_splitting(text: Seq<char>, separator: char)
    ensures
        pieces(text, separator).len() > 0,
        forall|i: int|
            0 <= i < pieces(text, separator).len() ==> !(#[trigger] pieces(
                text,
                separator,
            )[i]).contains(separator),
        joined(pieces(text, separator), seq![separator]) == text,
    decreases text.len(),
{
    let all = pieces(text, separator);
    if text.len() == 0 {
        assert(text =~= Seq::<char>::empty());
    } else {
        let shorter = text.drop_last();
        let before = pieces(shorter, separator);
        law_joining_undoes_splitting(shorter, separator);
        if text.last() == separator {
            assert(all.drop_last() =~= before);
            assert(joined(before, seq![separator]) + seq![separator] + Seq::<char>::empty()
                =~= text);
        } else {
            assert forall|i: int| 0 <= i < all.len() implies !(#[trigger] all[i]).contains(
                separator,
            ) by {
                if i == before.len() - 1 {
                    assert(!before[i].contains(separator));
                    let piece = all[i];
                    if piece.contains(separator) {
                        let j = choose|j: int| 0 <= j < piece.len() && piece[j] == separator;
                        assert(before[i][j] == separator);
                    }
                } else {
                    assert(all[i] == before[i]);
                }
            }
            assert(all.drop_last() =~= before.drop_last());
            if before.len() == 1 {
                assert(all[0] =~= text);
            } else {
                assert(joined(all, seq![separator]) =~= joined(before, seq![separator]).push(
                    text.last(),
                ));
                assert(shorter.push(text.last()) =~= text);
            }
        }
    }
}

/// Whether `asked` may answer `answer` when given `question`.
pub open spec fn answers<F: Fn(&str) -> bool>(
    asked: F,
    question: Seq<char>,
    answer: bool,
) -> bool {
    exists|s: &str| s@ == question && #[trigger] call_ensures(asked, (s,), answer)
}

/// Where `c` occurs last in `text`, or -1.
pub open spec fn last_position(text: Seq<char>, c: char) -> int
    decreases text.len(),
{
    if text.len() == 0 {
        -1
    } else if text.last() == c {
        text.len() - 1
    } else {
        last_position(text.drop_last(), c)
    }
}

/// One more than where `c` occurs last in `chars`, or zero.
pub fn after_last(chars: &Vec<char>, c: char) -> (after: usize)
    ensures
        after == last_position(chars@, c) + 1,
        after <= chars@.len(),
{
    let mut i: usize = chars.len();
    proof {
        assert(chars@.take(i as int) =~= chars@);
    }
    while i > 0 && chars[i - 1] != c
        invariant
            i <= chars@.len(),
            last_position(chars@.take(i as int), c) == last_position(chars@, c),
        decreases i,
    {
        proof {
            assert(chars@.take(i as int).drop_last() =~= chars@.take(i - 1));
        }
        i = i - 1;
    }
    i
}

/// The last position is in the text and holds the character.
pub proof fn lemma_last_position_bound(text: Seq<char>, c: char)
    ensures
        -1 <= last_position(text, c) < text.len(),
        last_position(text, c) >= 0 ==> text[last_position(text, c)] == c,
    decreases text.len(),
{
    if text.len() > 0 && text.last() != c {
        lemma_last_position_bound(text.drop_last(), c);
    }
}

/// The character before a text without it is the last one.
pub proof fn lemma_last_position_is(head: Seq<char>, c: char, tail: Seq<char>)
    requires
        !tail.contains(c),
    ensures
        last_position(head.push(c) + tail, c) == head.len(),
    decreases tail.len(),
{
    let whole = head.push(c) + tail;
    if tail.len() == 0 {
        assert(whole =~= head.push(c));
    } else {
        let shorter = tail.drop_last();
        assert(tail.contains(tail.last()));
        assert forall|d: char| shorter.contains(d) implies tail.contains(d) by {
            let i = choose|i: int| 0 <= i < shorter.len() && shorter[i] == d;
            assert(tail[i] == d);
        }
        assert(whole.drop_last() =~= head.push(c) + shorter);
        lemma_last_position_is(head, c, shorter);
    }
}

/// Nothing after the last position holds the character.
pub proof fn lemma_none_after_last_position(text: Seq<char>, c: char)
    ensures
        !text.skip(last_position(text, c) + 1).contains(c),
    decreases text.len(),
{
    lemma_last_position_bound(text, c);
    let tail = text.skip(last_position(text, c) + 1);
    if text.len() > 0 && text.last() != c {
        let shorter = text.drop_last();
        lemma_none_after_last_position(shorter, c);
        lemma_last_position_bound(shorter, c);
        if tail.contains(c) {
            let i = choose|i: int| 0 <= i < tail.len() && tail[i] == c;
            let less = shorter.skip(last_position(shorter, c) + 1);
            assert(i < tail.len() - 1);
            assert(less[i] == c);
        }
    }
}

/// A number is read from its digits: the last one stands for what is left of it when
/// it is divided by ten, and those before for the rest.
pub proof fn law_digits_stand_for_the_number(n: nat)
    ensures
        decimal(n).len() >= 1,
        decimal(n)[decimal(n).len() - 1] as int == '0' as int + n % 10,
        n < 10 ==> decimal(n).len() == 1,
        n >= 10 ==> decimal(n).drop_last() == decimal(n / 10),
{
    lemma_decimal_not_empty(n);
    if n >= 10 {
        assert(decimal(n).drop_last() =~= decimal(n / 10));
    }
}

/// White space are these characters and no others.
pub proof fn law_white_space_is_this(c: char)
    ensures
        white_space(c) <==> seq![
            '\t',
            '\n',
            '\u{b}',
            '\u{c}',
            '\r',
            ' ',
            '\u{85}',
            '\u{a0}',
            '\u{1680}',
            '\u{2000}',
            '\u{2001}',
            '\u{2002}',
            '\u{2003}',
            '\u{2004}',
            '\u{2005}',
            '\u{2006}',
            '\u{2007}',
            '\u{2008}',
            '\u{2009}',
            '\u{200a}',
            '\u{2028}',
            '\u{2029}',
            '\u{202f}',
            '\u{205f}',
            '\u{3000}',
        ].contains(c),
{
    let all = seq![
        '\t',
        '\n',
        '\u{b}',
        '\u{c}',
        '\r',
        ' ',
        '\u{85}',
        '\u{a0}',
        '\u{1680}',
        '\u{2000}',
        '\u{2001}',
        '\u{2002}',
        '\u{2003}',
        '\u{2004}',
        '\u{2005}',
        '\u{2006}',
        '\u{2007}',
        '\u{2008}',
        '\u{2009}',
        '\u{200a}',
        '\u{2028}',
        '\u{2029}',
        '\u{202f}',
        '\u{205f}',
        '\u{3000}',
    ];
    if white_space(c) {
        let n = c as u32;
        let at: int = if n <= 0x0d {
            n as int - 9
        } else if n == 0x20 {
            5
        } else if n == 0x85 {
            6
        } else if n == 0xa0 {
            7
        } else if n == 0x1680 {
            8
        } else if n <= 0x200a {
            9 + (n as int - 0x2000)
        } else if n == 0x2028 {
            20
        } else if n == 0x2029 {
            21
        } else if n == 0x202f {
            22
        } else if n == 0x205f {
            23
        } else {
            24
        };
        assert(all[at] == c);
    }
}

proof fn lemma_space_before(space: Seq<char>, text: Seq<char>)
    requires
        forall|i: int| 0 <= i < space.len() ==> white_space(#[trigger] space[i]),
    ensures
        trimmed_start(space + text) == trimmed_start(text),
    decreases space.len(),
{
    if space.len() == 0 {
        assert(space + text =~= text);
    } else {
        let less = space.drop_first();
        assert forall|i: int| 0 <= i < less.len() implies white_space(#[trigger] less[i]) by {
            assert(less[i] == space[i + 1]);
        }
        lemma_space_before(less, text);
        assert(white_space(space[0]));
        assert((space + text)[0] == space[0]);
        assert((space + text).drop_first() =~= less + text);
    }
}

proof fn lemma_space_behind(text: Seq<char>, space: Seq<char>)
    requires
        forall|i: int| 0 <= i < space.len() ==> white_space(#[trigger] space[i]),
    ensures
        trimmed_end(text + space) == trimmed_end(text),
    decreases space.len(),
{
    if space.len() == 0 {
        assert(text + space =~= text);
    } else {
        let less = space.drop_last();
        assert forall|i: int| 0 <= i < less.len() implies white_space(#[trigger] less[i]) by {
            assert(less[i] == space[i]);
        }
        lemma_space_behind(text, less);
        assert(white_space(space[space.len() - 1]));
        assert((text + space).last() == space.last());
        assert((text + space).drop_last() =~= text + less);
    }
}

proof fn lemma_space_behind_the_start(text: Seq<char>, space: Seq<char>)
    requires
        forall|i: int| 0 <= i < space.len() ==> white_space(#[trigger] space[i]),
    ensures
        trimmed_end(trimmed_start(text + space)) == trimmed_end(trimmed_start(text)),
    decreases text.len(),
{
    if text.len() == 0 {
        let none = Seq::<char>::empty();
        assert(text + space =~= space + none);
        lemma_space_before(space, none);
        assert(text =~= none);
    } else if white_space(text[0]) {
        assert((text + space)[0] == text[0]);
        assert((text + space).drop_first() =~= text.drop_first() + space);
        lemma_space_behind_the_start(text.drop_first(), space);
    } else {
        assert((text + space)[0] == text[0]);
        lemma_space_behind(text, space);
    }
}

/// Trimming takes the white space around a text away and nothing else: whatever of it
/// stands before and behind a text does not count, nothing is left of a text that is
/// nothing else, and a text that neither starts nor ends with any stays whole.
pub proof fn law_trimming_takes_white_space_alone(
    before: Seq<char>,
    text: Seq<char>,
    behind: Seq<char>,
)
    requires
        forall|i: int| 0 <= i < before.len() ==> white_space(#[trigger] before[i]),
        forall|i: int| 0 <= i < behind.len() ==> white_space(#[trigger] behind[i]),
    ensures
        trimmed(before + text + behind) == trimmed(text),
        trimmed(before).len() == 0,
        text.len() > 0 && !white_space(text[0]) && !white_space(text[text.len() - 1]) ==> trimmed(
            text,
        ) == text,
{
    let none = Seq::<char>::empty();
    assert(before + text + behind =~= before + (text + behind));
    lemma_space_before(before, text + behind);
    lemma_space_behind_the_start(text, behind);
    lemma_space_before(before, none);
    assert(before + none =~= before);
}

/// Joining one list of parts and another is joining each and putting the separator
/// between them. A single part is not changed, and nothing comes of no parts.
pub proof fn law_parts_are_joined_one_after_the_other(
    a: Seq<Seq<char>>,
    b: Seq<Seq<char>>,
    separator: Seq<char>,
    part: Seq<char>,
)
    ensures
        joined(Seq::empty(), separator).len() == 0,
        joined(seq![part], separator) == part,
        a.len() > 0 && b.len() > 0 ==> joined(a + b, separator) == joined(a, separator) + separator
            + joined(b, separator),
    decreases b.len(),
{
    if a.len() > 0 && b.len() > 0 {
        let fewer = b.drop_last();
        assert((a + b).drop_last() =~= a + fewer);
        assert((a + b).last() == b.last());
        if fewer.len() == 0 {
            assert(a + fewer =~= a);
            assert(joined(b, separator) == b[0]);
        } else {
            law_parts_are_joined_one_after_the_other(a, fewer, separator, part);
            assert(joined(a, separator) + separator + joined(fewer, separator) + separator
                + b.last() =~= joined(a, separator) + separator + (joined(fewer, separator)
                + separator + b.last()));
        }
    }
}

/// Splitting cuts at every separator: what stands between two of them, or before the
/// first or behind the last, is one piece.
pub proof fn law_splitting_cuts_at_every_separator(a: Seq<char>, separator: char, piece: Seq<char>)
    requires
        !piece.contains(separator),
    ensures
        pieces(piece, separator) == seq![piece],
        pieces(a.push(separator) + piece, separator) == pieces(a, separator).push(piece),
{
    lemma_pieces_single(piece, separator);
    lemma_pieces_of_tail(a, separator, piece);
}

/// The last position of a character is where it stands with no other behind it, and
/// there is none exactly if the text does not hold the character.
pub proof fn law_the_last_position_is_the_last(text: Seq<char>, c: char, i: int)
    ensures
        last_position(text, c) < 0 <==> !text.contains(c),
        last_position(text, c) >= 0 ==> {
            &&& last_position(text, c) < text.len()
            &&& text[last_position(text, c)] == c
            &&& last_position(text, c) < i < text.len() ==> text[i] != c
        },
{
    lemma_last_position_bound(text, c);
    lemma_none_after_last_position(text, c);
    let tail = text.skip(last_position(text, c) + 1);
    if last_position(text, c) < 0 {
        assert(tail =~= text);
    } else {
        assert(text.contains(text[last_position(text, c)]));
        if last_position(text, c) < i < text.len() && text[i] == c {
            assert(tail[i - last_position(text, c) - 1] == c);
        }
    }
}

} // verus!
