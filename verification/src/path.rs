//! Paths as lists of components.

use crate::text;
use crate::text::{join as join_texts, same, split};
use vstd::prelude::*;

verus! {

/// Whether a path starts at the root.
pub open spec fn absolute(path: Seq<char>) -> bool {
    path.len() > 0 && path[0] == '/'
}

/// Whether a piece of a path names something: it is neither empty nor `.`.
pub open spec fn names(piece: Seq<char>) -> bool {
    piece.len() > 0 && piece != seq!['.']
}

/// The pieces that name something.
pub open spec fn naming() -> spec_fn(Seq<char>) -> bool {
    |piece: Seq<char>| names(piece)
}

/// What a path starts with besides names: `/` if it is absolute, `.` if it says
/// so itself, else nothing.
pub open spec fn anchor(path: Seq<char>) -> Seq<Seq<char>> {
    if absolute(path) {
        seq![seq!['/']]
    } else if text::pieces(path, '/')[0] == seq!['.'] {
        seq![seq!['.']]
    } else {
        Seq::empty()
    }
}

/// The components of a path: the anchor and then the names. Doubled and trailing
/// separators and every `.` behind the first component disappear.
pub open spec fn components(path: Seq<char>) -> Seq<Seq<char>> {
    anchor(path) + text::pieces(path, '/').filter(naming())
}

/// The components of `path`.
pub fn components_of(path: &str) -> (out: Vec<String>)
    ensures
        text::texts(out@) == components(path@),
{
    let parts: Vec<String> = split(path, '/');
    let ghost pieces = text::pieces(path@, '/');
    let mut out: Vec<String> = Vec::new();
    let starts_at_root: bool = !path.is_empty() && path.get_char(0) == '/';
    proof {
        text::law_joining_undoes_splitting(path@, '/');
        reveal_strlit("/");
        reveal_strlit(".");
        assert("/"@ =~= seq!['/']);
        assert("."@ =~= seq!['.']);
        assert(text::texts(parts@)[0] == parts@[0]@);
    }
    if starts_at_root {
        let root: String = "/".to_owned();
        out.push(root);
        assert(text::texts(out@) =~= anchor(path@));
    } else if same(&parts[0], ".") {
        let here: String = ".".to_owned();
        out.push(here);
        assert(text::texts(out@) =~= anchor(path@));
    } else {
        assert(text::texts(out@) =~= anchor(path@));
    }
    let mut i: usize = 0;
    proof {
        assert(pieces.take(0) =~= Seq::<Seq<char>>::empty());
        reveal(Seq::filter);
        assert(anchor(path@) + pieces.take(0).filter(naming()) =~= anchor(path@));
    }
    while i < parts.len()
        invariant
            i <= parts@.len(),
            pieces == text::texts(parts@),
            "."@ == seq!['.'],
            text::texts(out@) == anchor(path@) + pieces.take(i as int).filter(naming()),
        decreases parts.len() - i,
    {
        proof {
            assert(pieces[i as int] == parts@[i as int]@);
            assert(pieces.take(i + 1) =~= pieces.take(i as int).push(pieces[i as int]));
            pieces.take(i as int).lemma_filter_push(pieces[i as int], naming());
        }
        if !parts[i].as_str().is_empty() && !same(&parts[i], ".") {
            proof {
                text::lemma_texts_push(out@, parts@[i as int]);
                assert(text::texts(out@).push(pieces[i as int]) =~= anchor(path@) + pieces.take(
                    i + 1,
                ).filter(naming()));
            }
            out.push(parts[i].clone());
        }
        i = i + 1;
    }
    proof {
        assert(pieces.take(i as int) =~= pieces);
    }
    out
}

/// The path that a list of components spells, without doubling the separator of
/// a leading `/`.
pub open spec fn spelled(parts: Seq<Seq<char>>) -> Seq<char> {
    if parts.len() > 0 && parts[0] == seq!['/'] {
        seq!['/'] + text::joined(parts.skip(1), seq!['/'])
    } else {
        text::joined(parts, seq!['/'])
    }
}

/// Joins segments back into a path without doubling the leading separator.
pub fn join(segments: &[String]) -> (out: String)
    ensures
        out@ == spelled(text::texts(segments@)),
{
    let ghost parts = text::texts(segments@);
    proof {
        reveal_strlit("/");
        assert("/"@ =~= seq!['/']);
    }
    if segments.len() > 0 && same(&segments[0], "/") {
        let mut out: String = "/".to_owned();
        let rest: &[String] = vstd::slice::slice_subrange(segments, 1, segments.len());
        proof {
            assert(text::texts(rest@) =~= parts.skip(1));
            assert(parts[0] == segments@[0]@);
        }
        out.append(join_texts(rest, "/").as_str());
        out
    } else {
        proof {
            if segments@.len() > 0 {
                assert(parts[0] == segments@[0]@);
            }
        }
        join_texts(segments, "/")
    }
}

/// Whether `parts` are what an absolute path is made of: the root, then names.
pub open spec fn rooted(parts: Seq<Seq<char>>) -> bool {
    &&& parts.len() > 0
    &&& parts[0] == seq!['/']
    &&& forall|i: int|
        1 <= i < parts.len() ==> names(#[trigger] parts[i]) && !parts[i].contains('/')
}

proof fn lemma_joined_behind_nothing(rest: Seq<Seq<char>>)
    requires
        rest.len() > 0,
    ensures
        text::joined(seq![Seq::<char>::empty()] + rest, seq!['/']) == seq!['/'] + text::joined(
            rest,
            seq!['/'],
        ),
    decreases rest.len(),
{
    let whole = seq![Seq::<char>::empty()] + rest;
    assert(whole.drop_last() =~= seq![Seq::<char>::empty()] + rest.drop_last());
    if rest.len() == 1 {
        assert(rest.drop_last() =~= Seq::<Seq<char>>::empty());
        assert(whole.drop_last() =~= seq![Seq::<char>::empty()]);
        assert(text::joined(whole.drop_last(), seq!['/']) == Seq::<char>::empty());
        assert(whole.last() == rest[0]);
        assert(Seq::<char>::empty() + seq!['/'] + rest[0] =~= seq!['/'] + rest[0]);
    } else {
        lemma_joined_behind_nothing(rest.drop_last());
        let fewer = text::joined(rest.drop_last(), seq!['/']);
        assert((seq!['/'] + fewer) + seq!['/'] + rest.last() =~= seq!['/'] + (fewer + seq!['/']
            + rest.last()));
    }
}

proof fn lemma_filter_keeps_names(rest: Seq<Seq<char>>)
    requires
        forall|i: int| 0 <= i < rest.len() ==> names(#[trigger] rest[i]),
    ensures
        rest.filter(naming()) == rest,
    decreases rest.len(),
{
    if rest.len() == 0 {
        lemma_filter_nothing();
        assert(rest =~= Seq::<Seq<char>>::empty());
    } else {
        let fewer = rest.drop_last();
        lemma_filter_keeps_names(fewer);
        fewer.lemma_filter_push(rest.last(), naming());
        assert(naming()(rest[rest.len() - 1]));
        assert(fewer.push(rest.last()) =~= rest);
    }
}

proof fn lemma_filter_nothing()
    ensures
        Seq::<Seq<char>>::empty().filter(naming()) == Seq::<Seq<char>>::empty(),
        seq![Seq::<char>::empty()].filter(naming()) == Seq::<Seq<char>>::empty(),
{
    let none = Seq::<char>::empty();
    assert(Seq::<Seq<char>>::empty().filter(naming()) == Seq::<Seq<char>>::empty()) by {
        reveal(Seq::filter);
    }
    Seq::<Seq<char>>::empty().lemma_filter_push(none, naming());
    assert(seq![none] =~= Seq::<Seq<char>>::empty().push(none));
}

/// Spelling out the components of an absolute path and taking the result apart
/// again gives the components back.
pub proof fn law_taking_apart_undoes_spelling(parts: Seq<Seq<char>>)
    requires
        rooted(parts),
    ensures
        components(spelled(parts)) == parts,
{
    let rest = parts.skip(1);
    let path = spelled(parts);
    let none = Seq::<char>::empty();
    let start = seq![none];
    assert forall|i: int| 0 <= i < rest.len() implies names(#[trigger] rest[i])
        && !rest[i].contains('/') by {
        assert(rest[i] == parts[i + 1]);
    }
    lemma_filter_nothing();
    if rest.len() == 0 {
        assert(path =~= none.push('/') + none);
        text::lemma_pieces_of_tail(none, '/', none);
        assert(text::pieces(path, '/') =~= start + start);
        Seq::filter_distributes_over_add(start, start, naming());
    } else {
        let all = start + rest;
        lemma_joined_behind_nothing(rest);
        assert forall|i: int| 0 <= i < all.len() implies !(#[trigger] all[i]).contains('/') by {
            if i > 0 {
                assert(all[i] == rest[i - 1]);
            }
        }
        text::law_splitting_undoes_joining(all, '/');
        lemma_filter_keeps_names(rest);
        Seq::filter_distributes_over_add(start, rest, naming());
    }
    assert(text::pieces(path, '/').filter(naming()) =~= rest);
    assert(seq![seq!['/']] + rest =~= parts);
}

/// How many components two lists start with in common.
pub open spec fn in_common(a: Seq<Seq<char>>, b: Seq<Seq<char>>) -> nat
    decreases a.len(),
{
    if a.len() > 0 && b.len() > 0 && a[0] == b[0] {
        1 + in_common(a.drop_first(), b.drop_first())
    } else {
        0
    }
}

/// The step up.
pub open spec fn up() -> Seq<char> {
    seq!['.', '.']
}

/// Whether `base` starts with `.` and `path` with something else.
pub open spec fn strays(path: Seq<Seq<char>>, base: Seq<Seq<char>>) -> bool {
    base.len() > 0 && base[0] == seq!['.'] && path.len() > 0 && path[0] != seq!['.']
}

/// The given number of steps up.
pub open spec fn ups(count: nat) -> Seq<Seq<char>> {
    Seq::new(count, |i: int| up())
}

/// The way from the directory `base` to `path`: up out of what they do not have
/// in common, then down by name. From a `.` that `path` does not start with, it
/// goes down by the first name before it goes up.
pub open spec fn way(path: Seq<Seq<char>>, base: Seq<Seq<char>>) -> Seq<Seq<char>> {
    if strays(path, base) {
        path.take(1) + ups((base.len() - 1) as nat) + path.skip(1)
    } else {
        let shared = in_common(path, base) as int;
        ups((base.len() - shared) as nat) + path.skip(shared)
    }
}

/// Whether there is a way from `base` to `path`: nothing can be said of the way
/// out of a directory that is itself given as a step up.
pub open spec fn has_way(path: Seq<Seq<char>>, base: Seq<Seq<char>>) -> bool {
    let at = if strays(path, base) {
        1
    } else {
        in_common(path, base) as int
    };
    !(at < path.len() && at < base.len() && base[at] == up())
}

/// `pathdiff::diff_paths` gives the relative path that leads from the directory
/// `base` to `path`: one `..` for each component of `base` behind those that the
/// two share, and then what `path` has behind them, with `/` between. It gives
/// `None` where the component of `base` that would have to be left is itself a
/// `..`. A `.` that only `base` starts with counts for nothing, but the first
/// component of `path` then comes before the first `..`. This is how it takes Unix
/// paths. Nothing is claimed of paths of which only one is absolute.
#[verifier::external_body]
fn diff_paths(path: &str, base: &str) -> (out: Option<String>)
    requires
        absolute(path@) == absolute(base@),
    ensures
        match out {
            Some(diff) => has_way(components(path@), components(base@)) && diff@ == text::joined(
                way(components(path@), components(base@)),
                seq!['/'],
            ),
            None => !has_way(components(path@), components(base@)),
        },
{
    match pathdiff::diff_paths(path, base) {
        Some(diff) => Some(diff.to_string_lossy().into_owned()),
        None => None,
    }
}

/// Whether `parts` could each stand in a path: they name something and hold no
/// separator.
pub open spec fn all_names(parts: Seq<Seq<char>>) -> bool {
    forall|i: int| 0 <= i < parts.len() ==> names(#[trigger] parts[i]) && !parts[i].contains('/')
}

/// Behind the anchor, the components of a path are names.
pub proof fn lemma_components_are_names(path: Seq<char>)
    ensures
        all_names(components(path).skip(anchor(path).len() as int)),
{
    let pieces = text::pieces(path, '/');
    let kept = pieces.filter(naming());
    assert(components(path).skip(anchor(path).len() as int) =~= kept);
    text::law_joining_undoes_splitting(path, '/');
    assert forall|i: int| 0 <= i < kept.len() implies names(#[trigger] kept[i])
        && !kept[i].contains('/') by {
        pieces.lemma_filter_pred(naming(), i);
        assert(naming()(kept[i]));
        assert(kept.contains(kept[i]));
        pieces.lemma_filter_contains_rev(naming(), kept[i]);
        let j = choose|j: int| 0 <= j < pieces.len() && pieces[j] == kept[i];
        assert(!pieces[j].contains('/'));
    }
}

proof fn lemma_joined_starts(parts: Seq<Seq<char>>)
    requires
        parts.len() > 0,
        parts[0].len() > 0,
    ensures
        text::joined(parts, seq!['/']).len() > 0,
        text::joined(parts, seq!['/'])[0] == parts[0][0],
    decreases parts.len(),
{
    if parts.len() > 1 {
        lemma_joined_starts(parts.drop_last());
    }
}

/// What two lists start with in common is in both.
pub proof fn lemma_in_common(a: Seq<Seq<char>>, b: Seq<Seq<char>>)
    ensures
        in_common(a, b) <= a.len(),
        in_common(a, b) <= b.len(),
        a.take(in_common(a, b) as int) == b.take(in_common(a, b) as int),
    decreases a.len(),
{
    if a.len() > 0 && b.len() > 0 && a[0] == b[0] {
        let rest_a = a.drop_first();
        let rest_b = b.drop_first();
        lemma_in_common(rest_a, rest_b);
        let n = in_common(rest_a, rest_b) as int;
        assert(a.take(n + 1) =~= seq![a[0]] + rest_a.take(n));
        assert(b.take(n + 1) =~= seq![b[0]] + rest_b.take(n));
    } else {
        assert(a.take(0) =~= b.take(0));
    }
}

/// The steps that lead from the directory `base` to `path`: those of the way, but
/// for a `.` that leads nowhere.
pub open spec fn steps(path: Seq<Seq<char>>, base: Seq<Seq<char>>) -> Seq<Seq<char>> {
    way(path, base).filter(naming())
}

/// Whether one path can be reached from another by steps alone: both start at the
/// root or neither does, and the way does not start with `.`.
pub open spec fn connected(path: Seq<char>, base: Seq<char>) -> bool {
    &&& absolute(path) == absolute(base)
    &&& !(components(base).len() == 0 && components(path).len() > 0 && components(path)[0] == seq![
        '.',
    ])
}

/// What a way is made of: every part of it could stand in a path, and it does not
/// start with `.`.
proof fn lemma_way_parts(path: Seq<char>, base: Seq<char>)
    requires
        connected(path, base),
    ensures
        forall|i: int|
            0 <= i < way(components(path), components(base)).len() ==> {
                let part = #[trigger] way(components(path), components(base))[i];
                &&& part.len() > 0
                &&& !part.contains('/')
                &&& i == 0 ==> part != seq!['.']
                &&& part == seq!['.'] ==> anchor(path) == seq![seq!['.']]
            },
{
    let a = components(path);
    let b = components(base);
    let all = way(a, b);
    let n = anchor(path).len() as int;
    lemma_in_common(a, b);
    lemma_components_are_names(path);
    if absolute(path) {
        assert(a[0] == seq!['/']);
        assert(b[0] == seq!['/']);
        assert(in_common(a, b) >= 1);
    }
    assert forall|j: int| 0 <= j < a.len() && !(absolute(path) && j == 0) implies {
        let part = #[trigger] a[j];
        &&& part.len() > 0
        &&& !part.contains('/')
        &&& part == seq!['.'] ==> j == 0 && anchor(path) == seq![seq!['.']]
    } by {
        if j >= n {
            assert(a.skip(n)[j - n] == a[j]);
            assert(names(a[j]));
        } else {
            assert(a[j] == seq!['.']);
        }
    }
    assert forall|i: int| 0 <= i < all.len() implies {
        let part = #[trigger] all[i];
        &&& part.len() > 0
        &&& !part.contains('/')
        &&& i == 0 ==> part != seq!['.']
        &&& part == seq!['.'] ==> anchor(path) == seq![seq!['.']]
    } by {
        assert(up().len() == 2);
        if strays(a, b) {
            let count = b.len() - 1;
            if i == 0 {
                assert(all[i] == a[0]);
            } else if i <= count {
                assert(all[i] == up());
            } else {
                assert(all[i] == a[i - count]);
            }
        } else {
            let shared = in_common(a, b) as int;
            let count = b.len() - shared;
            if i < count {
                assert(all[i] == up());
            } else {
                assert(all[i] == a[i - count + shared]);
            }
        }
    }
}

/// Every step names something and holds no separator.
pub proof fn lemma_steps_are_names(path: Seq<char>, base: Seq<char>)
    requires
        connected(path, base),
    ensures
        all_names(steps(components(path), components(base))),
{
    let all = way(components(path), components(base));
    let kept = all.filter(naming());
    lemma_way_parts(path, base);
    assert forall|i: int| 0 <= i < kept.len() implies names(#[trigger] kept[i])
        && !kept[i].contains('/') by {
        all.lemma_filter_pred(naming(), i);
        assert(naming()(kept[i]));
        assert(kept.contains(kept[i]));
        all.lemma_filter_contains_rev(naming(), kept[i]);
        let j = choose|j: int| 0 <= j < all.len() && all[j] == kept[i];
        assert(!all[j].contains('/'));
    }
}

/// Between absolute paths every part of the way is a step.
pub proof fn lemma_steps_are_the_way(path: Seq<char>, base: Seq<char>)
    requires
        absolute(path),
        absolute(base),
    ensures
        steps(components(path), components(base)) == way(components(path), components(base)),
{
    let all = way(components(path), components(base));
    assert(components(base)[0] == seq!['/']);
    lemma_way_parts(path, base);
    assert forall|i: int| 0 <= i < all.len() implies names(#[trigger] all[i]) by {
        assert(all[i].len() > 0);
        if all[i] == seq!['.'] {
            assert(anchor(path)[0] == seq!['.']);
            assert(anchor(path)[0] == seq!['/']);
            assert(seq!['.'][0] != seq!['/'][0]);
        }
    }
    lemma_filter_keeps_names(all);
}

/// The steps that lead from the directory `base` to `path`: `..` for each step
/// up, and names to go down by. `None` if there is no way.
pub fn directions(path: &str, base: &str) -> (out: Option<Vec<String>>)
    requires
        connected(path@, base@),
    ensures
        match out {
            Some(out) => has_way(components(path@), components(base@)) && text::texts(out@)
                == steps(components(path@), components(base@)),
            None => !has_way(components(path@), components(base@)),
        },
{
    let diff: String = match diff_paths(path, base) {
        Some(diff) => diff,
        None => return None,
    };
    proof {
        let all = way(components(path@), components(base@));
        lemma_way_parts(path@, base@);
        if all.len() == 0 {
            lemma_filter_nothing();
            assert(diff@ =~= Seq::<char>::empty());
            assert(text::pieces(diff@, '/') == seq![Seq::<char>::empty()]);
            assert(all =~= Seq::<Seq<char>>::empty());
            assert(all.filter(naming()) =~= Seq::<Seq<char>>::empty()) by {
                reveal(Seq::filter);
            }
            assert(components(diff@) =~= steps(components(path@), components(base@)));
        } else {
            assert(all[0].len() > 0);
            assert forall|i: int| 0 <= i < all.len() implies !(#[trigger] all[i]).contains('/') by {
                assert(all[i].len() > 0);
            }
            text::law_splitting_undoes_joining(all, '/');
            lemma_joined_starts(all);
            assert(all[0].contains(all[0][0]));
            assert(components(diff@) =~= all.filter(naming()));
        }
    }
    Some(components_of(diff.as_str()))
}

/// The directory a path lies in, as its components: none for the root and for
/// the empty path.
pub open spec fn parent(path: Seq<char>) -> Option<Seq<char>> {
    let parts = components(path);
    if parts.len() == 0 || (parts.len() == 1 && parts[0] == seq!['/']) {
        None
    } else {
        Some(spelled(parts.drop_last()))
    }
}

/// The directory a path lies in.
pub fn parent_of(path: &str) -> (out: Option<String>)
    ensures
        match out {
            Some(out) => parent(path@) == Some(out@),
            None => parent(path@) is None,
        },
{
    let mut parts: Vec<String> = components_of(path);
    proof {
        reveal_strlit("/");
        assert("/"@ =~= seq!['/']);
        if parts@.len() > 0 {
            assert(text::texts(parts@)[0] == parts@[0]@);
        }
    }
    if parts.len() == 0 || (parts.len() == 1 && same(&parts[0], "/")) {
        return None;
    }
    let ghost all = text::texts(parts@);
    parts.pop();
    assert(text::texts(parts@) =~= all.drop_last());
    Some(join(parts.as_slice()))
}

/// What lies in a directory has that directory as its parent.
pub proof fn law_a_child_lies_in_its_parent(parts: Seq<Seq<char>>, name: Seq<char>)
    requires
        rooted(parts),
        names(name),
        !name.contains('/'),
    ensures
        parent(spelled(parts.push(name))) == Some(spelled(parts)),
{
    let child = parts.push(name);
    assert(rooted(child)) by {
        assert forall|i: int| 1 <= i < child.len() implies names(#[trigger] child[i])
            && !child[i].contains('/') by {
            if i < parts.len() {
                assert(child[i] == parts[i]);
            }
        }
    }
    law_taking_apart_undoes_spelling(child);
    assert(child.drop_last() =~= parts);
}

/// Going the way from a directory to a path arrives at the path: what is left
/// after the steps up, and then the names, are its components. From a `.` that the
/// path does not start with, it does not.
pub proof fn law_the_way_leads_there(path: Seq<Seq<char>>, base: Seq<Seq<char>>)
    requires
        !strays(path, base),
    ensures
        base.take(in_common(path, base) as int) + path.skip(in_common(path, base) as int) == path,
        way(path, base).len() == base.len() + path.len() - 2 * in_common(path, base),
{
    let shared = in_common(path, base) as int;
    lemma_in_common(path, base);
    assert(path.take(shared) + path.skip(shared) =~= path);
}

/// The components of an absolute path are the root, then names.
pub proof fn lemma_absolute_is_rooted(path: Seq<char>)
    requires
        absolute(path),
    ensures
        rooted(components(path)),
{
    let parts = components(path);
    lemma_components_are_names(path);
    assert forall|i: int| 1 <= i < parts.len() implies names(#[trigger] parts[i])
        && !parts[i].contains('/') by {
        assert(parts.skip(1)[i - 1] == parts[i]);
    }
}

proof fn lemma_joined_is_absolute(pieces: Seq<Seq<char>>)
    requires
        pieces.len() > 0,
        !pieces[0].contains('/'),
    ensures
        absolute(text::joined(pieces, seq!['/'])) <==> pieces.len() > 1 && pieces[0].len() == 0,
{
    let path = text::joined(pieces, seq!['/']);
    if pieces[0].len() > 0 {
        lemma_joined_starts(pieces);
        assert(pieces[0].contains(pieces[0][0]));
    } else if pieces.len() > 1 {
        let rest = pieces.skip(1);
        lemma_joined_behind_nothing(rest);
        assert(pieces[0] =~= Seq::<char>::empty());
        assert(seq![Seq::<char>::empty()] + rest =~= pieces);
    }
}

/// The components of a path that is written without anything superfluous: the names
/// between the separators, behind the root if there is a separator before them, and
/// behind a `.` if the path starts with one. The empty path has none.
pub proof fn law_components_are_what_is_between_separators(parts: Seq<Seq<char>>)
    requires
        forall|i: int|
            0 <= i < parts.len() ==> {
                let part = #[trigger] parts[i];
                part.len() > 0 && part != seq!['.'] && !part.contains('/')
            },
    ensures
        components(text::joined(parts, seq!['/'])) == parts,
        components(seq!['/'] + text::joined(parts, seq!['/'])) == seq![seq!['/']] + parts,
        parts.len() > 0 ==> components(seq!['.', '/'] + text::joined(parts, seq!['/'])) == seq![
            seq!['.'],
        ] + parts,
        components(seq!['.']) == seq![seq!['.']],
{
    let none = Seq::<char>::empty();
    let here = seq!['.'];
    lemma_filter_nothing();
    assert forall|i: int| 0 <= i < parts.len() implies names(#[trigger] parts[i]) by {
        assert(parts[i].len() > 0);
    }
    assert forall|i: int| 0 <= i < parts.len() implies !(#[trigger] parts[i]).contains('/') by {
        assert(parts[i].len() > 0);
    }
    lemma_filter_keeps_names(parts);
    assert(seq![here].filter(naming()) =~= Seq::<Seq<char>>::empty()) by {
        Seq::<Seq<char>>::empty().lemma_filter_push(here, naming());
        assert(seq![here] =~= Seq::<Seq<char>>::empty().push(here));
    }
    if parts.len() == 0 {
        assert(text::joined(parts, seq!['/']) =~= none);
        text::lemma_pieces_single(none, '/');
        assert(components(none) =~= parts);
    } else {
        text::law_splitting_undoes_joining(parts, '/');
        lemma_joined_is_absolute(parts);
        assert(parts[0].len() > 0);
        assert(components(text::joined(parts, seq!['/'])) =~= parts);
    }
    let from_root = seq![seq!['/']] + parts;
    assert(rooted(from_root)) by {
        assert forall|i: int| 1 <= i < from_root.len() implies names(#[trigger] from_root[i])
            && !from_root[i].contains('/') by {
            assert(from_root[i] == parts[i - 1]);
        }
    }
    law_taking_apart_undoes_spelling(from_root);
    assert(from_root.skip(1) =~= parts);
    assert(!here.contains('/'));
    text::lemma_pieces_single(here, '/');
    assert(components(here) =~= seq![here]);
    if parts.len() > 0 {
        let from_here = seq![here] + parts;
        text::law_parts_are_joined_one_after_the_other(seq![here], parts, seq!['/'], here);
        assert(here + seq!['/'] =~= seq!['.', '/']);
        assert forall|i: int| 0 <= i < from_here.len() implies !(
        #[trigger] from_here[i]).contains('/') by {
            if i > 0 {
                assert(from_here[i] == parts[i - 1]);
            }
        }
        text::law_splitting_undoes_joining(from_here, '/');
        lemma_joined_is_absolute(from_here);
        Seq::filter_distributes_over_add(seq![here], parts, naming());
        assert(components(text::joined(from_here, seq!['/'])) =~= from_here);
    }
}

/// A doubled or a trailing separator makes no component, and neither does a `.` behind
/// the first piece: a path means the same without it.
pub proof fn law_what_is_superfluous_makes_no_component(
    before: Seq<Seq<char>>,
    superfluous: Seq<char>,
    behind: Seq<Seq<char>>,
)
    requires
        before.len() > 0,
        before[0].len() > 0 || before.len() + behind.len() > 1,
        superfluous.len() == 0 || superfluous == seq!['.'],
        forall|i: int| 0 <= i < before.len() ==> !(#[trigger] before[i]).contains('/'),
        forall|i: int| 0 <= i < behind.len() ==> !(#[trigger] behind[i]).contains('/'),
    ensures
        components(text::joined(before + seq![superfluous] + behind, seq!['/'])) == components(
            text::joined(before + behind, seq!['/']),
        ),
{
    let with = before + seq![superfluous] + behind;
    let without = before + behind;
    assert(!seq!['.'].contains('/'));
    assert forall|i: int| 0 <= i < with.len() implies !(#[trigger] with[i]).contains('/') by {
        if i < before.len() {
            assert(with[i] == before[i]);
        } else if i > before.len() {
            assert(with[i] == behind[i - before.len() - 1]);
        }
    }
    assert forall|i: int| 0 <= i < without.len() implies !(#[trigger] without[i]).contains('/') by {
        if i < before.len() {
            assert(without[i] == before[i]);
        } else {
            assert(without[i] == behind[i - before.len()]);
        }
    }
    text::law_splitting_undoes_joining(with, '/');
    text::law_splitting_undoes_joining(without, '/');
    lemma_joined_is_absolute(with);
    lemma_joined_is_absolute(without);
    assert(with[0] == before[0]);
    assert(without[0] == before[0]);
    lemma_filter_nothing();
    let one = seq![superfluous];
    let none = Seq::<Seq<char>>::empty();
    none.lemma_filter_push(superfluous, naming());
    assert(none.push(superfluous) =~= one);
    assert(one.filter(naming()) =~= none);
    Seq::filter_distributes_over_add(before + one, behind, naming());
    Seq::filter_distributes_over_add(before, one, naming());
    Seq::filter_distributes_over_add(before, behind, naming());
    assert(with.filter(naming()) =~= without.filter(naming()));
}

/// A path is spelled with one separator between its components, and with the root's own
/// before them.
pub proof fn law_spelling_puts_separators_between(parts: Seq<Seq<char>>)
    ensures
        spelled(seq![seq!['/']] + parts) == seq!['/'] + text::joined(parts, seq!['/']),
        parts.len() == 0 || parts[0] != seq!['/'] ==> spelled(parts) == text::joined(
            parts,
            seq!['/'],
        ),
{
    assert((seq![seq!['/']] + parts).skip(1) =~= parts);
}

/// The root and the empty path lie in no directory. Everything else lies in the one
/// that is left when its last name is taken away.
pub proof fn law_a_path_lies_where_its_last_name_is_taken_away(
    parts: Seq<Seq<char>>,
    name: Seq<char>,
)
    requires
        forall|i: int|
            0 <= i < parts.len() ==> {
                let part = #[trigger] parts[i];
                part.len() > 0 && part != seq!['.'] && !part.contains('/')
            },
        name.len() > 0,
        name != seq!['.'],
        !name.contains('/'),
    ensures
        parent(seq!['/']) is None,
        parent(Seq::empty()) is None,
        parent(text::joined(parts.push(name), seq!['/'])) == Some(text::joined(parts, seq!['/'])),
        parent(seq!['/'] + text::joined(parts.push(name), seq!['/'])) == Some(
            seq!['/'] + text::joined(parts, seq!['/']),
        ),
{
    let none = Seq::<Seq<char>>::empty();
    law_components_are_what_is_between_separators(none);
    assert(text::joined(none, seq!['/']) =~= Seq::<char>::empty());
    assert(seq!['/'] + Seq::<char>::empty() =~= seq!['/']);
    assert(seq![seq!['/']] + none =~= seq![seq!['/']]);
    let all = parts.push(name);
    assert forall|i: int| 0 <= i < all.len() implies {
        let part = #[trigger] all[i];
        part.len() > 0 && part != seq!['.'] && !part.contains('/')
    } by {
        if i < parts.len() {
            assert(all[i] == parts[i]);
        }
    }
    law_components_are_what_is_between_separators(all);
    law_spelling_puts_separators_between(parts);
    assert(all.drop_last() =~= parts);
    assert((seq![seq!['/']] + all).drop_last() =~= seq![seq!['/']] + parts);
    assert(all[0] != seq!['/']) by {
        assert(seq!['/'][0] == '/');
        assert(all[0].len() > 0);
        if all[0] == seq!['/'] {
            assert(all[0].contains('/'));
        }
    }
    if parts.len() > 0 {
        assert(parts[0] == all[0]);
    }
}

/// What two lists have in common is as long as it can be: if both go on, they go on
/// differently.
pub proof fn law_no_more_is_in_common(a: Seq<Seq<char>>, b: Seq<Seq<char>>)
    ensures
        in_common(a, b) <= a.len(),
        in_common(a, b) <= b.len(),
        a.take(in_common(a, b) as int) == b.take(in_common(a, b) as int),
        in_common(a, b) < a.len() && in_common(a, b) < b.len() ==> a[in_common(a, b) as int]
            != b[in_common(a, b) as int],
    decreases a.len(),
{
    lemma_in_common(a, b);
    if a.len() > 0 && b.len() > 0 && a[0] == b[0] {
        law_no_more_is_in_common(a.drop_first(), b.drop_first());
    }
}

proof fn lemma_in_common_is(shared: Seq<Seq<char>>, a: Seq<Seq<char>>, b: Seq<Seq<char>>)
    requires
        a.len() == 0 || b.len() == 0 || a[0] != b[0],
    ensures
        in_common(shared + a, shared + b) == shared.len(),
    decreases shared.len(),
{
    if shared.len() == 0 {
        assert(shared + a =~= a);
        assert(shared + b =~= b);
    } else {
        lemma_in_common_is(shared.drop_first(), a, b);
        assert((shared + a).drop_first() =~= shared.drop_first() + a);
        assert((shared + b).drop_first() =~= shared.drop_first() + b);
    }
}

/// The way between two paths goes up once for each component that only the start has,
/// and then down by those that only the goal has. There is none if the first component
/// to be left is itself a step up and the goal goes on elsewhere.
pub proof fn law_the_way_goes_up_and_then_down(
    shared: Seq<Seq<char>>,
    goal: Seq<Seq<char>>,
    start: Seq<Seq<char>>,
    i: int,
)
    requires
        goal.len() == 0 || start.len() == 0 || goal[0] != start[0],
        shared.len() == 0 && goal.len() > 0 && start.len() > 0 ==> start[0] != seq!['.'],
    ensures
        ({
            let found = way(shared + goal, shared + start);
            &&& found.len() == start.len() + goal.len()
            &&& 0 <= i < start.len() ==> found[i] == seq!['.', '.']
            &&& start.len() <= i < found.len() ==> found[i] == goal[i - start.len()]
        }),
        has_way(shared + goal, shared + start) <==> !(goal.len() > 0 && start.len() > 0 && start[0]
            == seq!['.', '.']),
{
    lemma_in_common_is(shared, goal, start);
    let path = shared + goal;
    let base = shared + start;
    if shared.len() > 0 {
        assert(path[0] == shared[0]);
        assert(base[0] == shared[0]);
    } else {
        assert(path =~= goal);
        assert(base =~= start);
    }
    assert(path.skip(shared.len() as int) =~= goal);
    if goal.len() > 0 {
        assert(path[shared.len() as int] == goal[0]);
    }
    if start.len() > 0 {
        assert(base[shared.len() as int] == start[0]);
    }
}

/// From a `.` that the goal does not start with, the way goes down by the first name,
/// then up once for each component behind the `.`, and then on.
pub proof fn law_the_way_from_here(
    name: Seq<char>,
    goal: Seq<Seq<char>>,
    start: Seq<Seq<char>>,
    i: int,
)
    requires
        name != seq!['.'],
    ensures
        ({
            let found = way(seq![name] + goal, seq![seq!['.']] + start);
            &&& found.len() == 1 + start.len() + goal.len()
            &&& found[0] == name
            &&& 1 <= i <= start.len() ==> found[i] == seq!['.', '.']
            &&& start.len() < i < found.len() ==> found[i] == goal[i - start.len() - 1]
        }),
        has_way(seq![name] + goal, seq![seq!['.']] + start) <==> !(goal.len() > 0 && start.len() > 0
            && start[0] == seq!['.', '.']),
{
    let path = seq![name] + goal;
    let base = seq![seq!['.']] + start;
    assert(path[0] == name);
    assert(base[0] == seq!['.']);
    if start.len() > 0 {
        assert(base[1] == start[0]);
    }
}

/// The steps are the whole way, but for a `.`, which leads nowhere.
pub proof fn law_only_a_dot_is_no_step(
    path: Seq<Seq<char>>,
    base: Seq<Seq<char>>,
    before: Seq<Seq<char>>,
    behind: Seq<Seq<char>>,
)
    requires
        forall|i: int|
            0 <= i < before.len() ==> (#[trigger] before[i]).len() > 0 && before[i] != seq!['.'],
        forall|i: int|
            0 <= i < behind.len() ==> (#[trigger] behind[i]).len() > 0 && behind[i] != seq!['.'],
    ensures
        way(path, base) == before ==> steps(path, base) == before,
        way(path, base) == before + seq![seq!['.']] + behind ==> steps(path, base) == before
            + behind,
{
    assert forall|i: int| 0 <= i < before.len() implies names(#[trigger] before[i]) by {}
    assert forall|i: int| 0 <= i < behind.len() implies names(#[trigger] behind[i]) by {}
    lemma_filter_keeps_names(before);
    lemma_filter_keeps_names(behind);
    lemma_filter_nothing();
    let none = Seq::<Seq<char>>::empty();
    let here = seq![seq!['.']];
    none.lemma_filter_push(seq!['.'], naming());
    assert(none.push(seq!['.']) =~= here);
    assert(here.filter(naming()) =~= none);
    Seq::filter_distributes_over_add(before + here, behind, naming());
    Seq::filter_distributes_over_add(before, here, naming());
    assert(before + none + behind =~= before + behind);
}

/// Where a path lies depends on its components alone, however it is written. What
/// starts at a `.` lies there.
pub proof fn law_how_a_path_is_written_does_not_matter(
    a: Seq<char>,
    b: Seq<char>,
    name: Seq<char>,
)
    requires
        components(a) == components(b),
        name.len() > 0,
        name != seq!['.'],
        !name.contains('/'),
    ensures
        parent(a) == parent(b),
        parent(seq!['.', '/'] + name) == Some(seq!['.']),
        parent(seq!['.']) == Some(Seq::<char>::empty()),
{
    let parts = seq![name];
    law_components_are_what_is_between_separators(parts);
    assert(text::joined(parts, seq!['/']) == name);
    let all = seq![seq!['.']] + parts;
    assert(all.drop_last() =~= seq![seq!['.']]);
    let here = seq![seq!['.']];
    assert(here[0][0] == '.');
    assert(seq!['/'][0] == '/');
    assert(here.drop_last() =~= Seq::<Seq<char>>::empty());
    law_spelling_puts_separators_between(here);
    assert(text::joined(here, seq!['/']) == seq!['.']);
    law_spelling_puts_separators_between(Seq::empty());
    assert(text::joined(Seq::<Seq<char>>::empty(), seq!['/']) =~= Seq::<char>::empty());
}

} // verus!
