//! Where a file is: enough of its URI to tell files apart and to say which of
//! them lies in which.

use crate::text;
use crate::text::{same, starts_with};
use vstd::prelude::*;

verus! {

/// The origin of what has a local path.
pub const LOCAL_ORIGIN: &'static str = "file://";

/// Where a file is.
#[derive(Debug, Clone, PartialEq, Eq)]
pub struct Place<Text = String, Texts = Vec<String>> {
    /// What the file's URI says before its path: the scheme, the user, the host and
    /// the port.
    pub origin: Text,

    /// The names that lead to the file from the root. The root itself has none.
    pub parts: Texts,
}

impl View for Place {
    type V = Place<Seq<char>, Seq<Seq<char>>>;

    open spec fn view(&self) -> Place<Seq<char>, Seq<Seq<char>>> {
        Place { origin: self.origin@, parts: text::texts(self.parts@) }
    }
}

impl Place<Seq<char>, Seq<Seq<char>>> {
    /// Whether this is `outer` or lies somewhere below it.
    pub open spec fn within(self, outer: Self) -> bool {
        self.origin == outer.origin && outer.parts.is_prefix_of(self.parts)
    }

    /// Whether this has a local path.
    pub open spec fn local(self) -> bool {
        self.origin == LOCAL_ORIGIN@
    }

    /// The file called `name` in this directory.
    pub open spec fn child(self, name: Seq<char>) -> Self {
        Place { origin: self.origin, parts: self.parts.push(name) }
    }

    /// Whether this lies in the directory `dir` itself.
    pub open spec fn lies_in(self, dir: Self) -> bool {
        self.parts.len() > 0 && self == dir.child(self.parts.last())
    }
}

/// A copy of a list of strings.
fn copy_of(list: &Vec<String>) -> (out: Vec<String>)
    ensures
        text::texts(out@) == text::texts(list@),
{
    let ghost all = text::texts(list@);
    let mut out: Vec<String> = Vec::new();
    let mut i: usize = 0;
    while i < list.len()
        invariant
            i <= list@.len(),
            all == text::texts(list@),
            text::texts(out@) == all.take(i as int),
        decreases list.len() - i,
    {
        proof {
            text::lemma_texts_push(out@, list@[i as int]);
            assert(all.take(i + 1) =~= all.take(i as int).push(all[i as int]));
        }
        out.push(list[i].clone());
        i = i + 1;
    }
    assert(all.take(i as int) =~= all);
    out
}

impl Place {
    /// Whether this has a local path.
    pub fn is_local(&self) -> (out: bool)
        ensures
            out == self@.local(),
    {
        same(&self.origin, LOCAL_ORIGIN)
    }

    /// Whether this is `outer` or lies somewhere below it.
    pub fn is_within(&self, outer: &Place) -> (out: bool)
        ensures
            out == self@.within(outer@),
    {
        self.origin == outer.origin && starts_with(&self.parts, &outer.parts)
    }

    /// Whether both are the same place.
    pub fn is_same(&self, other: &Place) -> (out: bool)
        ensures
            out == (self@ == other@),
    {
        let same: bool = self.origin == other.origin && self.parts.len() == other.parts.len()
            && starts_with(&self.parts, &other.parts);
        proof {
            let parts = text::texts(self.parts@);
            let others = text::texts(other.parts@);
            if same {
                assert(parts.subrange(0, others.len() as int) =~= parts);
            }
            if self@ == other@ {
                assert(parts.subrange(0, others.len() as int) =~= others);
            }
        }
        same
    }

    /// The name of the file, which the root does not have.
    pub fn basename(&self) -> (name: Option<&String>)
        ensures
            match name {
                Some(name) => self@.parts.len() > 0 && name@ == self@.parts.last(),
                None => self@.parts.len() == 0,
            },
    {
        if self.parts.len() == 0 {
            None
        } else {
            Some(&self.parts[self.parts.len() - 1])
        }
    }

    /// The file called `name` in this directory.
    pub fn child(&self, name: &String) -> (place: Place)
        ensures
            place@ == self@.child(name@),
    {
        let mut parts: Vec<String> = copy_of(&self.parts);
        proof {
            text::lemma_texts_push(parts@, *name);
        }
        parts.push(name.clone());
        Place { origin: self.origin.clone(), parts }
    }

    /// Whether this lies in the directory `dir` itself.
    pub fn is_in(&self, dir: &Place) -> (out: bool)
        ensures
            out == self@.lies_in(dir@),
    {
        match self.basename() {
            Some(name) => self.is_same(&dir.child(name)),
            None => false,
        }
    }
}

/// A place is within another exactly if it is that place or within a child of it
/// that leads to it.
pub proof fn law_within_is_being_the_same_or_below(
    inner: Place<Seq<char>, Seq<Seq<char>>>,
    outer: Place<Seq<char>, Seq<Seq<char>>>,
)
    ensures
        inner.within(outer) <==> inner == outer || exists|name: Seq<char>|
            #[trigger] inner.within(outer.child(name)),
{
    if inner.within(outer) && inner != outer {
        let n = outer.parts.len() as int;
        if inner.parts.len() == n {
            assert(inner.parts =~= inner.parts.subrange(0, n));
        }
        let name = inner.parts[n];
        assert(inner.parts.subrange(0, n + 1) =~= outer.parts.push(name));
        assert(inner.within(outer.child(name)));
    }
    if inner == outer {
        assert(inner.parts.subrange(0, inner.parts.len() as int) =~= inner.parts);
    }
    if exists|name: Seq<char>| #[trigger] inner.within(outer.child(name)) {
        let name = choose|name: Seq<char>| #[trigger] inner.within(outer.child(name));
        let n = outer.parts.len() as int;
        assert(inner.parts.subrange(0, n) =~= outer.parts) by {
            assert(outer.parts.push(name) == inner.parts.subrange(0, n + 1));
            assert forall|i: int| 0 <= i < n implies inner.parts[i] == outer.parts[i] by {
                assert(inner.parts[i] == inner.parts.subrange(0, n + 1)[i]);
                assert(outer.parts.push(name)[i] == outer.parts[i]);
            }
        }
    }
}

/// What lies in a directory has the directory's names and then its own, on the same
/// origin. What is within a place has that place's names first, on the same origin.
pub proof fn law_names_lead_to_a_place(
    a: Place<Seq<char>, Seq<Seq<char>>>,
    b: Place<Seq<char>, Seq<Seq<char>>>,
    name: Seq<char>,
)
    ensures
        a.child(name).origin == a.origin,
        a.child(name).parts.len() == a.parts.len() + 1,
        a.child(name).parts.last() == name,
        a.child(name).parts.drop_last() == a.parts,
        a.lies_in(b) <==> a.origin == b.origin && a.parts.len() == b.parts.len() + 1
            && a.parts.drop_last() == b.parts,
        a.within(b) <==> a.origin == b.origin && a.parts.len() >= b.parts.len() && forall|i: int|
            0 <= i < b.parts.len() ==> #[trigger] a.parts[i] == b.parts[i],
        a.local() <==> a.origin == "file://"@,
{
    assert(a.child(name).parts.drop_last() =~= a.parts);
    if a.lies_in(b) {
        assert(a.parts == b.parts.push(a.parts.last()));
        assert(a.parts.drop_last() =~= b.parts);
    }
    if a.origin == b.origin && a.parts.len() == b.parts.len() + 1 && a.parts.drop_last()
        == b.parts {
        assert(b.parts.push(a.parts.last()) =~= a.parts);
    }
    if a.within(b) {
        assert forall|i: int| 0 <= i < b.parts.len() implies #[trigger] a.parts[i]
            == b.parts[i] by {
            assert(a.parts.subrange(0, b.parts.len() as int)[i] == b.parts[i]);
        }
    }
    if a.parts.len() >= b.parts.len() && forall|i: int|
        0 <= i < b.parts.len() ==> #[trigger] a.parts[i] == b.parts[i] {
        assert(a.parts.subrange(0, b.parts.len() as int) =~= b.parts);
    }
}

/// A child of a directory is in it and within it, on the same origin, and is called what
/// it was called.
pub proof fn law_a_child_is_in_its_directory(
    dir: Place,
    name: String,
    place: Place,
    is_in: bool,
    is_within: bool,
    is_same: bool,
    basename: Option<&String>,
    is_local: bool,
    dir_is_local: bool,
)
    requires
        call_ensures(<Place>::child, (&dir, &name), place),
        call_ensures(<Place>::is_in, (&place, &dir), is_in),
        call_ensures(<Place>::is_within, (&place, &dir), is_within),
        call_ensures(<Place>::is_same, (&place, &dir), is_same),
        call_ensures(<Place>::basename, (&place,), basename),
        call_ensures(<Place>::is_local, (&place,), is_local),
        call_ensures(<Place>::is_local, (&dir,), dir_is_local),
    ensures
        is_in,
        is_within,
        !is_same,
        basename is Some,
        basename->0@ == name@,
        is_local == dir_is_local,
        is_local <==> dir@.origin == LOCAL_ORIGIN@,
{
    let parts = dir@.parts;
    assert(place@.parts == parts.push(name@));
    assert(parts.is_prefix_of(parts.push(name@)));
    assert(place@.parts.len() == parts.len() + 1);
}

} // verus!
