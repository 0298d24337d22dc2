//! Filesystem operations: what is decided on the way through a tree of files,
//! and what is said of it. The files themselves are read and written elsewhere.

use crate::component::app;
use crate::component::app::{AppMsg, Transfer};
use crate::place::Place;
use vstd::multiset::*;
use vstd::prelude::*;
use vstd::seq_lib::*;

verus! {

/// File transfer progress update.
#[derive(Debug, Clone, Copy, PartialEq, Eq, Structural)]
pub struct Progress {
    /// Uniquely identifies the ongoing operation.
    pub id: u64,
    pub current: i64,
    pub total: i64,
}

impl Progress {
    /// Returns true if this is the final update that will be sent for this
    /// operation.
    pub fn is_complete(&self) -> (out: bool)
        ensures
            out == (self.current == self.total),
    {
        self.current == self.total
    }
}

/// Gives each operation a number of its own.
#[derive(Debug)]
pub struct Ids {
    pub next: u64,
}

impl Ids {
    /// Takes the next number. Behind the last one they start over.
    pub fn take(&mut self) -> (id: u64)
        ensures
            id == old(self).next,
            final(self).next == (if old(self).next == u64::MAX {
                0
            } else {
                old(self).next + 1
            }),
    {
        let id: u64 = self.next;
        self.next = if id == u64::MAX {
            0
        } else {
            id + 1
        };
        id
    }
}

/// One entry found under a copy source, and where it lands relative to the
/// destination root. A plain file yields a single node with an empty relative
/// path.
#[derive(Debug, Clone, PartialEq, Eq)]
pub struct Node<Path = Vec<u8>> {
    /// The path from the copy source to the entry, as the file system holds it: its
    /// bytes need not be text.
    pub relative: Path,
    pub is_dir: bool,
    pub size: i64,
}

impl View for Node {
    type V = Node<Seq<u8>>;

    open spec fn view(&self) -> Node<Seq<u8>> {
        Node { relative: self.relative@, is_dir: self.is_dir, size: self.size }
    }
}

impl Node {
    /// Where the node lands below the destination, or `None` if it lands on the
    /// destination itself.
    pub fn below(&self) -> (relative: Option<&[u8]>)
        ensures
            match relative {
                Some(relative) => relative@ == self.relative@ && relative@.len() > 0,
                None => self.relative@.len() == 0,
            },
    {
        if self.relative.len() == 0 {
            None
        } else {
            Some(self.relative.as_slice())
        }
    }
}

/// A list of paths as sequences.
pub open spec fn paths(list: Seq<Vec<u8>>) -> Seq<Seq<u8>> {
    list.map_values(|path: Vec<u8>| path@)
}

/// A list of nodes as sequences.
pub open spec fn listed(nodes: Seq<Node>) -> Seq<Node<Seq<u8>>> {
    nodes.map_values(|node: Node| node@)
}

/// What stands between the names of a path.
pub const SEPARATOR: u8 = 0x2f;

/// The path of what is called `name` in the directory at `prefix`.
pub open spec fn under(prefix: Seq<u8>, name: Seq<u8>) -> Seq<u8> {
    if prefix.len() == 0 {
        name
    } else {
        prefix.push(SEPARATOR) + name
    }
}

/// The directories among the nodes, by their paths.
pub open spec fn directories(nodes: Seq<Node<Seq<u8>>>) -> Seq<Seq<u8>>
    decreases nodes.len(),
{
    if nodes.len() == 0 {
        Seq::empty()
    } else {
        let before = directories(nodes.drop_last());
        if nodes.last().is_dir {
            before.push(nodes.last().relative)
        } else {
            before
        }
    }
}

/// Appends some bytes to others.
fn append_bytes(out: &mut Vec<u8>, bytes: &[u8])
    ensures
        final(out)@ == old(out)@ + bytes@,
{
    let ghost before = out@;
    let mut i: usize = 0;
    assert(before + bytes@.take(0) =~= before);
    while i < bytes.len()
        invariant
            i <= bytes@.len(),
            out@ == before + bytes@.take(i as int),
        decreases bytes.len() - i,
    {
        out.push(bytes[i]);
        assert(before + bytes@.take(i + 1) =~= (before + bytes@.take(i as int)).push(
            bytes@[i as int],
        ));
        i = i + 1;
    }
    assert(bytes@.take(i as int) =~= bytes@);
}

/// The path of what is called `name` in the directory at `prefix`.
fn path_under(prefix: &[u8], name: &[u8]) -> (path: Vec<u8>)
    ensures
        path@ == under(prefix@, name@),
{
    let mut path: Vec<u8> = Vec::new();
    if prefix.len() > 0 {
        append_bytes(&mut path, prefix);
        path.push(SEPARATOR);
    }
    append_bytes(&mut path, name);
    assert(path@ =~= under(prefix@, name@));
    path
}

/// Whether `nodes[i]` lies in a directory that was emitted before it.
pub open spec fn has_a_parent_before(nodes: Seq<Node<Seq<u8>>>, i: int) -> bool {
    exists|j: int, name: Seq<u8>|
        0 <= j < i && nodes[j].is_dir && nodes[i].relative == #[trigger] under(
            nodes[j].relative,
            name,
        )
}

/// A walk through everything under a root, directories included.
///
/// Directories are listed in their own right rather than implied by the files
/// inside them: an empty directory has no files to imply it and would otherwise
/// be dropped from the copy. A directory is always emitted before anything
/// inside it, so the copy can create it before writing into it.
pub struct Walk {
    /// What was found so far.
    pub nodes: Vec<Node>,

    /// The directories whose contents are still to be listed.
    pub pending: Vec<Vec<u8>>,

    /// The directories whose contents were asked for, in order.
    pub asked: Ghost<Seq<Seq<u8>>>,
}

impl Walk {
    /// Whether the walk is in order: it starts at the root, everything else is
    /// emitted behind the directory it lies in, and every directory found is
    /// either still to be listed or was asked for, once.
    pub open spec fn wf(&self) -> bool {
        let nodes = listed(self.nodes@);
        &&& nodes.len() > 0
        &&& nodes[0].relative.len() == 0
        &&& forall|i: int| 0 < i < nodes.len() ==> #[trigger] has_a_parent_before(nodes, i)
        &&& directories(nodes).to_multiset() == paths(self.pending@).to_multiset().add(
            self.asked@.to_multiset(),
        )
    }

    /// Starts at a root of which it is known whether it is a directory and how
    /// large it is. The root itself is a node: the destination directory is the
    /// first thing that must exist.
    pub fn start(is_dir: bool, size: i64) -> (walk: Walk)
        ensures
            walk.wf(),
            listed(walk.nodes@) == seq![
                Node {
                    relative: Seq::<u8>::empty(),
                    is_dir,
                    size: if is_dir {
                        0
                    } else {
                        size
                    },
                },
            ],
            paths(walk.pending@) == (if is_dir {
                seq![Seq::<u8>::empty()]
            } else {
                Seq::empty()
            }),
            walk.asked@ == Seq::<Seq<u8>>::empty(),
    {
        let mut nodes: Vec<Node> = Vec::new();
        let mut pending: Vec<Vec<u8>> = Vec::new();
        let root: Vec<u8> = Vec::new();
        let kept: i64 = if is_dir {
            0
        } else {
            size
        };
        nodes.push(Node { relative: root, is_dir, size: kept });
        if is_dir {
            pending.push(Vec::new());
        }
        let walk = Walk { nodes, pending, asked: Ghost(Seq::empty()) };
        proof {
            let none = Seq::<u8>::empty();
            let root = Node { relative: none, is_dir, size: kept };
            assert(listed(walk.nodes@) =~= seq![root]);
            assert(seq![root].drop_last() =~= Seq::<Node<Seq<u8>>>::empty());
            assert(directories(Seq::<Node<Seq<u8>>>::empty()) =~= Seq::<Seq<u8>>::empty());
            if is_dir {
                assert(paths(walk.pending@) =~= seq![none]);
                assert(directories(seq![root]) =~= seq![none]);
            } else {
                assert(paths(walk.pending@) =~= Seq::<Seq<u8>>::empty());
                assert(directories(seq![root]) =~= Seq::<Seq<u8>>::empty());
            }
            broadcast use group_to_multiset_ensures;

            assert(Seq::<Seq<u8>>::empty().to_multiset() =~= Multiset::empty());
            assert(directories(listed(walk.nodes@)).to_multiset() =~= paths(
                walk.pending@,
            ).to_multiset().add(walk.asked@.to_multiset()));
        }
        walk
    }

    /// The next directory whose contents are to be listed, or `None` once all of
    /// them were.
    pub fn next(&mut self) -> (directory: Option<Vec<u8>>)
        requires
            old(self).wf(),
        ensures
            final(self).wf(),
            final(self).nodes == old(self).nodes,
            match directory {
                Some(directory) => {
                    &&& paths(old(self).pending@).len() > 0
                    &&& directory@ == paths(old(self).pending@).last()
                    &&& paths(final(self).pending@) == paths(
                        old(self).pending@,
                    ).drop_last()
                    &&& final(self).asked@ == old(self).asked@.push(directory@)
                },
                None => {
                    &&& old(self).pending@.len() == 0
                    &&& final(self).pending@.len() == 0
                    &&& final(self).asked == old(self).asked
                },
            },
    {
        let ghost before = paths(self.pending@);
        match self.pending.pop() {
            Some(directory) => {
                proof {
                    let after = paths(self.pending@);
                    assert(after =~= before.drop_last());
                    assert(before =~= after.push(directory@));
                    broadcast use group_to_multiset_ensures;

                    assert(before.to_multiset() =~= after.to_multiset().insert(directory@));
                    assert(before.to_multiset().add(self.asked@.to_multiset())
                        =~= after.to_multiset().add(
                        self.asked@.push(directory@).to_multiset(),
                    ));
                }
                self.asked = Ghost(self.asked@.push(directory@));
                Some(directory)
            },
            None => None,
        }
    }

    /// Takes an entry called `name` that was found in `directory`.
    pub fn found(&mut self, directory: &[u8], name: &[u8], is_dir: bool, size: i64)
        requires
            old(self).wf(),
            directories(listed(old(self).nodes@)).contains(directory@),
        ensures
            final(self).wf(),
            listed(final(self).nodes@) == listed(old(self).nodes@).push(
                Node { relative: under(directory@, name@), is_dir, size },
            ),
            paths(final(self).pending@) == (if is_dir {
                paths(old(self).pending@).push(under(directory@, name@))
            } else {
                paths(old(self).pending@)
            }),
            final(self).asked == old(self).asked,
    {
        let ghost before = listed(self.nodes@);
        let ghost waiting = paths(self.pending@);
        let relative: Vec<u8> = path_under(directory, name);
        if is_dir {
            let waits: Vec<u8> = path_under(directory, name);
            self.pending.push(waits);
            assert(paths(self.pending@) =~= waiting.push(under(directory@, name@)));
        }
        self.nodes.push(Node { relative, is_dir, size });
        proof {
            let after = listed(self.nodes@);
            let node = Node { relative: under(directory@, name@), is_dir, size };
            assert(after =~= before.push(node));
            assert(after.drop_last() =~= before);
            let last = before.len() as int;
            let j = lemma_directory_is_a_node(before, directory@);
            assert(after[last].relative == under(after[j].relative, name@));
            assert(has_a_parent_before(after, last));
            assert forall|i: int| 0 < i < after.len() implies #[trigger] has_a_parent_before(
                after,
                i,
            ) by {
                if i < last {
                    assert(has_a_parent_before(before, i));
                    let (k, part) = choose|k: int, part: Seq<u8>|
                        0 <= k < i && before[k].is_dir && before[i].relative == #[trigger] under(
                            before[k].relative,
                            part,
                        );
                    assert(after[i].relative == under(after[k].relative, part));
                }
            }
            broadcast use group_to_multiset_ensures;

            assert(directories(after).to_multiset() =~= paths(
                self.pending@,
            ).to_multiset().add(self.asked@.to_multiset()));
        }
    }
}

proof fn lemma_directory_is_a_node(nodes: Seq<Node<Seq<u8>>>, directory: Seq<u8>) -> (i: int)
    requires
        directories(nodes).contains(directory),
    ensures
        0 <= i < nodes.len(),
        nodes[i].is_dir,
        nodes[i].relative == directory,
    decreases nodes.len(),
{
    let all = directories(nodes);
    let at = choose|at: int| 0 <= at < all.len() && all[at] == directory;
    if nodes.last().is_dir && at == all.len() - 1 {
        nodes.len() - 1
    } else {
        assert(directories(nodes.drop_last())[at] == directory);
        lemma_directory_is_a_node(nodes.drop_last(), directory)
    }
}

/// Everything a walk emits lies behind the directory it lies in, so that the
/// directory can be made first.
pub proof fn law_a_directory_comes_before_its_contents(walk: Walk, i: int)
    requires
        walk.wf(),
        0 < i < walk.nodes@.len(),
    ensures
        listed(walk.nodes@)[0].relative.len() == 0,
        has_a_parent_before(listed(walk.nodes@), i),
{
    assert(has_a_parent_before(listed(walk.nodes@), i));
}

/// Once a walk has nothing left to list, every directory it found was listed,
/// exactly once: none is dropped, an empty one neither, and none is followed in
/// circles.
pub proof fn law_every_directory_is_listed_once(walk: Walk, directory: Seq<u8>)
    requires
        walk.wf(),
        walk.pending@.len() == 0,
    ensures
        walk.asked@.to_multiset() == directories(listed(walk.nodes@)).to_multiset(),
        walk.asked@.contains(directory) <==> directories(listed(walk.nodes@)).contains(directory),
        walk.asked@.len() == directories(listed(walk.nodes@)).len(),
{
    broadcast use group_to_multiset_ensures;

    assert(paths(walk.pending@) =~= Seq::<Seq<u8>>::empty());
    assert(Seq::<Seq<u8>>::empty().to_multiset() =~= Multiset::empty());
    let found = directories(listed(walk.nodes@));
    assert(walk.asked@.to_multiset() =~= found.to_multiset());
    assert(walk.asked@.to_multiset().count(directory) == found.to_multiset().count(directory));
    assert(walk.asked@.to_multiset().len() == found.to_multiset().len());
}

/// How many bytes the files among the nodes hold.
pub open spec fn total_size(nodes: Seq<Node<Seq<u8>>>) -> int
    decreases nodes.len(),
{
    if nodes.len() == 0 {
        0
    } else if nodes.last().is_dir {
        total_size(nodes.drop_last())
    } else {
        total_size(nodes.drop_last()) + nodes.last().size
    }
}

/// How many bytes those of the files hold whose copy went well.
pub open spec fn copied_size(nodes: Seq<Node<Seq<u8>>>, went_well: Seq<bool>) -> int
    decreases nodes.len(),
{
    if nodes.len() == 0 {
        0
    } else {
        let before = copied_size(nodes.drop_last(), went_well.drop_last());
        if nodes.last().is_dir || !went_well.last() {
            before
        } else {
            before + nodes.last().size
        }
    }
}

/// The sizes of the files among the nodes without regard to their signs, added up:
/// no sum of some of the sizes is further from zero.
pub open spec fn magnitude(nodes: Seq<Node<Seq<u8>>>) -> int
    decreases nodes.len(),
{
    if nodes.len() == 0 {
        0
    } else if nodes.last().is_dir {
        magnitude(nodes.drop_last())
    } else {
        let size = nodes.last().size as int;
        magnitude(nodes.drop_last()) + (if size < 0 {
            -size
        } else {
            size
        })
    }
}

proof fn lemma_sums_are_bounded(nodes: Seq<Node<Seq<u8>>>, went_well: Seq<bool>)
    ensures
        -magnitude(nodes) <= total_size(nodes) <= magnitude(nodes),
        -magnitude(nodes) <= copied_size(nodes, went_well) <= magnitude(nodes),
        0 <= magnitude(nodes),
    decreases nodes.len(),
{
    if nodes.len() > 0 {
        lemma_sums_are_bounded(nodes.drop_last(), went_well.drop_last());
    }
}

proof fn lemma_magnitude_grows(nodes: Seq<Node<Seq<u8>>>, count: int)
    requires
        0 <= count <= nodes.len(),
    ensures
        magnitude(nodes.take(count)) <= magnitude(nodes),
    decreases nodes.len() - count,
{
    if count == nodes.len() {
        assert(nodes.take(count) =~= nodes);
    } else {
        lemma_magnitude_grows(nodes, count + 1);
        assert(nodes.take(count + 1).drop_last() =~= nodes.take(count));
    }
}

/// How a step of an operation ended.
#[derive(Debug, Clone, PartialEq, Eq)]
pub enum Outcome<Text = String> {
    /// As intended.
    Done,

    /// It failed with this error because the target was there already.
    Exists(Text),

    /// It failed with this error.
    Failed(Text),
}

impl View for Outcome {
    type V = Outcome<Seq<char>>;

    open spec fn view(&self) -> Outcome<Seq<char>> {
        match self {
            Outcome::Done => Outcome::Done,
            Outcome::Exists(error) => Outcome::Exists(error@),
            Outcome::Failed(error) => Outcome::Failed(error@),
        }
    }
}

impl Outcome<Seq<char>> {
    /// What went wrong, if anything did. A directory that is there already is what
    /// was wanted; a file that is there already is not.
    pub open spec fn error(self, is_dir: bool) -> Option<Seq<char>> {
        match self {
            Outcome::Done => None,
            Outcome::Exists(error) => if is_dir {
                None
            } else {
                Some(error)
            },
            Outcome::Failed(error) => Some(error),
        }
    }
}

/// What the user reads of a copy: the name of what is copied, where it has one.
pub open spec fn copy_description(name: Option<&str>) -> Seq<char> {
    let shown = match name {
        Some(name) => name@,
        None => "file"@,
    };
    "Copying '"@ + shown + "'"@
}

/// Reports on one file of a copy while it is under way.
#[derive(Debug, Clone, Copy, PartialEq, Eq, Structural)]
pub struct Reporter {
    /// The number of the operation.
    pub id: u64,

    /// How many bytes were copied before this file.
    pub finished_before: i64,

    /// How many bytes there are in all.
    pub total: i64,
}

impl Reporter {
    /// What to say when `current` bytes of the file are there: bytes are offset by
    /// everything that was already finished, so the bar tracks the whole tree
    /// instead of restarting at every file.
    pub fn progress(&self, current: i64) -> (message: AppMsg)
        requires
            i64::MIN <= self.finished_before + current <= i64::MAX,
        ensures
            message@ == AppMsg::<Seq<char>, Seq<Seq<char>>>::Transfer(
                Transfer::Progress(
                    Progress {
                        id: self.id,
                        current: (self.finished_before + current) as i64,
                        total: self.total,
                    },
                ),
            ),
    {
        AppMsg::Transfer(
            Transfer::Progress(
                Progress {
                    id: self.id,
                    current: self.finished_before + current,
                    total: self.total,
                },
            ),
        )
    }
}

/// Copying a file or a whole tree, node by node.
pub struct Copying {
    /// The number of this operation.
    pub id: u64,

    /// What is to be copied, each directory before its contents.
    pub nodes: Vec<Node>,

    /// How many nodes are behind.
    pub next: usize,

    /// How many bytes there are in all.
    pub total: i64,

    /// How many bytes were copied in files that are finished.
    pub done: i64,

    /// For each node that is behind, whether it went well.
    pub went_well: Ghost<Seq<bool>>,
}

impl Copying {
    /// Whether the copy is in order: its sums are what they stand for.
    pub open spec fn wf(&self) -> bool {
        let nodes = listed(self.nodes@);
        &&& self.next <= nodes.len()
        &&& magnitude(nodes) <= i64::MAX
        &&& self.total == total_size(nodes)
        &&& self.went_well@.len() == self.next
        &&& self.done == copied_size(nodes.take(self.next as int), self.went_well@)
    }

    /// Begins to copy `nodes`, which were found under a source of the given name,
    /// and says so.
    pub fn start(id: u64, nodes: Vec<Node>, name: Option<&str>) -> (begun: (Copying, AppMsg))
        requires
            magnitude(listed(nodes@)) <= i64::MAX,
        ensures
            begun.0.wf(),
            begun.0.id == id,
            begun.0.nodes == nodes,
            begun.0.next == 0,
            begun.1@ == AppMsg::<Seq<char>, Seq<Seq<char>>>::Transfer(
                Transfer::New { id, description: copy_description(name) },
            ),
    {
        let ghost all = listed(nodes@);
        let mut total: i64 = 0;
        let mut i: usize = 0;
        proof {
            assert(all.take(0) =~= Seq::<Node<Seq<u8>>>::empty());
        }
        while i < nodes.len()
            invariant
                i <= nodes@.len(),
                all == listed(nodes@),
                magnitude(all) <= i64::MAX,
                total == total_size(all.take(i as int)),
            decreases nodes.len() - i,
        {
            proof {
                assert(all.take(i + 1).drop_last() =~= all.take(i as int));
                assert(all[i as int] == nodes@[i as int]@);
                lemma_sums_are_bounded(all.take(i + 1), Seq::empty());
                lemma_magnitude_grows(all, i + 1);
            }
            if !nodes[i].is_dir {
                total = total + nodes[i].size;
            }
            i = i + 1;
        }
        proof {
            assert(all.take(i as int) =~= all);
            assert(all.take(0) =~= Seq::<Node<Seq<u8>>>::empty());
        }
        let mut description: String = "Copying '".to_owned();
        match name {
            Some(name) => description.append(name),
            None => description.append("file"),
        }
        description.append("'");
        let copying = Copying {
            id,
            nodes,
            next: 0,
            total,
            done: 0,
            went_well: Ghost(Seq::empty()),
        };
        (copying, AppMsg::Transfer(Transfer::New { id, description }))
    }

    /// The node to copy next, or `None` once all are behind.
    pub fn current(&self) -> (node: Option<&Node>)
        requires
            self.wf(),
        ensures
            match node {
                Some(node) => self.next < self.nodes@.len() && *node
                    == self.nodes@[self.next as int],
                None => self.next == self.nodes@.len(),
            },
    {
        if self.next < self.nodes.len() {
            Some(&self.nodes[self.next])
        } else {
            None
        }
    }

    /// What reports on the file that is copied next while it is under way.
    pub fn reporter(&self) -> (reporter: Reporter)
        ensures
            reporter == (Reporter {
                id: self.id,
                finished_before: self.done,
                total: self.total,
            }),
    {
        Reporter { id: self.id, finished_before: self.done, total: self.total }
    }

    /// What is said when the current node ended in `outcome`: the error if there is
    /// one, and after a file how far the whole tree is.
    pub open spec fn says(&self, outcome: Outcome<Seq<char>>) -> Seq<
        AppMsg<Seq<char>, Seq<Seq<char>>>,
    > {
        let node = self.nodes@[self.next as int]@;
        match outcome.error(node.is_dir) {
            Some(error) => seq![AppMsg::Error(error)],
            None => if node.is_dir {
                Seq::empty()
            } else {
                seq![
                    AppMsg::Transfer(
                        Transfer::Progress(
                            Progress {
                                id: self.id,
                                current: (self.done + node.size) as i64,
                                total: self.total,
                            },
                        ),
                    ),
                ]
            },
        }
    }

    /// Takes how the current node ended, moves on to the next and returns what to
    /// say. A node that failed does not keep the others from being copied.
    pub fn advance(&mut self, outcome: Outcome) -> (messages: Vec<AppMsg>)
        requires
            old(self).wf(),
            old(self).next < old(self).nodes@.len(),
        ensures
            final(self).wf(),
            final(self).id == old(self).id,
            final(self).nodes == old(self).nodes,
            final(self).total == old(self).total,
            final(self).next == old(self).next + 1,
            final(self).went_well@ == old(self).went_well@.push(
                outcome@.error(old(self).nodes@[old(self).next as int].is_dir) is None,
            ),
            app::said(messages@) == old(self).says(outcome@),
    {
        let ghost all = listed(self.nodes@);
        let ghost was = *self;
        assert(self.next < self.nodes.len());
        let node: &Node = &self.nodes[self.next];
        let is_dir: bool = node.is_dir;
        let size: i64 = node.size;
        let mut messages: Vec<AppMsg> = Vec::new();
        let ghost well = outcome@.error(is_dir) is None;
        let failure: Option<String> = match outcome {
            Outcome::Done => None,
            Outcome::Exists(error) => if is_dir {
                None
            } else {
                Some(error)
            },
            Outcome::Failed(error) => Some(error),
        };
        proof {
            let count = self.next as int;
            let ends = self.went_well@.push(well);
            assert(all[count] == self.nodes@[count]@);
            assert(all.take(count + 1).drop_last() =~= all.take(count));
            assert(ends.drop_last() =~= self.went_well@);
            lemma_sums_are_bounded(all.take(count + 1), ends);
            lemma_magnitude_grows(all, count + 1);
        }
        match failure {
            Some(error) => {
                messages.push(AppMsg::Error(error));
            },
            None => {
                if !is_dir {
                    self.done = self.done + size;
                    messages.push(
                        AppMsg::Transfer(
                            Transfer::Progress(
                                Progress { id: self.id, current: self.done, total: self.total },
                            ),
                        ),
                    );
                }
            },
        }
        self.next = self.next + 1;
        self.went_well = Ghost(self.went_well@.push(well));
        assert(app::said(messages@) =~= was.says(outcome@));
        messages
    }

    /// What is said at the end. Without it the row lives for the life of the
    /// process and the header keeps a spinner over work that finished long ago.
    pub fn close(&self) -> (message: AppMsg)
        ensures
            message@ == AppMsg::<Seq<char>, Seq<Seq<char>>>::Transfer(
                Transfer::Done { id: self.id },
            ),
    {
        AppMsg::Transfer(Transfer::Done { id: self.id })
    }
}

/// If everything went well, every byte is copied at the end, so the last update
/// is complete.
pub proof fn law_all_went_well_means_complete(copying: Copying)
    requires
        copying.wf(),
        copying.next == copying.nodes@.len(),
        forall|i: int|
            0 <= i < copying.went_well@.len() ==> #[trigger] copying.went_well@[i],
    ensures
        copying.done == copying.total,
{
    let nodes = listed(copying.nodes@);
    assert(nodes.take(copying.next as int) =~= nodes);
    lemma_all_copied(nodes, copying.went_well@);
}

proof fn lemma_all_copied(nodes: Seq<Node<Seq<u8>>>, went_well: Seq<bool>)
    requires
        went_well.len() == nodes.len(),
        forall|i: int| 0 <= i < went_well.len() ==> #[trigger] went_well[i],
    ensures
        copied_size(nodes, went_well) == total_size(nodes),
    decreases nodes.len(),
{
    if nodes.len() > 0 {
        assert(went_well[went_well.len() - 1]);
        lemma_all_copied(nodes.drop_last(), went_well.drop_last());
    }
}

/// As no file is smaller than nothing, the copy never claims more than there is
/// and never loses what it has.
pub proof fn law_a_copy_only_moves_forward(nodes: Seq<Node<Seq<u8>>>, went_well: Seq<bool>)
    requires
        went_well.len() == nodes.len(),
        forall|i: int|
            0 <= i < nodes.len() ==> (#[trigger] nodes[i]).is_dir || nodes[i].size >= 0,
    ensures
        0 <= copied_size(nodes, went_well) <= total_size(nodes),
        nodes.len() > 0 ==> copied_size(nodes.drop_last(), went_well.drop_last()) <= copied_size(
            nodes,
            went_well,
        ),
    decreases nodes.len(),
{
    if nodes.len() > 0 {
        assert(nodes[nodes.len() - 1].is_dir || nodes[nodes.len() - 1].size >= 0);
        law_a_copy_only_moves_forward(nodes.drop_last(), went_well.drop_last());
    }
}

/// What the user reads of a move: the name of what is moved and of the directory
/// it is moved to, as far as they are known.
pub open spec fn move_description(file: Option<&str>, destination: Option<&str>) -> Seq<char> {
    let file = match file {
        Some(name) => name@,
        None => "file"@,
    };
    let destination = match destination {
        Some(name) => name@,
        None => "destination"@,
    };
    "Moving '"@ + file + "' to '"@ + destination + "'"@
}

/// Begins to move a file, and says so.
pub fn move_started(id: u64, file: Option<&str>, destination: Option<&str>) -> (message: AppMsg)
    ensures
        message@ == AppMsg::<Seq<char>, Seq<Seq<char>>>::Transfer(
            Transfer::New { id, description: move_description(file, destination) },
        ),
{
    let mut description: String = "Moving '".to_owned();
    match file {
        Some(name) => description.append(name),
        None => description.append("file"),
    }
    description.append("' to '");
    match destination {
        Some(name) => description.append(name),
        None => description.append("destination"),
    }
    description.append("'");
    AppMsg::Transfer(Transfer::New { id, description })
}

/// What is said while a file is being moved.
pub fn move_progressed(id: u64, current: i64, total: i64) -> (message: AppMsg)
    ensures
        message@ == AppMsg::<Seq<char>, Seq<Seq<char>>>::Transfer(
            Transfer::Progress(Progress { id, current, total }),
        ),
{
    AppMsg::Transfer(Transfer::Progress(Progress { id, current, total }))
}

/// What is said at the end of a move: the error if there is one, and that it is
/// over, whether it succeeded or failed.
pub fn move_finished(id: u64, error: Option<String>) -> (messages: Vec<AppMsg>)
    ensures
        app::said(messages@) == (match error {
            Some(error) => seq![
                AppMsg::<Seq<char>, Seq<Seq<char>>>::Error(error@),
                AppMsg::Transfer(Transfer::Done { id }),
            ],
            None => seq![
                AppMsg::<Seq<char>, Seq<Seq<char>>>::Transfer(Transfer::Done { id }),
            ],
        }),
{
    let mut messages: Vec<AppMsg> = Vec::new();
    let ghost failure = error;
    if let Some(error) = error {
        messages.push(AppMsg::Error(error));
    }
    messages.push(AppMsg::Transfer(Transfer::Done { id }));
    proof {
        match failure {
            Some(error) => {
                assert(app::said(messages@) =~= seq![
                    AppMsg::<Seq<char>, Seq<Seq<char>>>::Error(error@),
                    AppMsg::Transfer(Transfer::Done { id }),
                ]);
            },
            None => {
                assert(app::said(messages@) =~= seq![
                    AppMsg::<Seq<char>, Seq<Seq<char>>>::Transfer(Transfer::Done { id }),
                ]);
            },
        }
    }
    messages
}

/// Where a file dropped on the directory `destination` is to be moved, or `None`
/// if it is there already.
pub fn handle_drop(file: &Place, destination: &Place) -> (target: Option<Place>)
    requires
        file@.parts.len() > 0,
    ensures
        match target {
            Some(target) => target@ == destination@.child(file@.parts.last()) && target@ != file@,
            None => destination@.child(file@.parts.last()) == file@,
        },
{
    match file.basename() {
        Some(name) => {
            let target: Place = destination.child(name);
            if target.is_same(file) {
                None
            } else {
                Some(target)
            }
        },
        None => None,
    }
}

/// Whether a drop of `file` on the directory `dir` is rejected: it is in that
/// directory already.
pub fn rejects_drop(file: &Place, dir: &Place) -> (out: bool)
    ensures
        out == file@.lies_in(dir@),
{
    file.is_in(dir)
}

/// What is rejected while it is dragged over a directory is what would not be
/// moved if it were dropped there.
pub proof fn law_a_drop_is_rejected_where_it_changes_nothing(
    file: Place<Seq<char>, Seq<Seq<char>>>,
    dir: Place<Seq<char>, Seq<Seq<char>>>,
)
    requires
        file.parts.len() > 0,
    ensures
        file.lies_in(dir) <==> dir.child(file.parts.last()) == file,
{
}

/// A path in a directory is the directory's, a separator and the name, and in the root
/// the name alone.
pub proof fn law_a_name_stands_behind_its_directory(directory: Seq<u8>, name: Seq<u8>)
    ensures
        under(Seq::empty(), name) == name,
        directory.len() > 0 ==> under(directory, name) == directory + seq![0x2fu8] + name,
{
    assert(directory.push(0x2fu8) =~= directory + seq![0x2fu8]);
}

/// Everything a walk has found but its root lies in a directory that it found before.
pub proof fn law_a_walk_goes_from_directory_to_directory(walk: Walk, i: int) -> (found: (
    int,
    Seq<u8>,
))
    requires
        walk.wf(),
        0 < i < walk.nodes@.len(),
    ensures
        ({
            let directory = walk.nodes@[found.0];
            &&& 0 <= found.0 < i
            &&& directory.is_dir
            &&& directory.relative@.len() == 0 ==> walk.nodes@[i].relative@ == found.1
            &&& directory.relative@.len() > 0 ==> walk.nodes@[i].relative@ == directory.relative@
                + seq![0x2fu8] + found.1
        }),
        walk.nodes@[0].relative@.len() == 0,
{
    let nodes = listed(walk.nodes@);
    assert(has_a_parent_before(nodes, i));
    let (j, name) = choose|j: int, name: Seq<u8>|
        0 <= j < i && nodes[j].is_dir && nodes[i].relative == #[trigger] under(
            nodes[j].relative,
            name,
        );
    law_a_name_stands_behind_its_directory(nodes[j].relative, name);
    assert(nodes[j] == walk.nodes@[j]@);
    assert(nodes[i] == walk.nodes@[i]@);
    assert(nodes[0] == walk.nodes@[0]@);
    if nodes[j].relative.len() == 0 {
        assert(nodes[j].relative =~= Seq::<u8>::empty());
    }
    (j, name)
}

/// The directories among some nodes are exactly those of them that are directories, in
/// their order.
pub proof fn law_directories_are_told_from_files(
    nodes: Seq<Node<Seq<u8>>>,
    relative: Seq<u8>,
    size: i64,
)
    ensures
        directories(Seq::empty()).len() == 0,
        directories(nodes.push(Node { relative, is_dir: true, size })) == directories(nodes).push(
            relative,
        ),
        directories(nodes.push(Node { relative, is_dir: false, size })) == directories(nodes),
{
    assert(nodes.push(Node { relative, is_dir: true, size }).drop_last() =~= nodes);
    assert(nodes.push(Node { relative, is_dir: false, size }).drop_last() =~= nodes);
}

/// How much there is to copy, and how much was copied, go up by the size of each file,
/// the second only if its copy went well. A directory counts for nothing, whatever size
/// it is given.
pub proof fn law_files_count_by_their_size(
    nodes: Seq<Node<Seq<u8>>>,
    went_well: Seq<bool>,
    relative: Seq<u8>,
    size: i64,
    well: bool,
)
    ensures
        total_size(Seq::empty()) == 0,
        copied_size(Seq::empty(), Seq::empty()) == 0,
        magnitude(Seq::empty()) == 0,
        ({
            let file = nodes.push(Node { relative, is_dir: false, size });
            let directory = nodes.push(Node { relative, is_dir: true, size });
            &&& total_size(file) == total_size(nodes) + size
            &&& total_size(directory) == total_size(nodes)
            &&& copied_size(file, went_well.push(true)) == copied_size(nodes, went_well) + size
            &&& copied_size(file, went_well.push(false)) == copied_size(nodes, went_well)
            &&& copied_size(directory, went_well.push(well)) == copied_size(nodes, went_well)
            &&& size >= 0 ==> magnitude(file) == magnitude(nodes) + size
            &&& size < 0 ==> magnitude(file) == magnitude(nodes) - size
            &&& magnitude(directory) == magnitude(nodes)
        }),
{
    assert(nodes.push(Node { relative, is_dir: false, size }).drop_last() =~= nodes);
    assert(nodes.push(Node { relative, is_dir: true, size }).drop_last() =~= nodes);
    assert(went_well.push(true).drop_last() =~= went_well);
    assert(went_well.push(false).drop_last() =~= went_well);
    assert(went_well.push(well).drop_last() =~= went_well);
}

/// A step went wrong exactly if it failed, or if there was a file in its way; a
/// directory in the place of a directory is what was wanted.
pub proof fn law_a_directory_may_be_there_already(error: Seq<char>, is_dir: bool)
    ensures
        Outcome::<Seq<char>>::Done.error(is_dir) is None,
        Outcome::Exists(error).error(true) is None,
        Outcome::Exists(error).error(false) == Some(error),
        Outcome::Failed(error).error(is_dir) == Some(error),
{
}

/// After each step the user is told what went wrong, or, after a file, how many bytes of
/// the whole are there now; of a directory that was made nothing is said.
pub proof fn law_each_step_is_reported(copying: Copying, error: Seq<char>, next: Copying)
    requires
        copying.wf(),
        copying.next < copying.nodes@.len(),
        next.wf(),
        next.nodes == copying.nodes,
        next.next == copying.next + 1,
        next.went_well@ == copying.went_well@.push(true),
    ensures
        ({
            let node = copying.nodes@[copying.next as int];
            let complaint = seq![AppMsg::<Seq<char>, Seq<Seq<char>>>::Error(error)];
            let report = seq![
                AppMsg::<Seq<char>, Seq<Seq<char>>>::Transfer(
                    Transfer::Progress(
                        Progress { id: copying.id, current: next.done, total: copying.total },
                    ),
                ),
            ];
            &&& copying.says(Outcome::Failed(error)) == complaint
            &&& node.is_dir ==> copying.says(Outcome::Exists(error)).len() == 0
            &&& node.is_dir ==> copying.says(Outcome::Done).len() == 0
            &&& node.is_dir ==> next.done == copying.done
            &&& !node.is_dir ==> copying.says(Outcome::Exists(error)) == complaint
            &&& !node.is_dir ==> copying.says(Outcome::Done) == report
            &&& !node.is_dir ==> next.done == copying.done + node.size
        }),
{
    let all = listed(copying.nodes@);
    let count = copying.next as int;
    let ends = copying.went_well@.push(true);
    assert(all[count] == copying.nodes@[count]@);
    assert(all.take(count + 1).drop_last() =~= all.take(count));
    assert(ends.drop_last() =~= copying.went_well@);
}

/// What is copied or moved is called by its name where it has one.
pub proof fn law_transfers_are_described_by_name(name: &str, destination: &str)
    ensures
        copy_description(Some(name)) == "Copying '"@ + name@ + "'"@,
        copy_description(None) == "Copying 'file'"@,
        move_description(Some(name), Some(destination)) == "Moving '"@ + name@ + "' to '"@
            + destination@ + "'"@,
        move_description(None, Some(destination)) == "Moving 'file' to '"@ + destination@ + "'"@,
        move_description(Some(name), None) == "Moving '"@ + name@ + "' to 'destination'"@,
        move_description(None, None) == "Moving 'file' to 'destination'"@,
{
    reveal_strlit("Copying '");
    reveal_strlit("Copying 'file'");
    reveal_strlit("'");
    reveal_strlit("file");
    reveal_strlit("destination");
    reveal_strlit("Moving '");
    reveal_strlit("' to '");
    reveal_strlit("Moving 'file' to '");
    reveal_strlit("' to 'destination'");
    reveal_strlit("Moving 'file' to 'destination'");
    assert(copy_description(None) =~= "Copying 'file'"@);
    assert(move_description(None, Some(destination)) =~= "Moving 'file' to '"@ + destination@
        + "'"@);
    assert(move_description(Some(name), None) =~= "Moving '"@ + name@ + "' to 'destination'"@);
    assert(move_description(None, None) =~= "Moving 'file' to 'destination'"@);
}

/// An update is final exactly if everything that there is to transfer was.
pub proof fn law_an_update_at_the_total_is_final(update: Progress, is_final: bool)
    requires
        call_ensures(Progress::is_complete, (&update,), is_final),
    ensures
        update.current < update.total ==> !is_final,
        update.current == update.total ==> is_final,
        update.current > update.total ==> !is_final,
{
}

/// Two operations in a row have different numbers.
pub proof fn law_each_operation_has_its_own_number(ids: &mut Ids, id: u64)
    requires
        call_ensures(Ids::take, (ids,), id),
    ensures
        id == old(ids).next,
        id < u64::MAX ==> final(ids).next == id + 1,
        id == u64::MAX ==> final(ids).next == 0,
        final(ids).next != id,
{
}

/// A node lands where its path leads below the destination, and the root on the
/// destination itself.
pub proof fn law_a_node_lands_where_its_path_leads(node: Node, below: Option<&[u8]>)
    requires
        call_ensures(Node::below, (&node,), below),
    ensures
        node.relative@.len() == 0 <==> below is None,
        node.relative@.len() > 0 ==> below->0@ == node.relative@,
{
}

/// A walk begins at its root, which is to be listed if it is a directory and counts by
/// its size if it is a file.
pub proof fn law_a_walk_begins_at_its_root(is_dir: bool, size: i64, walk: Walk)
    requires
        call_ensures(Walk::start, (is_dir, size), walk),
    ensures
        walk.wf(),
        walk.nodes@.len() == 1,
        walk.nodes@[0].relative@.len() == 0,
        walk.nodes@[0].is_dir == is_dir,
        total_size(listed(walk.nodes@)) == (if is_dir {
            0
        } else {
            size as int
        }),
        is_dir ==> walk.pending@.len() == 1 && walk.pending@[0]@.len() == 0,
        !is_dir ==> walk.pending@.len() == 0,
{
    let nodes = listed(walk.nodes@);
    assert(nodes.len() == walk.nodes@.len());
    assert(nodes[0] == walk.nodes@[0]@);
    assert(nodes.drop_last() =~= Seq::<Node<Seq<u8>>>::empty());
    reveal_with_fuel(total_size, 2);
    assert(paths(walk.pending@).len() == walk.pending@.len());
    if is_dir {
        assert(paths(walk.pending@)[0] == walk.pending@[0]@);
    }
}

/// What was found is added behind everything else, under its directory, and is to be
/// listed itself if it is a directory.
pub proof fn law_what_was_found_is_added(
    walk: &mut Walk,
    directory: &[u8],
    name: &[u8],
    is_dir: bool,
    size: i64,
)
    requires
        call_ensures(Walk::found, (walk, directory, name, is_dir, size), ()),
    ensures
        ({
            let count = old(walk).nodes@.len() as int;
            let waiting = old(walk).pending@.len() as int;
            let node = final(walk).nodes@[count];
            &&& final(walk).nodes@.len() == count + 1
            &&& node.is_dir == is_dir
            &&& node.size == size
            &&& directory@.len() == 0 ==> node.relative@ == name@
            &&& directory@.len() > 0 ==> node.relative@ == directory@ + seq![0x2fu8] + name@
            &&& is_dir ==> final(walk).pending@.len() == waiting + 1
                && final(walk).pending@[waiting]@ == node.relative@
            &&& !is_dir ==> final(walk).pending@.len() == waiting
        }),
{
    law_a_name_stands_behind_its_directory(directory@, name@);
    let count = old(walk).nodes@.len() as int;
    let waiting = old(walk).pending@.len() as int;
    assert(listed(final(walk).nodes@).len() == final(walk).nodes@.len());
    assert(listed(final(walk).nodes@)[count] == final(walk).nodes@[count]@);
    assert(paths(final(walk).pending@).len() == final(walk).pending@.len());
    assert(paths(old(walk).pending@).len() == waiting);
    if is_dir {
        assert(paths(final(walk).pending@)[waiting] == final(walk).pending@[waiting]@);
    }
    if directory@.len() == 0 {
        assert(directory@ =~= Seq::<u8>::empty());
    }
}

/// While a file is copied, what is reported is what was copied before it and what of it
/// is there, out of everything.
pub proof fn law_a_file_is_reported_within_the_whole(
    copying: Copying,
    reporter: Reporter,
    current: i64,
    message: AppMsg,
)
    requires
        call_ensures(Copying::reporter, (&copying,), reporter),
        call_ensures(Reporter::progress, (&reporter, current), message),
        i64::MIN <= copying.done + current <= i64::MAX,
    ensures
        message@ matches AppMsg::Transfer(Transfer::Progress(update)) && update.id == copying.id
            && update.current == copying.done + current && update.total == copying.total,
{
}

/// A transfer is begun and ended under the same number, and an error is told before the
/// end.
pub proof fn law_what_is_begun_is_ended(
    copying: Copying,
    id: u64,
    file: Option<&str>,
    destination: Option<&str>,
    error: Option<String>,
    begun: AppMsg,
    under_way: AppMsg,
    current: i64,
    total: i64,
    ended: Vec<AppMsg>,
    closed: AppMsg,
)
    requires
        call_ensures(move_started, (id, file, destination), begun),
        call_ensures(move_progressed, (id, current, total), under_way),
        call_ensures(move_finished, (id, error), ended),
        call_ensures(Copying::close, (&copying,), closed),
    ensures
        begun@ matches AppMsg::Transfer(Transfer::New { id: number, .. }) && number == id,
        under_way@ matches AppMsg::Transfer(Transfer::Progress(update)) && update.id == id
            && update.current == current && update.total == total,
        ended@.len() == (if error is Some {
            2int
        } else {
            1
        }),
        ended@.last()@ matches AppMsg::Transfer(Transfer::Done { id: number }) && number == id,
        error is Some ==> (ended@[0]@ matches AppMsg::Error(told) && told == error->0@),
        closed@ matches AppMsg::Transfer(Transfer::Done { id: number }) && number == copying.id,
{
    assert(app::said(ended@).len() == ended@.len());
    assert(app::said(ended@).last() == ended@.last()@);
    assert(app::said(ended@)[0] == ended@[0]@);
}

/// The node that is copied next is the first that is not behind.
pub proof fn law_nodes_are_copied_in_their_order(copying: Copying, node: Option<&Node>)
    requires
        copying.wf(),
        call_ensures(Copying::current, (&copying,), node),
    ensures
        copying.next < copying.nodes@.len() ==> node == Some(&copying.nodes@[copying.next as int]),
        copying.next == copying.nodes@.len() ==> node is None,
{
}

/// A drop is rejected exactly if it would move nothing, and otherwise moves the file into
/// the directory under the name it has.
pub proof fn law_a_drop_moves_a_file_under_its_name(
    file: Place,
    dir: Place,
    rejected: bool,
    target: Option<Place>,
)
    requires
        file@.parts.len() > 0,
        call_ensures(rejects_drop, (&file, &dir), rejected),
        call_ensures(handle_drop, (&file, &dir), target),
    ensures
        rejected <==> target is None,
        rejected <==> file@.origin == dir@.origin && file@.parts.drop_last() == dir@.parts,
        target is Some ==> target->0@.origin == dir@.origin && target->0@.parts == dir@.parts.push(
            file@.parts.last(),
        ),
{
    law_a_drop_is_rejected_where_it_changes_nothing(file@, dir@);
    let name = file@.parts.last();
    assert(dir@.parts.push(name).drop_last() =~= dir@.parts);
    assert(file@.parts.drop_last().push(name) =~= file@.parts);
}

/// The directory that is listed next is the one that was found last, and it is listed no
/// second time. Nothing that was found is lost.
pub proof fn law_the_last_directory_found_is_listed_next(
    walk: &mut Walk,
    directory: Option<Vec<u8>>,
)
    requires
        call_ensures(Walk::next, (walk,), directory),
    ensures
        ({
            let waiting = old(walk).pending@.len() as int;
            &&& final(walk).nodes@ == old(walk).nodes@
            &&& directory is None <==> waiting == 0
            &&& directory is Some ==> {
                &&& (directory->0)@ == old(walk).pending@[waiting - 1]@
                &&& final(walk).pending@.len() == waiting - 1
                &&& final(walk).asked@ == old(walk).asked@.push((directory->0)@)
            }
            &&& directory is None ==> final(walk).pending@.len() == 0
        }),
{
    let waiting = old(walk).pending@.len() as int;
    assert(paths(old(walk).pending@).len() == waiting);
    assert(paths(final(walk).pending@).len() == final(walk).pending@.len());
    if waiting > 0 {
        assert(paths(old(walk).pending@)[waiting - 1] == old(walk).pending@[waiting - 1]@);
    }
}

/// A copy begins with nothing behind it and all of its bytes before it, and goes on by
/// one node at a time, whatever comes of it. Only what went well counts as copied.
pub proof fn law_a_copy_goes_on_node_by_node(
    id: u64,
    nodes: Vec<Node>,
    name: Option<&str>,
    begun: (Copying, AppMsg),
    copying: &mut Copying,
    outcome: Outcome,
    messages: Vec<AppMsg>,
)
    requires
        call_ensures(Copying::start, (id, nodes, name), begun),
        old(copying).wf(),
        old(copying).next < old(copying).nodes@.len(),
        call_ensures(Copying::advance, (copying, outcome), messages),
    ensures
        begun.0.id == id,
        begun.0.nodes@ == nodes@,
        begun.0.next == 0,
        begun.0.done == 0,
        begun.0.total == total_size(listed(nodes@)),
        begun.1@ matches AppMsg::Transfer(Transfer::New { id: number, .. }) && number == id,
        final(copying).next == old(copying).next + 1,
        final(copying).nodes@ == old(copying).nodes@,
        final(copying).id == old(copying).id,
        final(copying).total == old(copying).total,
        ({
            let node = old(copying).nodes@[old(copying).next as int];
            &&& outcome is Done && !node.is_dir ==> final(copying).done == old(copying).done
                + node.size
            &&& !(outcome is Done) || node.is_dir ==> final(copying).done == old(copying).done
            &&& messages@.len() == (if outcome is Failed || !node.is_dir {
                1int
            } else {
                0
            })
        }),
{
    assert(listed(begun.0.nodes@).take(0) =~= Seq::<Node<Seq<u8>>>::empty());
    let all = listed(old(copying).nodes@);
    let count = old(copying).next as int;
    assert(all[count] == old(copying).nodes@[count]@);
    assert(all.take(count + 1).drop_last() =~= all.take(count));
    assert(final(copying).went_well@.drop_last() =~= old(copying).went_well@);
    assert(app::said(messages@).len() == messages@.len());
}

} // verus!
