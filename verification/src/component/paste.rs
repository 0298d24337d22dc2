//! Pasting files into a directory: which of them may be pasted, what is done with
//! each, and what the user reads afterwards.

use crate::clipboard;
use crate::clipboard::{free_name, read_file_clipboard, ClipboardOp};
use crate::place::Place;
use crate::text;
use crate::text::{decimal_text, join};
use vstd::prelude::*;
use vstd::utf8::*;

verus! {

/// Why a file is not pasted.
#[derive(Debug, Clone, Copy, PartialEq, Eq, Structural)]
pub enum Skip {
    /// It has no local path.
    NotLocal,

    /// It would be pasted into itself, or below itself. Whatever local directory is
    /// pasted into lies below the root.
    IntoItself,

    /// It has no name to be pasted under.
    NoName,

    /// It was cut, and is in the directory already.
    AlreadyThere,
}

/// The name under which `source` is to be pasted into `destination`, or why it must
/// not be.
///
/// What has no local path is not pasted, a directory is never pasted into itself or
/// below itself, what has no name is not pasted, and a cut does not land where it
/// already lives.
pub open spec fn verdict(
    op: ClipboardOp,
    source: Place<Seq<char>, Seq<Seq<char>>>,
    destination: Place<Seq<char>, Seq<Seq<char>>>,
) -> Result<Seq<char>, Skip> {
    if !source.local() {
        Err(Skip::NotLocal)
    } else if destination.within(source) {
        Err(Skip::IntoItself)
    } else if source.parts.len() == 0 {
        Err(Skip::NoName)
    } else if op == ClipboardOp::Cut && source.lies_in(destination) {
        Err(Skip::AlreadyThere)
    } else {
        Ok(source.parts.last())
    }
}

/// How many files were not pasted, by reason.
#[derive(Debug, Clone, Copy, PartialEq, Eq, Structural)]
pub struct Skipped {
    pub not_local: usize,
    pub into_itself: usize,
    pub no_name: usize,
    pub already_there: usize,
}

impl Skipped {
    /// How many files were not pasted for this reason.
    pub open spec fn because(self, why: Skip) -> nat {
        match why {
            Skip::NotLocal => self.not_local as nat,
            Skip::IntoItself => self.into_itself as nat,
            Skip::NoName => self.no_name as nat,
            Skip::AlreadyThere => self.already_there as nat,
        }
    }

    /// How many files were not pasted in all.
    pub open spec fn all(self) -> nat {
        (self.not_local + self.into_itself + self.no_name + self.already_there) as nat
    }
}

/// What the user reads of a reason.
pub open spec fn reason(why: Skip) -> Seq<char> {
    match why {
        Skip::NotLocal => "without a local path"@,
        Skip::IntoItself => "into itself"@,
        Skip::NoName => "without a name"@,
        Skip::AlreadyThere => "already there"@,
    }
}

/// What is noted of a reason: nothing where it kept no file, and how many files it
/// kept unless it kept all of them.
pub open spec fn note(skipped: Skipped, why: Skip) -> Seq<Seq<char>> {
    if skipped.because(why) == 0 {
        Seq::empty()
    } else if skipped.because(why) == skipped.all() {
        seq![reason(why)]
    } else {
        seq![text::decimal(skipped.because(why)) + " "@ + reason(why)]
    }
}

/// What is noted of all reasons.
pub open spec fn notes(skipped: Skipped) -> Seq<Seq<char>> {
    note(skipped, Skip::NotLocal) + note(skipped, Skip::IntoItself) + note(skipped, Skip::NoName)
        + note(skipped, Skip::AlreadyThere)
}

/// What the user reads after a paste. If every file was skipped that is how many
/// they were and why: a keypress that appears to do nothing makes the user press
/// it again.
pub open spec fn summary(pasted: nat, skipped: Skipped) -> Seq<char> {
    if pasted == 0 && skipped.all() == 0 {
        "Nothing to paste"@
    } else if pasted == 0 {
        text::decimal(skipped.all()) + " skipped: "@ + text::joined(notes(skipped), ", "@)
    } else if skipped.all() == 0 {
        if pasted == 1 {
            "1 file pasted"@
        } else {
            text::decimal(pasted) + " files pasted"@
        }
    } else {
        text::decimal(pasted) + " pasted, "@ + text::decimal(skipped.all()) + " skipped"@
    }
}

/// What is to be done with a file on the clipboard.
#[derive(Debug, Clone, PartialEq, Eq)]
pub enum Step {
    /// Nothing, for this reason.
    Skip(Skip),

    /// Copy it to this name in the directory.
    Copy(String),

    /// Move it to this name in the directory.
    Move(String),
}

/// A paste under way.
#[derive(Debug)]
pub struct Paste {
    /// What was asked for when the files were put on the clipboard.
    pub op: ClipboardOp,

    /// The directory that is pasted into.
    pub destination: Place,

    /// How many files were pasted so far, whether or not that succeeded.
    pub pasted: usize,

    /// How many of them were to be moved and could not be.
    pub failed: usize,

    /// How many files were skipped so far, and why.
    pub skipped: Skipped,
}

impl Paste {
    /// A paste of which nothing has been done yet.
    pub fn new(op: ClipboardOp, destination: Place) -> (paste: Paste)
        ensures
            paste.op == op,
            paste.destination == destination,
            paste.pasted == 0,
            paste.failed == 0,
            paste.skipped.all() == 0,
    {
        Paste {
            op,
            destination,
            pasted: 0,
            failed: 0,
            skipped: Skipped { not_local: 0, into_itself: 0, no_name: 0, already_there: 0 },
        }
    }

    /// Begins to paste what the clipboard offers as its two types, and returns the
    /// files to take. If it holds no files, what the user reads instead.
    pub fn begin(gnome: Option<&str>, uri_list: Option<&str>, destination: Place) -> (begun: Result<
        (Paste, Vec<String>),
        String,
    >)
        ensures
            match begun {
                Ok((paste, uris)) => {
                    &&& clipboard::file_clipboard(
                        clipboard::offered(gnome),
                        clipboard::offered(uri_list),
                    ) == Some((paste.op, text::texts(uris@)))
                    &&& paste.destination == destination
                    &&& paste.pasted == 0
                    &&& paste.failed == 0
                    &&& paste.skipped.all() == 0
                },
                Err(message) => {
                    &&& clipboard::file_clipboard(
                        clipboard::offered(gnome),
                        clipboard::offered(uri_list),
                    ) is None
                    &&& message@ == "Nothing to paste"@
                },
            },
    {
        match read_file_clipboard(gnome, uri_list) {
            Some((op, uris)) => Ok((Paste::new(op, destination), uris)),
            None => Err("Nothing to paste".to_owned()),
        }
    }

    /// The name to paste `source` under, which is still to be made free, or why it
    /// is skipped.
    pub fn judge(&self, source: &Place) -> (name: Result<String, Skip>)
        ensures
            match name {
                Ok(name) => verdict(self.op, source@, self.destination@) == Ok::<Seq<char>, Skip>(
                    name@,
                ),
                Err(why) => verdict(self.op, source@, self.destination@) == Err::<Seq<char>, Skip>(
                    why,
                ),
            },
    {
        if !source.is_local() {
            return Err(Skip::NotLocal);
        }
        if self.destination.is_within(source) {
            return Err(Skip::IntoItself);
        }
        let name: String = match source.basename() {
            Some(name) => name.clone(),
            None => return Err(Skip::NoName),
        };
        if self.op == ClipboardOp::Cut && source.is_in(&self.destination) {
            return Err(Skip::AlreadyThere);
        }
        Ok(name)
    }

    /// Counts a file that is skipped.
    fn skip(&mut self, why: Skip)
        requires
            old(self).skipped.all() < usize::MAX,
        ensures
            final(self).op == old(self).op,
            final(self).destination == old(self).destination,
            final(self).pasted == old(self).pasted,
            final(self).failed == old(self).failed,
            forall|other: Skip|
                #[trigger] final(self).skipped.because(other) == old(self).skipped.because(other)
                    + (if other == why {
                    1nat
                } else {
                    0
                }),
            final(self).skipped.all() == old(self).skipped.all() + 1,
    {
        match why {
            Skip::NotLocal => {
                self.skipped.not_local = self.skipped.not_local + 1;
            },
            Skip::IntoItself => {
                self.skipped.into_itself = self.skipped.into_itself + 1;
            },
            Skip::NoName => {
                self.skipped.no_name = self.skipped.no_name + 1;
            },
            Skip::AlreadyThere => {
                self.skipped.already_there = self.skipped.already_there + 1;
            },
        }
    }

    /// Takes the next file and returns what is to be done with it. What was copied
    /// is copied and what was cut is moved, either to a name of which `taken` says
    /// that it is free, so that nothing in the directory is overwritten. What is
    /// skipped is counted by its reason.
    pub fn step(&mut self, source: &Place, taken: impl Fn(&str) -> bool) -> (step: Step)
        requires
            old(self).pasted + old(self).skipped.all() < usize::MAX,
            forall|s: &str| #[trigger] call_requires(taken, (s,)),
            verdict(old(self).op, source@, old(self).destination@) matches Ok(name)
                ==> clipboard::some_free(name, taken),
        ensures
            final(self).op == old(self).op,
            final(self).destination == old(self).destination,
            final(self).failed == old(self).failed,
            match verdict(old(self).op, source@, old(self).destination@) {
                Ok(name) => {
                    &&& match step {
                        Step::Skip(_) => false,
                        Step::Copy(free) => old(self).op == ClipboardOp::Copy
                            && clipboard::first_free(name, taken, free@),
                        Step::Move(free) => old(self).op == ClipboardOp::Cut
                            && clipboard::first_free(name, taken, free@),
                    }
                    &&& final(self).pasted == old(self).pasted + 1
                    &&& final(self).skipped == old(self).skipped
                },
                Err(why) => {
                    &&& step == Step::Skip(why)
                    &&& final(self).pasted == old(self).pasted
                    &&& forall|other: Skip|
                        #[trigger] final(self).skipped.because(other) == old(
                            self,
                        ).skipped.because(other) + (if other == why {
                            1nat
                        } else {
                            0
                        })
                },
            },
            final(self).pasted + final(self).skipped.all() == old(self).pasted + old(
                self,
            ).skipped.all() + 1,
    {
        match self.judge(source) {
            Ok(name) => {
                let free: String = free_name(name.as_str(), taken);
                self.pasted = self.pasted + 1;
                match self.op {
                    ClipboardOp::Copy => Step::Copy(free),
                    ClipboardOp::Cut => Step::Move(free),
                }
            },
            Err(why) => {
                self.skip(why);
                Step::Skip(why)
            },
        }
    }

    /// Records that a file that was to be moved is still where it was.
    pub fn move_failed(&mut self)
        requires
            old(self).op == ClipboardOp::Cut,
            old(self).failed < old(self).pasted,
        ensures
            *final(self) == (Paste { failed: (old(self).failed + 1) as usize, ..*old(self) }),
    {
        self.failed = self.failed + 1;
    }

    /// Whether the clipboard is spent once every file was taken: what was cut has
    /// moved, and a second paste would fail on every one of the files. If nothing was
    /// moved it all can be pasted yet.
    pub fn spends_clipboard(&self) -> (out: bool)
        ensures
            out == (self.op == ClipboardOp::Cut && self.pasted > self.failed),
    {
        self.op == ClipboardOp::Cut && self.pasted > self.failed
    }

    /// What the user reads once every file was taken.
    pub fn message(&self) -> (message: String)
        requires
            self.pasted + self.skipped.all() <= usize::MAX,
        ensures
            message@ == summary(self.pasted as nat, self.skipped),
    {
        let skipped: usize = self.skipped.not_local + self.skipped.into_itself
            + self.skipped.no_name + self.skipped.already_there;
        if self.pasted == 0 && skipped == 0 {
            "Nothing to paste".to_owned()
        } else if self.pasted == 0 {
            let mut message: String = decimal_text(skipped as u64);
            message.append(" skipped: ");
            message.append(self.skipped.reasons(skipped).as_str());
            message
        } else if skipped == 0 {
            if self.pasted == 1 {
                "1 file pasted".to_owned()
            } else {
                let mut message: String = decimal_text(self.pasted as u64);
                message.append(" files pasted");
                message
            }
        } else {
            let mut message: String = decimal_text(self.pasted as u64);
            message.append(" pasted, ");
            message.append(decimal_text(skipped as u64).as_str());
            message.append(" skipped");
            message
        }
    }
}

/// Notes a reason that kept `count` of `all` files.
fn note_down(list: &mut Vec<String>, count: usize, all: usize, why: &str)
    ensures
        text::texts(final(list)@) == text::texts(old(list)@) + (if count == 0 {
            Seq::empty()
        } else if count == all {
            seq![why@]
        } else {
            seq![text::decimal(count as nat) + " "@ + why@]
        }),
{
    let ghost before = list@;
    if count > 0 {
        let mut noted: String = String::new();
        if count != all {
            noted.append(decimal_text(count as u64).as_str());
            noted.append(" ");
        }
        noted.append(why);
        proof {
            if count == all {
                assert(noted@ =~= why@);
            } else {
                assert(noted@ =~= text::decimal(count as nat) + " "@ + why@);
            }
            text::lemma_texts_push(before, noted);
            assert(text::texts(before).push(noted@) =~= text::texts(before) + seq![noted@]);
        }
        list.push(noted);
    } else {
        assert(text::texts(list@) =~= text::texts(before) + Seq::empty());
    }
}

impl Skipped {
    /// What the user reads of the reasons, of which there are `all` together.
    fn reasons(&self, all: usize) -> (out: String)
        requires
            all == self.all(),
        ensures
            out@ == text::joined(notes(*self), ", "@),
    {
        let mut list: Vec<String> = Vec::new();
        assert(text::texts(list@) =~= Seq::<Seq<char>>::empty());
        note_down(&mut list, self.not_local, all, "without a local path");
        note_down(&mut list, self.into_itself, all, "into itself");
        note_down(&mut list, self.no_name, all, "without a name");
        note_down(&mut list, self.already_there, all, "already there");
        assert(text::texts(list@) =~= notes(*self));
        join(list.as_slice(), ", ")
    }
}

/// A paste that skipped every file says how many there were, and notes each reason
/// for which any of them was.
pub proof fn law_a_paste_that_did_nothing_says_why(skipped: Skipped, why: Skip)
    requires
        skipped.because(why) > 0,
    ensures
        summary(0, skipped) == text::decimal(skipped.all()) + " skipped: "@ + text::joined(
            notes(skipped),
            ", "@,
        ),
        exists|i: int|
            0 <= i < notes(skipped).len() && reason(why).is_suffix_of(#[trigger] notes(skipped)[i]),
{
    let before: Seq<Seq<char>> = match why {
        Skip::NotLocal => Seq::empty(),
        Skip::IntoItself => note(skipped, Skip::NotLocal),
        Skip::NoName => note(skipped, Skip::NotLocal) + note(skipped, Skip::IntoItself),
        Skip::AlreadyThere => note(skipped, Skip::NotLocal) + note(skipped, Skip::IntoItself)
            + note(skipped, Skip::NoName),
    };
    let noted = note(skipped, why)[0];
    let at = before.len() as int;
    assert(notes(skipped)[at] == noted);
    assert(noted.subrange(noted.len() - reason(why).len(), noted.len() as int) =~= reason(why));
    assert(reason(why).is_suffix_of(notes(skipped)[at]));
}

/// Nothing is ever pasted into itself or below itself: a directory within its own
/// copy helps nobody.
pub proof fn law_nothing_is_pasted_into_itself(
    op: ClipboardOp,
    source: Place<Seq<char>, Seq<Seq<char>>>,
    destination: Place<Seq<char>, Seq<Seq<char>>>,
    name: Seq<char>,
)
    requires
        verdict(op, source, destination) is Ok,
    ensures
        !destination.within(source),
        destination != source,
        !destination.child(name).within(source) || destination.child(name) == source,
{
    if destination == source {
        assert(destination.parts.subrange(0, destination.parts.len() as int)
            =~= destination.parts);
    }
    let target = destination.child(name);
    if target.within(source) && target != source {
        let n = source.parts.len() as int;
        assert(source.parts == target.parts.subrange(0, n));
        if n == target.parts.len() {
            assert(target.parts =~= target.parts.subrange(0, n));
        } else {
            assert(target.parts.subrange(0, n) =~= destination.parts.subrange(0, n));
        }
    }
}

/// A cut that lands where it already lives does nothing, while a copy there makes
/// another file beside the first.
pub proof fn law_only_a_copy_lands_beside_itself(
    source: Place<Seq<char>, Seq<Seq<char>>>,
    destination: Place<Seq<char>, Seq<Seq<char>>>,
)
    requires
        source.local(),
        source.lies_in(destination),
    ensures
        verdict(ClipboardOp::Cut, source, destination) == Err::<Seq<char>, Skip>(
            Skip::AlreadyThere,
        ),
        verdict(ClipboardOp::Copy, source, destination) == Ok::<Seq<char>, Skip>(
            source.parts.last(),
        ),
{
    assert(destination.parts.len() < source.parts.len());
}

/// What has no local path is never pasted, whatever it is and wherever it would go.
pub proof fn law_only_local_files_are_pasted(
    op: ClipboardOp,
    source: Place<Seq<char>, Seq<Seq<char>>>,
    destination: Place<Seq<char>, Seq<Seq<char>>>,
)
    requires
        !source.local(),
    ensures
        verdict(op, source, destination) is Err,
{
}

/// `String::from_utf8` turns bytes into the text they encode in UTF-8, and fails
/// exactly if they encode none.
#[verifier::external_body]
fn text_from_utf8(bytes: Vec<u8>) -> (text: Option<String>)
    ensures
        match text {
            Some(text) => valid_utf8(bytes@) && text@ == decode_utf8(bytes@),
            None => !valid_utf8(bytes@),
        },
{
    match String::from_utf8(bytes) {
        Ok(text) => Some(text),
        Err(_) => None,
    }
}

/// What is read off the clipboard, chunk by chunk.
#[derive(Debug)]
pub struct Payload {
    /// The bytes so far.
    pub collected: Vec<u8>,
}

impl Payload {
    /// A payload of which nothing has been read yet.
    pub fn new() -> (payload: Payload)
        ensures
            payload.collected@.len() == 0,
    {
        Payload { collected: Vec::new() }
    }

    /// Takes the next chunk: the first `read` bytes of `buffer`. Returns whether
    /// there may be more; a chunk of no bytes is the end.
    pub fn take(&mut self, buffer: &[u8], read: usize) -> (more: bool)
        requires
            read <= buffer@.len(),
        ensures
            more == (read > 0),
            final(self).collected@ == old(self).collected@ + buffer@.take(read as int),
    {
        let ghost before = self.collected@;
        let mut i: usize = 0;
        assert(before + buffer@.take(0) =~= before);
        while i < read
            invariant
                i <= read <= buffer@.len(),
                self.collected@ == before + buffer@.take(i as int),
            decreases read - i,
        {
            self.collected.push(buffer[i]);
            assert(before + buffer@.take(i + 1) =~= (before + buffer@.take(i as int)).push(
                buffer@[i as int],
            ));
            i = i + 1;
        }
        read > 0
    }

    /// The text that was read. Anything that is not valid UTF-8 is discarded — a
    /// clipboard payload that is not text is not a file list.
    pub fn finish(self) -> (text: Option<String>)
        ensures
            match text {
                Some(text) => valid_utf8(self.collected@) && text@ == decode_utf8(self.collected@),
                None => !valid_utf8(self.collected@),
            },
    {
        text_from_utf8(self.collected)
    }
}

/// Text that is put on the clipboard and read back, in whatever chunks, is the
/// same text.
pub proof fn law_text_survives_the_clipboard(text: Seq<char>, bytes: Seq<u8>)
    requires
        bytes == encode_utf8(text),
    ensures
        valid_utf8(bytes),
        decode_utf8(bytes) == text,
{
    encode_utf8_valid_utf8(text);
    encode_utf8_decode_utf8(text);
}

/// A file is skipped only for a true reason. A local file with a name, pasted into a
/// place that is neither the file nor below it, keeps its name, unless it was cut and
/// its directory is exactly the one that is pasted into: a cut from further down goes
/// up.
pub proof fn law_a_file_is_skipped_only_for_a_true_reason(
    op: ClipboardOp,
    source: Place<Seq<char>, Seq<Seq<char>>>,
    destination: Place<Seq<char>, Seq<Seq<char>>>,
)
    ensures
        ({
            let local = source.origin == "file://"@;
            let named = source.parts.len() > 0;
            let into_itself = destination.origin == source.origin && destination.parts.len()
                >= source.parts.len() && destination.parts.take(source.parts.len() as int)
                == source.parts;
            let there = op == ClipboardOp::Cut && destination.origin == source.origin
                && source.parts.len() == destination.parts.len() + 1 && source.parts.take(
                destination.parts.len() as int,
            ) == destination.parts;
            match verdict(op, source, destination) {
                Ok(name) => local && !into_itself && named && !there && name
                    == source.parts[source.parts.len() - 1],
                Err(Skip::NotLocal) => !local,
                Err(Skip::IntoItself) => local && into_itself,
                Err(Skip::NoName) => local && !into_itself && !named,
                Err(Skip::AlreadyThere) => local && !into_itself && named && there,
            }
        }),
{
    crate::place::law_names_lead_to_a_place(source, destination, Seq::empty());
    crate::place::law_names_lead_to_a_place(destination, source, Seq::empty());
    if source.parts.len() == destination.parts.len() + 1 {
        assert(source.parts.take(destination.parts.len() as int) =~= source.parts.drop_last());
    }
    if destination.within(source) {
        assert(destination.parts.take(source.parts.len() as int) =~= source.parts);
    }
    if destination.parts.len() >= source.parts.len() && destination.parts.take(
        source.parts.len() as int,
    ) == source.parts {
        assert forall|i: int| 0 <= i < source.parts.len() implies #[trigger] destination.parts[i]
            == source.parts[i] by {
            assert(destination.parts.take(source.parts.len() as int)[i] == source.parts[i]);
        }
    }
}

/// A cut from a directory further down goes to any of the directories above that
/// one, and so does a copy.
pub proof fn law_a_file_can_be_moved_up(
    op: ClipboardOp,
    source: Place<Seq<char>, Seq<Seq<char>>>,
    destination: Place<Seq<char>, Seq<Seq<char>>>,
)
    requires
        source.origin == "file://"@,
        destination.origin == source.origin,
        destination.parts.len() + 1 < source.parts.len(),
    ensures
        verdict(op, source, destination) == Ok::<Seq<char>, Skip>(
            source.parts[source.parts.len() - 1],
        ),
{
    law_a_file_is_skipped_only_for_a_true_reason(op, source, destination);
}

/// Every file that is skipped is counted once, under its own reason, and the whole
/// is the sum of the reasons.
pub proof fn law_reasons_add_up(skipped: Skipped)
    ensures
        skipped.because(Skip::NotLocal) == skipped.not_local,
        skipped.because(Skip::IntoItself) == skipped.into_itself,
        skipped.because(Skip::NoName) == skipped.no_name,
        skipped.because(Skip::AlreadyThere) == skipped.already_there,
        skipped.all() == skipped.not_local + skipped.into_itself + skipped.no_name
            + skipped.already_there,
{
}

/// What the user reads after a paste: that there was nothing to paste, how many
/// files were pasted, how many were pasted and how many skipped, or, if none was
/// pasted, how many were skipped and why.
pub proof fn law_a_paste_says_what_it_did(pasted: nat, skipped: Skipped)
    ensures
        ({
            let all = (skipped.not_local + skipped.into_itself + skipped.no_name
                + skipped.already_there) as nat;
            &&& pasted == 0 && all == 0 ==> summary(pasted, skipped) == "Nothing to paste"@
            &&& pasted == 1 && all == 0 ==> summary(pasted, skipped) == "1 file pasted"@
            &&& pasted >= 2 && all == 0 ==> summary(pasted, skipped) == text::decimal(pasted)
                + " files pasted"@
            &&& pasted >= 1 && all >= 1 ==> summary(pasted, skipped) == text::decimal(pasted)
                + " pasted, "@ + text::decimal(all) + " skipped"@
            &&& pasted == 0 && all >= 1 ==> summary(pasted, skipped).len() > text::decimal(
                all,
            ).len() + " skipped: "@.len() && (text::decimal(all) + " skipped: "@).is_prefix_of(
                summary(pasted, skipped),
            )
            &&& all >= 1 && skipped.not_local == all ==> summary(0, skipped) == text::decimal(all)
                + " skipped: "@ + "without a local path"@
            &&& all >= 1 && skipped.into_itself == all ==> summary(0, skipped) == text::decimal(all)
                + " skipped: "@ + "into itself"@
            &&& all >= 1 && skipped.no_name == all ==> summary(0, skipped) == text::decimal(all)
                + " skipped: "@ + "without a name"@
            &&& all >= 1 && skipped.already_there == all ==> summary(0, skipped) == text::decimal(
                all,
            ) + " skipped: "@ + "already there"@
        }),
{
    let all = skipped.all();
    let list = notes(skipped);
    let none = Seq::<Seq<char>>::empty();
    if all >= 1 {
        let why = if skipped.not_local > 0 {
            Skip::NotLocal
        } else if skipped.into_itself > 0 {
            Skip::IntoItself
        } else if skipped.no_name > 0 {
            Skip::NoName
        } else {
            Skip::AlreadyThere
        };
        law_a_paste_that_did_nothing_says_why(skipped, why);
        let i = choose|i: int|
            0 <= i < list.len() && reason(why).is_suffix_of(#[trigger] list[i]);
        reveal_strlit("without a local path");
        reveal_strlit("into itself");
        reveal_strlit("without a name");
        reveal_strlit("already there");
        assert(list[i].len() >= reason(why).len() > 0);
        lemma_joined_holds(list, ", "@, i);
        let head = text::decimal(all) + " skipped: "@;
        let whole = head + text::joined(list, ", "@);
        assert(whole.subrange(0, head.len() as int) =~= head);
        if skipped.because(why) == all {
            assert(list =~= seq![reason(why)]);
            assert(text::joined(seq![reason(why)], ", "@) == reason(why));
        }
    }
}

/// Joining keeps every part.
proof fn lemma_joined_holds(parts: Seq<Seq<char>>, separator: Seq<char>, i: int)
    requires
        0 <= i < parts.len(),
    ensures
        text::joined(parts, separator).len() >= parts[i].len(),
    decreases parts.len(),
{
    if i < parts.len() - 1 {
        lemma_joined_holds(parts.drop_last(), separator, i);
    }
}

/// A paste begins with what is on the clipboard, and with nothing pasted, skipped or
/// failed; without anything to paste it does not begin.
pub proof fn law_a_paste_begins_with_the_clipboard(
    gnome: &str,
    destination: Place,
    begun: Result<(Paste, Vec<String>), String>,
)
    requires
        call_ensures(Paste::begin, (Some(gnome), None, destination), begun),
    ensures
        begun is Ok <==> clipboard::decoded(gnome@) is Some,
        begun matches Ok((paste, uris)) ==> {
            &&& clipboard::decoded(gnome@) == Some((paste.op, text::texts(uris@)))
            &&& paste.destination == destination
            &&& paste.pasted == 0
            &&& paste.failed == 0
            &&& paste.skipped.not_local == 0
            &&& paste.skipped.into_itself == 0
            &&& paste.skipped.no_name == 0
            &&& paste.skipped.already_there == 0
        },
        begun matches Err(message) ==> message@ == "Nothing to paste"@,
{
    clipboard::law_the_operation_word_comes_first(gnome@, Seq::empty());
}

/// Each file of a paste is either pasted, and counted as such, or skipped, and counted
/// under its reason and no other. What is copied is copied and what is cut is moved.
pub proof fn law_each_file_is_pasted_or_skipped<F: Fn(&str) -> bool>(
    paste: &mut Paste,
    source: Place,
    taken: F,
    step: Step,
    judged: Result<String, Skip>,
)
    requires
        call_ensures(Paste::step, (paste, &source, taken), step),
        call_ensures(Paste::judge, (&*old(paste), &source), judged),
    ensures
        final(paste).op == old(paste).op,
        final(paste).destination == old(paste).destination,
        final(paste).failed == old(paste).failed,
        judged is Ok ==> final(paste).pasted == old(paste).pasted + 1,
        judged is Ok ==> final(paste).skipped == old(paste).skipped,
        judged is Ok && old(paste).op == ClipboardOp::Copy ==> step is Copy,
        judged is Ok && old(paste).op == ClipboardOp::Cut ==> step is Move,
        judged matches Err(why) ==> {
            &&& step == Step::Skip(why)
            &&& final(paste).pasted == old(paste).pasted
            &&& final(paste).skipped.not_local == old(paste).skipped.not_local + (if why
                == Skip::NotLocal {
                1int
            } else {
                0
            })
            &&& final(paste).skipped.into_itself == old(paste).skipped.into_itself + (if why
                == Skip::IntoItself {
                1int
            } else {
                0
            })
            &&& final(paste).skipped.no_name == old(paste).skipped.no_name + (if why
                == Skip::NoName {
                1int
            } else {
                0
            })
            &&& final(paste).skipped.already_there == old(paste).skipped.already_there + (if why
                == Skip::AlreadyThere {
                1int
            } else {
                0
            })
        },
{
    let before = old(paste).skipped;
    let after = final(paste).skipped;
    assert(after.because(Skip::NotLocal) == after.not_local);
    assert(after.because(Skip::IntoItself) == after.into_itself);
    assert(after.because(Skip::NoName) == after.no_name);
    assert(after.because(Skip::AlreadyThere) == after.already_there);
    assert(before.because(Skip::NotLocal) == before.not_local);
}

/// A cut that moved something spends the clipboard. A copy never does, and neither does
/// a cut of which every move failed.
pub proof fn law_only_a_cut_spends_the_clipboard(
    paste: Paste,
    spent: bool,
    failing: &mut Paste,
)
    requires
        call_ensures(Paste::spends_clipboard, (&paste,), spent),
        call_ensures(Paste::move_failed, (failing,), ()),
        old(failing).failed < usize::MAX,
    ensures
        paste.op == ClipboardOp::Copy ==> !spent,
        paste.op == ClipboardOp::Cut ==> (spent <==> paste.failed < paste.pasted),
        final(failing).failed == old(failing).failed + 1,
        final(failing).pasted == old(failing).pasted,
        final(failing).skipped == old(failing).skipped,
        final(failing).op == old(failing).op,
        final(failing).destination == old(failing).destination,
{
}

/// What is read in two chunks is what is read in one, and a chunk of nothing is the end.
pub proof fn law_chunks_are_read_one_after_the_other(
    empty: Payload,
    first: &mut Payload,
    buffer: &[u8],
    read: usize,
    more: bool,
)
    requires
        call_ensures(Payload::new, (), empty),
        read <= buffer@.len(),
        call_ensures(Payload::take, (first, buffer, read), more),
    ensures
        empty.collected@.len() == 0,
        more <==> read != 0,
        final(first).collected@.len() == old(first).collected@.len() + read,
        final(first).collected@.take(old(first).collected@.len() as int) == old(first).collected@,
        forall|i: int|
            0 <= i < read ==> final(first).collected@[old(first).collected@.len() + i]
                == #[trigger] buffer@[i],
{
    let before = old(first).collected@;
    let after = final(first).collected@;
    assert(after.take(before.len() as int) =~= before);
    assert forall|i: int| 0 <= i < read implies after[before.len() + i]
        == #[trigger] buffer@[i] by {
        assert(buffer@.take(read as int)[i] == buffer@[i]);
    }
}

/// A file that was cut can be pasted into every directory above its own, under its name.
pub proof fn law_a_cut_goes_up(paste: Paste, source: Place, judged: Result<String, Skip>)
    requires
        call_ensures(Paste::judge, (&paste, &source), judged),
        source@.origin == "file://"@,
        paste.destination@.origin == source@.origin,
        paste.destination@.parts.len() + 1 < source@.parts.len(),
    ensures
        judged is Ok,
        (judged->Ok_0)@ == source@.parts[source@.parts.len() - 1],
{
    law_a_file_can_be_moved_up(paste.op, source@, paste.destination@);
}

} // verus!
