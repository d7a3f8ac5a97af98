//! The order in which a tree is copied, file by file: a depth-first walk
//! over the items still to visit. The file systems are read and written by
//! the caller, which asks the walk for the next item, tells it what a
//! directory holds, and counts each copied file with it.
use vstd::prelude::*;

use crate::sftp::{
    child_path, download_child, file_name, is_dot_name, read_dir_entry_failure, upload_child,
};
use crate::ssh::path_join;

verus! {

/// An item waiting to be visited.
pub enum PendingItem {
    /// A path to copy, and where it goes.
    Node(String, String),
    /// An item listed in a directory: the directory's source and target
    /// paths and the item's path as listed.
    Child(String, String, String),
    /// An entry of a local directory that could not be read, with the
    /// error's message.
    Unreadable(String),
    /// A listed item whose name is not text, shown by its path.
    Nameless(String),
}

/// The view of a pending item.
pub enum Pending {
    Node(Seq<char>, Seq<char>),
    Child(Seq<char>, Seq<char>, Seq<char>),
    Unreadable(Seq<char>),
    Nameless(Seq<char>),
}

/// An entry of a listed directory.
pub enum ListedEntry {
    /// The item's path.
    Item(String),
    /// An item whose name is not text, shown by its path.
    Nameless(String),
    /// The error of an entry that could not be read.
    Unreadable(String),
}

impl View for PendingItem {
    type V = Pending;

    open spec fn view(&self) -> Pending {
        match self {
            PendingItem::Node(s, t) => Pending::Node(s@, t@),
            PendingItem::Child(ds, dt, c) => Pending::Child(ds@, dt@, c@),
            PendingItem::Unreadable(e) => Pending::Unreadable(e@),
            PendingItem::Nameless(p) => Pending::Nameless(p@),
        }
    }
}

/// The pending item an entry of a listed directory becomes.
pub open spec fn entry_item(source: Seq<char>, target: Seq<char>, e: ListedEntry) -> Pending {
    match e {
        ListedEntry::Item(c) => Pending::Child(source, target, c@),
        ListedEntry::Nameless(p) => Pending::Nameless(p@),
        ListedEntry::Unreadable(m) => Pending::Unreadable(m@),
    }
}

/// What the walk asks for next.
pub enum WalkNext {
    /// Visit the source path, copying it to the target path.
    Visit(String, String),
    /// Nothing to do for this item (`.` or `..`).
    Skip,
    /// Stop the walk with this error.
    Fail(String),
    /// The walk is over; this many files were copied.
    Done(usize),
}

/// The view of a step other than the last.
pub enum Step {
    Visit(Seq<char>, Seq<char>),
    Skip,
    Fail(Seq<char>),
}

/// The step a pending item gives, for a download (remote to local) or an
/// upload (local to remote).
pub open spec fn step_of(download: bool, item: Pending) -> Step {
    match item {
        Pending::Node(s, t) => Step::Visit(s, t),
        Pending::Child(ds, dt, c) => match file_name(c) {
            Some(n) if n.len() > 0 => if download {
                if is_dot_name(n) {
                    Step::Skip
                } else {
                    Step::Visit(child_path(ds, n), path_join(dt, n))
                }
            } else {
                Step::Visit(c, child_path(dt, n))
            },
            _ => Step::Fail("Source path has no file name: "@ + c),
        },
        Pending::Unreadable(e) => Step::Fail("Local read dir entry failed: "@ + e),
        Pending::Nameless(p) => Step::Fail("Source path has no file name: "@ + p),
    }
}

/// The view of a step that is not the end of the walk.
pub open spec fn step_view(r: WalkNext) -> Step {
    match r {
        WalkNext::Visit(s, t) => Step::Visit(s@, t@),
        WalkNext::Fail(e) => Step::Fail(e@),
        _ => Step::Skip,
    }
}

/// A copy of a tree under way: the items still to visit, the next one
/// last, and the number of files copied so far.
pub struct TreeWalk {
    download: bool,
    pending: Vec<PendingItem>,
    copied: usize,
}

impl TreeWalk {
    /// Whether the walk copies down (remote to local).
    pub closed spec fn is_download(&self) -> bool {
        self.download
    }

    /// The items still to visit; the next is the last.
    pub closed spec fn pending(&self) -> Seq<Pending> {
        self.pending@.map_values(|p: PendingItem| p@)
    }

    /// The files copied so far.
    pub closed spec fn copied(&self) -> nat {
        self.copied as nat
    }

    /// A walk that starts at `source`, copied to `target`.
    pub fn new(download: bool, source: String, target: String) -> (r: Self)
        ensures
            r.is_download() == download,
            r.pending() == seq![Pending::Node(source@, target@)],
            r.copied() == 0,
    {
        let mut pending: Vec<PendingItem> = Vec::new();
        pending.push(PendingItem::Node(source, target));
        let r = TreeWalk { download, pending, copied: 0 };
        assert(r.pending() =~= seq![Pending::Node(source@, target@)]);
        r
    }

    /// Takes the next item and says what to do with it; the end of the walk
    /// once nothing is left.
    pub fn next(&mut self) -> (r: WalkNext)
        ensures
            final(self).is_download() == old(self).is_download(),
            final(self).copied() == old(self).copied(),
            old(self).pending().len() == 0 ==> (r matches WalkNext::Done(n) && n == old(self).copied()),
            old(self).pending().len() == 0 ==> final(self).pending() == old(self).pending(),
            old(self).pending().len() > 0 ==> r !is Done,
            old(self).pending().len() > 0 ==> final(self).pending() == old(self).pending().drop_last(),
            old(self).pending().len() > 0 ==> step_view(r) == step_of(old(self).is_download(), old(self).pending().last()),
    {
        let ghost before = self.pending();
        match self.pending.pop() {
            None => WalkNext::Done(self.copied),
            Some(item) => {
                assert(self.pending() =~= before.drop_last());
                match item {
                    PendingItem::Node(s, t) => WalkNext::Visit(s, t),
                    PendingItem::Child(ds, dt, c) => {
                        if self.download {
                            match download_child(ds.as_str(), dt.as_str(), c.as_str()) {
                                Ok(Some((s, t))) => WalkNext::Visit(s, t),
                                Ok(None) => WalkNext::Skip,
                                Err(e) => WalkNext::Fail(e),
                            }
                        } else {
                            match upload_child(dt.as_str(), c.as_str()) {
                                Ok(t) => WalkNext::Visit(c, t),
                                Err(e) => WalkNext::Fail(e),
                            }
                        }
                    },
                    PendingItem::Unreadable(e) => WalkNext::Fail(read_dir_entry_failure(e.as_str())),
                    PendingItem::Nameless(p) => WalkNext::Fail(
                        crate::text::concat("Source path has no file name: ", p.as_str()),
                    ),
                }
            },
        }
    }

    /// Schedules what the directory `source` (copied to `target`) lists, in
    /// the order listed.
    pub fn enter_dir(&mut self, source: &str, target: &str, entries: Vec<ListedEntry>)
        ensures
            final(self).is_download() == old(self).is_download(),
            final(self).copied() == old(self).copied(),
            final(self).pending().len() == old(self).pending().len() + entries@.len(),
            final(self).pending().take(old(self).pending().len() as int) == old(self).pending(),
            forall|k: int|
                0 <= k < entries@.len() ==> #[trigger] final(self).pending()[final(self).pending().len()
                    - 1 - k] == entry_item(source@, target@, entries@[k]),
    {
        let ghost before = self.pending();
        let n = entries.len();
        let mut i: usize = n;
        while i > 0
            invariant
                i <= n == entries@.len(),
                self.download == old(self).download,
                self.copied == old(self).copied,
                before == old(self).pending(),
                self.pending().len() == before.len() + (n - i),
                self.pending().take(before.len() as int) == before,
                forall|k: int|
                    i <= k < n ==> #[trigger] self.pending()[before.len() + (n - 1 - k)]
                        == entry_item(source@, target@, entries@[k]),
            decreases i,
        {
            i = i - 1;
            let item = match &entries[i] {
                ListedEntry::Item(c) => PendingItem::Child(
                    crate::text::owned(source),
                    crate::text::owned(target),
                    c.clone(),
                ),
                ListedEntry::Nameless(p) => PendingItem::Nameless(p.clone()),
                ListedEntry::Unreadable(e) => PendingItem::Unreadable(e.clone()),
            };
            assert(item@ == entry_item(source@, target@, entries@[i as int]));
            let ghost prev = self.pending();
            self.pending.push(item);
            assert(self.pending() =~= prev.push(item@));
            assert(self.pending().take(before.len() as int) =~= prev.take(before.len() as int));
        }
        assert forall|k: int| 0 <= k < entries@.len() implies #[trigger] self.pending()[self.pending().len()
            - 1 - k] == entry_item(source@, target@, entries@[k]) by {
            assert(self.pending().len() - 1 - k == before.len() + (n - 1 - k));
        }
    }

    /// Counts one more copied file.
    pub fn file_copied(&mut self)
        requires
            old(self).copied() < usize::MAX,
        ensures
            final(self).is_download() == old(self).is_download(),
            final(self).pending() == old(self).pending(),
            final(self).copied() == old(self).copied() + 1,
    {
        self.copied = self.copied + 1;
    }

    /// Whether another file can be counted.
    pub fn can_count(&self) -> (r: bool)
        ensures
            r == (self.copied() < usize::MAX),
    {
        self.copied < usize::MAX
    }
}

} // verus!
