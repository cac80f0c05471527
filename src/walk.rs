//! The decisions of a depth-first walk of a directory tree. Listing a
//! directory and asking an entry's type are left to the caller, which hands
//! each entry back with its kind.
use vstd::prelude::*;

verus! {

/// What a directory entry is.
#[derive(Debug, Clone, Copy, PartialEq, Eq, Structural)]
pub enum EntryKind {
    File,
    Dir,
    /// Neither a regular file nor a directory (a symlink, a socket, ...).
    Other,
}

/// The files found so far and the directories still to be listed.
pub struct TreeWalk<T> {
    files: Vec<T>,
    pending: Vec<T>,
}

impl<T> TreeWalk<T> {
    /// Files found so far, in the order they were recorded.
    pub closed spec fn files(&self) -> Seq<T> {
        self.files@
    }

    /// Directories still to list; the last one is listed next.
    pub closed spec fn pending(&self) -> Seq<T> {
        self.pending@
    }

    /// Starts a walk at `root`. A root that is a regular file is the only file
    /// to scan and nothing is listed; any other root is listed as a directory.
    pub fn start(root: T, root_is_file: bool) -> (r: TreeWalk<T>)
        ensures
            root_is_file ==> r.files() == seq![root] && r.pending() == Seq::<T>::empty(),
            !root_is_file ==> r.files() == Seq::<T>::empty() && r.pending() == seq![root],
    {
        let mut files: Vec<T> = Vec::new();
        let mut pending: Vec<T> = Vec::new();
        if root_is_file {
            files.push(root);
        } else {
            pending.push(root);
        }
        proof {
            assert(files@ =~= (if root_is_file { seq![root] } else { Seq::<T>::empty() }));
            assert(pending@ =~= (if root_is_file { Seq::<T>::empty() } else { seq![root] }));
        }
        TreeWalk { files, pending }
    }

    /// The next directory to list, the one pushed last; `None` when the walk
    /// is over.
    pub fn next_dir(&mut self) -> (r: Option<T>)
        ensures
            final(self).files() == old(self).files(),
            old(self).pending().len() == 0 ==> r is None && final(self).pending() == old(
                self,
            ).pending(),
            old(self).pending().len() > 0 ==> r == Some(old(self).pending().last())
                && final(self).pending() == old(self).pending().drop_last(),
    {
        self.pending.pop()
    }

    /// Records an entry of the directory being listed: a file is kept for the
    /// scan, a directory is listed later, anything else is passed over.
    pub fn record(&mut self, entry: T, kind: EntryKind)
        ensures
            kind == EntryKind::File ==> final(self).files() == old(self).files().push(entry)
                && final(self).pending() == old(self).pending(),
            kind == EntryKind::Dir ==> final(self).pending() == old(self).pending().push(entry)
                && final(self).files() == old(self).files(),
            kind == EntryKind::Other ==> final(self).files() == old(self).files()
                && final(self).pending() == old(self).pending(),
    {
        match kind {
            EntryKind::File => self.files.push(entry),
            EntryKind::Dir => self.pending.push(entry),
            EntryKind::Other => {},
        }
    }

    /// The files found, in the order they were recorded.
    pub fn into_files(self) -> (r: Vec<T>)
        ensures
            r@ == self.files(),
    {
        self.files
    }
}

} // verus!
