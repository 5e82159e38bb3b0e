//! The directory scanner.
//!
//! A [`Libdir`] walks a directory tree depth first without touching the file
//! system. It says what it wants read next, a [`Request`], and is told what
//! the reading produced, a [`Reply`]. Directories are listed, regular files
//! have their leading bytes examined, symbolic links and everything else are
//! passed over. A reading that failed skips that one path and nothing more.

use vstd::prelude::*;
use crate::magic::{has_elf_magic, is_elf};

verus! {

/// What a directory listing says of one of its entries, without following
/// symbolic links.
#[derive(Clone, Copy, PartialEq, Eq, Structural, Debug)]
pub enum EntryKind {
    Directory,
    File,
    Symlink,
    /// The entry or its metadata could not be read, or it is neither a
    /// directory, a regular file nor a symbolic link.
    Unreadable,
}

/// One entry of a directory listing.
#[derive(Debug, PartialEq, Eq)]
pub struct Entry {
    /// The full path of the entry.
    pub path: String,
    pub kind: EntryKind,
}

/// What the scanner wants read next.
#[derive(Debug, PartialEq, Eq)]
pub enum Request {
    /// The entries of the directory at this path.
    Listing(String),
    /// The leading bytes of the regular file at this path.
    Head(String),
}

/// A [`Request`] with its path as a sequence of characters.
pub enum RequestView {
    Listing(Seq<char>),
    Head(Seq<char>),
}

impl View for Request {
    type V = RequestView;

    open spec fn view(&self) -> RequestView {
        match *self {
            Request::Listing(path) => RequestView::Listing(path@),
            Request::Head(path) => RequestView::Head(path@),
        }
    }
}

/// What came of serving a [`Request`].
#[derive(Debug, PartialEq, Eq)]
pub enum Reply {
    /// The entries of the directory, in the order the listing gave them.
    Entries(Vec<Entry>),
    /// The leading bytes of the file: all of it, or a prefix of at least
    /// four bytes.
    Bytes(Vec<u8>),
    /// The directory could not be listed, or the file could not be opened
    /// or read.
    Failed,
}

/// A file that the scan found to be an ELF binary.
#[derive(Debug, PartialEq, Eq)]
pub struct Files {
    pub fullpath: String,
}

/// A scan of the tree below `dir`: the matches so far, and the paths still
/// to be read.
#[derive(Debug, PartialEq, Eq)]
pub struct Libdir {
    pub dir: String,
    pub files: Vec<Files>,
    stack: Vec<Request>,
}

/// The paths of a sequence of matches, in order.
pub open spec fn paths_of(files: Seq<Files>) -> Seq<Seq<char>> {
    files.map_values(|f: Files| f.fullpath@)
}

/// The request that one entry of a listing gives rise to, if any: a
/// directory is to be listed, a regular file to be examined, and nothing
/// is ever asked about a symbolic link or an unreadable entry.
pub open spec fn entry_request(entry: Entry) -> Seq<RequestView> {
    match entry.kind {
        EntryKind::Directory => seq![RequestView::Listing(entry.path@)],
        EntryKind::File => seq![RequestView::Head(entry.path@)],
        EntryKind::Symlink => Seq::empty(),
        EntryKind::Unreadable => Seq::empty(),
    }
}

/// The requests that a listing adds to the pending ones. The request that
/// is served next stands last, so the entries appear in reverse.
pub open spec fn schedule(entries: Seq<Entry>) -> Seq<RequestView>
    decreases entries.len(),
{
    if entries.len() == 0 {
        Seq::empty()
    } else {
        schedule(entries.subrange(1, entries.len() as int)) + entry_request(entries[0])
    }
}

/// The pending requests after `reply` was given to the last of `pending`.
/// The request served is gone. The entries of a listed directory take its
/// place. Any other reply to a listing, and every reply to an empty scan,
/// adds nothing.
pub open spec fn pending_after(pending: Seq<RequestView>, reply: Reply) -> Seq<RequestView> {
    if pending.len() == 0 {
        pending
    } else {
        match (pending.last(), reply) {
            (RequestView::Listing(_), Reply::Entries(entries)) => pending.drop_last() + schedule(
                entries@,
            ),
            _ => pending.drop_last(),
        }
    }
}

/// Whether a reading of a file's leading bytes shows an ELF binary: the
/// bytes were read and start with the signature.
pub open spec fn shows_elf(reply: Reply) -> bool {
    reply matches Reply::Bytes(bytes) && has_elf_magic(bytes@)
}

/// The matches after `reply` was given to the last of `pending`: one more,
/// the path asked about, exactly when the leading bytes of a file were asked
/// for and the reply shows an ELF binary.
pub open spec fn paths_after(
    paths: Seq<Seq<char>>,
    pending: Seq<RequestView>,
    reply: Reply,
) -> Seq<Seq<char>> {
    if pending.len() == 0 {
        paths
    } else {
        match pending.last() {
            RequestView::Head(path) => if shows_elf(reply) {
                paths.push(path)
            } else {
                paths
            },
            RequestView::Listing(_) => paths,
        }
    }
}

/// Whether a listing's entry is a symbolic link.
pub open spec fn is_link(entry: Entry) -> bool {
    entry.kind == EntryKind::Symlink
}

/// A scan whose root cannot be listed is complete after that one failed
/// reading, and has found nothing.
pub proof fn lemma_failed_root_finds_nothing(dir: Seq<char>)
    ensures
        pending_after(seq![RequestView::Listing(dir)], Reply::Failed) == Seq::<
            RequestView,
        >::empty(),
        paths_after(Seq::empty(), seq![RequestView::Listing(dir)], Reply::Failed) == Seq::<
            Seq<char>,
        >::empty(),
{
    let pending = seq![RequestView::Listing(dir)];
    assert(pending.drop_last() =~= Seq::<RequestView>::empty());
}

/// Symbolic links are never asked about: a listing schedules the same
/// requests with its symbolic links as without them.
pub proof fn lemma_links_are_passed_over(entries: Seq<Entry>)
    ensures
        schedule(entries) == schedule(entries.filter(|e: Entry| !is_link(e))),
    decreases entries.len(),
{
    let keep = |e: Entry| !is_link(e);
    if entries.len() == 0 {
        assert(entries.filter(keep) =~= entries) by {
            reveal_with_fuel(Seq::filter, 1);
        }
    } else {
        let first = entries[0];
        let rest = entries.subrange(1, entries.len() as int);
        lemma_links_are_passed_over(rest);
        assert(entries =~= seq![first] + rest);
        rest.lemma_filter_prepend(first, keep);
        if keep(first) {
            let kept = seq![first] + rest.filter(keep);
            assert(kept[0] == first);
            assert(kept.subrange(1, kept.len() as int) =~= rest.filter(keep));
        } else {
            assert(Seq::<Entry>::empty() + rest.filter(keep) =~= rest.filter(keep));
            assert(schedule(rest) + entry_request(first) =~= schedule(rest));
        }
    }
}

/// Every request that a listing schedules is for one of its directories or
/// regular files, and carries that entry's path.
pub proof fn lemma_scheduled_for_entry(entries: Seq<Entry>, i: int) -> (k: int)
    requires
        0 <= i < schedule(entries).len(),
    ensures
        0 <= k < entries.len(),
        entry_request(entries[k]) == seq![schedule(entries)[i]],
        entries[k].kind == EntryKind::Directory || entries[k].kind == EntryKind::File,
    decreases entries.len(),
{
    let rest = entries.subrange(1, entries.len() as int);
    if i < schedule(rest).len() {
        let k = lemma_scheduled_for_entry(rest, i);
        assert(rest[k] == entries[k + 1]);
        k + 1
    } else {
        assert(entry_request(entries[0]) =~= seq![schedule(entries)[i]]);
        0
    }
}

impl Libdir {
    /// The directory that the scan starts at.
    pub closed spec fn root(&self) -> Seq<char> {
        self.dir@
    }

    /// The paths of the matches found so far, in the order they were found.
    pub closed spec fn paths(&self) -> Seq<Seq<char>> {
        paths_of(self.files@)
    }

    /// The requests still to be served. The last one is served next.
    pub closed spec fn pending(&self) -> Seq<RequestView> {
        self.stack@.map_values(|r: Request| r@)
    }

    /// A scan of `dirname` that has not read anything yet: no matches, and
    /// the listing of `dirname` itself as the one pending request.
    pub fn new(dirname: String) -> (scan: Self)
        ensures
            scan.root() == dirname@,
            scan.paths() == Seq::<Seq<char>>::empty(),
            scan.pending() == seq![RequestView::Listing(dirname@)],
    {
        let mut stack: Vec<Request> = Vec::new();
        stack.push(Request::Listing(dirname.clone()));
        let scan = Libdir { dir: dirname, files: Vec::new(), stack };
        assert(scan.paths() =~= Seq::<Seq<char>>::empty());
        assert(scan.pending() =~= seq![RequestView::Listing(dirname@)]);
        scan
    }

    /// Begins the scan again at its root: whatever was pending is dropped,
    /// and the listing of the root is the one pending request. The matches
    /// found so far are kept.
    pub fn restart(&mut self)
        ensures
            final(self).root() == old(self).root(),
            final(self).paths() == old(self).paths(),
            final(self).pending() == seq![RequestView::Listing(old(self).root())],
    {
        self.stack.clear();
        self.stack.push(Request::Listing(self.dir.clone()));
        assert(self.pending() =~= seq![RequestView::Listing(old(self).root())]);
    }

    /// The request to serve next, or `None` when the scan is complete.
    pub fn request(&self) -> (next: Option<Request>)
        ensures
            self.pending().len() == 0 <==> next is None,
            next matches Some(r) ==> r@ == self.pending().last(),
    {
        let n: usize = self.stack.len();
        if n == 0 {
            None
        } else {
            let next = match &self.stack[n - 1] {
                Request::Listing(path) => Request::Listing(path.clone()),
                Request::Head(path) => Request::Head(path.clone()),
            };
            Some(next)
        }
    }

    /// The matches found so far, in the order they were found.
    pub fn matches(&self) -> (files: &Vec<Files>)
        ensures
            paths_of(files@) == self.paths(),
    {
        &self.files
    }

    /// Whether every request has been served.
    pub fn is_complete(&self) -> (done: bool)
        ensures
            done == (self.pending().len() == 0),
    {
        self.stack.len() == 0
    }

    /// Takes in the listing of one directory: a request is put on the stack
    /// for each of its directories and regular files, the first entry on
    /// top, and every other entry is passed over.
    fn scan_directory(&mut self, entries: Vec<Entry>)
        ensures
            final(self).root() == old(self).root(),
            final(self).paths() == old(self).paths(),
            final(self).pending() == old(self).pending() + schedule(entries@),
    {
        let ghost all = entries@;
        let ghost before = self.pending();
        let mut rest = entries;
        assert(all.subrange(all.len() as int, all.len() as int) =~= Seq::<Entry>::empty());
        assert(self.pending() =~= before + schedule(all.subrange(all.len() as int, all.len() as int)));
        while rest.len() > 0
            invariant
                self.root() == old(self).root(),
                self.paths() == old(self).paths(),
                rest@.len() <= all.len(),
                rest@ == all.subrange(0, rest@.len() as int),
                self.pending() == before + schedule(
                    all.subrange(rest@.len() as int, all.len() as int),
                ),
            decreases rest.len(),
        {
            let ghost k = rest@.len() as int;
            let ghost tail = all.subrange(k, all.len() as int);
            let ghost longer = all.subrange(k - 1, all.len() as int);
            let ghost served = self.pending();
            let entry = rest.pop().unwrap();
            proof {
                assert(entry == all[k - 1]);
                assert(longer[0] == entry);
                assert(longer.subrange(1, longer.len() as int) =~= tail);
                assert(schedule(longer) == schedule(tail) + entry_request(entry));
            }
            match entry.kind {
                EntryKind::Directory => {
                    self.stack.push(Request::Listing(entry.path));
                    assert(self.pending() =~= served + entry_request(entry));
                },
                EntryKind::File => {
                    self.stack.push(Request::Head(entry.path));
                    assert(self.pending() =~= served + entry_request(entry));
                },
                EntryKind::Symlink => {
                    assert(self.pending() =~= served + entry_request(entry));
                },
                EntryKind::Unreadable => {
                    assert(self.pending() =~= served + entry_request(entry));
                },
            }
            assert(self.pending() =~= before + schedule(longer));
        }
        assert(all.subrange(0, all.len() as int) =~= all);
    }

    /// Takes the reply to the pending request that [`Libdir::request`]
    /// named, and returns the request to serve next.
    ///
    /// The entries of a listed directory are scheduled ahead of everything
    /// that was pending, in listing order, so that a subtree is exhausted
    /// before its siblings are looked at. A file whose leading bytes start
    /// with the ELF signature is added to the matches. A reply that does not
    /// answer the request counts as a failed reading. On a complete scan the
    /// reply is dropped.
    pub fn step(&mut self, reply: Reply) -> (next: Option<Request>)
        ensures
            final(self).root() == old(self).root(),
            final(self).pending() == pending_after(old(self).pending(), reply),
            final(self).paths() == paths_after(old(self).paths(), old(self).pending(), reply),
            final(self).pending().len() == 0 <==> next is None,
            next matches Some(r) ==> r@ == final(self).pending().last(),
    {
        let ghost pending = self.pending();
        let ghost paths = self.paths();
        match self.stack.pop() {
            None => {},
            Some(Request::Listing(_)) => {
                assert(self.pending() =~= pending.drop_last());
                match reply {
                    Reply::Entries(entries) => {
                        self.scan_directory(entries);
                    },
                    _ => {},
                }
            },
            Some(Request::Head(path)) => {
                assert(self.pending() =~= pending.drop_last());
                match reply {
                    Reply::Bytes(bytes) => {
                        if is_elf(bytes.as_slice()) {
                            self.files.push(Files { fullpath: path });
                            assert(self.paths() =~= paths.push(path@));
                        }
                    },
                    _ => {},
                }
            },
        }
        self.request()
    }
}

} // verus!
