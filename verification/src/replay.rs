//! Scanning a recorded tree.
//!
//! [`Libdir::populate_files`] answers the scanner's requests from a
//! [`Node`] instead of a file system. Its contract ties the scanner to the
//! definition of a tree's matches in [`crate::tree`].

use vstd::prelude::*;
use crate::scan::{Entry, EntryKind, Libdir, Reply, RequestView, entry_request, schedule};
use crate::tree::{Node, NodeKind, listing_matches, node_matches, scan_matches};

verus! {

/// What a listing says of a node of this kind.
pub open spec fn entry_kind_of(kind: NodeKind) -> EntryKind {
    match kind {
        NodeKind::Directory(_) => EntryKind::Directory,
        NodeKind::ClosedDirectory => EntryKind::Directory,
        NodeKind::File(_) => EntryKind::File,
        NodeKind::ClosedFile => EntryKind::File,
        NodeKind::Symlink => EntryKind::Symlink,
        NodeKind::Unreadable => EntryKind::Unreadable,
    }
}

/// The entry that the listing of its parent reports for `node`.
pub open spec fn entry_of(node: Node) -> Entry {
    Entry { path: node.path, kind: entry_kind_of(node.kind) }
}

/// The listing of a directory that holds `nodes`.
pub open spec fn listing_of(nodes: Seq<Node>) -> Seq<Entry> {
    nodes.map_values(|node: Node| entry_of(node))
}

/// Builds the listing of a directory that holds `nodes`.
fn list_nodes(nodes: &Vec<Node>) -> (entries: Vec<Entry>)
    ensures
        entries@ == listing_of(nodes@),
{
    let mut entries: Vec<Entry> = Vec::new();
    let mut i: usize = 0;
    while i < nodes.len()
        invariant
            i <= nodes.len(),
            entries@ == listing_of(nodes@.subrange(0, i as int)),
        decreases nodes.len() - i,
    {
        let node = &nodes[i];
        let kind = match &node.kind {
            NodeKind::Directory(_) => EntryKind::Directory,
            NodeKind::ClosedDirectory => EntryKind::Directory,
            NodeKind::File(_) => EntryKind::File,
            NodeKind::ClosedFile => EntryKind::File,
            NodeKind::Symlink => EntryKind::Symlink,
            NodeKind::Unreadable => EntryKind::Unreadable,
        };
        entries.push(Entry { path: node.path.clone(), kind });
        i = i + 1;
        assert(entries@ =~= listing_of(nodes@.subrange(0, i as int)));
    }
    assert(nodes@.subrange(0, nodes.len() as int) =~= nodes@);
    entries
}

impl Libdir {
    /// Serves the request that is due for `node`, and every request that
    /// follows from it, out of `node` itself.
    fn replay(&mut self, node: &Node)
        requires
            old(self).pending().len() > 0,
            entry_request(entry_of(*node)) == seq![old(self).pending().last()],
        ensures
            final(self).root() == old(self).root(),
            final(self).pending() == old(self).pending().drop_last(),
            final(self).paths() == old(self).paths() + node_matches(*node),
        decreases *node,
    {
        let ghost rest = self.pending().drop_last();
        let ghost found = self.paths();
        let ghost top = self.pending().last();
        assert(entry_request(entry_of(*node))[0] == top);
        match &node.kind {
            NodeKind::Directory(nodes) => {
                assert(top == RequestView::Listing(node.path@));
                let entries = list_nodes(nodes);
                self.step(Reply::Entries(entries));
                let ghost due = schedule(listing_of(nodes@));
                let ghost grown = self.pending();
                assert(grown == rest + due);
                assert(grown.subrange(grown.len() - due.len(), grown.len() as int) =~= due);
                assert(grown.subrange(0, grown.len() - due.len()) =~= rest);
                self.replay_listing(nodes);
            },
            NodeKind::File(content) => {
                assert(top == RequestView::Head(node.path@));
                let bytes = content.clone();
                assert(bytes@ =~= content@);
                self.step(Reply::Bytes(bytes));
                assert(self.paths() =~= found + node_matches(*node));
            },
            _ => {
                self.step(Reply::Failed);
                assert(self.paths() =~= found + node_matches(*node));
            },
        }
    }

    /// Serves the requests that the listing of `nodes` has put on top of
    /// the pending ones.
    fn replay_listing(&mut self, nodes: &Vec<Node>)
        requires
            old(self).pending().len() >= schedule(listing_of(nodes@)).len(),
            old(self).pending().subrange(
                old(self).pending().len() - schedule(listing_of(nodes@)).len(),
                old(self).pending().len() as int,
            ) == schedule(listing_of(nodes@)),
        ensures
            final(self).root() == old(self).root(),
            final(self).pending() == old(self).pending().subrange(
                0,
                old(self).pending().len() - schedule(listing_of(nodes@)).len(),
            ),
            final(self).paths() == old(self).paths() + listing_matches(nodes@),
        decreases *nodes,
    {
        let ghost all = nodes@;
        let ghost listing = listing_of(nodes@);
        let ghost found = self.paths();
        let ghost rest = self.pending().subrange(
            0,
            self.pending().len() - schedule(listing).len(),
        );
        let n: usize = nodes.len();
        let mut i: usize = 0;
        proof {
            assert(all.subrange(0, n as int) =~= all);
            assert(listing.subrange(0, n as int) =~= listing);
            assert(self.pending() =~= rest + schedule(listing));
        }
        while i < n
            invariant
                i <= n,
                n == nodes.len(),
                all == nodes@,
                listing == listing_of(all),
                self.root() == old(self).root(),
                self.pending() == rest + schedule(listing.subrange(i as int, n as int)),
                self.paths() + listing_matches(all.subrange(i as int, n as int)) == found
                    + listing_matches(all),
            decreases n - i,
        {
            let node = &nodes[i];
            let ghost here = all.subrange(i as int, n as int);
            let ghost after = all.subrange(i + 1, n as int);
            let ghost due = listing.subrange(i as int, n as int);
            let ghost paths = self.paths();
            proof {
                assert(here[0] == *node);
                assert(here.subrange(1, here.len() as int) =~= after);
                assert(listing_matches(here) == node_matches(*node) + listing_matches(after));
                assert(due[0] == entry_of(*node));
                assert(due.subrange(1, due.len() as int) =~= listing.subrange(i + 1, n as int));
                assert(schedule(due) == schedule(listing.subrange(i + 1, n as int))
                    + entry_request(entry_of(*node)));
            }
            match &node.kind {
                NodeKind::Symlink => {
                    assert(self.pending() =~= rest + schedule(listing.subrange(i + 1, n as int)));
                },
                NodeKind::Unreadable => {
                    assert(self.pending() =~= rest + schedule(listing.subrange(i + 1, n as int)));
                },
                _ => {
                    assert(entry_request(entry_of(*node)).len() == 1);
                    assert(self.pending().last() == entry_request(entry_of(*node))[0]);
                    assert(entry_request(entry_of(*node)) =~= seq![self.pending().last()]);
                    assert(self.pending().drop_last() =~= rest + schedule(
                        listing.subrange(i + 1, n as int),
                    ));
                    self.replay(node);
                },
            }
            i = i + 1;
            assert(self.paths() + listing_matches(after) =~= paths + listing_matches(here));
        }
        assert(all.subrange(n as int, n as int) =~= Seq::<Node>::empty());
        assert(listing.subrange(n as int, n as int) =~= Seq::<Entry>::empty());
        assert(self.pending() =~= rest);
        assert(self.paths() =~= found + listing_matches(all));
    }

    /// Scans the recorded tree `root` from the start and adds its matches.
    ///
    /// The scan is restarted, every request is answered from `root`, and
    /// the scan is complete afterwards. `root` stands for what is found at
    /// the scan's directory: unless it is a readable directory nothing is
    /// added.
    pub fn populate_files(&mut self, root: &Node)
        ensures
            final(self).root() == old(self).root(),
            final(self).pending() == Seq::<RequestView>::empty(),
            final(self).paths() == old(self).paths() + scan_matches(*root),
    {
        let ghost found = self.paths();
        self.restart();
        match &root.kind {
            NodeKind::Directory(nodes) => {
                let entries = list_nodes(nodes);
                self.step(Reply::Entries(entries));
                let ghost due = schedule(listing_of(nodes@));
                let ghost grown = self.pending();
                assert(grown =~= due);
                assert(grown.subrange(grown.len() - due.len(), grown.len() as int) =~= due);
                self.replay_listing(nodes);
                assert(self.pending() =~= Seq::<RequestView>::empty());
            },
            _ => {
                self.step(Reply::Failed);
                assert(self.pending() =~= Seq::<RequestView>::empty());
                assert(self.paths() =~= found + scan_matches(*root));
            },
        }
    }
}

/// Scanning an unchanged tree again finds the same files: two scans that
/// each hold the matches of `root` agree on their paths, in order and as a
/// set.
pub proof fn lemma_rescan_finds_the_same(first: Libdir, second: Libdir, root: Node)
    requires
        first.paths() == scan_matches(root),
        second.paths() == scan_matches(root),
    ensures
        first.paths() == second.paths(),
        first.paths().to_set() == second.paths().to_set(),
{
}

} // verus!
