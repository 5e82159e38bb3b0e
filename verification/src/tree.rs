//! A directory tree as a value, and what a scan of it finds.
//!
//! A [`Node`] records one observation of a path: what kind of thing it was
//! and, where that could be read, what it held. The spec functions of this
//! module define the matches of a tree by recursion over it. The scanner in
//! [`crate::scan`] is proved against that definition.

use vstd::prelude::*;
use crate::magic::has_elf_magic;

verus! {

/// What was found at a path.
#[derive(Debug, PartialEq, Eq)]
pub enum NodeKind {
    /// A directory that could be listed, with its entries in listing order.
    Directory(Vec<Node>),
    /// A directory whose listing failed.
    ClosedDirectory,
    /// A regular file that could be opened, with its content.
    File(Vec<u8>),
    /// A regular file that could not be opened.
    ClosedFile,
    /// A symbolic link, whatever it points to.
    Symlink,
    /// Anything else: an entry whose metadata could not be read, a device,
    /// a socket.
    Unreadable,
}

/// One path of a tree together with what was found there.
#[derive(Debug, PartialEq, Eq)]
pub struct Node {
    /// The full path, as a listing reports it.
    pub path: String,
    pub kind: NodeKind,
}

/// The matches below one entry of a listing, in traversal order: the
/// entry's own path if it is a readable regular file that starts with the
/// ELF signature, the matches of its entries if it is a readable directory,
/// and nothing otherwise.
pub open spec fn node_matches(node: Node) -> Seq<Seq<char>>
    decreases node,
{
    match node.kind {
        NodeKind::Directory(entries) => listing_matches(entries@),
        NodeKind::File(content) => if has_elf_magic(content@) {
            seq![node.path@]
        } else {
            Seq::empty()
        },
        _ => Seq::empty(),
    }
}

/// The matches of a listing: those of its entries, one entry after the
/// other, each subtree exhausted before the next entry is looked at.
pub open spec fn listing_matches(entries: Seq<Node>) -> Seq<Seq<char>>
    decreases entries,
{
    if entries.len() == 0 {
        Seq::empty()
    } else {
        node_matches(entries[0]) + listing_matches(entries.subrange(1, entries.len() as int))
    }
}

/// The matches of a scan that starts at `root`. The root is only ever
/// listed, never classified: unless it is a readable directory the scan
/// finds nothing.
pub open spec fn scan_matches(root: Node) -> Seq<Seq<char>> {
    match root.kind {
        NodeKind::Directory(entries) => listing_matches(entries@),
        _ => Seq::empty(),
    }
}

/// Whether `node` is a regular file that could be read and that starts with
/// the ELF signature.
pub open spec fn is_elf_file(node: Node) -> bool {
    node.kind matches NodeKind::File(content) && has_elf_magic(content@)
}

/// Every node that a walk from `node` comes by, `node` first: a readable
/// directory is followed by the walk of its entries, and nothing is looked
/// for behind any other node, a symbolic link least of all.
pub open spec fn node_walk(node: Node) -> Seq<Node>
    decreases node,
{
    match node.kind {
        NodeKind::Directory(entries) => seq![node] + listing_walk(entries@),
        _ => seq![node],
    }
}

/// Every node that a walk of a listing comes by, in traversal order.
pub open spec fn listing_walk(entries: Seq<Node>) -> Seq<Node>
    decreases entries,
{
    if entries.len() == 0 {
        Seq::empty()
    } else {
        node_walk(entries[0]) + listing_walk(entries.subrange(1, entries.len() as int))
    }
}

/// The paths of the ELF files among `nodes`, in order.
pub open spec fn elf_paths(nodes: Seq<Node>) -> Seq<Seq<char>> {
    nodes.filter(|node: Node| is_elf_file(node)).map_values(|node: Node| node.path@)
}

/// The ELF files of two sequences laid end to end are those of the first
/// followed by those of the second.
proof fn lemma_elf_paths_add(a: Seq<Node>, b: Seq<Node>)
    ensures
        elf_paths(a + b) == elf_paths(a) + elf_paths(b),
{
    let pred = |node: Node| is_elf_file(node);
    Seq::filter_distributes_over_add(a, b, pred);
    assert(elf_paths(a + b) =~= elf_paths(a) + elf_paths(b));
}

/// The ELF files of a single node: its path if it is one, nothing if not.
proof fn lemma_elf_paths_one(node: Node)
    ensures
        elf_paths(seq![node]) == if is_elf_file(node) {
            seq![node.path@]
        } else {
            Seq::<Seq<char>>::empty()
        },
{
    let pred = |node: Node| is_elf_file(node);
    reveal_with_fuel(Seq::filter, 2);
    let one = seq![node];
    assert(one.drop_last() =~= Seq::<Node>::empty());
    assert(one.last() == node);
    if is_elf_file(node) {
        assert(one.filter(pred) =~= seq![node]);
        assert(elf_paths(one) =~= seq![node.path@]);
    } else {
        assert(one.filter(pred) =~= Seq::<Node>::empty());
        assert(elf_paths(one) =~= Seq::<Seq<char>>::empty());
    }
}

/// The matches below a node are the paths of the ELF files that a walk from
/// it comes by, each once and in traversal order. No directory, symbolic
/// link, unreadable entry or other regular file is among them.
pub proof fn lemma_node_matches_are_elf_files(node: Node)
    ensures
        node_matches(node) == elf_paths(node_walk(node)),
    decreases node, 0nat,
{
    lemma_elf_paths_one(node);
    match node.kind {
        NodeKind::Directory(entries) => {
            lemma_listing_matches_are_elf_files(entries@);
            lemma_elf_paths_add(seq![node], listing_walk(entries@));
            assert(node_matches(node) =~= elf_paths(node_walk(node)));
        },
        _ => {},
    }
}

/// The matches of a listing are the paths of the ELF files that a walk of
/// it comes by, each once and in traversal order.
pub proof fn lemma_listing_matches_are_elf_files(entries: Seq<Node>)
    ensures
        listing_matches(entries) == elf_paths(listing_walk(entries)),
    decreases entries, 1nat,
{
    if entries.len() == 0 {
        assert(elf_paths(Seq::<Node>::empty()) =~= Seq::<Seq<char>>::empty()) by {
            reveal_with_fuel(Seq::filter, 1);
        }
    } else {
        let rest = entries.subrange(1, entries.len() as int);
        lemma_node_matches_are_elf_files(entries[0]);
        lemma_listing_matches_are_elf_files(rest);
        lemma_elf_paths_add(node_walk(entries[0]), listing_walk(rest));
    }
}

/// A scan reports exactly the ELF files that a walk of the root's listing
/// comes by, and nothing at all unless the root is a readable directory.
pub proof fn lemma_scan_matches_are_elf_files(root: Node)
    ensures
        scan_matches(root) == match root.kind {
            NodeKind::Directory(entries) => elf_paths(listing_walk(entries@)),
            _ => Seq::<Seq<char>>::empty(),
        },
{
    match root.kind {
        NodeKind::Directory(entries) => {
            lemma_listing_matches_are_elf_files(entries@);
        },
        _ => {},
    }
}

} // verus!
