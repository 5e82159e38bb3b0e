use elfscan::scan::{Entry, EntryKind, Files, Libdir, Reply, Request};

const ELF_HEAD: [u8; 4] = [0x7f, 0x45, 0x4c, 0x46];

/// A file system for the scanner to read: the listing of each readable
/// directory and the content of each readable file, by path.
struct Disk {
    listings: Vec<(&'static str, Vec<(&'static str, EntryKind)>)>,
    contents: Vec<(&'static str, Vec<u8>)>,
}

impl Disk {
    fn serve(&self, request: &Request) -> Reply {
        match request {
            Request::Listing(path) => {
                match self.listings.iter().find(|(p, _)| p == path) {
                    Some((_, entries)) => Reply::Entries(
                        entries
                            .iter()
                            .map(|(p, kind)| Entry { path: p.to_string(), kind: *kind })
                            .collect(),
                    ),
                    None => Reply::Failed,
                }
            }
            Request::Head(path) => match self.contents.iter().find(|(p, _)| p == path) {
                Some((_, bytes)) => Reply::Bytes(bytes.iter().take(4).copied().collect()),
                None => Reply::Failed,
            },
        }
    }
}

/// Runs a scan of `root` against `disk` and returns every request made, in
/// order, with the paths found.
fn scan_disk(root: &str, disk: &Disk) -> (Vec<Request>, Vec<String>) {
    let mut scan = Libdir::new(root.to_string());
    let mut asked = Vec::new();
    let mut next = scan.request();
    while let Some(request) = next {
        let reply = disk.serve(&request);
        asked.push(request);
        next = scan.step(reply);
        assert!(asked.len() < 1000, "the scan does not end");
    }
    assert!(scan.is_complete());
    let paths = scan.matches().iter().map(|f| f.fullpath.clone()).collect();
    (asked, paths)
}

fn listing(path: &str) -> Request {
    Request::Listing(path.to_string())
}

fn head(path: &str) -> Request {
    Request::Head(path.to_string())
}

fn elf() -> Vec<u8> {
    let mut bytes = ELF_HEAD.to_vec();
    bytes.extend_from_slice(&[2, 1, 1, 0, 0, 0, 0, 0]);
    bytes
}

#[test]
fn new_scan_asks_for_its_root() {
    let scan = Libdir::new("/usr/lib".to_string());
    assert_eq!(scan.dir, "/usr/lib");
    assert!(scan.files.is_empty());
    assert!(scan.matches().is_empty());
    assert!(!scan.is_complete());
    assert_eq!(scan.request(), Some(listing("/usr/lib")));
}

#[test]
fn request_does_not_advance_the_scan() {
    let scan = Libdir::new("d".to_string());
    assert_eq!(scan.request(), Some(listing("d")));
    assert_eq!(scan.request(), Some(listing("d")));
}

#[test]
fn missing_root_finds_nothing() {
    let mut scan = Libdir::new("/no/such/dir".to_string());
    assert_eq!(scan.step(Reply::Failed), None);
    assert!(scan.is_complete());
    assert!(scan.matches().is_empty());
    assert_eq!(scan.request(), None);
}

#[test]
fn root_that_is_a_file_finds_nothing() {
    let disk = Disk { listings: vec![], contents: vec![("a.bin", elf())] };
    let (asked, paths) = scan_disk("a.bin", &disk);
    assert_eq!(asked, vec![listing("a.bin")]);
    assert!(paths.is_empty());
}

#[test]
fn empty_directory_finds_nothing() {
    let mut scan = Libdir::new("d".to_string());
    assert_eq!(scan.step(Reply::Entries(Vec::new())), None);
    assert!(scan.is_complete());
    assert!(scan.matches().is_empty());
}

#[test]
fn elf_file_is_found_and_text_file_is_not() {
    let disk = Disk {
        listings: vec![("dir", vec![("dir/a.bin", EntryKind::File), ("dir/b.txt", EntryKind::File)])],
        contents: vec![("dir/a.bin", elf()), ("dir/b.txt", b"some text\n".to_vec())],
    };
    let (asked, paths) = scan_disk("dir", &disk);
    assert_eq!(asked, vec![listing("dir"), head("dir/a.bin"), head("dir/b.txt")]);
    assert_eq!(paths, vec!["dir/a.bin".to_string()]);
}

#[test]
fn entries_are_served_in_listing_order() {
    let mut scan = Libdir::new("d".to_string());
    let entries = vec![
        Entry { path: "d/1".to_string(), kind: EntryKind::File },
        Entry { path: "d/2".to_string(), kind: EntryKind::Directory },
        Entry { path: "d/3".to_string(), kind: EntryKind::File },
    ];
    assert_eq!(scan.step(Reply::Entries(entries)), Some(head("d/1")));
    assert_eq!(scan.step(Reply::Failed), Some(listing("d/2")));
    assert_eq!(scan.step(Reply::Failed), Some(head("d/3")));
    assert_eq!(scan.step(Reply::Failed), None);
    assert!(scan.matches().is_empty());
}

#[test]
fn subtree_is_exhausted_before_its_siblings() {
    let disk = Disk {
        listings: vec![
            ("r", vec![("r/a", EntryKind::Directory), ("r/b", EntryKind::File), ("r/c", EntryKind::Directory)]),
            ("r/a", vec![("r/a/x", EntryKind::File), ("r/a/deep", EntryKind::Directory), ("r/a/y", EntryKind::File)]),
            ("r/a/deep", vec![("r/a/deep/z", EntryKind::File)]),
            ("r/c", vec![("r/c/w", EntryKind::File)]),
        ],
        contents: vec![
            ("r/a/x", elf()),
            ("r/a/deep/z", elf()),
            ("r/a/y", b"text".to_vec()),
            ("r/b", elf()),
            ("r/c/w", elf()),
        ],
    };
    let (asked, paths) = scan_disk("r", &disk);
    assert_eq!(
        asked,
        vec![
            listing("r"),
            listing("r/a"),
            head("r/a/x"),
            listing("r/a/deep"),
            head("r/a/deep/z"),
            head("r/a/y"),
            head("r/b"),
            listing("r/c"),
            head("r/c/w"),
        ]
    );
    assert_eq!(paths, vec!["r/a/x", "r/a/deep/z", "r/b", "r/c/w"]);
}

#[test]
fn symbolic_links_are_never_asked_about() {
    let disk = Disk {
        listings: vec![
            ("r", vec![
                ("r/link-to-elf", EntryKind::Symlink),
                ("r/real", EntryKind::File),
                ("r/link-to-dir", EntryKind::Symlink),
            ]),
            ("r/link-to-dir", vec![("r/link-to-dir/inner", EntryKind::File)]),
        ],
        contents: vec![
            ("r/link-to-elf", elf()),
            ("r/real", elf()),
            ("r/link-to-dir/inner", elf()),
        ],
    };
    let (asked, paths) = scan_disk("r", &disk);
    assert_eq!(asked, vec![listing("r"), head("r/real")]);
    assert_eq!(paths, vec!["r/real"]);
}

#[test]
fn directory_of_links_alone_finds_nothing() {
    let mut scan = Libdir::new("r".to_string());
    let entries = vec![
        Entry { path: "r/a".to_string(), kind: EntryKind::Symlink },
        Entry { path: "r/b".to_string(), kind: EntryKind::Symlink },
    ];
    assert_eq!(scan.step(Reply::Entries(entries)), None);
    assert!(scan.matches().is_empty());
}

#[test]
fn unreadable_entries_are_skipped() {
    let disk = Disk {
        listings: vec![("r", vec![
            ("", EntryKind::Unreadable),
            ("r/socket", EntryKind::Unreadable),
            ("r/ok", EntryKind::File),
        ])],
        contents: vec![("r/ok", elf()), ("r/socket", elf()), ("", elf())],
    };
    let (asked, paths) = scan_disk("r", &disk);
    assert_eq!(asked, vec![listing("r"), head("r/ok")]);
    assert_eq!(paths, vec!["r/ok"]);
}

#[test]
fn unreadable_subdirectory_is_skipped() {
    let disk = Disk {
        listings: vec![("r", vec![("r/locked", EntryKind::Directory), ("r/ok", EntryKind::File)])],
        contents: vec![("r/ok", elf())],
    };
    let (asked, paths) = scan_disk("r", &disk);
    assert_eq!(asked, vec![listing("r"), listing("r/locked"), head("r/ok")]);
    assert_eq!(paths, vec!["r/ok"]);
}

#[test]
fn file_that_cannot_be_opened_is_skipped() {
    let disk = Disk {
        listings: vec![("r", vec![("r/gone", EntryKind::File), ("r/ok", EntryKind::File)])],
        contents: vec![("r/ok", elf())],
    };
    let (asked, paths) = scan_disk("r", &disk);
    assert_eq!(asked, vec![listing("r"), head("r/gone"), head("r/ok")]);
    assert_eq!(paths, vec!["r/ok"]);
}

#[test]
fn short_file_is_not_a_match() {
    let mut scan = Libdir::new("r".to_string());
    let entries = vec![Entry { path: "r/short".to_string(), kind: EntryKind::File }];
    assert_eq!(scan.step(Reply::Entries(entries)), Some(head("r/short")));
    assert_eq!(scan.step(Reply::Bytes(vec![0x7f, 0x45, 0x4c])), None);
    assert!(scan.matches().is_empty());
}

#[test]
fn empty_file_is_not_a_match() {
    let mut scan = Libdir::new("r".to_string());
    let entries = vec![Entry { path: "r/empty".to_string(), kind: EntryKind::File }];
    scan.step(Reply::Entries(entries));
    assert_eq!(scan.step(Reply::Bytes(Vec::new())), None);
    assert!(scan.matches().is_empty());
}

#[test]
fn match_carries_the_path_of_the_listing() {
    let mut scan = Libdir::new("r".to_string());
    let entries = vec![Entry { path: "r/./sub/../a.bin".to_string(), kind: EntryKind::File }];
    scan.step(Reply::Entries(entries));
    scan.step(Reply::Bytes(ELF_HEAD.to_vec()));
    assert_eq!(scan.files, vec![Files { fullpath: "r/./sub/../a.bin".to_string() }]);
    assert_eq!(scan.dir, "r");
}

#[test]
fn listing_in_reply_to_a_file_counts_as_failure() {
    let mut scan = Libdir::new("r".to_string());
    let entries = vec![
        Entry { path: "r/a".to_string(), kind: EntryKind::File },
        Entry { path: "r/b".to_string(), kind: EntryKind::File },
    ];
    assert_eq!(scan.step(Reply::Entries(entries)), Some(head("r/a")));
    let stray = vec![Entry { path: "r/a/x".to_string(), kind: EntryKind::File }];
    assert_eq!(scan.step(Reply::Entries(stray)), Some(head("r/b")));
    assert_eq!(scan.step(Reply::Bytes(ELF_HEAD.to_vec())), None);
    assert_eq!(scan.files, vec![Files { fullpath: "r/b".to_string() }]);
}

#[test]
fn bytes_in_reply_to_a_listing_count_as_failure() {
    let mut scan = Libdir::new("r".to_string());
    assert_eq!(scan.step(Reply::Bytes(ELF_HEAD.to_vec())), None);
    assert!(scan.matches().is_empty());
    assert!(scan.is_complete());
}

#[test]
fn reply_to_a_complete_scan_is_dropped() {
    let mut scan = Libdir::new("r".to_string());
    assert_eq!(scan.step(Reply::Failed), None);
    assert_eq!(scan.step(Reply::Bytes(ELF_HEAD.to_vec())), None);
    let entries = vec![Entry { path: "r/a".to_string(), kind: EntryKind::File }];
    assert_eq!(scan.step(Reply::Entries(entries)), None);
    assert!(scan.is_complete());
    assert!(scan.matches().is_empty());
}

#[test]
fn restart_asks_for_the_root_again_and_keeps_matches() {
    let mut scan = Libdir::new("r".to_string());
    let entries = vec![
        Entry { path: "r/a".to_string(), kind: EntryKind::File },
        Entry { path: "r/b".to_string(), kind: EntryKind::File },
    ];
    scan.step(Reply::Entries(entries));
    assert_eq!(scan.step(Reply::Bytes(ELF_HEAD.to_vec())), Some(head("r/b")));
    scan.restart();
    assert_eq!(scan.request(), Some(listing("r")));
    assert_eq!(scan.files, vec![Files { fullpath: "r/a".to_string() }]);
    assert_eq!(scan.step(Reply::Failed), None);
    assert_eq!(scan.files, vec![Files { fullpath: "r/a".to_string() }]);
}

#[test]
fn scanning_twice_finds_the_same() {
    let disk = Disk {
        listings: vec![
            ("r", vec![("r/a", EntryKind::File), ("r/d", EntryKind::Directory), ("r/l", EntryKind::Symlink)]),
            ("r/d", vec![("r/d/b", EntryKind::File), ("r/d/c", EntryKind::File)]),
        ],
        contents: vec![("r/a", elf()), ("r/d/b", b"no".to_vec()), ("r/d/c", elf())],
    };
    let first = scan_disk("r", &disk);
    let second = scan_disk("r", &disk);
    assert_eq!(first, second);
    assert_eq!(first.1, vec!["r/a", "r/d/c"]);
}

#[test]
fn same_path_listed_twice_is_found_twice() {
    let disk = Disk {
        listings: vec![("r", vec![("r/a", EntryKind::File), ("r/a", EntryKind::File)])],
        contents: vec![("r/a", elf())],
    };
    let (_, paths) = scan_disk("r", &disk);
    assert_eq!(paths, vec!["r/a", "r/a"]);
}
