//! A walk through a tree of files, and what is reconstructed from its hints.

use sqsearch::discoverer::{
    walk_fh, Errno, Hints, Reconstructer, Submitted, WalkAction,
};
use sqsearch::file_handle::{FileHan, FileHandle, FileHandleOps};

fn make_fh(id: i32) -> FileHandle {
    let mut buf = 4u32.to_le_bytes().to_vec();
    buf.extend_from_slice(&0u32.to_le_bytes());
    buf.extend_from_slice(&id.to_le_bytes());
    FileHan::read_from_buf(&buf).unwrap().to_owned()
}

enum Node {
    File,
    Dir(Vec<(&'static str, i32)>),
    Gone,
    Link,
    Forbidden,
    Locked,
}

/// Files by their numbers, which are their descriptors and are in their handles.
type Tree = Vec<Node>;

struct Seen {
    result: Result<(), Errno>,
    opened: Vec<i32>,
    hints: Vec<Hints>,
    still_open: Vec<i32>,
}

fn open(tree: &Tree, id: i32, opened: &mut Vec<i32>, open: &mut Vec<i32>) -> Result<i32, Errno> {
    match tree[id as usize] {
        Node::Gone => Err(Errno::NoEntry),
        Node::Link => Err(Errno::Loop),
        Node::Forbidden => Err(Errno::Other(13)),
        _ => {
            opened.push(id);
            open.push(id);
            Ok(id)
        }
    }
}

fn walk(tree: &Tree, root: i32) -> Seen {
    let mut walk = walk_fh(&make_fh(root).deref());
    let mut opened = vec![];
    let mut hints = vec![];
    let mut still_open = vec![];
    let mut places: Vec<usize> = vec![0; tree.len()];
    loop {
        walk = match walk.action() {
            WalkAction::OpenByHandle(fh) => {
                assert_eq!(fh.buf(), make_fh(root).buf());
                walk.opened(open(tree, root, &mut opened, &mut still_open))
            }
            WalkAction::OpenAt(fd, name) => {
                let Node::Dir(entries) = &tree[fd as usize] else { panic!("not a directory") };
                let entry = entries.iter().find(|e| e.0.as_bytes() == &name[..]).unwrap();
                walk.opened(open(tree, entry.1, &mut opened, &mut still_open))
            }
            WalkAction::OpenDir(fd) => walk.dir_opened(match tree[fd as usize] {
                Node::Dir(_) => Ok(()),
                Node::Locked => Err(Errno::Other(12)),
                _ => Err(Errno::NotDirectory),
            }),
            WalkAction::ReadDir(fd) => {
                let Node::Dir(entries) = &tree[fd as usize] else { panic!("not a directory") };
                let i = places[fd as usize];
                places[fd as usize] += 1;
                walk.entry(entries.get(i).map(|e| e.0.as_bytes().to_vec()))
            }
            WalkAction::Close(fd) | WalkAction::CloseDir(fd) => {
                assert_eq!(still_open.pop(), Some(fd));
                walk.done()
            }
            WalkAction::Send(hint) => {
                hints.push(hint);
                walk.done()
            }
            WalkAction::Done => {
                let result = walk.result().unwrap();
                return Seen { result, opened, hints, still_open };
            }
        };
    }
}

/// Hands the handles of what was opened to the reconstruction, in order.
fn reconstruct(reconstructer: &mut Reconstructer, seen: Seen) -> Vec<(i32, Option<(Vec<u8>, String)>)> {
    let mut hints = seen.hints.into_iter();
    let mut places = vec![];
    for id in seen.opened {
        loop {
            let hint = hints.next().unwrap();
            assert!(matches!(hint, Hints::Begin) || reconstructer.inside());
            match reconstructer.submit(hint, &make_fh(id).deref()) {
                Submitted::Root => places.push((id, None)),
                Submitted::Entry(p_fh, name) => {
                    let name = String::from_utf8(name).unwrap();
                    places.push((id, Some((p_fh.buf().to_vec(), name))));
                }
                Submitted::Again => continue,
            }
            break;
        }
    }
    places
}

fn entry(p: i32, name: &str) -> Option<(Vec<u8>, String)> {
    Some((make_fh(p).buf().to_vec(), name.to_string()))
}

#[test]
fn files_are_placed_where_they_were_found() {
    let tree: Tree = vec![
        Node::Dir(vec![(".", 0), ("a", 1), ("..", 0), ("d", 2), ("e", 5), ("z", 6)]),
        Node::File,
        Node::Dir(vec![("b", 3), ("c", 4)]),
        Node::File,
        Node::Dir(vec![]),
        Node::Dir(vec![("f", 7)]),
        Node::File,
        Node::File,
    ];
    let seen = walk(&tree, 0);
    assert!(seen.result.is_ok());
    assert!(seen.still_open.is_empty());
    let mut reconstructer = Reconstructer::new();
    assert_eq!(
        reconstruct(&mut reconstructer, seen),
        vec![
            (0, None),
            (1, entry(0, "a")),
            (2, entry(0, "d")),
            (3, entry(2, "b")),
            (4, entry(2, "c")),
            (5, entry(0, "e")),
            (7, entry(5, "f")),
            (6, entry(0, "z")),
        ]
    );
}

#[test]
fn missing_entries_and_links_are_left_aside() {
    let tree: Tree = vec![
        Node::Dir(vec![("gone", 1), ("link", 2), ("file", 3)]),
        Node::Gone,
        Node::Link,
        Node::File,
    ];
    let seen = walk(&tree, 0);
    assert!(seen.result.is_ok());
    assert_eq!(seen.opened, vec![0, 3]);
    assert!(seen.still_open.is_empty());
}

#[test]
fn failure_below_does_not_end_the_walk() {
    let tree: Tree = vec![
        Node::Dir(vec![("d", 1), ("l", 4), ("last", 3)]),
        Node::Dir(vec![("no", 2), ("unseen", 3)]),
        Node::Forbidden,
        Node::File,
        Node::Locked,
    ];
    let seen = walk(&tree, 0);
    assert!(seen.result.is_ok());
    assert_eq!(seen.opened, vec![0, 1, 4, 3]);
    assert!(seen.still_open.is_empty());
    let mut reconstructer = Reconstructer::new();
    assert_eq!(
        reconstruct(&mut reconstructer, seen),
        vec![(0, None), (1, entry(0, "d")), (4, entry(0, "l")), (3, entry(0, "last"))]
    );
}

#[test]
fn failure_at_the_start_ends_the_walk() {
    let tree: Tree = vec![Node::Dir(vec![("no", 1)]), Node::Forbidden, Node::Locked, Node::File];
    let seen = walk(&tree, 0);
    assert_eq!(seen.result, Err(Errno::Other(13)));
    assert!(seen.still_open.is_empty());
    let seen = walk(&tree, 2);
    assert_eq!(seen.result, Err(Errno::Other(12)));
    assert!(seen.still_open.is_empty());
    let seen = walk(&tree, 1);
    assert_eq!(seen.result, Err(Errno::Other(13)));
    assert!(seen.hints.is_empty());
    let seen = walk(&tree, 3);
    assert!(seen.result.is_ok());
    assert!(matches!(&seen.hints[..], [Hints::Begin]));
}

#[test]
fn stale_directory_is_no_failure() {
    let walk = walk_fh(&make_fh(0).deref()).opened(Err(Errno::Stale));
    assert!(matches!(walk.action(), WalkAction::Done));
    assert_eq!(walk.result(), Some(Ok(())));
}

#[test]
fn walks_follow_each_other() {
    let tree: Tree = vec![
        Node::Dir(vec![("a", 1)]),
        Node::File,
        Node::Dir(vec![("b", 3)]),
        Node::File,
    ];
    let mut reconstructer = Reconstructer::new();
    let first = walk(&tree, 0);
    let second = walk(&tree, 2);
    let mut both = first;
    both.opened.extend(second.opened);
    both.hints.extend(second.hints);
    assert_eq!(
        reconstruct(&mut reconstructer, both),
        vec![(0, None), (1, entry(0, "a")), (2, None), (3, entry(2, "b"))]
    );
}
