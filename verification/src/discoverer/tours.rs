//! Walks through whole trees of files.

use vstd::prelude::*;

use crate::discoverer::{follow, told, Errno, Hint, Place, WalkAct, Walked, Walking};

verus! {

/// What an entry of a directory is.
pub enum Kind {
    /// A directory with its entries, in the order in which they are read.
    Dir(Seq<Node>),
    /// A file that is no directory.
    File,
    /// Something that can be opened, but not as a directory.
    Unreadable(Errno),
    /// Something that is gone before it can be opened.
    Gone,
    /// A symbolic link.
    Link,
    /// Something that cannot be opened.
    Denied(Errno),
}

/// An entry of a directory: its name, its handle, and its descriptor once it is open.
pub struct Node {
    pub name: Seq<u8>,
    pub fh: Seq<u8>,
    pub fd: i32,
    pub kind: Kind,
}

/// What is opened of an entry, and what opening it comes to.
pub open spec fn opening(node: Node) -> Result<i32, Errno> {
    match node.kind {
        Kind::Gone => Err(Errno::NoEntry),
        Kind::Link => Err(Errno::Loop),
        Kind::Denied(e) => Err(e),
        _ => Ok(node.fd),
    }
}

/// What opening a file as a directory comes to.
pub open spec fn entering(node: Node) -> Result<(), Errno> {
    match node.kind {
        Kind::Dir(_) => Ok(()),
        Kind::Unreadable(e) => Err(e),
        _ => Err(Errno::NotDirectory),
    }
}

/// A directory that is open, and the entries that have not been read.
pub struct Opened {
    pub fd: i32,
    pub rest: Seq<Node>,
}

/// A walk, the directories that are open, and the entry that was read or opened last.
pub struct Tour {
    pub walk: Walked,
    pub open: Seq<Opened>,
    pub last: Option<Node>,
}

impl Tour {
    /// The tour without the current directory.
    pub open spec fn up(self, walk: Walked) -> Tour {
        Tour { walk, open: self.open.drop_last(), last: None }
    }

    /// One step: what the walk asks for is done to the files, `root` being the one that the
    /// walk begins with. `None` if that cannot be done: what is read, opened or closed must
    /// be what is open, and an entry is opened by its name.
    pub open spec fn next(self, root: Node) -> Option<(Option<Hint>, Tour)> {
        match self.walk.action() {
            WalkAct::OpenByHandle(fh) => if fh == root.fh {
                let x = match opening(root) {
                    Err(Errno::NoEntry) => Err(Errno::Stale),
                    x => x,
                };
                Some((None, Tour { walk: self.walk.opened(x), last: Some(root), ..self }))
            } else {
                None
            },
            WalkAct::OpenAt(fd, name) => if self.open.len() > 0 && self.open.last().fd == fd
                && self.last is Some && self.last->0.name == name {
                let x = opening(self.last->0);
                let last = if x is Ok {
                    self.last
                } else {
                    None
                };
                Some((None, Tour { walk: self.walk.opened(x), last, ..self }))
            } else {
                None
            },
            WalkAct::OpenDir(fd) => if self.last is Some && self.last->0.fd == fd {
                let node = self.last->0;
                let walk = self.walk.dir_opened(entering(node));
                match node.kind {
                    Kind::Dir(rest) => Some(
                        (None, Tour { walk, open: self.open.push(Opened { fd, rest }), last: None }),
                    ),
                    _ => Some((None, Tour { walk, ..self })),
                }
            } else {
                None
            },
            WalkAct::ReadDir(fd) => if self.open.len() > 0 && self.open.last().fd == fd {
                let rest = self.open.last().rest;
                if rest.len() == 0 {
                    Some((None, Tour { walk: self.walk.entry(None), last: None, ..self }))
                } else {
                    let open = self.open.drop_last().push(Opened { fd, rest: rest.drop_first() });
                    let walk = self.walk.entry(Some(rest[0].name));
                    Some((None, Tour { walk, open, last: Some(rest[0]) }))
                }
            } else {
                None
            },
            WalkAct::Close(fd) => match self.last {
                Some(node) => if node.fd == fd {
                    Some((None, Tour { walk: self.walk.done(), last: None, ..self }))
                } else {
                    None
                },
                None => if self.open.len() > 0 && self.open.last().fd == fd {
                    Some((None, self.up(self.walk.done())))
                } else {
                    None
                },
            },
            WalkAct::CloseDir(fd) => if self.open.len() > 0 && self.open.last().fd == fd {
                Some((None, self.up(self.walk.done())))
            } else {
                None
            },
            WalkAct::Send(hint) => Some((Some(hint), Tour { walk: self.walk.done(), ..self })),
            WalkAct::Done => None,
        }
    }

    /// Within `n` steps the walk ends with the result, and has sent these hints.
    pub open spec fn sends_within(
        self,
        root: Node,
        hints: Seq<Hint>,
        end: Result<(), Errno>,
        n: nat,
    ) -> bool
        decreases n,
    {
        if self.walk.action() is Done {
            hints.len() == 0 && self.walk.state == Walking::Finished(end)
        } else {
            n > 0 && match self.next(root) {
                None => false,
                Some((None, next)) => next.sends_within(root, hints, end, (n - 1) as nat),
                Some((Some(hint), next)) => {
                    &&& hints.len() > 0
                    &&& hints[0] == hint
                    &&& next.sends_within(root, hints.drop_first(), end, (n - 1) as nat)
                },
            }
        }
    }

    /// The walk ends with the result, and has sent these hints.
    pub open spec fn sends(self, root: Node, hints: Seq<Hint>, end: Result<(), Errno>) -> bool {
        exists|n: nat| self.sends_within(root, hints, end, n)
    }
}

/// The name is that of the directory itself, or the one above it.
pub open spec fn is_itself_or_above(name: Seq<u8>) -> bool {
    name == seq![46u8] || name == seq![46u8, 46u8]
}

/// The hints for the entries of a directory: one for each that is opened, then those for
/// what is in it, and one when it is left. All are opened but the directory itself and the
/// one above it, what is gone, and symbolic links; what cannot be opened ends the directory.
pub open spec fn hints_for(nodes: Seq<Node>) -> Seq<Hint>
    decreases nodes,
{
    if nodes.len() == 0 {
        Seq::empty()
    } else {
        let node = nodes[0];
        let rest = nodes.drop_first();
        if is_itself_or_above(node.name) {
            hints_for(rest)
        } else {
            match node.kind {
                Kind::Gone => hints_for(rest),
                Kind::Link => hints_for(rest),
                Kind::Denied(e) => if e is NoEntry || e is Loop {
                    hints_for(rest)
                } else {
                    Seq::empty()
                },
                Kind::Dir(inner) => seq![Hint::PushChildren(node.name)] + hints_for(inner)
                    + seq![Hint::PopChildren] + hints_for(rest),
                _ => seq![Hint::PushChildren(node.name), Hint::PopChildren] + hints_for(rest),
            }
        }
    }
}

/// What a directory comes to: a failure where an entry could not be opened and is neither
/// gone nor a symbolic link.
pub open spec fn ends(nodes: Seq<Node>) -> Result<(), Errno>
    decreases nodes.len(),
{
    if nodes.len() == 0 {
        Ok(())
    } else {
        match opening(nodes[0]) {
            Err(e) => if is_itself_or_above(nodes[0].name) || e is NoEntry || e is Loop {
                ends(nodes.drop_first())
            } else {
                Err(e)
            },
            Ok(_) => ends(nodes.drop_first()),
        }
    }
}

/// A step before what is sent.
proof fn lemma_silent(c: Tour, root: Node, hints: Seq<Hint>, end: Result<(), Errno>)
    requires
        c.next(root) matches Some((None, next)) && next.sends(root, hints, end),
        c.walk.action() !is Done,
    ensures
        c.sends(root, hints, end),
{
    let next = (c.next(root)->0).1;
    let n = choose|n: nat| next.sends_within(root, hints, end, n);
    assert(c.sends_within(root, hints, end, n + 1));
}

/// A step that sends a hint.
proof fn lemma_sent(c: Tour, root: Node, hint: Hint, hints: Seq<Hint>, end: Result<(), Errno>)
    requires
        c.next(root) matches Some((Some(h), next)) && h == hint && next.sends(root, hints, end),
        c.walk.action() !is Done,
    ensures
        c.sends(root, seq![hint] + hints, end),
{
    let next = (c.next(root)->0).1;
    let n = choose|n: nat| next.sends_within(root, hints, end, n);
    let all = seq![hint] + hints;
    assert(all.drop_first() =~= hints);
    assert(c.sends_within(root, all, end, n + 1));
}

/// The directories that are open are those of the walk.
spec fn same_dirs(c: Tour) -> bool {
    &&& c.walk.dirs.len() == c.open.len()
    &&& forall|i: int| 0 <= i < c.open.len() ==> (#[trigger] c.open[i]).fd == c.walk.dirs[i]
}

/// After the current directory.
spec fn after(c: Tour, result: Result<(), Errno>) -> Tour {
    c.up(c.walk.up().leave(result))
}

/// The rest of a directory.
proof fn lemma_directory(
    c: Tour,
    root: Node,
    nodes: Seq<Node>,
    hints: Seq<Hint>,
    end: Result<(), Errno>,
)
    requires
        c.walk.state is Read,
        c.open.len() > 0,
        same_dirs(c),
        c.open.last().rest == nodes,
        after(c, ends(nodes)).sends(root, hints, end),
    ensures
        c.sends(root, hints_for(nodes) + hints, end),
    decreases nodes,
{
    let c1 = (c.next(root)->0).1;
    assert(c.open.last().fd == c.walk.dirs.last());
    if nodes.len() == 0 {
        let c2 = (c1.next(root)->0).1;
        assert(c2 == after(c, ends(nodes)));
        lemma_silent(c1, root, hints, end);
        lemma_silent(c, root, hints, end);
        assert(hints_for(nodes) + hints =~= hints);
    } else {
        let node = nodes[0];
        let rest = nodes.drop_first();
        assert(c1.open.drop_last() =~= c.open.drop_last());
        assert(same_dirs(c1));
        assert(forall|x: Result<(), Errno>| #[trigger] after(c1, x) == after(c, x));
        if is_itself_or_above(node.name) {
            lemma_directory(c1, root, rest, hints, end);
            lemma_silent(c, root, hints_for(rest) + hints, end);
        } else {
            let c2 = (c1.next(root)->0).1;
            assert(c1.walk.action() == WalkAct::OpenAt(c.walk.dirs.last(), node.name));
            match node.kind {
                Kind::Gone => {
                    lemma_directory(c2, root, rest, hints, end);
                    lemma_silent(c1, root, hints_for(rest) + hints, end);
                    lemma_silent(c, root, hints_for(rest) + hints, end);
                },
                Kind::Link => {
                    lemma_directory(c2, root, rest, hints, end);
                    lemma_silent(c1, root, hints_for(rest) + hints, end);
                    lemma_silent(c, root, hints_for(rest) + hints, end);
                },
                Kind::Denied(e) => {
                    if e is NoEntry || e is Loop {
                        lemma_directory(c2, root, rest, hints, end);
                        lemma_silent(c1, root, hints_for(rest) + hints, end);
                        lemma_silent(c, root, hints_for(rest) + hints, end);
                    } else {
                        let c3 = (c2.next(root)->0).1;
                        assert(c2.walk.action() == WalkAct::Close(c.walk.dirs.last()));
                        assert(c3 == after(c, Err(e)));
                        assert(ends(nodes) == Err::<(), Errno>(e));
                        lemma_silent(c2, root, hints, end);
                        lemma_silent(c1, root, hints, end);
                        lemma_silent(c, root, hints, end);
                        assert(hints_for(nodes) + hints =~= hints);
                    }
                },
                Kind::Dir(inner) => {
                    let c3 = (c2.next(root)->0).1;
                    let c4 = (c3.next(root)->0).1;
                    assert(c2.walk.action() == WalkAct::Send(Hint::PushChildren(node.name)));
                    assert(c3.walk.action() == WalkAct::OpenDir(node.fd));
                    assert(c4.walk.state is Read);
                    assert(same_dirs(c4));
                    let c5 = after(c4, ends(inner));
                    assert(c4.walk.dirs.drop_last() =~= c.walk.dirs);
                    assert(c4.open.drop_last() =~= c1.open);
                    assert(c5.walk.action() == WalkAct::Send(Hint::PopChildren));
                    let c6 = (c5.next(root)->0).1;
                    assert(same_dirs(c6));
                    assert(after(c6, ends(rest)) == after(c, ends(nodes)));
                    lemma_directory(c6, root, rest, hints, end);
                    let tail = hints_for(rest) + hints;
                    lemma_sent(c5, root, Hint::PopChildren, tail, end);
                    let more = seq![Hint::PopChildren] + tail;
                    lemma_directory(c4, root, inner, more, end);
                    let all = hints_for(inner) + more;
                    lemma_silent(c3, root, all, end);
                    lemma_sent(c2, root, Hint::PushChildren(node.name), all, end);
                    let whole = seq![Hint::PushChildren(node.name)] + all;
                    lemma_silent(c1, root, whole, end);
                    lemma_silent(c, root, whole, end);
                    assert(whole =~= hints_for(nodes) + hints);
                },
                _ => {
                    let c3 = (c2.next(root)->0).1;
                    let c4 = (c3.next(root)->0).1;
                    let c5 = (c4.next(root)->0).1;
                    let c6 = (c5.next(root)->0).1;
                    assert(c2.walk.action() == WalkAct::Send(Hint::PushChildren(node.name)));
                    assert(c3.walk.action() == WalkAct::OpenDir(node.fd));
                    assert(c4.walk.action() == WalkAct::Close(node.fd));
                    assert(c5.walk.action() == WalkAct::Send(Hint::PopChildren));
                    assert(same_dirs(c6));
                    assert(after(c6, ends(rest)) == after(c, ends(nodes)));
                    lemma_directory(c6, root, rest, hints, end);
                    let tail = hints_for(rest) + hints;
                    lemma_sent(c5, root, Hint::PopChildren, tail, end);
                    let more = seq![Hint::PopChildren] + tail;
                    lemma_silent(c4, root, more, end);
                    lemma_silent(c3, root, more, end);
                    lemma_sent(c2, root, Hint::PushChildren(node.name), more, end);
                    let whole = seq![Hint::PushChildren(node.name)] + more;
                    lemma_silent(c1, root, whole, end);
                    lemma_silent(c, root, whole, end);
                    assert(whole =~= hints_for(nodes) + hints);
                },
            }
        }
    }
}

/// A walk through a directory opens every file below it, whatever its name, and sends for
/// each one hint when it is opened and one when the walk is done with it; and what is in a
/// directory comes between its two hints. Only what it finds in every directory for the
/// directory itself and for the one above it, what is gone, and symbolic links are left
/// aside; what cannot be opened ends its directory. The walk works on just the files that
/// are open, and ends. A directory that is gone before the walk begins has no hints. The
/// walk fails only if what it began with could not be opened or read, or one of its own
/// entries could not be opened, and tells why.
pub proof fn law_all_files_opened(root: Node)
    ensures
        ({
            let walk = Walked { fh: root.fh, dirs: Seq::empty(), state: Walking::OpenRoot };
            let tour = Tour { walk, open: Seq::empty(), last: None };
            match root.kind {
                Kind::Dir(nodes) => tour.sends(
                    root,
                    seq![Hint::Begin] + hints_for(nodes),
                    ends(nodes),
                ),
                Kind::File => tour.sends(root, seq![Hint::Begin], Ok(())),
                Kind::Unreadable(e) => tour.sends(
                    root,
                    seq![Hint::Begin],
                    if e is NotDirectory {
                        Ok(())
                    } else {
                        Err(e)
                    },
                ),
                Kind::Gone => tour.sends(root, Seq::empty(), Ok(())),
                Kind::Link => tour.sends(root, Seq::empty(), Err(Errno::Loop)),
                Kind::Denied(e) => tour.sends(
                    root,
                    Seq::empty(),
                    if e is Stale || e is NoEntry {
                        Ok(())
                    } else {
                        Err(e)
                    },
                ),
            }
        }),
{
    let walk = Walked { fh: root.fh, dirs: Seq::empty(), state: Walking::OpenRoot };
    let c = Tour { walk, open: Seq::empty(), last: None };
    let none = Seq::<Hint>::empty();
    let c1 = (c.next(root)->0).1;
    match root.kind {
        Kind::Dir(nodes) => {
            let c2 = (c1.next(root)->0).1;
            let c3 = (c2.next(root)->0).1;
            let end = ends(nodes);
            assert(c1.walk.action() == WalkAct::Send(Hint::Begin));
            assert(c2.walk.action() == WalkAct::OpenDir(root.fd));
            assert(same_dirs(c3));
            assert(c3.walk.dirs.drop_last() =~= Seq::<i32>::empty());
            assert(after(c3, end).sends_within(root, none, end, 0));
            lemma_directory(c3, root, nodes, none, end);
            assert(hints_for(nodes) + none =~= hints_for(nodes));
            lemma_silent(c2, root, hints_for(nodes), end);
            lemma_sent(c1, root, Hint::Begin, hints_for(nodes), end);
            lemma_silent(c, root, seq![Hint::Begin] + hints_for(nodes), end);
        },
        Kind::File => {
            lemma_no_directory(c, root);
        },
        Kind::Unreadable(_) => {
            lemma_no_directory(c, root);
        },
        _ => {
            let end = c1.walk.state->Finished_0;
            assert(c1.sends_within(root, none, end, 0));
            lemma_silent(c, root, none, end);
        },
    }
}

/// A walk that begins with a file that cannot be opened as a directory.
proof fn lemma_no_directory(c: Tour, root: Node)
    requires
        c.walk == (Walked { fh: root.fh, dirs: Seq::empty(), state: Walking::OpenRoot }),
        root.kind is File || root.kind is Unreadable,
    ensures
        c.sends(
            root,
            seq![Hint::Begin],
            if entering(root) == Err::<(), Errno>(Errno::NotDirectory) {
                Ok(())
            } else {
                entering(root)
            },
        ),
{
    let end = if entering(root) == Err::<(), Errno>(Errno::NotDirectory) {
        Ok(())
    } else {
        entering(root)
    };
    let none = Seq::<Hint>::empty();
    let c1 = (c.next(root)->0).1;
    let c2 = (c1.next(root)->0).1;
    let c3 = (c2.next(root)->0).1;
    let c4 = (c3.next(root)->0).1;
    assert(c1.walk.action() == WalkAct::Send(Hint::Begin));
    assert(c2.walk.action() == WalkAct::OpenDir(root.fd));
    assert(c3.walk.action() == WalkAct::Close(root.fd));
    assert(c4.sends_within(root, none, end, 0));
    lemma_silent(c3, root, none, end);
    lemma_silent(c2, root, none, end);
    lemma_sent(c1, root, Hint::Begin, none, end);
    lemma_silent(c, root, seq![Hint::Begin] + none, end);
    assert(seq![Hint::Begin] + none =~= seq![Hint::Begin]);
}

/// The entry is opened by a walk.
pub open spec fn is_opened(node: Node) -> bool {
    !is_itself_or_above(node.name) && opening(node) is Ok
}

/// The walk goes on after the entry.
pub open spec fn goes_on(node: Node) -> bool {
    is_itself_or_above(node.name) || match opening(node) {
        Ok(_) => true,
        Err(e) => e is NoEntry || e is Loop,
    }
}

/// The handles of all files that are opened below a directory, in the order in which they
/// are opened.
pub open spec fn handles_below(nodes: Seq<Node>) -> Seq<Seq<u8>>
    decreases nodes,
{
    if nodes.len() == 0 || !goes_on(nodes[0]) {
        Seq::empty()
    } else {
        let node = nodes[0];
        let rest = nodes.drop_first();
        if !is_opened(node) {
            handles_below(rest)
        } else {
            match node.kind {
                Kind::Dir(inner) => seq![node.fh] + handles_below(inner) + handles_below(rest),
                _ => seq![node.fh] + handles_below(rest),
            }
        }
    }
}

/// Where these files are: the handle of the directory, and the name.
pub open spec fn places_below(dir: Seq<u8>, nodes: Seq<Node>) -> Seq<Place>
    decreases nodes,
{
    if nodes.len() == 0 || !goes_on(nodes[0]) {
        Seq::empty()
    } else {
        let node = nodes[0];
        let rest = nodes.drop_first();
        if !is_opened(node) {
            places_below(dir, rest)
        } else {
            match node.kind {
                Kind::Dir(inner) => seq![Place::Entry(dir, node.name)] + places_below(
                    node.fh,
                    inner,
                ) + places_below(dir, rest),
                _ => seq![Place::Entry(dir, node.name)] + places_below(dir, rest),
            }
        }
    }
}

/// Where files are placed, given the hints that come and the handles of the files that
/// were opened, in order. A hint that says nothing about a file makes way for the next one.
pub open spec fn placed(
    stack: Seq<Seq<u8>>,
    hints: Seq<Hint>,
    fhs: Seq<Seq<u8>>,
) -> Seq<Place>
    decreases hints.len(),
{
    if hints.len() == 0 || fhs.len() == 0 {
        Seq::empty()
    } else {
        let next = follow(stack, hints[0], fhs[0]);
        match told(stack, hints[0]) {
            Place::Again => placed(next, hints.drop_first(), fhs),
            place => seq![place] + placed(next, hints.drop_first(), fhs.drop_first()),
        }
    }
}

proof fn lemma_placed(
    stack: Seq<Seq<u8>>,
    dir: Seq<u8>,
    nodes: Seq<Node>,
    hints: Seq<Hint>,
    fhs: Seq<Seq<u8>>,
)
    ensures
        placed(stack.push(dir), hints_for(nodes) + hints, handles_below(nodes) + fhs)
            == places_below(dir, nodes) + placed(stack.push(dir), hints, fhs),
    decreases nodes,
{
    let all = hints_for(nodes) + hints;
    let files = handles_below(nodes) + fhs;
    let inside = stack.push(dir);
    if nodes.len() == 0 || !goes_on(nodes[0]) {
        assert(all =~= hints);
        assert(files =~= fhs);
        assert(places_below(dir, nodes) + placed(inside, hints, fhs) =~= placed(inside, hints, fhs));
    } else {
        let node = nodes[0];
        let rest = nodes.drop_first();
        if !is_opened(node) {
            lemma_placed(stack, dir, rest, hints, fhs);
        } else {
            let tail = hints_for(rest) + hints;
            let later = handles_below(rest) + fhs;
            let then = seq![Hint::PopChildren] + tail;
            let deep = inside.push(node.fh);
            let (inner_hints, inner_files, inner_places) = match node.kind {
                Kind::Dir(inner) => (
                    hints_for(inner),
                    handles_below(inner),
                    places_below(node.fh, inner),
                ),
                _ => (Seq::empty(), Seq::empty(), Seq::empty()),
            };
            assert(all.drop_first() =~= inner_hints + then);
            assert(all[0] == Hint::PushChildren(node.name));
            assert(files.drop_first() =~= inner_files + later);
            assert(files[0] == node.fh);
            assert(follow(inside, all[0], files[0]) == deep);
            assert(told(inside, all[0]) == Place::Entry(dir, node.name));
            lemma_placed(stack, dir, rest, hints, fhs);
            lemma_left_directory(inside, node.fh, tail, later);
            match node.kind {
                Kind::Dir(inner) => {
                    lemma_placed(inside, node.fh, inner, then, later);
                },
                _ => {
                    assert(inner_hints + then =~= then);
                    assert(inner_files + later =~= later);
                    assert(inner_places + placed(deep, then, later) =~= placed(deep, then, later));
                },
            }
            assert(placed(inside, all, files) =~= places_below(dir, nodes) + placed(
                inside,
                hints,
                fhs,
            ));
        }
    }
}

/// The hint that a walk is done with a file leads back to its directory.
proof fn lemma_left_directory(
    stack: Seq<Seq<u8>>,
    fh: Seq<u8>,
    hints: Seq<Hint>,
    fhs: Seq<Seq<u8>>,
)
    ensures
        placed(stack.push(fh), seq![Hint::PopChildren] + hints, fhs) == placed(stack, hints, fhs),
{
    let all = seq![Hint::PopChildren] + hints;
    assert(all.drop_first() =~= hints);
    assert(stack.push(fh).drop_last() =~= stack);
}

/// Every file that a walk opens is placed in the directory in which the walk found it, under
/// the name that it has there, however deep it is.
pub proof fn law_files_placed(base: Seq<Seq<u8>>, root: Seq<u8>, nodes: Seq<Node>)
    ensures
        placed(base, seq![Hint::Begin] + hints_for(nodes), seq![root] + handles_below(nodes))
            == seq![Place::Root] + places_below(root, nodes),
{
    let hints = seq![Hint::Begin] + hints_for(nodes);
    let fhs = seq![root] + handles_below(nodes);
    let none = Seq::<Hint>::empty();
    let no_files = Seq::<Seq<u8>>::empty();
    assert(hints.drop_first() =~= hints_for(nodes) + none);
    assert(fhs.drop_first() =~= handles_below(nodes) + no_files);
    lemma_placed(base, root, nodes, none, no_files);
    assert(places_below(root, nodes) + placed(base.push(root), none, no_files) =~= places_below(
        root,
        nodes,
    ));
}

} // verus!
