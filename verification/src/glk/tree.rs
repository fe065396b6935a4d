//! The window tree (Glk: Window Arrangement): every window a leaf or a
//! pair splitting two, one root, and each window's parent the pair
//! that holds it. Opening splits a window under a new pair; closing
//! takes a window's whole subtree and its pair away and promotes the
//! sibling into the pair's place.
//!
//! The tree is the structure alone -- keys, parents, splits, and the
//! walk order, newest first. What a window shows, and the box it is
//! laid out in, are the display's.

use vstd::prelude::*;

use crate::error::VoxamError;
use crate::glk::objects::{window_method, window_type, PairData};

verus! {

/// One window as the tree holds it.
#[derive(Debug, Clone, Copy)]
pub struct TreeNode {
    /// The window's internal key.
    pub key: u32,
    /// The pair above it, or None at the root.
    pub parent: Option<u32>,
    /// The rock the game gave it.
    pub rock: u32,
    /// Its window type (Glk: The Types of Windows).
    pub wtype: u32,
    /// The split, for a pair window; None for every other type.
    pub pair: Option<PairData>,
}

/// The live windows, in walk order, and the root of their tree.
pub struct WindowTree {
    nodes: Vec<TreeNode>,
    root: Option<u32>,
    map: Ghost<Map<u32, TreeNode>>,
    depth: Ghost<Map<u32, nat>>,
}

/// Whether a window type is one a game can open, given whether the
/// display draws graphics.
pub open spec fn on_offer(wtype: u32, graphics: bool) -> bool {
    wtype == window_type::BLANK || wtype == window_type::TEXT_BUFFER || wtype
        == window_type::TEXT_GRID || (wtype == window_type::GRAPHICS && graphics)
}

impl WindowTree {
    /// Whether a key names a live window.
    pub closed spec fn live(&self, key: u32) -> bool {
        self.map@.dom().contains(key)
    }

    /// A live window's node.
    pub closed spec fn node(&self, key: u32) -> TreeNode {
        self.map@[key]
    }

    /// The root window, or None before the first window opens.
    pub closed spec fn top(&self) -> Option<u32> {
        self.root
    }

    /// The walk order: every live key, newest first.
    pub closed spec fn order(&self) -> Seq<u32> {
        self.nodes@.map_values(|held: TreeNode| held.key)
    }

    /// A window's parent pair, or None at the root or for no window.
    pub open spec fn parent_of(&self, key: u32) -> Option<u32> {
        if self.live(key) {
            self.node(key).parent
        } else {
            None
        }
    }

    /// A window's split, where it is a pair.
    pub open spec fn pair_of(&self, key: u32) -> Option<PairData> {
        if self.live(key) {
            self.node(key).pair
        } else {
            None
        }
    }

    /// The window on the other side of a window's parent pair.
    pub open spec fn sibling_of(&self, key: u32) -> Option<u32> {
        match self.parent_of(key) {
            Some(parent) => match self.pair_of(parent) {
                Some(split) => Some(
                    if split.child1 == key {
                        split.child2
                    } else {
                        split.child1
                    },
                ),
                None => None,
            },
            None => None,
        }
    }

    /// How deep a window sits: the root at nothing, each child one
    /// below its pair.
    pub closed spec fn level(&self, key: u32) -> nat {
        if self.depth@.dom().contains(key) {
            self.depth@[key]
        } else {
            0
        }
    }

    /// Whether a window lies in the subtree a window heads: it is that
    /// window, or its parent lies there.
    pub closed spec fn under(&self, key: u32, head: u32) -> bool
        decreases self.level(key),
    {
        if key == head {
            true
        } else if !self.live(key) {
            false
        } else {
            match self.node(key).parent {
                None => false,
                Some(parent) => if self.level(parent) < self.level(key) {
                    self.under(parent, head)
                } else {
                    false
                },
            }
        }
    }

    /// A window sits where its links say: its parent is a live pair
    /// holding it, one level up, or it is the root; a pair's two
    /// children are live, distinct, and hold it as their parent.
    #[verifier::opaque]
    closed spec fn linked(&self, key: u32) -> bool {
        let held = self.map@[key];
        &&& held.key == key
        &&& self.depth@.dom().contains(key)
        &&& (held.pair is Some) == (held.wtype == window_type::PAIR)
        &&& match held.parent {
            None => self.root == Some(key),
            Some(parent) => {
                &&& self.map@.dom().contains(parent)
                &&& self.depth@.dom().contains(parent)
                &&& self.depth@[key] == self.depth@[parent] + 1
                &&& self.map@[parent].pair matches Some(split) && (split.child1 == key
                    || split.child2 == key)
            },
        }
        &&& match held.pair {
            None => true,
            Some(split) => {
                &&& split.child1 != split.child2
                &&& self.map@.dom().contains(split.child1)
                &&& self.map@.dom().contains(split.child2)
                &&& self.map@[split.child1].parent == Some(key)
                &&& self.map@[split.child2].parent == Some(key)
            },
        }
    }

    /// The walk holds each live window once, as its node.
    closed spec fn walked(&self) -> bool {
        &&& forall|i: int, j: int|
            0 <= i < j < self.nodes@.len() ==> #[trigger] self.nodes@[i].key
                != #[trigger] self.nodes@[j].key
        &&& forall|i: int|
            0 <= i < self.nodes@.len() ==> #[trigger] self.map@.dom().contains(self.nodes@[i].key)
                && self.map@[self.nodes@[i].key] == self.nodes@[i]
        &&& forall|key: u32| #[trigger] self.map@.dom().contains(key) ==> self.order().contains(key)
    }

    /// The tree is a tree: the walk holds each live window once, every
    /// window is linked, and the root is a live window without a parent
    /// -- or there is no root and no window.
    pub closed spec fn wf(&self) -> bool {
        &&& self.walked()
        &&& self.root is None ==> self.map@.dom() == Set::<u32>::empty()
        &&& self.root matches Some(top) ==> self.map@.dom().contains(top) && self.map@[top].parent
            is None && self.depth@.dom().contains(top) && self.depth@[top] == 0
        &&& forall|key: u32| #[trigger] self.map@.dom().contains(key) ==> self.linked(key)
    }

    /// The node at a place in the walk is the live window of its key.
    proof fn lemma_spot(&self, i: int)
        requires
            self.walked(),
            0 <= i < self.nodes@.len(),
        ensures
            self.live(self.nodes@[i].key),
            self.node(self.nodes@[i].key) == self.nodes@[i],
            self.order()[i] == self.nodes@[i].key,
    {
    }

    /// A live window's links.
    proof fn lemma_linked(&self, key: u32)
        requires
            self.wf(),
            self.live(key),
        ensures
            self.node(key).key == key,
            self.depth@.dom().contains(key),
            (self.node(key).pair is Some) == (self.node(key).wtype == window_type::PAIR),
            self.node(key).parent matches Some(parent) ==> {
                &&& self.live(parent)
                &&& self.depth@.dom().contains(parent)
                &&& self.depth@[key] == self.depth@[parent] + 1
                &&& self.level(parent) < self.level(key)
                &&& self.node(parent).pair matches Some(split) && (split.child1 == key
                    || split.child2 == key)
            },
            self.node(key).parent is None ==> self.top() == Some(key),
            self.node(key).pair matches Some(split) ==> {
                &&& split.child1 != split.child2
                &&& self.live(split.child1)
                &&& self.live(split.child2)
                &&& self.node(split.child1).parent == Some(key)
                &&& self.node(split.child2).parent == Some(key)
            },
    {
        reveal(WindowTree::linked);
        assert(self.linked(key));
    }

    /// Every window of a subtree sits no higher than its head.
    proof fn lemma_under_level(&self, key: u32, head: u32)
        requires
            self.wf(),
            self.under(key, head),
        ensures
            self.level(head) <= self.level(key),
        decreases self.level(key),
    {
        if key != head {
            let parent = self.node(key).parent->0;
            self.lemma_under_level(parent, head);
        }
    }

    /// Below its head, a window lies in a subtree exactly when its
    /// parent does.
    proof fn lemma_under_step(&self, key: u32, head: u32)
        requires
            self.wf(),
            self.live(key),
            key != head,
        ensures
            self.node(key).parent is None ==> !self.under(key, head),
            self.node(key).parent matches Some(parent) ==> (self.under(key, head) == self.under(
                parent,
                head,
            )),
    {
        self.lemma_linked(key);
    }

    /// Every live window lies under the root.
    proof fn lemma_under_root(&self, key: u32)
        requires
            self.wf(),
            self.live(key),
        ensures
            self.top() matches Some(top) && self.under(key, top),
        decreases self.level(key),
    {
        self.lemma_linked(key);
        match self.node(key).parent {
            None => {},
            Some(parent) => {
                self.lemma_under_root(parent);
                let top = self.top()->0;
                if key != top {
                    self.lemma_under_step(key, top);
                }
            },
        }
    }

    /// An empty tree.
    pub fn new() -> (tree: Self)
        ensures
            tree.wf(),
            tree.top() is None,
            tree.order().len() == 0,
            forall|key: u32| !tree.live(key),
    {
        let tree = WindowTree {
            nodes: Vec::new(),
            root: None,
            map: Ghost(Map::empty()),
            depth: Ghost(Map::empty()),
        };
        proof {
            assert(tree.map@.dom() =~= Set::<u32>::empty());
        }
        tree
    }

    /// Where a window sits in the walk, if it is live.
    fn find(&self, key: u32) -> (found: Option<usize>)
        requires
            self.wf(),
        ensures
            match found {
                Some(i) => i < self.nodes@.len() && self.nodes@[i as int].key == key && self.live(
                    key,
                ) && self.node(key) == self.nodes@[i as int],
                None => !self.live(key),
            },
    {
        let mut index: usize = 0;
        while index < self.nodes.len()
            invariant
                self.wf(),
                index <= self.nodes@.len(),
                forall|j: int| 0 <= j < index ==> self.nodes@[j].key != key,
            decreases self.nodes@.len() - index,
        {
            if self.nodes[index].key == key {
                proof {
                    self.lemma_spot(index as int);
                }
                return Some(index);
            }
            index += 1;
        }
        proof {
            if self.live(key) {
                assert(self.order().contains(key));
                let j = choose|j: int| 0 <= j < self.order().len() && self.order()[j] == key;
                assert(self.nodes@[j].key == key);
            }
        }
        None
    }

    /// Whether a key names a live window.
    pub fn contains(&self, key: u32) -> (live: bool)
        requires
            self.wf(),
        ensures
            live == self.live(key),
    {
        self.find(key).is_some()
    }

    /// The root of the tree, or None before the first window opens
    /// (Glk: Window Arrangement).
    pub fn root(&self) -> (top: Option<u32>)
        ensures
            top == self.top(),
    {
        self.root
    }

    /// The pair above a window, or None at the root and for no window.
    pub fn parent(&self, window: Option<u32>) -> (parent: Option<u32>)
        requires
            self.wf(),
        ensures
            parent == match window {
                Some(key) => self.parent_of(key),
                None => None,
            },
    {
        match window {
            None => None,
            Some(key) => match self.find(key) {
                Some(at) => self.nodes[at].parent,
                None => None,
            },
        }
    }

    /// The window on the other side of the parent pair.
    pub fn sibling(&self, window: Option<u32>) -> (sibling: Option<u32>)
        requires
            self.wf(),
        ensures
            sibling == match window {
                Some(key) => self.sibling_of(key),
                None => None,
            },
    {
        let key = match window {
            Some(key) => key,
            None => return None,
        };
        let parent = match self.find(key) {
            Some(at) => match self.nodes[at].parent {
                Some(parent) => parent,
                None => return None,
            },
            None => return None,
        };
        match self.find(parent) {
            Some(at) => match self.nodes[at].pair {
                Some(split) => Some(
                    if split.child1 == key {
                        split.child2
                    } else {
                        split.child1
                    },
                ),
                None => None,
            },
            None => None,
        }
    }

    /// A window's type number, or zero for no window (Glk: The Types
    /// of Windows).
    pub fn wintype(&self, window: Option<u32>) -> (wtype: u32)
        requires
            self.wf(),
        ensures
            wtype == match window {
                Some(key) => if self.live(key) {
                    self.node(key).wtype
                } else {
                    0
                },
                None => 0,
            },
    {
        match window {
            None => 0,
            Some(key) => match self.find(key) {
                Some(at) => self.nodes[at].wtype,
                None => 0,
            },
        }
    }

    /// A window's rock, or zero for no window.
    pub fn rock(&self, window: Option<u32>) -> (rock: u32)
        requires
            self.wf(),
        ensures
            rock == match window {
                Some(key) => if self.live(key) {
                    self.node(key).rock
                } else {
                    0
                },
                None => 0,
            },
    {
        match window {
            None => 0,
            Some(key) => match self.find(key) {
                Some(at) => self.nodes[at].rock,
                None => 0,
            },
        }
    }

    /// A pair's split, as the method word, the size, and the key
    /// window (Glk: Changing Window Constraints).
    pub fn arrangement(&self, window: Option<u32>) -> (found: Result<(u32, u32, u32), VoxamError>)
        requires
            self.wf(),
        ensures
            match window {
                Some(key) => match self.pair_of(key) {
                    Some(split) => found == Ok::<(u32, u32, u32), VoxamError>(
                        (split.composed(), split.size, split.key),
                    ),
                    None => found == Err::<(u32, u32, u32), VoxamError>(
                        VoxamError::NoPairToReport,
                    ),
                },
                None => found == Err::<(u32, u32, u32), VoxamError>(VoxamError::NoPairToReport),
            },
    {
        let key = match window {
            Some(key) => key,
            None => return Err(VoxamError::NoPairToReport),
        };
        match self.find(key) {
            Some(at) => match self.nodes[at].pair {
                Some(split) => Ok((split.method(), split.size, split.key)),
                None => Err(VoxamError::NoPairToReport),
            },
            None => Err(VoxamError::NoPairToReport),
        }
    }

    /// One step of the window walk (Glk: Iterating Through Opaque
    /// Objects): the newest window after the null window, the next one
    /// after a window, and none after the last or for a window not on
    /// the walk -- with the rock of what was found.
    pub fn iterate(&self, window: Option<u32>) -> (found: Option<(u32, u32)>)
        requires
            self.wf(),
        ensures
            match crate::glk::api::next_in(self.order(), window) {
                Some(next) => found == Some((next, self.node(next).rock)),
                None => found is None,
            },
    {
        let count = self.nodes.len();
        let at: usize = match window {
            None => 0,
            Some(key) => match self.find(key) {
                Some(at) => {
                    proof {
                        self.lemma_first_in_order(at as int);
                    }
                    at + 1
                },
                None => {
                    proof {
                        self.order().index_of_first_ensures(key);
                        if self.order().index_of_first(key) is Some {
                            let i = self.order().index_of_first(key)->0;
                            assert(self.nodes@[i].key == key);
                            self.lemma_spot(i);
                        }
                    }
                    return None;
                },
            },
        };
        if at < count {
            proof {
                self.lemma_spot(at as int);
            }
            Some((self.nodes[at].key, self.nodes[at].rock))
        } else {
            None
        }
    }

    /// What a split leaves: the new pair and window first in the walk,
    /// the pair in the split window's place -- under its old parent, or
    /// at the root -- holding the split window first and the new window
    /// second, keyed by the new one; every other window as it was.
    pub open spec fn split_result(
        before: WindowTree,
        after: WindowTree,
        named: u32,
        method: u32,
        size: u32,
        wkey: u32,
        pkey: u32,
    ) -> bool {
        let grand = before.parent_of(named);
        &&& after.order() == seq![pkey, wkey] + before.order()
        &&& forall|key: u32|
            after.live(key) <==> (before.live(key) || key == wkey || key == pkey)
        &&& after.node(wkey).parent == Some(pkey)
        &&& after.node(pkey).key == pkey
        &&& after.node(pkey).parent == grand
        &&& after.node(pkey).rock == 0
        &&& after.node(pkey).wtype == window_type::PAIR
        &&& after.node(pkey).pair matches Some(made) && made.child1 == named && made.child2 == wkey
            && made.key == wkey && made.size == size && made.unpacks(method) && made.sized_box == (
            0i64,
            0i64,
            0i64,
            0i64,
        )
        &&& after.node(named) == (TreeNode { parent: Some(pkey), ..before.node(named) })
        &&& match grand {
            None => after.top() == Some(pkey),
            Some(above) => {
                &&& after.top() == before.top()
                &&& before.node(above).pair is Some
                &&& after.node(above) == (TreeNode {
                    pair: Some(WindowTree::relinked(before.node(above).pair->0, named, pkey)),
                    ..before.node(above)
                })
            },
        }
        &&& forall|key: u32|
            before.live(key) && key != named && Some(key) != grand ==> after.node(key)
                == before.node(key)
    }

    /// What closing a window leaves: the windows that go with it gone,
    /// the rest in their walk order, each as it stands after the close,
    /// and the root the sibling's where the closed window's pair was the
    /// root -- no root at all where the closed window was.
    pub open spec fn close_result(before: WindowTree, after: WindowTree, closed: u32) -> bool {
        &&& after.order() == before.order().filter(|key: u32| !before.goes_with(key, closed))
        &&& forall|key: u32|
            after.live(key) <==> (before.live(key) && !before.goes_with(key, closed))
        &&& forall|key: u32| #[trigger]
            after.live(key) ==> after.node(key) == before.after_close(key, closed)
        &&& match before.parent_of(closed) {
            None => after.top() is None,
            Some(pair) => match before.parent_of(pair) {
                None => after.top() == before.sibling_of(closed),
                Some(_) => after.top() == before.top(),
            },
        }
    }

    /// Open a window, splitting an existing one after the first (Glk:
    /// Window Opening, Closing, and Constraints). The window takes the
    /// key `wkey`, and a split's new pair the key `pkey`.
    ///
    /// The first window becomes the root; a later one splits a live
    /// window, whose place a new pair takes, holding the split window as
    /// its first child and the new one as its second, keyed by the new
    /// window. The refusals come in order: a first window that names a
    /// window to split, a later one that names none that is live, a
    /// method that is neither fixed nor proportional or names no
    /// direction, and the pair type. A type not on offer answers None,
    /// so a game can probe for graphics by trying.
    pub fn open(
        &mut self,
        split: Option<u32>,
        method: u32,
        size: u32,
        wtype: u32,
        rock: u32,
        graphics: bool,
        wkey: u32,
        pkey: u32,
    ) -> (result: Result<Option<u32>, VoxamError>)
        requires
            old(self).wf(),
            !old(self).live(wkey),
            !old(self).live(pkey),
            wkey != pkey,
        ensures
            final(self).wf(),
            ({
                let division = method & window_method::DIVISION_MASK;
                let refusal: Option<VoxamError> = if old(self).top() is None {
                    if split is Some {
                        Some(VoxamError::FirstWindowSplit)
                    } else {
                        None
                    }
                } else if !(split matches Some(named) && old(self).live(named)) {
                    Some(VoxamError::NoSplitWindow)
                } else if division != window_method::FIXED && division
                    != window_method::PROPORTIONAL {
                    Some(VoxamError::BadDivision)
                } else if method & window_method::DIR_MASK > window_method::BELOW {
                    Some(VoxamError::BadDirection)
                } else {
                    None
                };
                match refusal {
                    Some(error) => result == Err::<Option<u32>, VoxamError>(error) && *final(self)
                        == *old(self),
                    None => if wtype == window_type::PAIR {
                        result == Err::<Option<u32>, VoxamError>(VoxamError::PairWindowOpened)
                            && *final(self) == *old(self)
                    } else if !on_offer(wtype, graphics) {
                        result == Ok::<Option<u32>, VoxamError>(None) && *final(self) == *old(
                            self,
                        )
                    } else {
                        &&& result == Ok::<Option<u32>, VoxamError>(Some(wkey))
                        &&& final(self).live(wkey)
                        &&& final(self).node(wkey).key == wkey
                        &&& final(self).node(wkey).rock == rock
                        &&& final(self).node(wkey).wtype == wtype
                        &&& final(self).node(wkey).pair is None
                        &&& match split {
                            None => {
                                &&& final(self).top() == Some(wkey)
                                &&& final(self).order() == seq![wkey]
                                &&& final(self).node(wkey).parent is None
                                &&& forall|key: u32| final(self).live(key) <==> key == wkey
                            },
                            Some(named) => WindowTree::split_result(
                                *old(self),
                                *final(self),
                                named,
                                method,
                                size,
                                wkey,
                                pkey,
                            ),
                        }
                    },
                }
            }),
    {
        let at_split: Option<usize> = match self.root {
            None => {
                if split.is_some() {
                    return Err(VoxamError::FirstWindowSplit);
                }
                None
            },
            Some(_) => {
                let named = match split {
                    Some(named) => named,
                    None => return Err(VoxamError::NoSplitWindow),
                };
                let at = match self.find(named) {
                    Some(at) => at,
                    None => return Err(VoxamError::NoSplitWindow),
                };
                let division = method & window_method::DIVISION_MASK;
                if division != window_method::FIXED && division != window_method::PROPORTIONAL {
                    return Err(VoxamError::BadDivision);
                }
                if method & window_method::DIR_MASK > window_method::BELOW {
                    return Err(VoxamError::BadDirection);
                }
                Some(at)
            },
        };
        if wtype == window_type::PAIR {
            return Err(VoxamError::PairWindowOpened);
        }
        if !(wtype == window_type::BLANK || wtype == window_type::TEXT_BUFFER || wtype
            == window_type::TEXT_GRID || (wtype == window_type::GRAPHICS && graphics)) {
            return Ok(None);
        }
        match at_split {
            None => self.open_first(wkey, wtype, rock),
            Some(at) => self.split_at(at, method, size, wkey, pkey, wtype, rock),
        }
        Ok(Some(wkey))
    }

    /// The first window: a leaf at the root.
    fn open_first(&mut self, wkey: u32, wtype: u32, rock: u32)
        requires
            old(self).wf(),
            old(self).top() is None,
            wtype != window_type::PAIR,
        ensures
            final(self).wf(),
            final(self).top() == Some(wkey),
            final(self).order() == seq![wkey],
            final(self).live(wkey),
            final(self).node(wkey) == (TreeNode { key: wkey, parent: None, rock, wtype, pair: None }),
            forall|key: u32| final(self).live(key) <==> key == wkey,
    {
        let held = TreeNode { key: wkey, parent: None, rock, wtype, pair: None };
        proof {
            assert(self.nodes@.len() == 0) by {
                if self.nodes@.len() > 0 {
                    self.lemma_spot(0);
                }
            }
        }
        self.nodes.push(held);
        self.root = Some(wkey);
        self.map = Ghost(Map::empty().insert(wkey, held));
        self.depth = Ghost(Map::empty().insert(wkey, 0nat));
        proof {
            assert(self.order() =~= seq![wkey]);
            assert(self.order()[0] == wkey);
            assert forall|key: u32| #[trigger] self.map@.dom().contains(key) implies self.linked(
                key,
            ) by {
                reveal(WindowTree::linked);
            }
        }
    }

    /// A pair's split with one child replaced by another window.
    pub open spec fn relinked(split: PairData, from: u32, to: u32) -> PairData {
        if split.child1 == from {
            PairData { child1: to, ..split }
        } else {
            PairData { child2: to, ..split }
        }
    }

    /// Split a live window: a new pair takes its place, holding it and
    /// the new window.
    fn split_at(
        &mut self,
        at: usize,
        method: u32,
        size: u32,
        wkey: u32,
        pkey: u32,
        wtype: u32,
        rock: u32,
    )
        requires
            old(self).wf(),
            at < old(self).nodes@.len(),
            !old(self).live(wkey),
            !old(self).live(pkey),
            wkey != pkey,
            wtype != window_type::PAIR,
        ensures
            final(self).wf(),
            ({
                let split = old(self).nodes@[at as int].key;
                let grand = old(self).parent_of(split);
                &&& final(self).order() == seq![pkey, wkey] + old(self).order()
                &&& forall|key: u32| final(self).live(key) <==> (old(self).live(key) || key == wkey
                    || key == pkey)
                &&& final(self).node(wkey) == (TreeNode {
                    key: wkey,
                    parent: Some(pkey),
                    rock,
                    wtype,
                    pair: None,
                })
                &&& final(self).node(pkey).key == pkey
                &&& final(self).node(pkey).parent == grand
                &&& final(self).node(pkey).rock == 0
                &&& final(self).node(pkey).wtype == window_type::PAIR
                &&& final(self).node(pkey).pair matches Some(made) && made.child1 == split
                    && made.child2 == wkey && made.key == wkey && made.size == size
                    && made.unpacks(method) && made.sized_box == (0i64, 0i64, 0i64, 0i64)
                &&& final(self).node(split) == (TreeNode {
                    parent: Some(pkey),
                    ..old(self).node(split)
                })
                &&& match grand {
                    None => final(self).top() == Some(pkey),
                    Some(above) => {
                        &&& final(self).top() == old(self).top()
                        &&& old(self).node(above).pair is Some
                        &&& final(self).node(above) == (TreeNode {
                            pair: Some(
                                WindowTree::relinked(old(self).node(above).pair->0, split, pkey),
                            ),
                            ..old(self).node(above)
                        })
                    },
                }
                &&& forall|key: u32|
                    old(self).live(key) && key != split && Some(key) != grand ==> final(self).node(
                        key,
                    ) == old(self).node(key)
            }),
    {
        let ghost before = *self;
        proof {
            before.lemma_spot(at as int);
        }
        let split = self.nodes[at].key;
        proof {
            before.lemma_linked(split);
        }
        let mut moved = self.nodes[at];
        let grand = moved.parent;
        let above_at: Option<usize> = match grand {
            Some(above) => self.find(above),
            None => None,
        };
        moved.parent = Some(pkey);
        self.nodes.set(at, moved);
        let ghost mut map = before.map@.insert(split, moved);
        match grand {
            None => {
                self.root = Some(pkey);
            },
            Some(above) => {
                let place = above_at.unwrap();
                proof {
                    before.lemma_linked(above);
                    assert(place != at);
                }
                let mut held = self.nodes[place];
                let old_split = held.pair.unwrap();
                let mut split_data = old_split;
                if split_data.child1 == split {
                    split_data.child1 = pkey;
                } else {
                    split_data.child2 = pkey;
                }
                held.pair = Some(split_data);
                self.nodes.set(place, held);
                proof {
                    map = map.insert(above, held);
                    assert(split_data == WindowTree::relinked(old_split, split, pkey));
                }
            },
        }
        let leaf = TreeNode { key: wkey, parent: Some(pkey), rock, wtype, pair: None };
        let made = PairData::new(split, wkey, wkey, method, size);
        let pair = TreeNode {
            key: pkey,
            parent: grand,
            rock: 0,
            wtype: window_type::PAIR,
            pair: Some(made),
        };
        self.nodes.insert(0, leaf);
        self.nodes.insert(0, pair);
        proof {
            map = map.insert(wkey, leaf).insert(pkey, pair);
            let base = before.level(split);
            let depth = Map::new(
                |key: u32| map.dom().contains(key),
                |key: u32|
                    if key == pkey {
                        base
                    } else if key == wkey {
                        base + 1
                    } else if before.under(key, split) {
                        before.level(key) + 1
                    } else {
                        before.level(key)
                    },
            );
            self.map = Ghost(map);
            self.depth = Ghost(depth);
            self.lemma_split_wf(before, at as int, wkey, pkey);
        }
    }

    /// The tree a split leaves is a tree.
    proof fn lemma_split_wf(&self, before: WindowTree, at: int, wkey: u32, pkey: u32)
        requires
            before.wf(),
            0 <= at < before.nodes@.len(),
            !before.live(wkey),
            !before.live(pkey),
            wkey != pkey,
            ({
                let split = before.nodes@[at].key;
                let grand = before.map@[split].parent;
                let moved = TreeNode { parent: Some(pkey), ..before.map@[split] };
                &&& self.map@.dom().contains(wkey)
                &&& self.map@.dom().contains(pkey)
                &&& self.map@[wkey] == self.nodes@[1]
                &&& self.map@[pkey] == self.nodes@[0]
                &&& self.nodes@[1].key == wkey
                &&& self.nodes@[0].key == pkey
                &&& self.nodes@[1].parent == Some(pkey)
                &&& self.nodes@[1].pair is None
                &&& self.nodes@[1].wtype != window_type::PAIR
                &&& self.nodes@[0].parent == grand
                &&& self.nodes@[0].wtype == window_type::PAIR
                &&& self.nodes@[0].pair matches Some(made) && made.child1 == split && made.child2
                    == wkey
                &&& self.nodes@.len() == before.nodes@.len() + 2
                &&& self.map@[split] == moved
                &&& self.nodes@[at + 2] == moved
                &&& match grand {
                    None => {
                        &&& self.root == Some(pkey)
                        &&& forall|i: int|
                            0 <= i < before.nodes@.len() && i != at ==> self.nodes@[i + 2]
                                == before.nodes@[i]
                        &&& self.map@ == before.map@.insert(split, moved).insert(
                            wkey,
                            self.nodes@[1],
                        ).insert(pkey, self.nodes@[0])
                    },
                    Some(above) => {
                        &&& self.root == before.root
                        &&& exists|place: int|
                            0 <= place < before.nodes@.len() && place != at
                                && before.nodes@[place].key == above && self.nodes@[place + 2]
                                == self.map@[above] && forall|i: int|
                                0 <= i < before.nodes@.len() && i != at && i != place
                                    ==> self.nodes@[i + 2] == before.nodes@[i]
                        &&& self.map@[above] == (TreeNode {
                            pair: Some(
                                WindowTree::relinked(before.map@[above].pair->0, split, pkey),
                            ),
                            ..before.map@[above]
                        })
                        &&& self.map@ == before.map@.insert(split, moved).insert(
                            above,
                            self.map@[above],
                        ).insert(wkey, self.nodes@[1]).insert(pkey, self.nodes@[0])
                    },
                }
                &&& self.depth@ == Map::new(
                    |key: u32| self.map@.dom().contains(key),
                    |key: u32|
                        if key == pkey {
                            before.level(split)
                        } else if key == wkey {
                            before.level(split) + 1
                        } else if before.under(key, split) {
                            before.level(key) + 1
                        } else {
                            before.level(key)
                        },
                )
            }),
        ensures
            self.wf(),
    {
        let split = before.nodes@[at].key;
        let grand = before.map@[split].parent;
        before.lemma_spot(at);
        before.lemma_linked(split);
        // The old windows keep their keys, two places on.
        assert forall|i: int| 2 <= i < self.nodes@.len() implies #[trigger] self.nodes@[i].key
            == before.nodes@[i - 2].key by {
            before.lemma_spot(i - 2);
            if i - 2 != at {
                match grand {
                    None => {},
                    Some(above) => {
                        let place = choose|place: int|
                            0 <= place < before.nodes@.len() && place != at
                                && before.nodes@[place].key == above && self.nodes@[place + 2]
                                == self.map@[above] && forall|i: int|
                                0 <= i < before.nodes@.len() && i != at && i != place
                                    ==> self.nodes@[i + 2] == before.nodes@[i];
                        before.lemma_spot(place);
                        before.lemma_linked(above);
                    },
                }
            }
        }
        // The walk.
        assert forall|i: int, j: int|
            0 <= i < j < self.nodes@.len() implies #[trigger] self.nodes@[i].key
            != #[trigger] self.nodes@[j].key by {
            if j >= 2 {
                before.lemma_spot(j - 2);
                if i >= 2 {
                    assert(before.nodes@[i - 2].key != before.nodes@[j - 2].key);
                }
            }
        }
        assert forall|i: int|
            0 <= i < self.nodes@.len() implies #[trigger] self.map@.dom().contains(
            self.nodes@[i].key,
        ) && self.map@[self.nodes@[i].key] == self.nodes@[i] by {
            if i >= 2 {
                before.lemma_spot(i - 2);
                let key = before.nodes@[i - 2].key;
                match grand {
                    None => {
                        if i - 2 != at {
                            assert(self.nodes@[i] == before.nodes@[i - 2]);
                        }
                    },
                    Some(above) => {
                        let place = choose|place: int|
                            0 <= place < before.nodes@.len() && place != at
                                && before.nodes@[place].key == above && self.nodes@[place + 2]
                                == self.map@[above] && forall|i: int|
                                0 <= i < before.nodes@.len() && i != at && i != place
                                    ==> self.nodes@[i + 2] == before.nodes@[i];
                        before.lemma_spot(place);
                        if i - 2 != at && i - 2 != place {
                            assert(self.nodes@[i] == before.nodes@[i - 2]);
                            assert(key != above);
                        }
                    },
                }
            }
        }
        assert forall|key: u32| #[trigger]
            self.map@.dom().contains(key) implies self.order().contains(key) by {
            if key == pkey {
                assert(self.order()[0] == pkey);
            } else if key == wkey {
                assert(self.order()[1] == wkey);
            } else {
                assert(before.map@.dom().contains(key));
                assert(before.order().contains(key));
                let j = choose|j: int| 0 <= j < before.order().len() && before.order()[j] == key;
                assert(self.order()[j + 2] == key);
            }
        }
        assert(self.walked());
        // The root.
        match grand {
            None => {
                assert(before.root == Some(split));
            },
            Some(above) => {
                let top = before.root->0;
                before.lemma_linked(top);
                if before.under(top, split) {
                    before.lemma_under_level(top, split);
                }
                before.lemma_linked(above);
            },
        }
        // The links.
        assert forall|key: u32| #[trigger] self.map@.dom().contains(key) implies self.linked(key) by {
            self.lemma_split_linked(before, at, wkey, pkey, key);
        }
    }

    /// One window of the tree a split leaves is linked.
    proof fn lemma_split_linked(&self, before: WindowTree, at: int, wkey: u32, pkey: u32, key: u32)
        requires
            before.wf(),
            0 <= at < before.nodes@.len(),
            !before.live(wkey),
            !before.live(pkey),
            wkey != pkey,
            self.map@.dom().contains(key),
            ({
                let split = before.nodes@[at].key;
                let grand = before.map@[split].parent;
                let moved = TreeNode { parent: Some(pkey), ..before.map@[split] };
                &&& self.map@.dom().contains(wkey)
                &&& self.map@.dom().contains(pkey)
                &&& self.map@[wkey].key == wkey
                &&& self.map@[pkey].key == pkey
                &&& self.map@[wkey].parent == Some(pkey)
                &&& self.map@[wkey].pair is None
                &&& self.map@[wkey].wtype != window_type::PAIR
                &&& self.map@[pkey].parent == grand
                &&& self.map@[pkey].wtype == window_type::PAIR
                &&& self.map@[pkey].pair matches Some(made) && made.child1 == split && made.child2
                    == wkey
                &&& self.map@[split] == moved
                &&& match grand {
                    None => {
                        &&& self.root == Some(pkey)
                        &&& self.map@ == before.map@.insert(split, moved).insert(
                            wkey,
                            self.map@[wkey],
                        ).insert(pkey, self.map@[pkey])
                    },
                    Some(above) => {
                        &&& self.root == before.root
                        &&& self.map@[above] == (TreeNode {
                            pair: Some(
                                WindowTree::relinked(before.map@[above].pair->0, split, pkey),
                            ),
                            ..before.map@[above]
                        })
                        &&& self.map@ == before.map@.insert(split, moved).insert(
                            above,
                            self.map@[above],
                        ).insert(wkey, self.map@[wkey]).insert(pkey, self.map@[pkey])
                    },
                }
                &&& self.depth@ == Map::new(
                    |key: u32| self.map@.dom().contains(key),
                    |key: u32|
                        if key == pkey {
                            before.level(split)
                        } else if key == wkey {
                            before.level(split) + 1
                        } else if before.under(key, split) {
                            before.level(key) + 1
                        } else {
                            before.level(key)
                        },
                )
            }),
        ensures
            self.linked(key),
    {
        reveal(WindowTree::linked);
        let split = before.nodes@[at].key;
        let grand = before.map@[split].parent;
        before.lemma_spot(at);
        before.lemma_linked(split);
        assert(before.under(split, split));
        if let Some(above) = grand {
            before.lemma_linked(above);
            if before.under(above, split) {
                before.lemma_under_level(above, split);
            }
        }
        if key == pkey {
        } else if key == wkey {
        } else if key == split {
            if let Some(inner) = before.map@[split].pair {
                before.lemma_linked(inner.child1);
                before.lemma_linked(inner.child2);
            }
        } else if grand == Some(key) {
            let above = key;
            if let Some(pa) = before.map@[above].parent {
                before.lemma_linked(pa);
                if before.under(pa, split) {
                    before.lemma_under_level(pa, split);
                }
            }
            let inner = before.map@[above].pair->0;
            before.lemma_linked(inner.child1);
            before.lemma_linked(inner.child2);
        } else {
            assert(before.live(key));
            before.lemma_linked(key);
            assert(self.map@[key] == before.map@[key]);
            match before.map@[key].parent {
                None => {
                    assert(before.root == Some(key));
                },
                Some(parent) => {
                    before.lemma_linked(parent);
                    before.lemma_under_step(key, split);
                    if before.under(parent, split) {
                        before.lemma_under_level(parent, split);
                    }
                },
            }
            if let Some(inner) = before.map@[key].pair {
                before.lemma_linked(inner.child1);
                before.lemma_linked(inner.child2);
            }
        }
    }

    /// Whether closing a window takes another with it: every window of
    /// its subtree goes, and so does its parent pair.
    pub open spec fn goes_with(&self, key: u32, closed: u32) -> bool {
        self.under(key, closed) || self.parent_of(closed) == Some(key)
    }

    /// The node a window has after another's close: the sibling takes
    /// the pair's parent, and the pair's parent takes the sibling in the
    /// pair's place.
    pub open spec fn after_close(&self, key: u32, closed: u32) -> TreeNode {
        match self.parent_of(closed) {
            None => self.node(key),
            Some(pair) => {
                let sibling = self.sibling_of(closed)->0;
                let grand = self.parent_of(pair);
                if key == sibling {
                    TreeNode { parent: grand, ..self.node(key) }
                } else if grand == Some(key) {
                    TreeNode {
                        pair: Some(WindowTree::relinked(self.node(key).pair->0, pair, sibling)),
                        ..self.node(key)
                    }
                } else {
                    self.node(key)
                }
            },
        }
    }

    /// Whether a window lies in a subtree, walking up from it.
    fn is_under(&self, key: u32, head: u32) -> (inside: bool)
        requires
            self.wf(),
            self.live(key),
        ensures
            inside == self.under(key, head),
    {
        let mut current = key;
        loop
            invariant
                self.wf(),
                self.live(current),
                self.under(key, head) == self.under(current, head),
            decreases self.level(current),
        {
            if current == head {
                return true;
            }
            proof {
                self.lemma_linked(current);
                self.lemma_under_step(current, head);
            }
            let at = self.find(current).unwrap();
            match self.nodes[at].parent {
                None => return false,
                Some(parent) => {
                    current = parent;
                },
            }
        }
    }

    /// Close a window and its whole subtree (Glk: Window Opening,
    /// Closing, and Constraints), answering the keys that went: the
    /// subtree in preorder and, but for the root, the parent pair, whose
    /// place the sibling is promoted into. Closing the root empties the
    /// tree. A window that is not open is refused.
    pub fn close(&mut self, window: Option<u32>) -> (result: Result<Vec<u32>, VoxamError>)
        requires
            old(self).wf(),
        ensures
            final(self).wf(),
            match window {
                Some(closed) if old(self).live(closed) => {
                    &&& result matches Ok(gone) && gone@ == old(self).subtree_of(closed) + match old(
                        self,
                    ).parent_of(closed) {
                        Some(pair) => seq![pair],
                        None => Seq::<u32>::empty(),
                    }
                    &&& WindowTree::close_result(*old(self), *final(self), closed)
                },
                _ => result == Err::<Vec<u32>, VoxamError>(VoxamError::NoWindowToClose)
                    && *final(self) == *old(self),
            },
    {
        let closed = match window {
            Some(closed) => closed,
            None => return Err(VoxamError::NoWindowToClose),
        };
        let at = match self.find(closed) {
            Some(at) => at,
            None => return Err(VoxamError::NoWindowToClose),
        };
        let ghost before = *self;
        proof {
            before.lemma_linked(closed);
        }
        let parent = self.nodes[at].parent;
        let mut sibling: u32 = 0;
        let mut grand: Option<u32> = None;
        match parent {
            None => {},
            Some(pair) => {
                let place = self.find(pair).unwrap();
                proof {
                    before.lemma_linked(pair);
                }
                let split = self.nodes[place].pair.unwrap();
                sibling = if split.child1 == closed {
                    split.child2
                } else {
                    split.child1
                };
                grand = self.nodes[place].parent;
            },
        }
        let ghost keep = |key: u32| !before.goes_with(key, closed);
        let ghost target = Map::new(
            |key: u32| before.live(key) && !before.goes_with(key, closed),
            |key: u32| before.after_close(key, closed),
        );
        let mut gone = self.subtree(closed);
        match parent {
            Some(pair) => gone.push(pair),
            None => {},
        }
        let mut kept: Vec<TreeNode> = Vec::new();
        let mut index: usize = 0;
        while index < self.nodes.len()
            invariant
                *self == before,
                before.wf(),
                before.live(closed),
                parent == before.parent_of(closed),
                parent matches Some(pair) ==> sibling == before.sibling_of(closed)->0 && grand
                    == before.parent_of(pair),
                parent is None ==> grand is None,
                keep == (|key: u32| !before.goes_with(key, closed)),
                target == Map::new(
                    |key: u32| before.live(key) && !before.goes_with(key, closed),
                    |key: u32| before.after_close(key, closed),
                ),
                index <= before.nodes@.len(),
                kept@.map_values(|held: TreeNode| held.key) == before.order().take(
                    index as int,
                ).filter(keep),
                gone@ == before.subtree_of(closed) + match parent {
                    Some(pair) => seq![pair],
                    None => Seq::<u32>::empty(),
                },
                forall|j: int|
                    0 <= j < kept@.len() ==> #[trigger] target.dom().contains(kept@[j].key)
                        && target[kept@[j].key] == kept@[j],
            decreases before.nodes@.len() - index,
        {
            let held = self.nodes[index];
            proof {
                before.lemma_spot(index as int);
                assert(before.order().take(index + 1).drop_last() == before.order().take(
                    index as int,
                ));
                assert(before.order().take(index + 1).last() == held.key);
                reveal(Seq::filter);
            }
            let goes = self.is_under(held.key, closed) || parent == Some(held.key);
            if !goes {
                let mut moved = held;
                if parent.is_some() && held.key == sibling {
                    moved.parent = grand;
                } else if grand == Some(held.key) {
                    let pair = parent.unwrap();
                    proof {
                        before.lemma_linked(held.key);
                        before.lemma_linked(pair);
                    }
                    let mut split = held.pair.unwrap();
                    if split.child1 == pair {
                        split.child1 = sibling;
                    } else {
                        split.child2 = sibling;
                    }
                    moved.pair = Some(split);
                }
                kept.push(moved);
                proof {
                    assert(kept@.map_values(|held: TreeNode| held.key) =~= before.order().take(
                        index as int,
                    ).filter(keep).push(held.key));
                }
            }
            index += 1;
        }
        proof {
            assert(before.order().take(before.nodes@.len() as int) == before.order());
        }
        let ghost depth = Map::new(
            |key: u32| target.dom().contains(key),
            |key: u32|
                if parent is Some && before.under(key, before.sibling_of(closed)->0) {
                    (before.level(key) - 1) as nat
                } else {
                    before.level(key)
                },
        );
        self.nodes = kept;
        self.root = match parent {
            None => None,
            Some(_) => match grand {
                None => Some(sibling),
                Some(_) => self.root,
            },
        };
        self.map = Ghost(target);
        self.depth = Ghost(depth);
        proof {
            self.lemma_close_wf(before, closed);
        }
        Ok(gone)
    }

    /// The tree a close leaves is a tree.
    proof fn lemma_close_wf(&self, before: WindowTree, closed: u32)
        requires
            self.closes(before, closed),
            before.wf(),
            before.live(closed),
            self.map@ == Map::new(
                |key: u32| before.live(key) && !before.goes_with(key, closed),
                |key: u32| before.after_close(key, closed),
            ),
            self.depth@ == Map::new(
                |key: u32| self.map@.dom().contains(key),
                |key: u32|
                    if before.parent_of(closed) is Some && before.under(
                        key,
                        before.sibling_of(closed)->0,
                    ) {
                        (before.level(key) - 1) as nat
                    } else {
                        before.level(key)
                    },
            ),
            self.root == match before.parent_of(closed) {
                None => None,
                Some(pair) => match before.parent_of(pair) {
                    None => before.sibling_of(closed),
                    Some(_) => before.root,
                },
            },
            self.order() == before.order().filter(|key: u32| !before.goes_with(key, closed)),
            forall|j: int|
                0 <= j < self.nodes@.len() ==> #[trigger] self.map@.dom().contains(
                    self.nodes@[j].key,
                ) && self.map@[self.nodes@[j].key] == self.nodes@[j],
        ensures
            self.wf(),
    {
        let keep = |key: u32| !before.goes_with(key, closed);
        before.lemma_linked(closed);
        // The walk.
        lemma_filter_distinct(before.order(), keep);
        assert forall|i: int, j: int|
            0 <= i < j < self.nodes@.len() implies #[trigger] self.nodes@[i].key
            != #[trigger] self.nodes@[j].key by {
            assert(self.order()[i] == self.nodes@[i].key);
            assert(self.order()[j] == self.nodes@[j].key);
        }
        assert forall|key: u32| #[trigger]
            self.map@.dom().contains(key) implies self.order().contains(key) by {
            assert(before.order().contains(key));
            let j = choose|j: int| 0 <= j < before.order().len() && before.order()[j] == key;
            before.order().lemma_filter_contains(keep, j);
        }
        assert(self.walked());
        // The root.
        match before.parent_of(closed) {
            None => {
                assert(before.root == Some(closed));
                assert forall|key: u32| !self.map@.dom().contains(key) by {
                    if before.live(key) {
                        before.lemma_under_root(key);
                    }
                }
                assert(self.map@.dom() =~= Set::<u32>::empty());
            },
            Some(pair) => {
                before.lemma_linked(pair);
                let sibling = before.sibling_of(closed)->0;
                before.lemma_linked(sibling);
                before.lemma_under_step(sibling, closed);
                if before.under(pair, closed) {
                    before.lemma_under_level(pair, closed);
                }
                match before.parent_of(pair) {
                    None => {},
                    Some(grand) => {
                        let top = before.root->0;
                        before.lemma_linked(top);
                        if before.under(top, closed) {
                            before.lemma_under_level(top, closed);
                        }
                        if before.under(top, sibling) {
                            before.lemma_under_level(top, sibling);
                        }
                    },
                }
            },
        }
        // The links.
        assert forall|key: u32| #[trigger] self.map@.dom().contains(key) implies self.linked(key) by {
            self.lemma_close_linked(before, closed, key);
        }
    }

    /// What a close leaves: the windows that stay, as they stand after
    /// it, one level up where they sat under the promoted sibling.
    closed spec fn closes(&self, before: WindowTree, closed: u32) -> bool {
        &&& before.wf()
        &&& before.live(closed)
        &&& self.map@ == Map::new(
            |key: u32| before.live(key) && !before.goes_with(key, closed),
            |key: u32| before.after_close(key, closed),
        )
        &&& self.depth@ == Map::new(
            |key: u32| self.map@.dom().contains(key),
            |key: u32|
                if before.parent_of(closed) is Some && before.under(
                    key,
                    before.sibling_of(closed)->0,
                ) {
                    (before.level(key) - 1) as nat
                } else {
                    before.level(key)
                },
        )
        &&& self.root == match before.parent_of(closed) {
            None => None,
            Some(pair) => match before.parent_of(pair) {
                None => before.sibling_of(closed),
                Some(_) => before.root,
            },
        }
    }

    /// One window of the tree a close leaves is linked.
    proof fn lemma_close_linked(&self, before: WindowTree, closed: u32, key: u32)
        requires
            self.closes(before, closed),
            self.map@.dom().contains(key),
        ensures
            self.linked(key),
    {
        before.lemma_linked(closed);
        match before.parent_of(closed) {
            None => {
                before.lemma_under_root(key);
                assert(before.root == Some(closed));
            },
            Some(pair) => {
                before.lemma_linked(pair);
                let sibling = before.sibling_of(closed)->0;
                if key == sibling {
                    self.lemma_close_linked_sibling(before, closed);
                } else if before.parent_of(pair) == Some(key) {
                    self.lemma_close_linked_grand(before, closed);
                } else {
                    self.lemma_close_linked_other(before, closed, key);
                }
            },
        }
    }

    /// Facts about the pair a closed window leaves and what lies about
    /// it.
    proof fn lemma_close_frame(before: WindowTree, closed: u32)
        requires
            before.wf(),
            before.live(closed),
            before.parent_of(closed) is Some,
        ensures
            ({
                let pair = before.parent_of(closed)->0;
                let sibling = before.sibling_of(closed)->0;
                &&& before.live(pair)
                &&& before.live(sibling)
                &&& sibling != closed
                &&& sibling != pair
                &&& before.node(sibling).parent == Some(pair)
                &&& before.node(pair).pair matches Some(split) && (split.child1 == closed
                    && split.child2 == sibling || split.child2 == closed && split.child1
                    == sibling)
                &&& before.under(closed, closed)
                &&& before.under(sibling, sibling)
                &&& !before.under(sibling, closed)
                &&& !before.under(pair, closed)
                &&& !before.under(pair, sibling)
                &&& before.level(sibling) == before.level(pair) + 1
                &&& before.level(closed) == before.level(pair) + 1
                &&& before.node(pair).parent is None ==> before.top() == Some(pair)
                    && before.level(pair) == 0
                &&& before.node(pair).parent matches Some(grand) ==> {
                    &&& before.live(grand)
                    &&& before.level(pair) == before.level(grand) + 1
                    &&& !before.under(grand, closed)
                    &&& !before.under(grand, sibling)
                    &&& grand != sibling
                    &&& before.node(grand).pair matches Some(upper) && (upper.child1 == pair
                        || upper.child2 == pair)
                }
            }),
    {
        before.lemma_linked(closed);
        let pair = before.parent_of(closed)->0;
        before.lemma_linked(pair);
        let sibling = before.sibling_of(closed)->0;
        before.lemma_linked(sibling);
        before.lemma_under_step(sibling, closed);
        if before.under(pair, closed) {
            before.lemma_under_level(pair, closed);
        }
        if before.under(pair, sibling) {
            before.lemma_under_level(pair, sibling);
        }
        if let Some(grand) = before.node(pair).parent {
            before.lemma_linked(grand);
            if before.under(grand, closed) {
                before.lemma_under_level(grand, closed);
            }
            if before.under(grand, sibling) {
                before.lemma_under_level(grand, sibling);
            }
        }
    }

    /// The promoted sibling is linked after a close.
    proof fn lemma_close_linked_sibling(&self, before: WindowTree, closed: u32)
        requires
            self.closes(before, closed),
            before.parent_of(closed) is Some,
        ensures
            self.linked(before.sibling_of(closed)->0),
    {
        reveal(WindowTree::linked);
        WindowTree::lemma_close_frame(before, closed);
        let sibling = before.sibling_of(closed)->0;
        let pair = before.parent_of(closed)->0;
        before.lemma_linked(sibling);
        if let Some(inner) = before.node(sibling).pair {
            before.lemma_linked(inner.child1);
            before.lemma_linked(inner.child2);
            before.lemma_under_step(inner.child1, closed);
            before.lemma_under_step(inner.child2, closed);
            if before.under(inner.child1, closed) {
                before.lemma_under_level(inner.child1, closed);
            }
            if before.under(inner.child2, closed) {
                before.lemma_under_level(inner.child2, closed);
            }
            before.lemma_under_step(inner.child1, sibling);
            before.lemma_under_step(inner.child2, sibling);
        }
    }

    /// The pair's parent, which takes the sibling in, is linked after a
    /// close.
    proof fn lemma_close_linked_grand(&self, before: WindowTree, closed: u32)
        requires
            self.closes(before, closed),
            before.parent_of(closed) is Some,
            before.parent_of(before.parent_of(closed)->0) is Some,
        ensures
            self.linked(before.parent_of(before.parent_of(closed)->0)->0),
    {
        reveal(WindowTree::linked);
        WindowTree::lemma_close_frame(before, closed);
        let pair = before.parent_of(closed)->0;
        let sibling = before.sibling_of(closed)->0;
        let grand = before.parent_of(pair)->0;
        before.lemma_linked(grand);
        let upper = before.node(grand).pair->0;
        let other = if upper.child1 == pair {
            upper.child2
        } else {
            upper.child1
        };
        before.lemma_linked(other);
        before.lemma_under_step(other, closed);
        before.lemma_under_step(other, sibling);
        if before.under(other, sibling) {
            before.lemma_under_level(other, sibling);
        }
        if let Some(above) = before.node(grand).parent {
            before.lemma_linked(above);
            if before.under(above, closed) {
                before.lemma_under_level(above, closed);
            }
            if before.under(above, sibling) {
                before.lemma_under_level(above, sibling);
            }
        }
    }

    /// Any other window that stays is linked after a close.
    proof fn lemma_close_linked_other(&self, before: WindowTree, closed: u32, key: u32)
        requires
            self.closes(before, closed),
            self.map@.dom().contains(key),
            before.parent_of(closed) is Some,
            key != before.sibling_of(closed)->0,
            before.parent_of(before.parent_of(closed)->0) != Some(key),
        ensures
            self.linked(key),
    {
        reveal(WindowTree::linked);
        WindowTree::lemma_close_frame(before, closed);
        let pair = before.parent_of(closed)->0;
        let sibling = before.sibling_of(closed)->0;
        before.lemma_linked(key);
        if let Some(parent) = before.node(key).parent {
            before.lemma_linked(parent);
            before.lemma_under_step(key, closed);
            before.lemma_under_step(key, sibling);
        } else {
            assert(before.root == Some(key));
        }
        if let Some(split) = before.node(key).pair {
            before.lemma_linked(split.child1);
            before.lemma_linked(split.child2);
            before.lemma_under_step(split.child1, closed);
            before.lemma_under_step(split.child2, closed);
        }
    }

    /// Whether a split method runs left to right rather than top to
    /// bottom.
    pub open spec fn runs_across(method: u32) -> bool {
        let direction = method & window_method::DIR_MASK;
        direction == window_method::LEFT || direction == window_method::RIGHT
    }

    /// Change a pair's split (Glk: Changing Window Constraints): a new
    /// method, size, and -- where one is named -- key window.
    ///
    /// The windows never flip or rotate: changing the direction within
    /// its axis moves the constraint to the other child while the glass
    /// stays where it is, which is carried by swapping the children. The
    /// refusals come in order: what is not a pair window, a method on
    /// the other axis, a key that is a pair window, and a key that does
    /// not live under the pair.
    pub fn set_arrangement(&mut self, window: Option<u32>, method: u32, size: u32, key: Option<u32>) -> (result: Result<(), VoxamError>)
        requires
            old(self).wf(),
        ensures
            final(self).wf(),
            match window {
                Some(pair) if old(self).pair_of(pair) is Some => {
                    let split = old(self).pair_of(pair)->0;
                    if WindowTree::runs_across(method) != split.vertical {
                        result == Err::<(), VoxamError>(VoxamError::AxisChanged) && *final(self)
                            == *old(self)
                    } else if key matches Some(named) && old(self).pair_of(named) is Some {
                        result == Err::<(), VoxamError>(VoxamError::PairKey) && *final(self)
                            == *old(self)
                    } else if key matches Some(named) && !old(self).under(named, pair) {
                        result == Err::<(), VoxamError>(VoxamError::KeyOutsidePair)
                            && *final(self) == *old(self)
                    } else {
                        let backward = method & window_method::DIR_MASK == window_method::LEFT
                            || method & window_method::DIR_MASK == window_method::ABOVE;
                        &&& result is Ok
                        &&& final(self).order() == old(self).order()
                        &&& final(self).top() == old(self).top()
                        &&& forall|other: u32|
                            final(self).live(other) <==> old(self).live(other)
                        &&& forall|other: u32|
                            old(self).live(other) && other != pair ==> final(self).node(other)
                                == old(self).node(other)
                        &&& final(self).node(pair).key == pair
                        &&& final(self).node(pair).parent == old(self).node(pair).parent
                        &&& final(self).node(pair).rock == old(self).node(pair).rock
                        &&& final(self).node(pair).wtype == old(self).node(pair).wtype
                        &&& final(self).node(pair).pair matches Some(changed) && {
                            &&& changed.unpacks(method)
                            &&& changed.size == size
                            &&& changed.key == match key {
                                Some(named) => named,
                                None => split.key,
                            }
                            &&& if backward != split.backward {
                                changed.child1 == split.child2 && changed.child2 == split.child1
                            } else {
                                changed.child1 == split.child1 && changed.child2 == split.child2
                            }
                            &&& changed.sized_box == split.sized_box
                        }
                    }
                },
                _ => result == Err::<(), VoxamError>(VoxamError::NoPairToArrange) && *final(self)
                    == *old(self),
            },
    {
        let pair = match window {
            Some(pair) => pair,
            None => return Err(VoxamError::NoPairToArrange),
        };
        let at = match self.find(pair) {
            Some(at) => at,
            None => return Err(VoxamError::NoPairToArrange),
        };
        let mut held = self.nodes[at];
        let mut split = match held.pair {
            Some(split) => split,
            None => return Err(VoxamError::NoPairToArrange),
        };
        let direction = method & window_method::DIR_MASK;
        let vertical = direction == window_method::LEFT || direction == window_method::RIGHT;
        if vertical != split.vertical {
            return Err(VoxamError::AxisChanged);
        }
        match key {
            Some(named) => {
                match self.find(named) {
                    Some(place) => {
                        if self.nodes[place].pair.is_some() {
                            return Err(VoxamError::PairKey);
                        }
                        if !self.is_under(named, pair) {
                            return Err(VoxamError::KeyOutsidePair);
                        }
                    },
                    None => {
                        return Err(VoxamError::KeyOutsidePair);
                    },
                }
            },
            None => {},
        }
        let ghost before = *self;
        let arranged = split.set_arrangement(method, size, key);
        proof {
            assert(arranged is Ok);
            before.lemma_linked(pair);
        }
        held.pair = Some(split);
        self.nodes.set(at, held);
        self.map = Ghost(before.map@.insert(pair, held));
        proof {
            self.lemma_arranged_wf(before, at as int);
        }
        Ok(())
    }

    /// The tree a rearrangement leaves is a tree: one pair's split
    /// changed, with the same two children.
    proof fn lemma_arranged_wf(&self, before: WindowTree, at: int)
        requires
            before.wf(),
            0 <= at < before.nodes@.len(),
            ({
                let pair = before.nodes@[at].key;
                let old_split = before.nodes@[at].pair->0;
                &&& before.nodes@[at].pair is Some
                &&& self.nodes@ == before.nodes@.update(at, self.nodes@[at])
                &&& self.nodes@[at].key == pair
                &&& self.nodes@[at].parent == before.nodes@[at].parent
                &&& self.nodes@[at].wtype == before.nodes@[at].wtype
                &&& self.nodes@[at].pair matches Some(split) && (split.child1 == old_split.child1
                    && split.child2 == old_split.child2 || split.child1 == old_split.child2
                    && split.child2 == old_split.child1)
                &&& self.map@ == before.map@.insert(pair, self.nodes@[at])
                &&& self.root == before.root
                &&& self.depth == before.depth
            }),
        ensures
            self.wf(),
    {
        let pair = before.nodes@[at].key;
        before.lemma_spot(at);
        before.lemma_linked(pair);
        assert forall|i: int, j: int|
            0 <= i < j < self.nodes@.len() implies #[trigger] self.nodes@[i].key
            != #[trigger] self.nodes@[j].key by {
            assert(before.nodes@[i].key != before.nodes@[j].key);
        }
        assert forall|i: int| 0 <= i < self.nodes@.len() implies #[trigger] self.map@.dom().contains(
            self.nodes@[i].key,
        ) && self.map@[self.nodes@[i].key] == self.nodes@[i] by {
            before.lemma_spot(i);
        }
        assert(self.order() =~= before.order());
        assert forall|key: u32| #[trigger] self.map@.dom().contains(key) implies self.linked(key) by {
            reveal(WindowTree::linked);
            before.lemma_linked(key);
            if let Some(parent) = before.node(key).parent {
                before.lemma_linked(parent);
            }
            if let Some(split) = before.node(key).pair {
                before.lemma_linked(split.child1);
                before.lemma_linked(split.child2);
            }
        }
    }

    /// The windows from the root down to a window, the root first.
    closed spec fn chain(&self, key: u32) -> Seq<u32>
        decreases self.level(key),
    {
        if self.live(key) && self.node(key).parent is Some && self.level(
            self.node(key).parent->0,
        ) < self.level(key) {
            self.chain(self.node(key).parent->0).push(key)
        } else {
            seq![key]
        }
    }

    /// The chain down to a live window holds a live window at each
    /// level, the window itself last.
    proof fn lemma_chain(&self, key: u32)
        requires
            self.wf(),
            self.live(key),
        ensures
            self.chain(key).len() == self.level(key) + 1,
            forall|i: int|
                0 <= i < self.chain(key).len() ==> self.live(#[trigger] self.chain(key)[i])
                    && self.level(self.chain(key)[i]) == i,
        decreases self.level(key),
    {
        self.lemma_linked(key);
        match self.node(key).parent {
            None => {
                assert(self.top() == Some(key));
            },
            Some(parent) => {
                self.lemma_chain(parent);
            },
        }
    }

    /// No window sits as deep as there are windows.
    proof fn lemma_level_bound(&self, key: u32)
        requires
            self.wf(),
            self.live(key),
        ensures
            self.level(key) < self.nodes@.len(),
    {
        broadcast use vstd::seq_lib::seq_to_set_is_finite;

        self.lemma_chain(key);
        let chain = self.chain(key);
        assert(chain.no_duplicates()) by {
            assert forall|i: int, j: int| 0 <= i < chain.len() && 0 <= j < chain.len() && i != j implies chain[i]
                != chain[j] by {
                assert(self.level(chain[i]) == i);
                assert(self.level(chain[j]) == j);
            }
        }
        chain.unique_seq_to_set();
        self.order().lemma_cardinality_of_set();
        assert forall|item: u32| chain.to_set().contains(item) implies self.order().to_set().contains(
            item,
        ) by {
            let i = choose|i: int| 0 <= i < chain.len() && chain[i] == item;
            assert(self.live(chain[i]));
        }
        vstd::set_lib::lemma_len_subset(chain.to_set(), self.order().to_set());
    }

    /// A subtree in preorder -- the head, then its first child's
    /// subtree, then its second's -- to a depth.
    pub closed spec fn preorder(&self, key: u32, depth: nat) -> Seq<u32>
        decreases depth,
    {
        if depth == 0 {
            seq![key]
        } else {
            match self.pair_of(key) {
                Some(split) => seq![key] + self.preorder(split.child1, (depth - 1) as nat)
                    + self.preorder(split.child2, (depth - 1) as nat),
                None => seq![key],
            }
        }
    }

    /// The windows a window heads, in preorder: the head, then its first
    /// child's subtree, then its second's.
    pub closed spec fn subtree_of(&self, head: u32) -> Seq<u32> {
        self.preorder(head, self.nodes@.len())
    }

    /// Below a pair, a window lies in the pair's subtree exactly when it
    /// lies in one of its children's.
    proof fn lemma_under_pair(&self, key: u32, head: u32)
        requires
            self.wf(),
            self.live(head),
            self.node(head).pair is Some,
            self.live(key),
            key != head,
        ensures
            self.under(key, head) == (self.under(key, self.node(head).pair->0.child1)
                || self.under(key, self.node(head).pair->0.child2)),
        decreases self.level(key),
    {
        self.lemma_linked(head);
        self.lemma_linked(key);
        let split = self.node(head).pair->0;
        match self.node(key).parent {
            None => {
                self.lemma_under_step(key, head);
                if key != split.child1 {
                    self.lemma_under_step(key, split.child1);
                }
                if key != split.child2 {
                    self.lemma_under_step(key, split.child2);
                }
            },
            Some(parent) => {
                self.lemma_under_step(key, head);
                if parent == head {
                    if key != split.child1 {
                        self.lemma_under_step(key, split.child1);
                        if self.under(head, split.child1) {
                            self.lemma_under_level(head, split.child1);
                        }
                    }
                    if key != split.child2 {
                        self.lemma_under_step(key, split.child2);
                        if self.under(head, split.child2) {
                            self.lemma_under_level(head, split.child2);
                        }
                    }
                } else {
                    self.lemma_linked(parent);
                    self.lemma_under_pair(parent, head);
                    if key != split.child1 {
                        self.lemma_under_step(key, split.child1);
                    }
                    if key != split.child2 {
                        self.lemma_under_step(key, split.child2);
                    }
                }
            },
        }
    }

    /// Two windows at one level that both head a subtree holding a
    /// window are the same window.
    proof fn lemma_under_both(&self, key: u32, first: u32, second: u32)
        requires
            self.wf(),
            self.live(key),
            self.under(key, first),
            self.under(key, second),
            self.level(first) == self.level(second),
        ensures
            first == second,
        decreases self.level(key),
    {
        self.lemma_linked(key);
        if key == first {
            if key != second {
                self.lemma_under_step(key, second);
                let parent = self.node(key).parent->0;
                self.lemma_under_level(parent, second);
            }
        } else if key == second {
            self.lemma_under_step(key, first);
            let parent = self.node(key).parent->0;
            self.lemma_under_level(parent, first);
        } else {
            self.lemma_under_step(key, first);
            self.lemma_under_step(key, second);
            let parent = self.node(key).parent->0;
            self.lemma_under_both(parent, first, second);
        }
    }

    /// Taken deep enough, a live window's preorder holds each window of
    /// its subtree once, and nothing else.
    proof fn lemma_preorder(&self, key: u32, depth: nat)
        requires
            self.wf(),
            self.live(key),
            self.level(key) + depth >= self.nodes@.len(),
        ensures
            forall|item: u32|
                self.preorder(key, depth).contains(item) <==> (self.live(item) && self.under(
                    item,
                    key,
                )),
            self.preorder(key, depth).no_duplicates(),
        decreases depth,
    {
        self.lemma_level_bound(key);
        self.lemma_linked(key);
        let order = self.preorder(key, depth);
        match self.node(key).pair {
            None => {
                assert(order == seq![key]);
                assert forall|item: u32| order.contains(item) <==> (self.live(item) && self.under(
                    item,
                    key,
                )) by {
                    if self.live(item) && self.under(item, key) {
                        self.lemma_under_leaf(item, key);
                        assert(order[0] == item);
                    }
                    if order.contains(item) {
                        assert(order[0] == item);
                    }
                }
            },
            Some(split) => {
                let deeper = (depth - 1) as nat;
                self.lemma_linked(split.child1);
                self.lemma_linked(split.child2);
                self.lemma_preorder(split.child1, deeper);
                self.lemma_preorder(split.child2, deeper);
                let left = self.preorder(split.child1, deeper);
                let right = self.preorder(split.child2, deeper);
                assert(order == seq![key] + left + right);
                assert forall|item: u32| order.contains(item) <==> (self.live(item) && self.under(
                    item,
                    key,
                )) by {
                    if self.live(item) && item != key {
                        self.lemma_under_pair(item, key);
                    }
                    if order.contains(item) {
                        let i = choose|i: int| 0 <= i < order.len() && order[i] == item;
                        if i == 0 {
                        } else if i < 1 + left.len() {
                            assert(left[i - 1] == item);
                        } else {
                            assert(right[i - 1 - left.len()] == item);
                        }
                    }
                    if self.live(item) && self.under(item, key) {
                        if item == key {
                            assert(order[0] == item);
                        } else if self.under(item, split.child1) {
                            let j = choose|j: int| 0 <= j < left.len() && left[j] == item;
                            assert(order[1 + j] == item);
                        } else {
                            let j = choose|j: int| 0 <= j < right.len() && right[j] == item;
                            assert(order[1 + left.len() + j] == item);
                        }
                    }
                }
                assert forall|i: int, j: int| 0 <= i < order.len() && 0 <= j < order.len() && i != j implies order[i]
                    != order[j] by {
                    if order[i] == order[j] {
                        let item = order[i];
                        assert(order.contains(item));
                        let in_left = |at: int| 1 <= at < 1 + left.len();
                        let in_right = |at: int| 1 + left.len() <= at;
                        if i == 0 || j == 0 {
                            assert(item == key);
                            let other = if i == 0 { j } else { i };
                            if in_left(other) {
                                assert(left.contains(left[other - 1]));
                                self.lemma_under_level(key, split.child1);
                            } else {
                                assert(right.contains(right[other - 1 - left.len()]));
                                self.lemma_under_level(key, split.child2);
                            }
                        } else if in_left(i) && in_left(j) {
                            assert(left[i - 1] == left[j - 1]);
                        } else if in_right(i) && in_right(j) {
                            assert(right[i - 1 - left.len()] == right[j - 1 - left.len()]);
                        } else {
                            let (l, r) = if in_left(i) { (i, j) } else { (j, i) };
                            assert(left.contains(left[l - 1]));
                            assert(right.contains(right[r - 1 - left.len()]));
                            self.lemma_under_both(item, split.child1, split.child2);
                        }
                    }
                }
            },
        }
    }

    /// The subtree a window heads holds the window and every window
    /// under it, each once, and nothing else; a key that names no
    /// window stands alone.
    pub proof fn subtrees_hold_what_lies_under(&self, head: u32)
        requires
            self.wf(),
        ensures
            self.subtree_of(head).no_duplicates(),
            self.live(head) ==> forall|item: u32|
                self.subtree_of(head).contains(item) <==> (self.live(item) && self.under(item, head)),
            !self.live(head) ==> self.subtree_of(head) == seq![head],
    {
        if self.live(head) {
            self.lemma_preorder(head, self.nodes@.len());
        } else {
            reveal_with_fuel(WindowTree::preorder, 2);
        }
    }

    /// Append a subtree's preorder, to a depth.
    fn push_preorder(&self, key: u32, depth: usize, found: &mut Vec<u32>)
        requires
            self.wf(),
        ensures
            final(found)@ == old(found)@ + self.preorder(key, depth as nat),
        decreases depth,
    {
        found.push(key);
        if depth == 0 {
            proof {
                assert(found@ =~= old(found)@ + self.preorder(key, depth as nat));
            }
            return;
        }
        let split = match self.find(key) {
            Some(at) => self.nodes[at].pair,
            None => None,
        };
        match split {
            Some(split) => {
                let ghost after_key = found@;
                self.push_preorder(split.child1, depth - 1, found);
                self.push_preorder(split.child2, depth - 1, found);
                proof {
                    assert(found@ =~= old(found)@ + self.preorder(key, depth as nat));
                }
            },
            None => {
                proof {
                    assert(found@ =~= old(found)@ + self.preorder(key, depth as nat));
                }
            },
        }
    }

    /// Whether a window shows anything: neither a pair nor blank.
    pub open spec fn shows(&self, key: u32) -> bool {
        self.live(key) && self.node(key).pair is None && self.node(key).wtype != window_type::BLANK
    }

    /// The windows of a subtree that show, in preorder, to a depth.
    pub closed spec fn shown_from(&self, key: u32, depth: nat) -> Seq<u32>
        decreases depth,
    {
        if depth == 0 || !self.live(key) {
            Seq::empty()
        } else {
            match self.node(key).pair {
                Some(split) => self.shown_from(split.child1, (depth - 1) as nat) + self.shown_from(
                    split.child2,
                    (depth - 1) as nat,
                ),
                None => if self.node(key).wtype == window_type::BLANK {
                    Seq::empty()
                } else {
                    seq![key]
                },
            }
        }
    }

    /// The windows that show, in the order a display draws them: the
    /// tree walked from the root, first child before second, pairs and
    /// blank windows passed over.
    pub closed spec fn visible_windows(&self) -> Seq<u32> {
        match self.root {
            Some(top) => self.shown_from(top, self.nodes@.len()),
            None => Seq::empty(),
        }
    }

    /// Taken deep enough, the windows of a live window's subtree that
    /// show are each listed once, and nothing else is.
    proof fn lemma_shown_from(&self, key: u32, depth: nat)
        requires
            self.wf(),
            self.live(key),
            self.level(key) + depth >= self.nodes@.len(),
        ensures
            forall|item: u32|
                #[trigger] self.shown_from(key, depth).contains(item) <==> (self.shows(item)
                    && self.under(item, key)),
            self.shown_from(key, depth).no_duplicates(),
        decreases depth,
    {
        self.lemma_level_bound(key);
        self.lemma_linked(key);
        let order = self.shown_from(key, depth);
        match self.node(key).pair {
            None => {
                assert forall|item: u32| order.contains(item) <==> (self.shows(item) && self.under(
                    item,
                    key,
                )) by {
                    if self.live(item) && self.under(item, key) {
                        self.lemma_under_leaf(item, key);
                        if self.shows(item) {
                            assert(order[0] == item);
                        }
                    }
                    if order.contains(item) {
                        assert(order[0] == item);
                    }
                }
            },
            Some(split) => {
                let deeper = (depth - 1) as nat;
                self.lemma_linked(split.child1);
                self.lemma_linked(split.child2);
                self.lemma_shown_from(split.child1, deeper);
                self.lemma_shown_from(split.child2, deeper);
                let left = self.shown_from(split.child1, deeper);
                let right = self.shown_from(split.child2, deeper);
                assert(order == left + right);
                assert(!self.shows(key));
                assert forall|item: u32| order.contains(item) <==> (self.shows(item) && self.under(
                    item,
                    key,
                )) by {
                    if self.live(item) && item != key {
                        self.lemma_under_pair(item, key);
                    }
                    if order.contains(item) {
                        let i = choose|i: int| 0 <= i < order.len() && order[i] == item;
                        if i < left.len() {
                            assert(order[i] == left[i]);
                            assert(left.contains(item));
                        } else {
                            assert(order[i] == right[i - left.len()]);
                            assert(right.contains(item));
                        }
                        assert(self.shows(item));
                        assert(item != key);
                        assert(self.under(item, key));
                    }
                    if self.shows(item) && self.under(item, key) {
                        assert(item != key);
                        if self.under(item, split.child1) {
                            assert(left.contains(item));
                            let j = choose|j: int| 0 <= j < left.len() && left[j] == item;
                            assert(order[j] == left[j]);
                        } else {
                            assert(self.under(item, split.child2));
                            assert(right.contains(item));
                            let j = choose|j: int| 0 <= j < right.len() && right[j] == item;
                            assert(order[left.len() + j] == right[j]);
                        }
                        assert(order.contains(item));
                    }
                }
                assert forall|i: int, j: int| 0 <= i < order.len() && 0 <= j < order.len() && i != j implies order[i]
                    != order[j] by {
                    if order[i] == order[j] {
                        let item = order[i];
                        if i < left.len() && j < left.len() {
                            assert(left[i] == left[j]);
                        } else if i >= left.len() && j >= left.len() {
                            assert(right[i - left.len()] == right[j - left.len()]);
                        } else {
                            let (l, r) = if i < left.len() { (i, j) } else { (j, i) };
                            assert(order[l] == item && order[r] == item);
                            assert(order[l] == left[l]);
                            assert(order[r] == right[r - left.len()]);
                            assert(left.contains(item));
                            assert(right.contains(item));
                            assert(self.under(item, split.child1));
                            assert(self.under(item, split.child2));
                            self.lemma_under_both(item, split.child1, split.child2);
                        }
                    }
                }
            },
        }
    }

    /// A display draws every window that shows, once each, and nothing
    /// else: no pair and no blank window.
    pub proof fn every_showing_window_is_drawn_once(&self)
        requires
            self.wf(),
        ensures
            self.visible_windows().no_duplicates(),
            forall|item: u32| self.visible_windows().contains(item) <==> self.shows(item),
    {
        match self.root {
            Some(top) => {
                self.lemma_shown_from(top, self.nodes@.len());
                assert forall|item: u32| self.shows(item) implies self.under(item, top) by {
                    self.lemma_under_root(item);
                }
            },
            None => {},
        }
    }

    /// Append the windows of a subtree that show, to a depth.
    fn push_shown(&self, key: u32, depth: usize, found: &mut Vec<u32>)
        requires
            self.wf(),
        ensures
            final(found)@ == old(found)@ + self.shown_from(key, depth as nat),
        decreases depth,
    {
        if depth == 0 {
            proof {
                assert(found@ =~= old(found)@ + self.shown_from(key, depth as nat));
            }
            return;
        }
        match self.find(key) {
            None => {
                proof {
                    assert(found@ =~= old(found)@ + self.shown_from(key, depth as nat));
                }
            },
            Some(at) => match self.nodes[at].pair {
                Some(split) => {
                    self.push_shown(split.child1, depth - 1, found);
                    self.push_shown(split.child2, depth - 1, found);
                    proof {
                        assert(found@ =~= old(found)@ + self.shown_from(key, depth as nat));
                    }
                },
                None => {
                    if self.nodes[at].wtype != window_type::BLANK {
                        found.push(key);
                    }
                    proof {
                        assert(found@ =~= old(found)@ + self.shown_from(key, depth as nat));
                    }
                },
            },
        }
    }

    /// The windows a display draws, in the order it draws them: from
    /// the root down, first child before second, with pairs and blank
    /// windows passed over.
    pub fn visible(&self) -> (shown: Vec<u32>)
        requires
            self.wf(),
        ensures
            shown@ == self.visible_windows(),
    {
        let mut shown: Vec<u32> = Vec::new();
        match self.root {
            Some(top) => self.push_shown(top, self.nodes.len(), &mut shown),
            None => {},
        }
        proof {
            assert(shown@ =~= self.visible_windows());
        }
        shown
    }

    /// A window and every window under it, in preorder: the window,
    /// then its first child's subtree, then its second's; a key that
    /// names no window stands alone.
    pub fn subtree(&self, head: u32) -> (found: Vec<u32>)
        requires
            self.wf(),
        ensures
            found@ == self.subtree_of(head),
    {
        let mut found: Vec<u32> = Vec::new();
        self.push_preorder(head, self.nodes.len(), &mut found);
        proof {
            assert(found@ =~= self.subtree_of(head));
        }
        found
    }

    /// Nothing but a leaf lies in the subtree a leaf heads.
    proof fn lemma_under_leaf(&self, key: u32, leaf: u32)
        requires
            self.wf(),
            self.live(leaf),
            self.node(leaf).pair is None,
            self.under(key, leaf),
        ensures
            key == leaf,
        decreases self.level(key),
    {
        if key != leaf {
            self.lemma_linked(key);
            let parent = self.node(key).parent->0;
            self.lemma_under_leaf(parent, leaf);
            self.lemma_linked(parent);
        }
    }

    /// Closing a window just split off gives the tree back as it stood
    /// before the split: the same windows in the same walk order, each
    /// with the node it had, and the same root.
    pub proof fn closing_a_new_window_restores_the_tree(
        before: WindowTree,
        opened: WindowTree,
        after: WindowTree,
        named: u32,
        method: u32,
        size: u32,
        wkey: u32,
        pkey: u32,
    )
        requires
            before.wf(),
            opened.wf(),
            before.live(named),
            !before.live(wkey),
            !before.live(pkey),
            wkey != pkey,
            opened.live(wkey),
            opened.node(wkey).pair is None,
            WindowTree::split_result(before, opened, named, method, size, wkey, pkey),
            WindowTree::close_result(opened, after, wkey),
        ensures
            after.order() == before.order(),
            after.top() == before.top(),
            forall|key: u32| after.live(key) <==> before.live(key),
            forall|key: u32| before.live(key) ==> after.node(key) == before.node(key),
    {
        let grand = before.parent_of(named);
        before.lemma_linked(named);
        opened.lemma_linked(wkey);
        opened.lemma_linked(pkey);
        assert(opened.sibling_of(wkey) == Some(named));
        assert(opened.parent_of(pkey) == grand);
        // What goes with the new window: itself and its pair.
        assert forall|key: u32| #[trigger] opened.goes_with(key, wkey) <==> (key == wkey || key
            == pkey) by {
            if opened.under(key, wkey) {
                opened.lemma_under_leaf(key, wkey);
            }
        }
        // The walk.
        let keep = |key: u32| !opened.goes_with(key, wkey);
        Seq::filter_distributes_over_add(seq![pkey, wkey], before.order(), keep);
        reveal_with_fuel(Seq::filter, 3);
        assert(seq![pkey, wkey].filter(keep) =~= Seq::<u32>::empty()) by {
            assert(seq![pkey, wkey].drop_last() =~= seq![pkey]);
            assert(seq![pkey].drop_last() =~= Seq::<u32>::empty());
        }
        assert forall|i: int| 0 <= i < before.order().len() implies keep(#[trigger] before.order()[i]) by {
            before.lemma_spot(i);
        }
        lemma_filter_all(before.order(), keep);
        assert(after.order() =~= before.order());
        // The windows.
        assert forall|key: u32| after.live(key) <==> before.live(key) by {}
        assert forall|key: u32| before.live(key) implies after.node(key) == before.node(key) by {
            assert(after.live(key));
            if key == named {
            } else if grand == Some(key) {
                let split = before.node(key).pair->0;
                before.lemma_linked(key);
                let other = if split.child1 == named {
                    split.child2
                } else {
                    split.child1
                };
                assert(before.live(other));
                assert(WindowTree::relinked(WindowTree::relinked(split, named, pkey), pkey, named)
                    == split);
            } else {
            }
        }
        // The root.
        match grand {
            None => {
                assert(before.top() == Some(named));
            },
            Some(_) => {},
        }
    }

    /// A window's place in the walk is the first place its key holds.
    proof fn lemma_first_in_order(&self, i: int)
        requires
            self.wf(),
            0 <= i < self.nodes@.len(),
        ensures
            self.order().index_of_first(self.nodes@[i].key) == Some(i),
    {
        let key = self.nodes@[i].key;
        self.order().index_of_first_ensures(key);
        assert(self.order()[i] == key);
        match self.order().index_of_first(key) {
            Some(j) => {
                if j != i {
                    if j < i {
                        assert(self.nodes@[j].key != self.nodes@[i].key);
                    } else {
                        assert(self.nodes@[i].key != self.nodes@[j].key);
                    }
                }
            },
            None => {},
        }
    }
}

/// Keeping everything of a sequence keeps it whole.
proof fn lemma_filter_all(items: Seq<u32>, keep: spec_fn(u32) -> bool)
    requires
        forall|i: int| 0 <= i < items.len() ==> keep(#[trigger] items[i]),
    ensures
        items.filter(keep) == items,
    decreases items.len(),
{
    reveal(Seq::filter);
    if items.len() > 0 {
        let rest = items.drop_last();
        assert forall|i: int| 0 <= i < rest.len() implies keep(#[trigger] rest[i]) by {
            assert(rest[i] == items[i]);
        }
        lemma_filter_all(rest, keep);
        assert(keep(items[items.len() - 1]));
        assert(rest.push(items.last()) =~= items);
    }
}

/// Keeping some of a sequence keeps only what it held.
proof fn lemma_filter_from(items: Seq<u32>, keep: spec_fn(u32) -> bool)
    ensures
        forall|i: int|
            0 <= i < items.filter(keep).len() ==> items.contains(#[trigger] items.filter(keep)[i]),
    decreases items.len(),
{
    reveal(Seq::filter);
    if items.len() > 0 {
        let rest = items.drop_last();
        lemma_filter_from(rest, keep);
        assert forall|i: int|
            0 <= i < items.filter(keep).len() implies items.contains(
            #[trigger] items.filter(keep)[i],
        ) by {
            if i < rest.filter(keep).len() {
                let j = choose|j: int| 0 <= j < rest.len() && rest[j] == rest.filter(keep)[i];
                assert(items[j] == rest[j]);
            } else {
                assert(items[items.len() - 1] == items.last());
            }
        }
    }
}

/// Keeping some of a sequence without repeats repeats nothing.
proof fn lemma_filter_distinct(items: Seq<u32>, keep: spec_fn(u32) -> bool)
    requires
        forall|i: int, j: int| 0 <= i < j < items.len() ==> items[i] != items[j],
    ensures
        forall|i: int, j: int|
            0 <= i < j < items.filter(keep).len() ==> items.filter(keep)[i] != items.filter(
                keep,
            )[j],
    decreases items.len(),
{
    reveal(Seq::filter);
    if items.len() > 0 {
        let rest = items.drop_last();
        lemma_filter_distinct(rest, keep);
        lemma_filter_from(rest, keep);
        if keep(items.last()) {
            assert forall|i: int| 0 <= i < rest.filter(keep).len() implies rest.filter(keep)[i]
                != items.last() by {
                let j = choose|j: int| 0 <= j < rest.len() && rest[j] == rest.filter(keep)[i];
                assert(items[j] == rest[j]);
                assert(items[j] != items[items.len() - 1]);
            }
        }
    }
}

} // verus!
