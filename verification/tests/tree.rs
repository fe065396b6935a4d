//! The window tree: splitting, closing, and rearranging.

use voxam_core::error::VoxamError;
use voxam_core::glk::objects::{window_method, window_type};
use voxam_core::glk::tree::WindowTree;

const ABOVE_FIXED: u32 = window_method::ABOVE | window_method::FIXED;
const BELOW_FIXED: u32 = window_method::BELOW | window_method::FIXED;
const LEFT_PROPORTIONAL: u32 = window_method::LEFT | window_method::PROPORTIONAL;

/// A tree and the keys a library mints for it: each window and each
/// pair takes the next key, and so does the stream each one gets.
struct Library {
    tree: WindowTree,
    next: u32,
    graphics: bool,
}

impl Library {
    fn new(graphics: bool) -> Self {
        Library { tree: WindowTree::new(), next: 0, graphics }
    }

    fn open(
        &mut self,
        split: Option<u32>,
        method: u32,
        size: u32,
        wtype: u32,
        rock: u32,
    ) -> Result<Option<u32>, VoxamError> {
        let wkey = self.next + 1;
        let pkey = self.next + 3;
        let opened = self.tree.open(split, method, size, wtype, rock, self.graphics, wkey, pkey);

        if let Ok(Some(_)) = opened {
            self.next += if split.is_some() { 4 } else { 2 };
        }

        opened
    }
}

/// A library whose first window, a text buffer with rock 1, is open.
fn rooted(graphics: bool) -> (Library, u32) {
    let mut library = Library::new(graphics);
    let window = library
        .open(None, 0, 0, window_type::TEXT_BUFFER, 1)
        .unwrap()
        .expect("the root window opens");

    (library, window)
}

fn message(error: VoxamError) -> String {
    error.to_string()
}

#[test]
fn windows_split_into_a_tree() {
    let (mut library, first) = rooted(false);

    let second = library
        .open(Some(first), ABOVE_FIXED, 3, window_type::TEXT_GRID, 2)
        .unwrap()
        .unwrap();
    let third = library
        .open(Some(second), LEFT_PROPORTIONAL, 40, window_type::BLANK, 3)
        .unwrap()
        .unwrap();
    let fourth = library
        .open(Some(first), BELOW_FIXED, 2, window_type::TEXT_GRID, 4)
        .unwrap()
        .unwrap();

    let tree = &library.tree;
    let root = tree.root();

    assert_eq!(tree.wintype(root), window_type::PAIR);
    assert_eq!(tree.parent(root), None);
    assert_eq!(tree.parent(None), None);

    // first and fourth share a pair; so do second and third.
    assert_eq!(tree.sibling(Some(first)), Some(fourth));
    assert_eq!(tree.sibling(Some(fourth)), Some(first));
    assert_eq!(tree.sibling(Some(second)), Some(third));
    assert_eq!(tree.sibling(root), None);
    assert_eq!(tree.sibling(None), None);

    // The walk visits every live window, newest first, and answers
    // rocks along the way.
    let mut seen = Vec::new();
    let mut current = tree.iterate(None);

    while let Some((held, rock)) = current {
        seen.push(rock);

        current = tree.iterate(Some(held));
    }

    assert_eq!(seen.len(), 7);
    assert_eq!(seen[1], 4);

    // A window not on the list ends the walk; so does an empty tree.
    assert_eq!(tree.iterate(Some(9999)), None);
    assert_eq!(WindowTree::new().iterate(None), None);

    assert_eq!(tree.rock(Some(first)), 1);
    assert_eq!(tree.rock(None), 0);
}

// Closing a window promotes its sibling into the pair's place --
// through the grandparent on either side, and to the root when the
// pair was the root.
#[test]
fn closing_promotes_the_sibling() {
    let (mut library, first) = rooted(false);

    let second = library
        .open(Some(first), ABOVE_FIXED, 3, window_type::TEXT_GRID, 2)
        .unwrap()
        .unwrap();
    let third = library
        .open(Some(second), LEFT_PROPORTIONAL, 40, window_type::BLANK, 3)
        .unwrap()
        .unwrap();
    let fourth = library
        .open(Some(first), BELOW_FIXED, 2, window_type::TEXT_GRID, 4)
        .unwrap()
        .unwrap();

    let tree = &mut library.tree;

    tree.close(Some(third)).unwrap();

    let sibling = tree.sibling(Some(second)).unwrap();

    assert_eq!(tree.wintype(Some(sibling)), window_type::PAIR);

    tree.close(Some(fourth)).unwrap();

    assert_eq!(tree.sibling(Some(first)), Some(second));

    tree.close(Some(second)).unwrap();

    assert_eq!(tree.root(), Some(first));

    tree.close(Some(first)).unwrap();

    assert_eq!(tree.root(), None);
    assert_eq!(tree.iterate(None), None);

    // A second close finds a window that no longer resolves.
    let error = tree.close(Some(first)).unwrap_err();

    assert!(message(error).contains("window_close"));
}

// Closing a pair closes its whole subtree.
#[test]
fn closing_a_pair_closes_the_subtree() {
    let (mut library, first) = rooted(false);

    library
        .open(Some(first), ABOVE_FIXED, 3, window_type::TEXT_GRID, 2)
        .unwrap();

    let tree = &mut library.tree;
    let pair = tree.parent(Some(first));

    tree.close(pair).unwrap();

    assert_eq!(tree.root(), None);
    assert_eq!(tree.iterate(None), None);

    let error = tree.close(None).unwrap_err();

    assert!(message(error).contains("window_close"));
}

// A split must be coherent: the first window takes no split, later
// ones need one, and the method must name a division and a direction.
// Pair windows cannot be opened directly at all.
#[test]
fn incoherent_splits_are_refused() {
    let mut library = Library::new(false);

    let error = library
        .open(Some(999), ABOVE_FIXED, 1, window_type::TEXT_BUFFER, 0)
        .unwrap_err();

    assert!(message(error).contains("must be null"));

    let (mut library, first) = rooted(false);

    let error = library.open(None, 0, 0, window_type::TEXT_BUFFER, 0).unwrap_err();

    assert!(message(error).contains("must not be null"));

    let error = library
        .open(Some(first), window_method::ABOVE, 1, window_type::BLANK, 0)
        .unwrap_err();

    assert!(message(error).contains("neither fixed nor proportional"));

    let error = library
        .open(Some(first), window_method::FIXED | 0x04, 1, window_type::BLANK, 0)
        .unwrap_err();

    assert!(message(error).contains("names no direction"));

    let error = library
        .open(Some(first), ABOVE_FIXED, 1, window_type::PAIR, 0)
        .unwrap_err();

    assert!(message(error).contains("pair window"));

    // An unsupported type answers None: graphics without a drawing
    // display, and types from a Glk yet to be written.
    assert_eq!(
        library.open(Some(first), ABOVE_FIXED, 1, window_type::GRAPHICS, 0).unwrap(),
        None
    );
    assert_eq!(library.open(Some(first), ABOVE_FIXED, 1, 99, 0).unwrap(), None);

    // A drawing display opens one happily.
    let (mut drawing, base) = rooted(true);

    assert!(
        drawing
            .open(Some(base), ABOVE_FIXED, 8, window_type::GRAPHICS, 0)
            .unwrap()
            .is_some()
    );
}

// Changing a pair's direction moves the size constraint to the other
// child while the glass stays where it is (Glk: Changing Window
// Constraints).
#[test]
fn arrangements_change_and_report() {
    let (mut library, first) = rooted(false);

    let second = library
        .open(Some(first), ABOVE_FIXED, 3, window_type::TEXT_GRID, 2)
        .unwrap()
        .unwrap();
    let pair = library.tree.parent(Some(first));

    library.tree.set_arrangement(pair, BELOW_FIXED, 5, Some(first)).unwrap();

    assert_eq!(library.tree.arrangement(pair), Ok((BELOW_FIXED, 5, first)));

    library.tree.set_arrangement(pair, ABOVE_FIXED, 2, None).unwrap();
    library.tree.set_arrangement(pair, ABOVE_FIXED, 3, None).unwrap();

    assert!(library.tree.arrangement(pair).is_ok());

    let error = library
        .tree
        .set_arrangement(Some(second), ABOVE_FIXED, 1, None)
        .unwrap_err();

    assert!(message(error).contains("not a pair"));

    let error = library.tree.arrangement(None).unwrap_err();

    assert!(message(error).contains("not a pair"));

    let error = library
        .tree
        .set_arrangement(pair, window_method::LEFT | window_method::FIXED, 1, None)
        .unwrap_err();

    assert!(message(error).contains("cannot change its axis"));

    let error = library.tree.set_arrangement(pair, ABOVE_FIXED, 1, pair).unwrap_err();

    assert!(message(error).contains("cannot be a pair"));

    // A key from outside the pair's own subtree is refused.
    let inner = library
        .open(Some(second), ABOVE_FIXED, 1, window_type::BLANK, 0)
        .unwrap()
        .unwrap();
    let inner_pair = library.tree.parent(Some(inner));

    let error = library
        .tree
        .set_arrangement(inner_pair, ABOVE_FIXED, 1, Some(first))
        .unwrap_err();

    assert!(message(error).contains("under the pair"));
}

#[test]
fn flipping_within_the_axis_swaps_the_children() {
    let (mut library, first) = rooted(false);
    let second = library
        .open(Some(first), ABOVE_FIXED, 3, window_type::TEXT_GRID, 2)
        .unwrap()
        .unwrap();
    let pair = library.tree.parent(Some(first)).unwrap();

    assert_eq!(library.tree.subtree(pair), vec![pair, first, second]);

    library.tree.set_arrangement(Some(pair), BELOW_FIXED, 3, None).unwrap();

    // The new window keeps its place as the key; the glass stays put.
    assert_eq!(library.tree.arrangement(Some(pair)), Ok((BELOW_FIXED, 3, second)));
    assert_eq!(library.tree.sibling(Some(first)), Some(second));
    assert_eq!(library.tree.sibling(Some(second)), Some(first));
}

#[test]
fn closing_a_new_window_gives_the_tree_back() {
    let (mut library, first) = rooted(false);
    let second = library
        .open(Some(first), ABOVE_FIXED, 3, window_type::TEXT_GRID, 2)
        .unwrap()
        .unwrap();
    let before: Vec<_> = walk(&library.tree);
    let third = library
        .open(Some(second), LEFT_PROPORTIONAL, 40, window_type::BLANK, 3)
        .unwrap()
        .unwrap();
    let pair = library.tree.parent(Some(third)).unwrap();

    // The window goes, and its pair after it.
    assert_eq!(library.tree.close(Some(third)), Ok(vec![third, pair]));
    assert_eq!(walk(&library.tree), before);
    assert_eq!(library.tree.sibling(Some(second)), Some(first));
}

#[test]
fn the_subtree_lists_what_lies_under_a_window() {
    let (mut library, first) = rooted(false);
    let second = library
        .open(Some(first), ABOVE_FIXED, 3, window_type::TEXT_GRID, 2)
        .unwrap()
        .unwrap();
    let third = library
        .open(Some(second), LEFT_PROPORTIONAL, 40, window_type::BLANK, 3)
        .unwrap()
        .unwrap();
    let inner = library.tree.parent(Some(third)).unwrap();
    let root = library.tree.root().unwrap();

    // Preorder: the head, then its first child's subtree, then its
    // second's.
    assert_eq!(library.tree.subtree(inner), vec![inner, second, third]);
    assert_eq!(library.tree.subtree(first), vec![first]);
    assert_eq!(library.tree.subtree(777), vec![777]);
    assert_eq!(library.tree.subtree(root), vec![root, first, inner, second, third]);
    assert!(library.tree.contains(third));
    assert!(!library.tree.contains(777));
}

/// Every window's key, parent, and rock, in walk order.
fn walk(tree: &WindowTree) -> Vec<(u32, Option<u32>, u32)> {
    let mut seen = Vec::new();
    let mut current = tree.iterate(None);

    while let Some((held, rock)) = current {
        seen.push((held, tree.parent(Some(held)), rock));

        current = tree.iterate(Some(held));
    }

    seen
}

#[test]
fn closing_a_pair_reports_its_subtree_then_its_parent() {
    let (mut library, first) = rooted(false);
    let second = library
        .open(Some(first), ABOVE_FIXED, 3, window_type::TEXT_GRID, 2)
        .unwrap()
        .unwrap();
    let third = library
        .open(Some(second), LEFT_PROPORTIONAL, 40, window_type::BLANK, 3)
        .unwrap()
        .unwrap();
    let inner = library.tree.parent(Some(third)).unwrap();
    let root = library.tree.root().unwrap();

    assert_eq!(library.tree.close(Some(inner)), Ok(vec![inner, second, third, root]));
    assert_eq!(library.tree.root(), Some(first));
    assert_eq!(library.tree.parent(Some(first)), None);
}

#[test]
fn a_display_draws_what_shows_in_tree_order() {
    let (mut library, first) = rooted(false);

    assert_eq!(library.tree.visible(), vec![first]);

    let second = library
        .open(Some(first), ABOVE_FIXED, 3, window_type::TEXT_GRID, 2)
        .unwrap()
        .unwrap();
    let third = library
        .open(Some(second), LEFT_PROPORTIONAL, 40, window_type::BLANK, 3)
        .unwrap()
        .unwrap();
    let fourth = library
        .open(Some(third), BELOW_FIXED, 1, window_type::TEXT_BUFFER, 4)
        .unwrap()
        .unwrap();

    // Pairs and the blank window are passed over; first child first.
    assert_eq!(library.tree.visible(), vec![first, second, fourth]);
    assert_eq!(WindowTree::new().visible(), Vec::<u32>::new());
}
