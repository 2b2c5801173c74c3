//! The binary space partition: a tree of rectangles, each inner rectangle cut
//! in two, with at most one room in every leaf.

use crate::generator::room::Room;
use crate::map::types::{Coordinate, Point};
use crate::random::{flip, uniform_inclusive};
use vstd::prelude::*;

verus! {

/// The margin, in cells, between a room and the edges of its leaf.
pub const PADDING: usize = 2;

/// How deep the partition may go.
pub const MAX_DEPTH: usize = 5;

/// A rectangle of the partition. A leaf has no children; any other node has
/// two, which cut its rectangle in two.
pub struct BSPNode {
    pub x: Coordinate,
    pub y: Coordinate,
    pub width: Coordinate,
    pub height: Coordinate,
    pub left: Option<Box<BSPNode>>,
    pub right: Option<Box<BSPNode>>,
    pub room: Option<Room>,
}

/// Two rooms lie apart: at least four columns, or four rows, lie between
/// the far wall of one and the near wall of the other, so that each room has
/// a margin of two cells to itself.
pub open spec fn apart(a: Room, b: Room) -> bool {
    ||| a.right() + 2 * PADDING <= b.left()
    ||| b.right() + 2 * PADDING <= a.left()
    ||| a.bottom() + 2 * PADDING <= b.top()
    ||| b.bottom() + 2 * PADDING <= a.top()
}

/// The most leaves that a tree of the given number of levels can have.
pub open spec fn most_leaves(levels: nat) -> nat
    decreases levels,
{
    if levels <= 1 {
        1
    } else {
        2 * most_leaves((levels - 1) as nat)
    }
}

/// A tree of more levels can have more leaves.
pub proof fn lemma_most_leaves_grows(fewer: nat, more: nat)
    requires
        fewer <= more,
    ensures
        1 <= most_leaves(fewer) <= most_leaves(more),
    decreases more,
{
    if more <= 1 {
    } else if fewer == more {
        lemma_most_leaves_grows((fewer - 1) as nat, (more - 1) as nat);
    } else {
        lemma_most_leaves_grows(fewer, (more - 1) as nat);
    }
}

/// Two rooms have the same place and size.
pub open spec fn same_place(a: Room, b: Room) -> bool {
    a.location == b.location && a.width == b.width && a.height == b.height
}

impl BSPNode {
    /// The node has no children.
    pub open spec fn leaf(self) -> bool {
        self.left is None && self.right is None
    }

    /// The far edges of the rectangle are machine coordinates.
    pub open spec fn fits(self) -> bool {
        self.x + self.width <= usize::MAX && self.y + self.height <= usize::MAX
    }

    /// The two rectangles have the same place and size.
    pub open spec fn same_rectangle(self, other: BSPNode) -> bool {
        self.x == other.x && self.y == other.y && self.width == other.width && self.height
            == other.height
    }

    /// `first` and `second` cut the rectangle of this node in two, side by
    /// side or one above the other.
    pub open spec fn cut_into(self, first: BSPNode, second: BSPNode) -> bool {
        &&& first.x == self.x
        &&& first.y == self.y
        &&& {
            ||| (first.height == self.height && second.height == self.height && second.y
                == self.y && second.x == self.x + first.width && first.width + second.width
                == self.width)
            ||| (first.width == self.width && second.width == self.width && second.x == self.x
                && second.y == self.y + first.height && first.height + second.height
                == self.height)
        }
    }

    /// The tree is a partition: every node is a leaf or has two children that
    /// cut its rectangle in two, and so on down.
    pub open spec fn partitioned(self) -> bool
        decreases self,
    {
        match (self.left, self.right) {
            (None, None) => true,
            (Some(first), Some(second)) => first.partitioned() && second.partitioned()
                && self.cut_into(*first, *second),
            _ => false,
        }
    }

    /// Every cut of the tree leaves at least `min_size` on both of its sides.
    pub open spec fn cut_with_room(self, min_size: int) -> bool
        decreases self,
    {
        match (self.left, self.right) {
            (Some(first), Some(second)) => {
                &&& first.cut_with_room(min_size)
                &&& second.cut_with_room(min_size)
                &&& if first.height == self.height && second.y == self.y {
                    first.width >= min_size && second.width >= min_size
                } else {
                    first.height >= min_size && second.height >= min_size
                }
            },
            _ => true,
        }
    }

    /// The node is cut by a line that runs down: its halves lie side by
    /// side.
    pub open spec fn cut_down(self) -> bool {
        self.left matches Some(first) && self.right matches Some(second) && first.height
            == self.height && second.height == self.height && second.x == self.x + first.width
    }

    /// The node is cut by a line that runs across: its halves lie one above
    /// the other.
    pub open spec fn cut_across(self) -> bool {
        self.left matches Some(first) && self.right matches Some(second) && first.width
            == self.width && second.width == self.width && second.y == self.y + first.height
    }

    /// A cut can leave `min_size` columns on both of its sides.
    pub open spec fn wide_enough(self, min_size: int) -> bool {
        self.width >= 2 * min_size
    }

    /// A cut can leave `min_size` rows on both of its sides.
    pub open spec fn high_enough(self, min_size: int) -> bool {
        self.height >= 2 * min_size
    }

    /// The two halves of the rectangle cut at `at`: side by side if the cut
    /// runs down (`vertically`), one above the other if it runs across.
    pub open spec fn halves(self, vertically: bool, at: usize) -> (BSPNode, BSPNode) {
        if vertically {
            (
                BSPNode {
                    x: self.x,
                    y: self.y,
                    width: at,
                    height: self.height,
                    left: None,
                    right: None,
                    room: None,
                },
                BSPNode {
                    x: (self.x + at) as usize,
                    y: self.y,
                    width: (self.width - at) as usize,
                    height: self.height,
                    left: None,
                    right: None,
                    room: None,
                },
            )
        } else {
            (
                BSPNode {
                    x: self.x,
                    y: self.y,
                    width: self.width,
                    height: at,
                    left: None,
                    right: None,
                    room: None,
                },
                BSPNode {
                    x: self.x,
                    y: (self.y + at) as usize,
                    width: self.width,
                    height: (self.height - at) as usize,
                    left: None,
                    right: None,
                    room: None,
                },
            )
        }
    }

    /// The leaf can hold a room of the asked size with the padding to spare.
    pub open spec fn can_house(self, min_room_size: int, max_room_size: int) -> bool {
        &&& min_room_size <= max_room_size
        &&& self.width >= min_room_size + 2 * PADDING
        &&& self.height >= min_room_size + 2 * PADDING
    }

    /// The number of leaves of the tree that can hold a room of the asked
    /// size.
    pub open spec fn housing(self, min_room_size: int, max_room_size: int) -> nat
        decreases self,
    {
        if self.leaf() {
            if self.can_house(min_room_size, max_room_size) {
                1
            } else {
                0
            }
        } else {
            (match self.left {
                Some(child) => child.housing(min_room_size, max_room_size),
                None => 0,
            }) + (match self.right {
                Some(child) => child.housing(min_room_size, max_room_size),
                None => 0,
            })
        }
    }

    /// The number of levels of the tree.
    pub open spec fn levels(self) -> nat
        decreases self,
    {
        let below_left = match self.left {
            Some(child) => child.levels(),
            None => 0,
        };
        let below_right = match self.right {
            Some(child) => child.levels(),
            None => 0,
        };
        1 + if below_left > below_right {
            below_left
        } else {
            below_right
        }
    }

    /// A tree of that many levels has at most that many leaves to house a
    /// room of whatever size.
    pub proof fn lemma_housing_bound(self, min_room_size: int, max_room_size: int)
        ensures
            self.housing(min_room_size, max_room_size) <= most_leaves(self.levels()),
        decreases self,
    {
        let below_left = match self.left {
            Some(child) => child.levels(),
            None => 0,
        };
        let below_right = match self.right {
            Some(child) => child.levels(),
            None => 0,
        };
        match self.left {
            Some(child) => {
                child.lemma_housing_bound(min_room_size, max_room_size);
                lemma_most_leaves_grows(child.levels(), (self.levels() - 1) as nat);
            },
            None => {},
        }
        match self.right {
            Some(child) => {
                child.lemma_housing_bound(min_room_size, max_room_size);
                lemma_most_leaves_grows(child.levels(), (self.levels() - 1) as nat);
            },
            None => {},
        }
    }

    /// No node of the tree holds a room.
    pub open spec fn vacant(self) -> bool
        decreases self,
    {
        &&& self.room is None
        &&& match self.left {
            Some(child) => child.vacant(),
            None => true,
        }
        &&& match self.right {
            Some(child) => child.vacant(),
            None => true,
        }
    }

    /// The rooms of the tree: that of the node itself, then those of its
    /// first child, then those of its second.
    pub open spec fn rooms(self) -> Seq<Room>
        decreases self,
    {
        (match self.room {
            Some(room) => seq![room],
            None => Seq::empty(),
        }) + (match self.left {
            Some(child) => child.rooms(),
            None => Seq::empty(),
        }) + (match self.right {
            Some(child) => child.rooms(),
            None => Seq::empty(),
        })
    }

    /// The room lies in the rectangle of this node with the padding to
    /// spare on every side.
    pub open spec fn houses(self, room: Room) -> bool {
        &&& self.x + PADDING <= room.left()
        &&& room.right() + PADDING <= self.x + self.width
        &&& self.y + PADDING <= room.top()
        &&& room.bottom() + PADDING <= self.y + self.height
    }

    /// Rooms are held by leaves only, and each lies in its leaf with the
    /// padding to spare.
    pub open spec fn housed(self) -> bool
        decreases self,
    {
        &&& match self.room {
            Some(room) => self.leaf() && self.houses(room),
            None => true,
        }
        &&& match self.left {
            Some(child) => child.housed(),
            None => true,
        }
        &&& match self.right {
            Some(child) => child.housed(),
            None => true,
        }
    }

    /// Every room of the tree is between `min` and `max` cells wide and
    /// high.
    pub open spec fn sized(self, min: int, max: int) -> bool {
        forall|i: int|
            0 <= i < self.rooms().len() ==> min <= (#[trigger] self.rooms()[i]).width <= max
                && min <= self.rooms()[i].height <= max
    }

    /// The two trees have the same rectangles in the same places; they may
    /// differ in their rooms.
    pub open spec fn same_cuts(self, other: BSPNode) -> bool
        decreases self,
    {
        &&& self.same_rectangle(other)
        &&& match (self.left, other.left) {
            (Some(mine), Some(theirs)) => mine.same_cuts(*theirs),
            (None, None) => true,
            _ => false,
        }
        &&& match (self.right, other.right) {
            (Some(mine), Some(theirs)) => mine.same_cuts(*theirs),
            (None, None) => true,
            _ => false,
        }
    }

    /// Trees with the same cuts agree in everything that their rectangles
    /// decide: whether they are partitions, how many levels they have, what
    /// room their cuts leave, and how many of their leaves can hold a room.
    pub proof fn lemma_same_cuts(self, other: BSPNode, min_size: int, min_room: int, max_room: int)
        requires
            self.same_cuts(other),
        ensures
            self.partitioned() == other.partitioned(),
            self.levels() == other.levels(),
            self.cut_with_room(min_size) == other.cut_with_room(min_size),
            self.housing(min_room, max_room) == other.housing(min_room, max_room),
        decreases self,
    {
        reveal_with_fuel(BSPNode::same_cuts, 2);
        match (self.left, other.left) {
            (Some(mine), Some(theirs)) => {
                mine.lemma_same_cuts(*theirs, min_size, min_room, max_room);
                assert(mine.same_rectangle(*theirs));
            },
            _ => {},
        }
        match (self.right, other.right) {
            (Some(mine), Some(theirs)) => {
                mine.lemma_same_cuts(*theirs, min_size, min_room, max_room);
                assert(mine.same_rectangle(*theirs));
            },
            _ => {},
        }
        assert(self.leaf() == other.leaf());
    }

    /// In a partition whose rooms are housed, every room lies in the
    /// rectangle of the root, and any two rooms lie apart.
    pub proof fn lemma_rooms_apart(self)
        requires
            self.partitioned(),
            self.housed(),
        ensures
            forall|i: int| 0 <= i < self.rooms().len() ==> self.houses(#[trigger] self.rooms()[i]),
            forall|i: int, j: int|
                0 <= i < self.rooms().len() && 0 <= j < self.rooms().len() && i != j ==> apart(
                    #[trigger] self.rooms()[i],
                    #[trigger] self.rooms()[j],
                ),
        decreases self,
    {
        match (self.left, self.right) {
            (Some(first), Some(second)) => {
                first.lemma_rooms_apart();
                second.lemma_rooms_apart();
                let a = first.rooms();
                let b = second.rooms();
                assert(self.room is None);
                assert(self.rooms() =~= a + b);
                assert forall|i: int| 0 <= i < self.rooms().len() implies self.houses(
                    #[trigger] self.rooms()[i],
                ) by {
                    if i < a.len() {
                        assert(first.houses(a[i]));
                    } else {
                        assert(second.houses(b[i - a.len()]));
                    }
                }
                assert forall|i: int, j: int|
                    0 <= i < self.rooms().len() && 0 <= j < self.rooms().len() && i != j implies apart(
                    #[trigger] self.rooms()[i],
                    #[trigger] self.rooms()[j],
                ) by {
                    if i < a.len() && j < a.len() {
                        assert(apart(a[i], a[j]));
                    } else if i >= a.len() && j >= a.len() {
                        assert(apart(b[i - a.len()], b[j - a.len()]));
                    } else if i < a.len() {
                        assert(first.houses(a[i]));
                        assert(second.houses(b[j - a.len()]));
                    } else {
                        assert(first.houses(a[j]));
                        assert(second.houses(b[i - a.len()]));
                    }
                }
            },
            _ => {
                assert(self.left is None && self.right is None);
                assert(self.rooms() =~= match self.room {
                    Some(room) => seq![room],
                    None => Seq::empty(),
                });
            },
        }
    }

    pub fn new(x: Coordinate, y: Coordinate, width: Coordinate, height: Coordinate) -> (node:
        BSPNode)
        ensures
            node == (BSPNode { x, y, width, height, left: None, right: None, room: None }),
    {
        BSPNode { x, y, width, height, left: None, right: None, room: None }
    }

    /// Cuts the rectangle in two at `at`: `at` columns from the left if the
    /// cut runs down, `at` rows from the top if it runs across.
    pub fn cut(&self, vertically: bool, at: usize) -> (halves: (BSPNode, BSPNode))
        requires
            self.fits(),
            at <= if vertically {
                self.width
            } else {
                self.height
            },
        ensures
            halves == self.halves(vertically, at),
            self.cut_into(halves.0, halves.1),
            halves.0.fits(),
            halves.1.fits(),
    {
        if vertically {
            (
                BSPNode::new(self.x, self.y, at, self.height),
                BSPNode::new(self.x + at, self.y, self.width - at, self.height),
            )
        } else {
            (
                BSPNode::new(self.x, self.y, self.width, at),
                BSPNode::new(self.x, self.y + at, self.width, self.height - at),
            )
        }
    }

    pub fn is_leaf(&self) -> (leaf: bool)
        ensures
            leaf == self.leaf(),
    {
        self.left.is_none() && self.right.is_none()
    }

    /// The first room of the tree: that of the node itself, or else the first
    /// of its first child, or else the first of its second.
    pub fn get_room_in_subtree(&self) -> (found: Option<&Room>)
        ensures
            match found {
                Some(room) => self.rooms().len() > 0 && *room == self.rooms()[0],
                None => self.rooms().len() == 0,
            },
        decreases self,
    {
        if let Some(room) = &self.room {
            return Some(room);
        }
        if let Some(child) = &self.left {
            if let Some(room) = child.get_room_in_subtree() {
                return Some(room);
            }
        }
        if let Some(child) = &self.right {
            if let Some(room) = child.get_room_in_subtree() {
                return Some(room);
            }
        }
        None
    }
}

/// Cuts a leaf in two, and its halves again, until `max_depth` is reached or
/// a rectangle is too small to leave `min_size` on both sides of a cut.
///
/// A rectangle that can be cut both ways is cut the way a coin falls; the
/// place of the cut is drawn at random.
pub fn split_node(node: &mut BSPNode, min_size: Coordinate, max_depth: usize, current_depth: usize)
    requires
        old(node).leaf(),
        old(node).room is None,
        old(node).fits(),
        current_depth <= max_depth,
    ensures
        final(node).same_rectangle(*old(node)),
        final(node).partitioned(),
        final(node).vacant(),
        final(node).cut_with_room(min_size as int),
        final(node).levels() <= max_depth - current_depth + 1,
        final(node).leaf() <==> current_depth == max_depth || !(old(node).wide_enough(
            min_size as int,
        ) || old(node).high_enough(min_size as int)),
        !final(node).leaf() && !old(node).high_enough(min_size as int) ==> final(node).cut_down(),
        !final(node).leaf() && !old(node).wide_enough(min_size as int) ==> final(node).cut_across(),
    decreases max_depth - current_depth,
{
    if current_depth >= max_depth {
        return ;
    }
    let can_split_horizontally: bool = min_size <= node.width / 2;
    let can_split_vertically: bool = min_size <= node.height / 2;
    if !can_split_horizontally && !can_split_vertically {
        return ;
    }
    let split_vertically: bool = if can_split_horizontally && can_split_vertically {
        flip()
    } else {
        can_split_horizontally
    };
    let split: usize = if split_vertically {
        uniform_inclusive(min_size, node.width - min_size)
    } else {
        uniform_inclusive(min_size, node.height - min_size)
    };
    let (mut first, mut second) = node.cut(split_vertically, split);
    split_node(&mut first, min_size, max_depth, current_depth + 1);
    split_node(&mut second, min_size, max_depth, current_depth + 1);
    node.left = Some(Box::new(first));
    node.right = Some(Box::new(second));
}

/// Gives every leaf that is large enough a room, and lists the rooms in the
/// order of the leaves.
///
/// A room is between `min_room_size` and `max_room_size` cells wide and high
/// and lies in its leaf with the padding to spare; size and place are drawn
/// at random within those bounds. A leaf that cannot hold such a room gets
/// none.
pub fn collect_rooms_in_node(
    node: &mut BSPNode,
    rooms: &mut Vec<Room>,
    min_room_size: Coordinate,
    max_room_size: Coordinate,
)
    requires
        old(node).partitioned(),
        old(node).vacant(),
        old(node).fits(),
    ensures
        final(node).same_cuts(*old(node)),
        final(node).partitioned(),
        final(node).housed(),
        final(node).sized(min_room_size as int, max_room_size as int),
        final(rooms)@ == old(rooms)@ + final(node).rooms(),
        final(node).rooms().len() == old(node).housing(min_room_size as int, max_room_size as int),
    decreases *old(node),
{
    if node.is_leaf() {
        let padding: usize = PADDING;
        if node.width < padding * 2 || node.height < padding * 2 {
            assert(node.rooms() =~= Seq::empty());
            assert(rooms@ =~= old(rooms)@ + node.rooms());
            return ;
        }
        let max_room_width: usize = if node.width - padding * 2 < max_room_size {
            node.width - padding * 2
        } else {
            max_room_size
        };
        let max_room_height: usize = if node.height - padding * 2 < max_room_size {
            node.height - padding * 2
        } else {
            max_room_size
        };
        if max_room_width < min_room_size || max_room_height < min_room_size {
            assert(node.rooms() =~= Seq::empty());
            assert(rooms@ =~= old(rooms)@ + node.rooms());
            return ;
        }
        let room_width: usize = uniform_inclusive(min_room_size, max_room_width);
        let room_height: usize = uniform_inclusive(min_room_size, max_room_height);
        let room_x: usize = uniform_inclusive(
            node.x + padding,
            node.x + node.width - room_width - padding,
        );
        let room_y: usize = uniform_inclusive(
            node.y + padding,
            node.y + node.height - room_height - padding,
        );
        let location: Point = Point::new(room_x, room_y);
        let room: Room = Room::new(location, room_width, room_height);
        node.room = Some(room);
        rooms.push(room);
        proof {
            assert(node.rooms() =~= seq![room]);
            assert(rooms@ =~= old(rooms)@ + node.rooms());
        }
    } else {
        let ghost before = *node;
        let ghost listed = rooms@;
        if let Some(child) = &mut node.left {
            collect_rooms_in_node(child, rooms, min_room_size, max_room_size);
        }
        let ghost halfway = rooms@;
        if let Some(child) = &mut node.right {
            collect_rooms_in_node(child, rooms, min_room_size, max_room_size);
        }
        proof {
            let first = *node.left->0;
            let second = *node.right->0;
            first.lemma_same_cuts(
                *before.left->0,
                0,
                min_room_size as int,
                max_room_size as int,
            );
            assert(halfway == listed + first.rooms());
            assert(rooms@ == halfway + second.rooms());
            assert(node.rooms() =~= first.rooms() + second.rooms());
            assert(rooms@ =~= listed + node.rooms());
            assert forall|i: int| 0 <= i < node.rooms().len() implies min_room_size <= (
            #[trigger] node.rooms()[i]).width <= max_room_size && min_room_size
                <= node.rooms()[i].height <= max_room_size by {
                if i < first.rooms().len() {
                    assert(node.rooms()[i] == first.rooms()[i]);
                } else {
                    assert(node.rooms()[i] == second.rooms()[i - first.rooms().len()]);
                }
            }
        }
    }
}

} // verus!
