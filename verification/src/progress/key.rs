//! Positions of tasks in the hierarchy.

use vstd::prelude::*;

verus! {

/// The number of a child among the children of its parent.
pub type Id = u16;

/// The depth of a position; the root has level 0.
pub type Level = u8;

/// The deepest level of the hierarchy.
pub const MAX_LEVEL: Level = 6;

/// A position in the hierarchy: the child numbers on the way from the root.
#[derive(Copy, Clone, PartialEq, Eq, Hash, Structural, Debug)]
pub enum Key {
    /// The root.
    Root,
    /// A child of the root.
    L1(Id),
    /// A position on level 2.
    L2(Id, Id),
    /// A position on level 3.
    L3(Id, Id, Id),
    /// A position on level 4.
    L4(Id, Id, Id, Id),
    /// A position on level 5.
    L5(Id, Id, Id, Id, Id),
    /// A position on level 6.
    L6(Id, Id, Id, Id, Id, Id),
}

impl View for Key {
    type V = Seq<Id>;

    open spec fn view(&self) -> Seq<Id> {
        match *self {
            Key::Root => seq![],
            Key::L1(a) => seq![a],
            Key::L2(a, b) => seq![a, b],
            Key::L3(a, b, c) => seq![a, b, c],
            Key::L4(a, b, c, d) => seq![a, b, c, d],
            Key::L5(a, b, c, d, e) => seq![a, b, c, d, e],
            Key::L6(a, b, c, d, e, f) => seq![a, b, c, d, e, f],
        }
    }
}

impl Key {
    /// The position that a path of at most six numbers leads to.
    pub open spec fn of_path(path: Seq<Id>) -> Key
        recommends
            path.len() <= MAX_LEVEL,
    {
        if path.len() == 0 {
            Key::Root
        } else if path.len() == 1 {
            Key::L1(path[0])
        } else if path.len() == 2 {
            Key::L2(path[0], path[1])
        } else if path.len() == 3 {
            Key::L3(path[0], path[1], path[2])
        } else if path.len() == 4 {
            Key::L4(path[0], path[1], path[2], path[3])
        } else if path.len() == 5 {
            Key::L5(path[0], path[1], path[2], path[3], path[4])
        } else {
            Key::L6(path[0], path[1], path[2], path[3], path[4], path[5])
        }
    }

    /// The `i`th of the six components: a child number, or `None` below the position.
    pub open spec fn component(self, i: int) -> Option<Id> {
        if 0 <= i < self@.len() {
            Some(self@[i])
        } else {
            None
        }
    }

    /// The position one level up; the root has none.
    pub open spec fn spec_parent(self) -> Option<Key> {
        if self@.len() == 0 {
            None
        } else {
            Some(Key::of_path(self@.drop_last()))
        }
    }

    /// Whether the paths agree up to their `i`th number, and `self` ends there or has the smaller
    /// number there.
    pub open spec fn before_at(self, other: Key, i: int) -> bool {
        &&& 0 <= i < other@.len()
        &&& i <= self@.len()
        &&& forall|j: int| 0 <= j < i ==> self@[j] == other@[j]
        &&& i < self@.len() ==> self@[i] < other@[i]
    }

    /// Whether `self` comes before `other` in hierarchy order: a position comes right before
    /// everything below it, and otherwise the first number that differs decides.
    pub open spec fn before(self, other: Key) -> bool {
        exists|i: int| self.before_at(other, i)
    }

    /// The `i`th component as a digit: 0 for none, and one more than the number otherwise.
    pub open spec fn digit(self, i: int) -> int {
        match self.component(i) {
            Some(id) => id + 1,
            None => 0,
        }
    }

    /// The six digits read as one number in base 65537. Hierarchy order is the order of these
    /// numbers.
    pub open spec fn spec_code(self) -> int {
        ((((self.digit(0) * 65537 + self.digit(1)) * 65537 + self.digit(2)) * 65537 + self.digit(3))
            * 65537 + self.digit(4)) * 65537 + self.digit(5)
    }

    /// The position as a single number, unique to it.
    pub fn code(&self) -> (res: u128)
        ensures
            res == self.spec_code(),
    {
        let c = self.components();
        let digit = |component: Option<Id>| -> (d: u128)
            ensures
                d == (match component {
                    Some(id) => id + 1,
                    None => 0,
                }),
            {
                match component {
                    Some(id) => id as u128 + 1,
                    None => 0,
                }
            };
        ((((digit(c[0]) * 65537 + digit(c[1])) * 65537 + digit(c[2])) * 65537 + digit(c[3])) * 65537
            + digit(c[4])) * 65537 + digit(c[5])
    }

    /// The depth of the position.
    pub fn level(&self) -> (res: Level)
        ensures
            res == self@.len(),
    {
        match *self {
            Key::Root => 0,
            Key::L1(..) => 1,
            Key::L2(..) => 2,
            Key::L3(..) => 3,
            Key::L4(..) => 4,
            Key::L5(..) => 5,
            Key::L6(..) => 6,
        }
    }

    /// The position of the child with this number.
    pub fn child(&self, number: Id) -> (res: Key)
        requires
            self@.len() < MAX_LEVEL,
        ensures
            res == Key::of_path(self@.push(number)),
    {
        match *self {
            Key::Root => Key::L1(number),
            Key::L1(a) => Key::L2(a, number),
            Key::L2(a, b) => Key::L3(a, b, number),
            Key::L3(a, b, c) => Key::L4(a, b, c, number),
            Key::L4(a, b, c, d) => Key::L5(a, b, c, d, number),
            Key::L5(a, b, c, d, e) => Key::L6(a, b, c, d, e, number),
            Key::L6(..) => *self,
        }
    }

    /// The child numbers on the way from the root, padded with `None`.
    pub fn components(&self) -> (res: [Option<Id>; 6])
        ensures
            forall|i: int| #![trigger res@[i]] 0 <= i < 6 ==> res@[i] == self.component(i),
    {
        match *self {
            Key::Root => [None, None, None, None, None, None],
            Key::L1(a) => [Some(a), None, None, None, None, None],
            Key::L2(a, b) => [Some(a), Some(b), None, None, None, None],
            Key::L3(a, b, c) => [Some(a), Some(b), Some(c), None, None, None],
            Key::L4(a, b, c, d) => [Some(a), Some(b), Some(c), Some(d), None, None],
            Key::L5(a, b, c, d, e) => [Some(a), Some(b), Some(c), Some(d), Some(e), None],
            Key::L6(a, b, c, d, e, f) => [Some(a), Some(b), Some(c), Some(d), Some(e), Some(f)],
        }
    }

    /// The position with these components, unless a number follows a `None`.
    pub fn from_components(components: [Option<Id>; 6]) -> (res: Option<Key>)
        ensures
            match res {
                Some(key) => forall|i: int|
                    #![trigger components@[i]]
                    0 <= i < 6 ==> components@[i] == key.component(i),
                None => exists|i: int, j: int|
                    #![trigger components@[i], components@[j]]
                    0 <= i < j < 6 && components@[i] is None && components@[j] is Some,
            },
    {
        match (
            components[0],
            components[1],
            components[2],
            components[3],
            components[4],
            components[5],
        ) {
            (None, None, None, None, None, None) => Some(Key::Root),
            (Some(a), None, None, None, None, None) => Some(Key::L1(a)),
            (Some(a), Some(b), None, None, None, None) => Some(Key::L2(a, b)),
            (Some(a), Some(b), Some(c), None, None, None) => Some(Key::L3(a, b, c)),
            (Some(a), Some(b), Some(c), Some(d), None, None) => Some(Key::L4(a, b, c, d)),
            (Some(a), Some(b), Some(c), Some(d), Some(e), None) => Some(Key::L5(a, b, c, d, e)),
            (Some(a), Some(b), Some(c), Some(d), Some(e), Some(f)) => Some(
                Key::L6(a, b, c, d, e, f),
            ),
            _ => None,
        }
    }

    /// The position that `levels` lead to.
    pub fn from_levels(levels: &[Id]) -> (res: Key)
        requires
            levels@.len() <= MAX_LEVEL,
        ensures
            res@ == levels@,
    {
        let res = if levels.len() == 0 {
            Key::Root
        } else if levels.len() == 1 {
            Key::L1(levels[0])
        } else if levels.len() == 2 {
            Key::L2(levels[0], levels[1])
        } else if levels.len() == 3 {
            Key::L3(levels[0], levels[1], levels[2])
        } else if levels.len() == 4 {
            Key::L4(levels[0], levels[1], levels[2], levels[3])
        } else if levels.len() == 5 {
            Key::L5(levels[0], levels[1], levels[2], levels[3], levels[4])
        } else {
            Key::L6(levels[0], levels[1], levels[2], levels[3], levels[4], levels[5])
        };
        assert(res@ =~= levels@);
        res
    }

    /// The child numbers on the way from the root.
    pub fn levels(&self) -> (res: Vec<Id>)
        ensures
            res@ == self@,
    {
        match *self {
            Key::Root => Vec::new(),
            Key::L1(a) => vec![a],
            Key::L2(a, b) => vec![a, b],
            Key::L3(a, b, c) => vec![a, b, c],
            Key::L4(a, b, c, d) => vec![a, b, c, d],
            Key::L5(a, b, c, d, e) => vec![a, b, c, d, e],
            Key::L6(a, b, c, d, e, f) => vec![a, b, c, d, e, f],
        }
    }
}

/// The path of a position has its numbers, the one of the first level first.
pub proof fn paths_have_the_numbers(a: Id, b: Id, c: Id, d: Id, e: Id, f: Id)
    ensures
        Key::Root@ == Seq::<Id>::empty(),
        Key::L1(a)@ == seq![a],
        Key::L2(a, b)@ == seq![a, b],
        Key::L3(a, b, c)@ == seq![a, b, c],
        Key::L4(a, b, c, d)@ == seq![a, b, c, d],
        Key::L5(a, b, c, d, e)@ == seq![a, b, c, d, e],
        Key::L6(a, b, c, d, e, f)@ == seq![a, b, c, d, e, f],
{
}

/// A position is determined by its path.
pub proof fn key_is_its_path(key: Key)
    ensures
        Key::of_path(key@) == key,
        key@.len() <= MAX_LEVEL,
{
}

/// Every path of at most six numbers leads to a position with that path.
pub proof fn path_of_key(path: Seq<Id>)
    requires
        path.len() <= MAX_LEVEL,
    ensures
        Key::of_path(path)@ == path,
{
    assert(Key::of_path(path)@ =~= path);
}

/// Of two different positions one comes before the other.
pub proof fn order_is_total(a: Key, b: Key)
    ensures
        a == b || a.before(b) || b.before(a),
{
    if a != b {
        let i: int = if a.component(0) != b.component(0) {
            0
        } else if a.component(1) != b.component(1) {
            1
        } else if a.component(2) != b.component(2) {
            2
        } else if a.component(3) != b.component(3) {
            3
        } else if a.component(4) != b.component(4) {
            4
        } else {
            5
        };
        key_is_its_path(a);
        key_is_its_path(b);
        assert(a.component(i) != b.component(i));
        assert forall|j: int| 0 <= j < i implies a.component(j) == b.component(j) by {}
        match (a.component(i), b.component(i)) {
            (Some(x), Some(y)) => {
                if x < y {
                    assert(a.before_at(b, i));
                } else {
                    assert(b.before_at(a, i));
                }
            },
            (Some(x), None) => {
                assert(b.before_at(a, i));
            },
            (None, Some(y)) => {
                assert(a.before_at(b, i));
            },
            (None, None) => {},
        }
    }
}

/// A code is the number that [`Key::code`] returns: none is too large for it.
pub proof fn code_fits(key: Key)
    ensures
        0 <= key.spec_code() <= u128::MAX,
{
    assert forall|j: int| 0 <= #[trigger] key.digit(j) <= 65536 by {}
}

/// Hierarchy order is the order of the codes.
pub proof fn order_is_code_order(a: Key, b: Key)
    ensures
        a.before(b) <==> a.spec_code() < b.spec_code(),
        a == b <==> a.spec_code() == b.spec_code(),
{
    if a.before(b) {
        before_has_smaller_code(a, b);
    }
    if b.before(a) {
        before_has_smaller_code(b, a);
    }
    order_is_total(a, b);
}

proof fn before_has_smaller_code(a: Key, b: Key)
    requires
        a.before(b),
    ensures
        a.spec_code() < b.spec_code(),
{
    let i = choose|i: int| a.before_at(b, i);
    key_is_its_path(b);
    assert forall|j: int| 0 <= j < i implies a.digit(j) == b.digit(j) by {}
    assert(a.digit(i) < b.digit(i));
    assert(i == 0 || i == 1 || i == 2 || i == 3 || i == 4 || i == 5);
    assert forall|j: int| 0 <= #[trigger] a.digit(j) <= 65536 && 0 <= b.digit(j) <= 65536 by {}
}

} // verus!
