//! Path identity for entries of the task hierarchy: a key of up to four
//! identifiers, one per nesting level, populated as a gap-free prefix.

use crate::progress::Value;
use vstd::prelude::*;

verus! {

/// The key of each row of a snapshot, in row order.
pub open spec fn keys_of(rows: Seq<(Key, Value)>) -> Seq<Key> {
    rows.map_values(|e: (Key, Value)| e.0)
}

/// Whether a row's key stops the sibling search at `level`: at the searched
/// entry's own level the row may sit on that level or be its direct parent
/// boundary; at any other level it must sit exactly on the searched level.
pub open spec fn stops_search(k: Key, level: int, key_level: int) -> bool {
    if level == key_level {
        k.spec_level() == key_level || k.spec_level() + 1 == key_level
    } else {
        k.spec_level() == level
    }
}

/// Position of the nearest row at or before `i` that stops the search for
/// `level`, scanning backward only while rows still share `key`'s ancestry
/// through `level - 1`.
pub open spec fn find_above_from(
    keys: Seq<Key>,
    key: Key,
    key_level: int,
    level: int,
    i: int,
) -> Option<int>
    decreases i + 1,
{
    if i < 0 {
        None
    } else if !key.spec_shares_parent_with(keys[i], level - 1) {
        None
    } else if stops_search(keys[i], level, key_level) {
        Some(i)
    } else {
        find_above_from(keys, key, key_level, level, i - 1)
    }
}

/// Position of the nearest row at or after `i` that stops the search for
/// `level`, scanning forward only while rows still share `key`'s ancestry
/// through `level - 1`.
pub open spec fn find_below_from(
    keys: Seq<Key>,
    key: Key,
    key_level: int,
    level: int,
    i: int,
) -> Option<int>
    decreases keys.len() - i,
{
    if i >= keys.len() || i < 0 {
        None
    } else if !key.spec_shares_parent_with(keys[i], level - 1) {
        None
    } else if stops_search(keys[i], level, key_level) {
        Some(i)
    } else {
        find_below_from(keys, key, key_level, level, i + 1)
    }
}

/// The cursor in effect when the upward pass processes `level`: it starts at
/// the row itself and advances to each found row's position as the pass
/// walks from the deepest level toward the root.
pub open spec fn up_cursor(keys: Seq<Key>, key: Key, key_level: int, index: int, level: int) -> int
    decreases key_level - level,
{
    if level >= key_level {
        index
    } else {
        let c = up_cursor(keys, key, key_level, index, level + 1);
        match find_above_from(keys, key, key_level, level + 1, c - 1) {
            Some(j) => j,
            None => c,
        }
    }
}

/// The cursor in effect when the downward pass processes `level`.
pub open spec fn down_cursor(
    keys: Seq<Key>,
    key: Key,
    key_level: int,
    index: int,
    level: int,
) -> int
    decreases key_level - level,
{
    if level >= key_level {
        index
    } else {
        let c = down_cursor(keys, key, key_level, index, level + 1);
        match find_below_from(keys, key, key_level, level + 1, c + 1) {
            Some(j) => j,
            None => c,
        }
    }
}

/// Whether the upward pass marks `Above` at `level`: level 1 always has a
/// conceptual predecessor (the root or group boundary), deeper levels only
/// when the backward search finds a row.
pub open spec fn above_mark(
    keys: Seq<Key>,
    key: Key,
    key_level: int,
    index: int,
    level: int,
) -> bool {
    if level == 1 {
        true
    } else {
        find_above_from(
            keys,
            key,
            key_level,
            level,
            up_cursor(keys, key, key_level, index, level) - 1,
        ) is Some
    }
}

/// Whether the downward pass marks `Below` at `level`.
pub open spec fn below_mark(
    keys: Seq<Key>,
    key: Key,
    key_level: int,
    index: int,
    level: int,
) -> bool {
    find_below_from(
        keys,
        key,
        key_level,
        level,
        down_cursor(keys, key, key_level, index, level) + 1,
    ) is Some
}

/// The mark both passes leave at `level` before interior levels collapse.
pub open spec fn raw_mark(
    keys: Seq<Key>,
    key: Key,
    key_level: int,
    index: int,
    level: int,
) -> SiblingLocation {
    let a = above_mark(keys, key, key_level, index, level);
    let b = below_mark(keys, key, key_level, index, level);
    if a && b {
        SiblingLocation::AboveAndBelow
    } else if a {
        SiblingLocation::Above
    } else if b {
        SiblingLocation::Below
    } else {
        SiblingLocation::NotFound
    }
}

/// The mark both passes leave at levels the entry occupies, and `NotFound`
/// beyond them.
pub open spec fn raw_mark_or_none(
    keys: Seq<Key>,
    key: Key,
    key_level: int,
    index: int,
    level: int,
) -> SiblingLocation {
    if 1 <= level <= key_level {
        raw_mark(keys, key, key_level, index, level)
    } else {
        SiblingLocation::NotFound
    }
}

/// The final mark at `level`: levels above the entry's own hold nothing, and
/// an interior level keeps its mark only when siblings were seen on both
/// sides, except for the sole root-level row at the very end of the
/// snapshot.
///
/// The collapse deliberately runs over every level below the entry's own,
/// level 1 included: the exception sentence for the sole root-level row
/// presupposes that level 1 is in its range, so the narrower reading
/// (strictly between 1 and the entry's level) would make that exception
/// meaningless.
pub open spec fn final_mark(
    keys: Seq<Key>,
    key: Key,
    key_level: int,
    index: int,
    level: int,
) -> SiblingLocation {
    if 1 <= level <= key_level {
        let raw = raw_mark(keys, key, key_level, index, level);
        if level < key_level && !(key_level == 1 && index + 1 == keys.len()) {
            if raw is AboveAndBelow {
                SiblingLocation::AboveAndBelow
            } else {
                SiblingLocation::NotFound
            }
        } else {
            raw
        }
    } else {
        SiblingLocation::NotFound
    }
}

/// Merge the sighting `v` into the mark of `adj` at `level`.
fn merge_at(adj: &mut Adjacency, level: Level, v: SiblingLocation)
    requires
        1 <= level <= 4,
    ensures
        *final(adj) == old(adj).spec_with(
            level as int,
            SiblingLocation::spec_merge(old(adj).spec_at(level as int), v),
        ),
{
    match level {
        1 => adj.0.merge(v),
        2 => adj.1.merge(v),
        3 => adj.2.merge(v),
        _ => adj.3.merge(v),
    }
}

/// Scan backward from just before `cursor` for the nearest row that stops
/// the sibling search for `level`, without leaving the run of rows that
/// share `key`'s ancestry through `level - 1`.
fn search_up(
    sorted: &[(Key, Value)],
    key: &Key,
    key_level: Level,
    level: Level,
    cursor: usize,
) -> (r: Option<usize>)
    requires
        cursor <= sorted@.len(),
        forall|i: int| 0 <= i < sorted@.len() ==> (#[trigger] sorted@[i].0).wf(),
        1 <= level,
    ensures
        match r {
            Some(j) => j < cursor && find_above_from(
                keys_of(sorted@),
                *key,
                key_level as int,
                level as int,
                cursor as int - 1,
            ) == Some(j as int),
            None => find_above_from(
                keys_of(sorted@),
                *key,
                key_level as int,
                level as int,
                cursor as int - 1,
            ) is None,
        },
{
    let ghost keys = keys_of(sorted@);
    let mut i = cursor;
    while i > 0
        invariant
            i <= cursor <= sorted@.len(),
            keys == keys_of(sorted@),
            forall|k: int| 0 <= k < sorted@.len() ==> (#[trigger] sorted@[k].0).wf(),
            1 <= level,
            find_above_from(keys, *key, key_level as int, level as int, cursor as int - 1)
                == find_above_from(keys, *key, key_level as int, level as int, i as int - 1),
        decreases i,
    {
        let j = i - 1;
        proof {
            assert(keys[j as int] == sorted@[j as int].0);
        }
        let other = &sorted[j].0;
        if !key.shares_parent_with(other, level - 1) {
            return None;
        }
        let other_level = other.level();
        let stop = if level == key_level {
            other_level == key_level || other_level + 1 == key_level
        } else {
            other_level == level
        };
        if stop {
            return Some(j);
        }
        i = j;
    }
    None
}

/// Scan forward from just after `cursor` for the nearest row that stops the
/// sibling search for `level`, without leaving the run of rows that share
/// `key`'s ancestry through `level - 1`.
fn search_down(
    sorted: &[(Key, Value)],
    key: &Key,
    key_level: Level,
    level: Level,
    cursor: usize,
) -> (r: Option<usize>)
    requires
        cursor < sorted@.len(),
        forall|i: int| 0 <= i < sorted@.len() ==> (#[trigger] sorted@[i].0).wf(),
        1 <= level,
    ensures
        match r {
            Some(j) => cursor < j < sorted@.len() && find_below_from(
                keys_of(sorted@),
                *key,
                key_level as int,
                level as int,
                cursor as int + 1,
            ) == Some(j as int),
            None => find_below_from(
                keys_of(sorted@),
                *key,
                key_level as int,
                level as int,
                cursor as int + 1,
            ) is None,
        },
{
    let ghost keys = keys_of(sorted@);
    let n = sorted.len();
    let mut i = cursor + 1;
    while i < n
        invariant
            cursor as int + 1 <= i as int,
            i <= n == sorted@.len(),
            keys == keys_of(sorted@),
            forall|k: int| 0 <= k < sorted@.len() ==> (#[trigger] sorted@[k].0).wf(),
            1 <= level,
            find_below_from(keys, *key, key_level as int, level as int, cursor as int + 1)
                == find_below_from(keys, *key, key_level as int, level as int, i as int),
        decreases sorted@.len() - i,
    {
        proof {
            assert(keys[i as int] == sorted@[i as int].0);
        }
        let other = &sorted[i].0;
        if !key.shares_parent_with(other, level - 1) {
            return None;
        }
        let other_level = other.level();
        let stop = if level == key_level {
            other_level == key_level || other_level + 1 == key_level
        } else {
            other_level == level
        };
        if stop {
            return Some(i);
        }
        i = i + 1;
    }
    None
}

/// The adjacency record of the row at `index`: all four final marks, or no
/// marks at all for a root-level group.
pub open spec fn spec_adjacency(keys: Seq<Key>, index: int) -> Adjacency {
    let key = keys[index];
    let key_level = key.spec_level();
    if key_level == 0 {
        Adjacency(
            SiblingLocation::NotFound,
            SiblingLocation::NotFound,
            SiblingLocation::NotFound,
            SiblingLocation::NotFound,
        )
    } else {
        Adjacency(
            final_mark(keys, key, key_level, index, 1),
            final_mark(keys, key, key_level, index, 2),
            final_mark(keys, key, key_level, index, 3),
            final_mark(keys, key, key_level, index, 4),
        )
    }
}

/// Identifier of a child among the children of one parent.
pub type Id = u16;

/// Determines if a sibling is above or below in the given level of
/// hierarchy.
#[derive(Copy, Clone, Debug, PartialEq, Eq, PartialOrd, Ord, Structural)]
pub enum SiblingLocation {
    Above,
    Below,
    AboveAndBelow,
    NotFound,
}

impl SiblingLocation {
    /// Combining marks: `NotFound` is the identity, `Above` and `Below`
    /// together make `AboveAndBelow`, which absorbs everything.
    pub open spec fn spec_merge(a: SiblingLocation, b: SiblingLocation) -> SiblingLocation {
        match (a, b) {
            (any, SiblingLocation::NotFound) => any,
            (SiblingLocation::NotFound, any) => any,
            (SiblingLocation::Above, SiblingLocation::Below) => SiblingLocation::AboveAndBelow,
            (SiblingLocation::Below, SiblingLocation::Above) => SiblingLocation::AboveAndBelow,
            (SiblingLocation::AboveAndBelow, _) => SiblingLocation::AboveAndBelow,
            (_, SiblingLocation::AboveAndBelow) => SiblingLocation::AboveAndBelow,
            (SiblingLocation::Above, SiblingLocation::Above) => SiblingLocation::Above,
            (SiblingLocation::Below, SiblingLocation::Below) => SiblingLocation::Below,
        }
    }

    /// Merge the sighting `other` into this mark.
    pub fn merge(&mut self, other: SiblingLocation)
        ensures
            *final(self) == Self::spec_merge(*old(self), other),
    {
        *self = match (*self, other) {
            (any, SiblingLocation::NotFound) => any,
            (SiblingLocation::NotFound, any) => any,
            (SiblingLocation::Above, SiblingLocation::Below) => SiblingLocation::AboveAndBelow,
            (SiblingLocation::Below, SiblingLocation::Above) => SiblingLocation::AboveAndBelow,
            (SiblingLocation::AboveAndBelow, _) => SiblingLocation::AboveAndBelow,
            (_, SiblingLocation::AboveAndBelow) => SiblingLocation::AboveAndBelow,
            (SiblingLocation::Above, SiblingLocation::Above) => SiblingLocation::Above,
            (SiblingLocation::Below, SiblingLocation::Below) => SiblingLocation::Below,
        };
    }
}

impl Default for SiblingLocation {
    /// A fresh mark records no sighting at all.
    fn default() -> (r: Self)
        ensures
            r == SiblingLocation::NotFound,
    {
        SiblingLocation::NotFound
    }
}

/// A type providing information about what is above and below tree items,
/// one mark per hierarchy level 1 through 4.
#[derive(Copy, Clone, Debug, PartialEq, Eq, PartialOrd, Ord, Structural)]
pub struct Adjacency(
    pub SiblingLocation,
    pub SiblingLocation,
    pub SiblingLocation,
    pub SiblingLocation,
);

impl Adjacency {
    /// The mark at `level`, for levels 1 through 4.
    pub open spec fn spec_at(self, level: int) -> SiblingLocation {
        if level == 1 {
            self.0
        } else if level == 2 {
            self.1
        } else if level == 3 {
            self.2
        } else {
            self.3
        }
    }

    /// `self` with the mark at `level` replaced by `v`; levels out of 1
    /// through 4 change nothing.
    pub open spec fn spec_with(self, level: int, v: SiblingLocation) -> Adjacency {
        if level == 1 {
            Adjacency(v, self.1, self.2, self.3)
        } else if level == 2 {
            Adjacency(self.0, v, self.2, self.3)
        } else if level == 3 {
            Adjacency(self.0, self.1, v, self.3)
        } else if level == 4 {
            Adjacency(self.0, self.1, self.2, v)
        } else {
            self
        }
    }

    /// The count of populated levels before the first `NotFound`, scanning
    /// up from level 1.
    pub open spec fn spec_level(self) -> int {
        if self.0 is NotFound {
            0
        } else if self.1 is NotFound {
            1
        } else if self.2 is NotFound {
            2
        } else if self.3 is NotFound {
            3
        } else {
            4
        }
    }

    /// How deep this adjacency record reaches: the populated levels before
    /// the first `NotFound`, scanning up from level 1.
    pub fn level(&self) -> (r: Level)
        ensures
            r as int == self.spec_level(),
    {
        match self {
            Adjacency(SiblingLocation::NotFound, _b, _c, _d) => 0,
            Adjacency(_a, SiblingLocation::NotFound, _c, _d) => 1,
            Adjacency(_a, _b, SiblingLocation::NotFound, _d) => 2,
            Adjacency(_a, _b, _c, SiblingLocation::NotFound) => 3,
            Adjacency(_a, _b, _c, _d) => 4,
        }
    }

    /// The mark at `level`, for levels 1 through 4.
    pub fn get(&self, level: Level) -> (r: Option<&SiblingLocation>)
        ensures
            match r {
                Some(v) => 1 <= level <= 4 && *v == self.spec_at(level as int),
                None => !(1 <= level <= 4),
            },
    {
        Some(
            match level {
                1 => &self.0,
                2 => &self.1,
                3 => &self.2,
                4 => &self.3,
                _ => { return None },
            },
        )
    }

    /// A mutable borrow of the mark at `level`, for levels 1 through 4.
    pub fn get_mut(&mut self, level: Level) -> (r: Option<&mut SiblingLocation>)
        ensures
            match r {
                Some(v) => 1 <= level <= 4 && *v == old(self).spec_at(level as int) && *final(self)
                    == old(self).spec_with(level as int, *final(v)),
                None => !(1 <= level <= 4) && *final(self) == *old(self),
            },
    {
        Some(
            match level {
                1 => &mut self.0,
                2 => &mut self.1,
                3 => &mut self.2,
                4 => &mut self.3,
                _ => { return None },
            },
        )
    }
}

/// Every well-formed key sits on a level between 0 and 4, and shares its own
/// ancestry with itself through its full depth.
pub proof fn lemma_key_level_and_self_sharing(k: Key)
    requires
        k.wf(),
    ensures
        0 <= k.spec_level() <= 4,
        k.spec_shares_parent_with(k, k.spec_level()),
{
    assert forall|l: int| 1 <= l <= k.spec_level() implies #[trigger] k.spec_slot(l) is Some
        && k.spec_slot(l) == k.spec_slot(l) by {}
}

/// Adding a child below the maximum depth populates exactly one more slot
/// and keeps every existing component.
pub proof fn lemma_add_child_grows(k: Key, id: Id)
    requires
        k.wf(),
        k.spec_level() < 4,
    ensures
        k.spec_add_child(id).wf(),
        k.spec_add_child(id).spec_level() == k.spec_level() + 1,
        forall|l: int|
            1 <= l <= k.spec_level() ==> #[trigger] k.spec_add_child(id).spec_slot(l)
                == k.spec_slot(l),
        k.spec_add_child(id).spec_slot(k.spec_level() + 1) == Some(id),
{
}

/// Adding a child to a key at the maximum depth re-parents instead of
/// growing: the result is again a depth-4 key that keeps the first three
/// path components and holds the new identifier in the last slot.
pub proof fn lemma_add_child_at_max_depth(k: Key, id: Id)
    requires
        k.wf(),
        k.spec_level() == 4,
    ensures
        k.spec_add_child(id).wf(),
        k.spec_add_child(id).spec_level() == 4,
        forall|l: int|
            1 <= l <= 3 ==> #[trigger] k.spec_add_child(id).spec_slot(l) == k.spec_slot(l),
        k.spec_add_child(id).spec_slot(4) == Some(id),
{
}

/// After the collapse, an interior level of an adjacency record never keeps
/// a one-sided mark: it is either `AboveAndBelow` or `NotFound`. The
/// documented exception for the sole root-level row at the snapshot's end
/// cannot fire here, since a root-level row has no interior levels.
pub proof fn lemma_interior_collapse(keys: Seq<Key>, index: int, level: int)
    requires
        0 <= index < keys.len(),
        1 <= level < keys[index].spec_level(),
    ensures
        spec_adjacency(keys, index).spec_at(level) == SiblingLocation::AboveAndBelow
            || spec_adjacency(keys, index).spec_at(level) == SiblingLocation::NotFound,
{
}

impl Default for Adjacency {
    /// A fresh record holds no sighting on any level.
    fn default() -> (r: Self)
        ensures
            r == Adjacency(
                SiblingLocation::NotFound,
                SiblingLocation::NotFound,
                SiblingLocation::NotFound,
                SiblingLocation::NotFound,
            ),
    {
        Adjacency(
            SiblingLocation::NotFound,
            SiblingLocation::NotFound,
            SiblingLocation::NotFound,
            SiblingLocation::NotFound,
        )
    }
}

/// A level in the hierarchy of key components.
pub type Level = u8;

/// A type identifying a spot in the hierarchy of tree items.
///
/// At most four identifiers are populated, always as a prefix: a populated
/// slot implies that every earlier slot is populated too.
#[derive(Copy, Clone, Debug, Default, Hash, PartialEq, Eq, PartialOrd, Ord)]
pub struct Key(pub Option<Id>, pub Option<Id>, pub Option<Id>, pub Option<Id>);

impl Key {
    /// The identifier stored at `level`, or `None` past the populated prefix
    /// or for a level this key cannot hold.
    pub open spec fn spec_slot(self, level: int) -> Option<Id> {
        if level == 1 {
            self.0
        } else if level == 2 {
            self.1
        } else if level == 3 {
            self.2
        } else if level == 4 {
            self.3
        } else {
            None
        }
    }

    /// Populated slots form a gap-free prefix.
    pub open spec fn wf(self) -> bool {
        &&& (self.1 is Some ==> self.0 is Some)
        &&& (self.2 is Some ==> self.1 is Some)
        &&& (self.3 is Some ==> self.2 is Some)
    }

    /// The number of populated slots.
    pub open spec fn spec_level(self) -> int {
        if self.3 is Some {
            4
        } else if self.2 is Some {
            3
        } else if self.1 is Some {
            2
        } else if self.0 is Some {
            1
        } else {
            0
        }
    }

    /// The key of a child registered under `self`: one more populated slot,
    /// except at the maximum depth, where the last slot is reused and the
    /// child is silently re-parented onto the same level-4 parent.
    pub open spec fn spec_add_child(self, child_id: Id) -> Key {
        if self.0 is None {
            Key(Some(child_id), None, None, None)
        } else if self.1 is None {
            Key(self.0, Some(child_id), None, None)
        } else if self.2 is None {
            Key(self.0, self.1, Some(child_id), None)
        } else {
            Key(self.0, self.1, self.2, Some(child_id))
        }
    }

    /// Append `child_id` as one more path component; at maximum depth the
    /// last slot is overwritten instead, capping the hierarchy by design.
    pub fn add_child(self, child_id: Id) -> (r: Key)
        requires
            self.wf(),
        ensures
            r == self.spec_add_child(child_id),
    {
        match self {
            Key(None, None, None, None) => Key(Some(child_id), None, None, None),
            Key(a, None, None, None) => Key(a, Some(child_id), None, None),
            Key(a, b, None, None) => Key(a, b, Some(child_id), None),
            Key(a, b, c, None) => Key(a, b, c, Some(child_id)),
            Key(a, b, c, _d) => Key(a, b, c, Some(child_id)),
        }
    }

    /// The level of hierarchy a node is placed in, i.e. the amount of path
    /// components.
    pub fn level(&self) -> (r: Level)
        requires
            self.wf(),
        ensures
            r as int == self.spec_level(),
            0 <= r <= 4,
    {
        match self {
            Key(None, None, None, None) => 0,
            Key(Some(_), None, None, None) => 1,
            Key(Some(_), Some(_), None, None) => 2,
            Key(Some(_), Some(_), Some(_), None) => 3,
            _ => 4,
        }
    }

    /// The identifier at `level`, if that level is populated.
    pub fn get(&self, level: Level) -> (r: Option<&Id>)
        ensures
            match r {
                Some(id) => self.spec_slot(level as int) == Some(*id),
                None => self.spec_slot(level as int) is None,
            },
    {
        match level {
            1 => self.0.as_ref(),
            2 => self.1.as_ref(),
            3 => self.2.as_ref(),
            4 => self.3.as_ref(),
            _ => None,
        }
    }

    /// Both keys hold the same populated identifiers on every level
    /// `1..=parent_level`; level 0 places no constraint at all.
    pub open spec fn spec_shares_parent_with(self, other: Key, parent_level: int) -> bool {
        forall|l: int|
            1 <= l <= parent_level ==> #[trigger] self.spec_slot(l) is Some && self.spec_slot(l)
                == other.spec_slot(l)
    }

    /// True iff `self` and `other` sit under one ancestor chain through
    /// `parent_level`; `parent_level == 0` is trivially true for any pair.
    pub fn shares_parent_with(&self, other: &Key, parent_level: Level) -> (r: bool)
        ensures
            r == self.spec_shares_parent_with(*other, parent_level as int),
    {
        if parent_level < 1 {
            return true;
        }
        let mut level: Level = 1;
        while level <= parent_level
            invariant
                1 <= level <= parent_level as int + 1,
                forall|l: int|
                    1 <= l < level ==> #[trigger] self.spec_slot(l) is Some && self.spec_slot(l)
                        == other.spec_slot(l),
            decreases parent_level as int + 1 - level,
        {
            let ok = match (self.get(level), other.get(level)) {
                (Some(lhs), Some(rhs)) => *lhs == *rhs,
                _ => false,
            };
            if !ok {
                return false;
            }
            level = level + 1;
        }
        true
    }

    /// Compute the adjacency map for the key in `sorted` at the given
    /// `index`.
    ///
    /// It is vital that the invariant of `sorted` to actually be sorted by
    /// key is upheld for the result to be reliable: the marks are computed
    /// from the rows as given, whatever their order.
    pub fn adjacency(sorted: &[(Key, Value)], index: usize) -> (r: Adjacency)
        requires
            index < sorted@.len(),
            forall|i: int| 0 <= i < sorted@.len() ==> (#[trigger] sorted@[i].0).wf(),
        ensures
            r == spec_adjacency(keys_of(sorted@), index as int),
    {
        let ghost keys = keys_of(sorted@);
        proof {
            assert(keys[index as int] == sorted@[index as int].0);
        }
        let key = sorted[index].0;
        let key_level = key.level();
        let mut adj = Adjacency::default();
        if key_level == 0 {
            return adj;
        }
        {
            let mut cursor = index;
            let mut level = key_level;
            while level >= 1
                invariant
                    0 <= level <= key_level,
                    1 <= key_level <= 4,
                    key_level as int == key.spec_level(),
                    keys == keys_of(sorted@),
                    index < sorted@.len(),
                    cursor <= index,
                    forall|i: int| 0 <= i < sorted@.len() ==> (#[trigger] sorted@[i].0).wf(),
                    level >= 1 ==> cursor == up_cursor(
                        keys,
                        key,
                        key_level as int,
                        index as int,
                        level as int,
                    ),
                    forall|l: int|
                        1 <= l <= 4 ==> #[trigger] adj.spec_at(l) == (if level < l
                            <= key_level as int && above_mark(
                            keys,
                            key,
                            key_level as int,
                            index as int,
                            l,
                        ) {
                            SiblingLocation::Above
                        } else {
                            SiblingLocation::NotFound
                        }),
                decreases level,
            {
                if level == 1 {
                    merge_at(&mut adj, 1, SiblingLocation::Above);
                    level = 0;
                } else {
                    match search_up(sorted, &key, key_level, level, cursor) {
                        Some(j) => {
                            cursor = j;
                            merge_at(&mut adj, level, SiblingLocation::Above);
                        },
                        None => {},
                    }
                    level = level - 1;
                }
            }
        }
        {
            let mut cursor = index;
            let mut level = key_level;
            while level >= 1
                invariant
                    0 <= level <= key_level,
                    1 <= key_level <= 4,
                    key_level as int == key.spec_level(),
                    keys == keys_of(sorted@),
                    index < sorted@.len(),
                    index <= cursor < sorted@.len(),
                    forall|i: int| 0 <= i < sorted@.len() ==> (#[trigger] sorted@[i].0).wf(),
                    level >= 1 ==> cursor == down_cursor(
                        keys,
                        key,
                        key_level as int,
                        index as int,
                        level as int,
                    ),
                    forall|l: int|
                        1 <= l <= 4 ==> #[trigger] adj.spec_at(l) == ({
                            let a = 1 <= l <= key_level as int && above_mark(
                                keys,
                                key,
                                key_level as int,
                                index as int,
                                l,
                            );
                            let b = level < l <= key_level as int && below_mark(
                                keys,
                                key,
                                key_level as int,
                                index as int,
                                l,
                            );
                            if a && b {
                                SiblingLocation::AboveAndBelow
                            } else if a {
                                SiblingLocation::Above
                            } else if b {
                                SiblingLocation::Below
                            } else {
                                SiblingLocation::NotFound
                            }
                        }),
                decreases level,
            {
                match search_down(sorted, &key, key_level, level, cursor) {
                    Some(j) => {
                        cursor = j;
                        merge_at(&mut adj, level, SiblingLocation::Below);
                    },
                    None => {},
                }
                level = level - 1;
            }
        }
        {
            let mut level: Level = 1;
            while level < key_level
                invariant
                    1 <= level <= key_level <= 4,
                    key_level as int == key.spec_level(),
                    keys == keys_of(sorted@),
                    index < sorted@.len(),
                    forall|l: int|
                        1 <= l <= 4 ==> #[trigger] adj.spec_at(l) == (if l < level as int {
                            final_mark(keys, key, key_level as int, index as int, l)
                        } else {
                            raw_mark_or_none(keys, key, key_level as int, index as int, l)
                        }),
                decreases key_level - level,
            {
                if key_level == 1 && index + 1 == sorted.len() {
                    // the sole root-level row at the end of the snapshot
                    // keeps its marks (documented special case; it cannot
                    // fire, since a root-level row has no interior levels)
                    level = level + 1;
                } else {
                    let ghost prev = adj;
                    if let Some(m) = adj.get_mut(level) {
                        *m = match *m {
                            SiblingLocation::AboveAndBelow => SiblingLocation::AboveAndBelow,
                            _ => SiblingLocation::NotFound,
                        };
                    }
                    proof {
                        let kl = key_level as int;
                        let idx = index as int;
                        assert(keys.len() == sorted@.len());
                        assert forall|l: int| 1 <= l <= 4 implies adj.spec_at(l) == (if l < level
                            as int + 1 {
                            final_mark(keys, key, kl, idx, l)
                        } else {
                            raw_mark_or_none(keys, key, kl, idx, l)
                        }) by {
                            if l == level as int {
                                assert(prev.spec_at(l) == raw_mark(keys, key, kl, idx, l));
                                assert(adj.spec_at(l) == final_mark(keys, key, kl, idx, l));
                            } else {
                                assert(adj.spec_at(l) == prev.spec_at(l));
                            }
                        }
                    }
                    level = level + 1;
                }
            }
        }
        proof {
            let kl = key_level as int;
            let idx = index as int;
            assert(keys[idx] == sorted@[idx].0);
            assert forall|l: int| 1 <= l <= 4 implies adj.spec_at(l) == final_mark(
                keys,
                key,
                kl,
                idx,
                l,
            ) by {
                if l >= kl {
                    assert(adj.spec_at(l) == raw_mark_or_none(keys, key, kl, idx, l));
                }
            }
            assert(adj.0 == adj.spec_at(1));
            assert(adj.1 == adj.spec_at(2));
            assert(adj.2 == adj.spec_at(3));
            assert(adj.3 == adj.spec_at(4));
            assert(adj == spec_adjacency(keys, idx));
        }
        adj
    }

    /// The maximum amount of path components we can represent.
    pub fn max_level() -> (r: Level)
        ensures
            r == 4,
    {
        4
    }
}

} // verus!
