use vstd::prelude::*;

use crate::names::{lemma_name_less_total, name_less, occurs_in};

verus! {

/// What kind of entry a channel is in a guild's channel list.
#[derive(Clone, Copy, Debug, PartialEq, Eq, Structural)]
pub enum ChannelKind {
    Category,
    Regular,
    Other,
}

/// A snapshot of one channel of a guild. Permission overwrites are not held
/// here: they are copied from one category to another by the platform and
/// never read by this logic.
#[derive(Clone, Debug)]
pub struct Channel {
    pub id: u64,
    pub name: String,
    pub kind: ChannelKind,
    pub parent: Option<u64>,
    pub position: i64,
}

impl Channel {
    /// A channel with the given fields.
    pub fn new(id: u64, name: String, kind: ChannelKind, parent: Option<u64>, position: i64) -> (r:
        Channel)
        ensures
            r.id == id,
            r.name@ == name@,
            r.kind == kind,
            r.parent == parent,
            r.position == position,
    {
        Channel { id, name, kind, parent, position }
    }
}

/// A category whose name holds the archive marker.
pub open spec fn is_archive_category(c: Channel, marker: Seq<char>) -> bool {
    c.kind == ChannelKind::Category && occurs_in(marker, c.name@)
}

/// How many archive categories the list holds.
pub open spec fn archive_count(chs: Seq<Channel>, marker: Seq<char>) -> nat
    decreases chs.len(),
{
    if chs.len() == 0 {
        0
    } else {
        archive_count(chs.drop_last(), marker) + if is_archive_category(chs.last(), marker) {
            1nat
        } else {
            0nat
        }
    }
}

/// The channel at index `k` is the current archive destination: an archive
/// category whose name no other archive category's name exceeds, and the
/// last in the list among those with that very name.
pub open spec fn is_destination(chs: Seq<Channel>, marker: Seq<char>, k: int) -> bool {
    &&& 0 <= k < chs.len()
    &&& is_archive_category(chs[k], marker)
    &&& forall|j: int|
        0 <= j < chs.len() && #[trigger] is_archive_category(chs[j], marker) ==> {
            &&& !name_less(chs[k].name@, chs[j].name@)
            &&& (chs[j].name@ == chs[k].name@ ==> j <= k)
        }
}

/// At most one channel of a list is the archive destination: the greatest
/// name among the archive categories, the last of them where names repeat.
pub proof fn lemma_destination_unique(chs: Seq<Channel>, marker: Seq<char>, k1: int, k2: int)
    requires
        is_destination(chs, marker, k1),
        is_destination(chs, marker, k2),
    ensures
        k1 == k2,
{
    lemma_name_less_total(chs[k1].name@, chs[k2].name@);
    assert(is_archive_category(chs[k1], marker));
    assert(is_archive_category(chs[k2], marker));
}

/// How many channels of the list have `id` as their parent.
pub open spec fn child_count(chs: Seq<Channel>, id: u64) -> nat
    decreases chs.len(),
{
    if chs.len() == 0 {
        0
    } else {
        child_count(chs.drop_last(), id) + if chs.last().parent == Some(id) {
            1nat
        } else {
            0nat
        }
    }
}

/// The greatest position among the channels whose parent is `id`, if any.
pub open spec fn highest_child_position(chs: Seq<Channel>, id: u64) -> Option<int>
    decreases chs.len(),
{
    if chs.len() == 0 {
        None
    } else {
        let rest = highest_child_position(chs.drop_last(), id);
        let c = chs.last();
        if c.parent == Some(id) {
            match rest {
                Some(m) => Some(if m < c.position { c.position as int } else { m }),
                None => Some(c.position as int),
            }
        } else {
            rest
        }
    }
}

/// Where a channel goes below children whose highest position is `highest`:
/// one past it, or 2 in a category without children.
pub open spec fn next_position(highest: Option<int>) -> int {
    match highest {
        Some(m) => m + 1,
        None => 2,
    }
}

/// Beyond this many children a category counts as full.
pub const CATEGORY_CAPACITY: usize = 48;

} // verus!
