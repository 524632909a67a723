use vstd::prelude::*;

use itertools::Itertools;

use crate::channel::{
    archive_count, child_count, highest_child_position, is_archive_category, is_destination,
    next_position, Channel, ChannelKind, CATEGORY_CAPACITY,
};
use crate::names::{compare_names, contains_str, decimal, name_less, numbered_name};

verus! {

/// Where the archived channel goes.
#[derive(Clone, Debug, PartialEq, Eq)]
pub enum Destination {
    /// An archive category that already exists.
    Existing(u64),
    /// A category to create first, under `name`, with the permission
    /// overwrites of the category `template`.
    Create { name: String, template: u64 },
}

/// The outcome of resolving an archive request: the destination and the
/// position that the channel takes in it.
#[derive(Clone, Debug, PartialEq, Eq)]
pub struct ArchivePlan {
    pub destination: Destination,
    pub position: i128,
}

/// Why no plan could be made.
#[derive(Clone, Copy, Debug, PartialEq, Eq, Structural)]
pub enum ArchiveError {
    /// The guild has no category whose name holds the archive marker.
    NoArchiveCategory,
}

/// The plan that the destination at index `k` calls for.
pub open spec fn is_plan_for(chs: Seq<Channel>, marker: Seq<char>, k: int, plan: ArchivePlan) -> bool {
    let dest = chs[k];
    if child_count(chs, dest.id) > CATEGORY_CAPACITY {
        &&& plan.destination matches Destination::Create { name, template }
        &&& name@ == marker + seq![' '] + decimal(archive_count(chs, marker) + 1)
        &&& template == dest.id
        &&& plan.position == next_position(None)
    } else {
        &&& plan.destination == Destination::Existing(dest.id)
        &&& plan.position == next_position(highest_child_position(chs, dest.id))
    }
}

/// Relies on `Itertools::sorted_by`, a stable `slice::sort_by`: the same items,
/// in the order of `compare_names` on the channel names, with items of equal
/// names kept in their input order (here: by increasing first component).
#[verifier::external_body]
fn sort_by_name<'a>(items: Vec<(usize, &'a Channel)>) -> (r: Vec<(usize, &'a Channel)>)
    requires
        forall|i: int, j: int| 0 <= i < j < items@.len() ==> items@[i].0 < items@[j].0,
    ensures
        r@.to_multiset() == items@.to_multiset(),
        forall|i: int, j: int|
            0 <= i < j < r@.len() ==> !name_less(r@[j].1.name@, r@[i].1.name@),
        forall|i: int, j: int|
            0 <= i < j < r@.len() && r@[i].1.name@ == r@[j].1.name@ ==> r@[i].0 < r@[j].0,
{
    items.into_iter().sorted_by(|a, b| compare_names(&a.1.name, &b.1.name)).collect()
}

/// Picks the archive destination for a channel of a guild whose channels are
/// `channels`, and the position that the channel takes there.
///
/// The destination is the archive category (a category whose name holds
/// `marker`) with the greatest name in plain string order. When it has more
/// than `CATEGORY_CAPACITY` children, a new category named after the marker
/// and the number of archive categories plus one is to be created in its
/// stead. The position is one past the highest child position, or 2 where the
/// destination has no children.
pub fn resolve(channels: &Vec<Channel>, marker: &str) -> (r: Result<ArchivePlan, ArchiveError>)
    ensures
        r is Err <==> archive_count(channels@, marker@) == 0,
        r matches Err(e) ==> e == ArchiveError::NoArchiveCategory,
        r matches Ok(plan) ==> exists|k: int|
            is_destination(channels@, marker@, k) && is_plan_for(channels@, marker@, k, plan),
{
    let mut candidates: Vec<(usize, &Channel)> = Vec::new();
    let mut i: usize = 0;
    while i < channels.len()
        invariant
            i <= channels@.len(),
            candidates@.len() == archive_count(channels@.take(i as int), marker@),
            candidates@.len() <= i,
            forall|m: int|
                0 <= m < candidates@.len() ==> {
                    &&& (#[trigger] candidates@[m]).0 < i
                    &&& candidates@[m].1 == channels@[candidates@[m].0 as int]
                    &&& is_archive_category(channels@[candidates@[m].0 as int], marker@)
                },
            forall|m1: int, m2: int|
                0 <= m1 < m2 < candidates@.len() ==> candidates@[m1].0 < candidates@[m2].0,
            forall|j: int|
                0 <= j < i && #[trigger] is_archive_category(channels@[j], marker@) ==> exists|
                    m: int,
                | 0 <= m < candidates@.len() && (#[trigger] candidates@[m]).0 == j,
        decreases channels@.len() - i,
    {
        let c = &channels[i];
        assert(channels@.take(i + 1).drop_last() =~= channels@.take(i as int));
        let ghost before = candidates@;
        if c.kind == ChannelKind::Category && contains_str(c.name.as_str(), marker) {
            candidates.push((i, c));
            assert(candidates@[candidates@.len() - 1].0 == i);
        }
        assert(forall|m: int| 0 <= m < before.len() ==> candidates@[m] == before[m]);
        i = i + 1;
    }
    assert(channels@.take(i as int) =~= channels@);
    if candidates.len() == 0 {
        return Err(ArchiveError::NoArchiveCategory);
    }
    let n_candidates = candidates.len();
    let ghost cands = candidates@;
    let sorted = sort_by_name(candidates);
    proof {
        sorted@.to_multiset_ensures();
        cands.to_multiset_ensures();
    }
    let (k, dest) = sorted[sorted.len() - 1];
    proof {
        let last = sorted@.len() - 1;
        assert(sorted@.to_multiset().count(sorted@[last]) > 0);
        assert(cands.to_multiset().count(sorted@[last]) > 0);
        assert(cands.contains(sorted@[last]));
        let m0 = choose|m: int| 0 <= m < cands.len() && cands[m] == sorted@[last];
        assert(cands[m0].1 == channels@[cands[m0].0 as int]);
        assert forall|j: int|
            0 <= j < channels@.len() && #[trigger] is_archive_category(
                channels@[j],
                marker@,
            ) implies {
            &&& !name_less(channels@[k as int].name@, channels@[j].name@)
            &&& (channels@[j].name@ == channels@[k as int].name@ ==> j <= k)
        } by {
            let m = choose|m: int| 0 <= m < cands.len() && (#[trigger] cands[m]).0 == j;
            assert(cands.contains(cands[m]));
            assert(cands.to_multiset().count(cands[m]) > 0);
            assert(sorted@.to_multiset().count(cands[m]) > 0);
            assert(sorted@.contains(cands[m]));
            let p = choose|p: int| 0 <= p < sorted@.len() && sorted@[p] == cands[m];
            crate::names::lemma_name_less_irreflexive(channels@[j].name@);
        }
    }
    assert(dest == channels@[k as int]);
    assert(is_destination(channels@, marker@, k as int));
    let mut count: usize = 0;
    let mut highest: Option<i64> = None;
    let mut i: usize = 0;
    while i < channels.len()
        invariant
            i <= channels@.len(),
            count == child_count(channels@.take(i as int), dest.id),
            count <= i,
            highest matches Some(h) ==> highest_child_position(channels@.take(i as int), dest.id)
                == Some(h as int),
            highest is None ==> highest_child_position(channels@.take(i as int), dest.id) is None,
        decreases channels@.len() - i,
    {
        let c = &channels[i];
        assert(channels@.take(i + 1).drop_last() =~= channels@.take(i as int));
        if c.parent == Some(dest.id) {
            count = count + 1;
            highest = match highest {
                Some(h) => Some(if h < c.position { c.position } else { h }),
                None => Some(c.position),
            };
        }
        i = i + 1;
    }
    assert(channels@.take(i as int) =~= channels@);
    if count > CATEGORY_CAPACITY {
        let name = numbered_name(marker, n_candidates as u128 + 1);
        Ok(ArchivePlan { destination: Destination::Create { name, template: dest.id }, position: 2 })
    } else {
        let position: i128 = match highest {
            Some(h) => h as i128 + 1,
            None => 2,
        };
        Ok(ArchivePlan { destination: Destination::Existing(dest.id), position })
    }
}

} // verus!
