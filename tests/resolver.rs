use archivist::{
    authorize, compare_names, resolve, ArchiveError, ArchivePlan, AuthStep, Channel, ChannelKind,
    Destination,
};
use std::cmp::Ordering;

const MARKER: &str = "Archived Channels";

fn category(id: u64, name: &str) -> Channel {
    Channel::new(id, name.to_string(), ChannelKind::Category, None, 0)
}

fn child(id: u64, parent: u64, position: i64) -> Channel {
    Channel::new(id, format!("channel-{}", id), ChannelKind::Regular, Some(parent), position)
}

#[test]
fn lexicographic_destination_prefers_two_over_ten() {
    let channels = vec![
        category(1, "Archived Channels"),
        category(2, "Archived Channels 2"),
        category(3, "Archived Channels 10"),
    ];
    let plan = resolve(&channels, MARKER).unwrap();
    assert_eq!(plan.destination, Destination::Existing(2));
}

#[test]
fn destination_ignores_regular_channels_and_other_categories() {
    let channels = vec![
        category(1, "General"),
        Channel::new(2, "Archived Channels 9".to_string(), ChannelKind::Regular, None, 0),
        category(3, "Archived Channels"),
        category(4, "Zebra"),
    ];
    let plan = resolve(&channels, MARKER).unwrap();
    assert_eq!(plan.destination, Destination::Existing(3));
}

#[test]
fn marker_may_stand_inside_a_name() {
    let channels = vec![category(1, "Archived Channels"), category(2, "Old Archived Channels")];
    let plan = resolve(&channels, MARKER).unwrap();
    assert_eq!(plan.destination, Destination::Existing(2));
}

#[test]
fn equal_names_pick_the_last_listed() {
    let channels = vec![
        category(5, "Archived Channels 3"),
        category(6, "Archived Channels 3"),
        category(7, "Archived Channels 1"),
    ];
    let plan = resolve(&channels, MARKER).unwrap();
    assert_eq!(plan.destination, Destination::Existing(6));
}

#[test]
fn full_destination_creates_next_category() {
    let mut channels = vec![
        category(1, "Archived Channels"),
        category(2, "Archived Channels 2"),
        category(3, "Archived Channels 3"),
    ];
    for i in 0..49u64 {
        channels.push(child(100 + i, 3, i as i64));
    }
    let plan = resolve(&channels, MARKER).unwrap();
    assert_eq!(
        plan,
        ArchivePlan {
            destination: Destination::Create {
                name: "Archived Channels 4".to_string(),
                template: 3,
            },
            position: 2,
        }
    );
}

#[test]
fn full_destination_name_counts_past_nine() {
    let mut channels: Vec<Channel> = Vec::new();
    for i in 1..=11u64 {
        channels.push(category(i, &format!("Archived Channels {}", i)));
    }
    // "Archived Channels 9" is the greatest name.
    for i in 0..60u64 {
        channels.push(child(1000 + i, 9, i as i64));
    }
    let plan = resolve(&channels, MARKER).unwrap();
    assert_eq!(
        plan.destination,
        Destination::Create { name: "Archived Channels 12".to_string(), template: 9 }
    );
}

#[test]
fn destination_with_forty_eight_children_is_not_full() {
    let mut channels = vec![category(1, "Archived Channels")];
    for i in 0..48u64 {
        channels.push(child(100 + i, 1, i as i64));
    }
    let plan = resolve(&channels, MARKER).unwrap();
    assert_eq!(plan, ArchivePlan { destination: Destination::Existing(1), position: 48 });
}

#[test]
fn empty_destination_position_is_two() {
    let channels = vec![category(1, "Archived Channels"), child(2, 77, 30)];
    let plan = resolve(&channels, MARKER).unwrap();
    assert_eq!(plan, ArchivePlan { destination: Destination::Existing(1), position: 2 });
}

#[test]
fn position_follows_highest_child() {
    let channels = vec![
        category(1, "Archived Channels"),
        child(10, 1, 3),
        child(11, 1, 7),
        child(12, 1, 5),
        child(13, 2, 40),
    ];
    let plan = resolve(&channels, MARKER).unwrap();
    assert_eq!(plan.position, 8);
}

#[test]
fn position_past_the_largest_i64() {
    let channels = vec![category(1, "Archived Channels"), child(2, 1, i64::MAX)];
    let plan = resolve(&channels, MARKER).unwrap();
    assert_eq!(plan.position, i64::MAX as i128 + 1);
}

#[test]
fn no_archive_category_is_an_error() {
    let channels = vec![category(1, "General"), child(2, 1, 0)];
    assert_eq!(resolve(&channels, MARKER), Err(ArchiveError::NoArchiveCategory));
}

#[test]
fn empty_channel_list_is_an_error() {
    assert_eq!(resolve(&Vec::new(), MARKER), Err(ArchiveError::NoArchiveCategory));
}

#[test]
fn names_compare_as_strings() {
    let a = "Archived Channels 10".to_string();
    let b = "Archived Channels 2".to_string();
    assert_eq!(compare_names(&a, &b), Ordering::Less);
    assert_eq!(compare_names(&b, &a), Ordering::Greater);
    assert_eq!(compare_names(&a, &a.clone()), Ordering::Equal);
    assert_eq!(compare_names(&"ab".to_string(), &"abc".to_string()), Ordering::Less);
    assert_eq!(compare_names(&"é".to_string(), &"z".to_string()), Ordering::Greater);
}

#[test]
fn owner_is_granted_without_roles() {
    assert_eq!(authorize(7, 7, None), AuthStep::Granted);
    assert_eq!(authorize(7, 7, Some(false)), AuthStep::Granted);
}

#[test]
fn archivist_who_is_not_owner_is_granted() {
    assert_eq!(authorize(8, 7, None), AuthStep::AskRole);
    assert_eq!(authorize(8, 7, Some(true)), AuthStep::Granted);
}

#[test]
fn other_actor_is_declined() {
    assert_eq!(authorize(8, 7, Some(false)), AuthStep::Declined);
}
