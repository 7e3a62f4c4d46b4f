//! Clocks, colours, identities and the grouping of layout work.

use gource::history::IndexedHistory;
use gource::id_map::IdMap;
use gource::ingest::parse_bytes;
use gource::layout_groups::{
    group_split, layout_order, pair_work_for_len, partition_layout_groups, total_pair_work,
    LayoutGroup, LayoutNode,
};
use gource::lives::{FileNode, Lives, Paint, WorldDelta, FILE_FADE_TICKS};
use gource::model::{Action, ContributorId, PathId, Rgb8};
use gource::options::IngestOptions;
use gource::palette::{
    action_color, collision_hash, contributor_color, contributor_hash, directory_color,
    directory_hash, file_color, file_hash, layout_identity_key, palette_color, path_hash,
    stable_hash, stable_hash_numbers, DirId, FileId, HierarchyNodeId,
};
use gource::rational::{gcd_i128, RationalTime, ReplayError};
use gource::replay_clock::{
    auto_skip_ticks, checked_mul, split_wall_time, PlaybackClock, NANOS_PER_SECOND,
};
use gource::snapshot_pool::SnapshotBufferPool;
use gource::stable_sort::{arrange, stable_order, SortKey};

fn history(log: &str) -> IndexedHistory {
    parse_bytes(log.as_bytes(), &IngestOptions::default()).expect("history")
}

fn path(value: u32) -> PathId {
    PathId { value }
}

#[test]
fn divisors_and_sums_are_exact() {
    assert_eq!(gcd_i128(84, 36), 12);
    assert_eq!(gcd_i128(0, 5), 5);
    let sum = RationalTime::new(1, 6).checked_add(RationalTime::new(1, 10));
    assert_eq!(sum, Ok(RationalTime::new(4, 15)));
    let product = checked_mul(RationalTime::new(2, 3), RationalTime::new(9, 4));
    assert_eq!(product, Ok(RationalTime::new(3, 2)));
    assert_eq!(RationalTime::new(-1, 2).floor(), -1);
    assert_eq!(RationalTime::new(7, 2).floor(), 3);
    assert_eq!(
        RationalTime::new(i128::MAX, 1).checked_add(RationalTime::new(1, 1)),
        Err(ReplayError::RationalTimeOutOfRange)
    );
}

#[test]
fn clocks_count_ticks_of_repository_time() {
    let mut clock = PlaybackClock::at_start(100, RationalTime::new(2, 1));
    assert_eq!(clock.repository_time, RationalTime::new(100, 1));
    assert_eq!(clock.repository_time_at(0, 120), Ok(RationalTime::new(102, 1)));
    assert_eq!(clock.repository_time_at(0, 1), Ok(RationalTime::new(6001, 60)));
    assert_eq!(clock.ticks_for_repository_time(RationalTime::new(102, 1)), Ok(120));
    assert_eq!(clock.ticks_for_repository_time(RationalTime::new(99, 1)), Ok(0));
    clock.jump_clock_to(RationalTime::new(150, 1)).expect("jump");
    assert_eq!(clock.repository_time, RationalTime::new(150, 1));
    assert_eq!(clock.start_timestamp, 100);
}

#[test]
fn wall_time_splits_into_ticks() {
    assert_eq!(split_wall_time(0, NANOS_PER_SECOND), (120, 0));
    assert_eq!(split_wall_time(0, 8_333_333), (0, 999_999_960));
    assert_eq!(split_wall_time(999_999_960, 1), (1, 80));
    let (first, rest) = split_wall_time(7, 123_456_789);
    let (second, end) = split_wall_time(rest, 987_654_321);
    assert_eq!(split_wall_time(7, 123_456_789 + 987_654_321), (first + second, end));
}

#[test]
fn idle_seconds_round_up_to_ticks() {
    assert_eq!(auto_skip_ticks(RationalTime::new(3, 1)), Some(360));
    assert_eq!(auto_skip_ticks(RationalTime::new(1, 1000)), Some(1));
    assert_eq!(auto_skip_ticks(RationalTime::new(0, 1)), None);
    assert_eq!(auto_skip_ticks(RationalTime::new(-1, 1)), None);
}

#[test]
fn hashes_are_stable() {
    assert_eq!(stable_hash(""), 0xcbf29ce484222325);
    assert_eq!(stable_hash("a"), 0xaf63dc4c8601ec8c);
    assert_eq!(stable_hash("foobar"), 0x85944171f73967e8);
    assert_eq!(stable_hash_numbers(&[1, 2, 3]), 15720935049292226309);
    let parent = DirId { value: 1 };
    let directory = DirId { value: 2 };
    assert_eq!(directory_hash(31, 1, directory, parent, 1), 7624824387935527695);
    assert_eq!(file_hash(31, 1, FileId { value: 3 }, directory, path(1)), 8089287108455105453);
    assert_eq!(contributor_hash(31, 1, ContributorId { value: 1 }), 1861559495727703196);
    assert_eq!(path_hash(31, 1, path(1)), 15359943500362919003);
    assert_eq!(layout_identity_key(HierarchyNodeId::Directory(directory)), 4);
    assert_eq!(layout_identity_key(HierarchyNodeId::File(FileId { value: 3 })), 7);
    assert_eq!(
        collision_hash(
            parent,
            HierarchyNodeId::Directory(directory),
            HierarchyNodeId::File(FileId { value: 3 })
        ),
        stable_hash_numbers(&[0x0C01_115E, 1, 4, 7])
    );
}

#[test]
fn colours_come_from_extensions_and_names() {
    let history = history("0|alice|A|src/a.rs\n0|alice|A|Makefile\n");
    let catalog = history.catalog();
    assert_eq!(file_color(31, 1, catalog, path(1)), Rgb8::new(188, 135, 224));
    assert_eq!(file_color(31, 1, catalog, path(2)), Rgb8::new(236, 170, 54));
    assert_eq!(
        contributor_color(31, 1, catalog, ContributorId { value: 1 }),
        Rgb8::new(112, 207, 228)
    );
    assert_eq!(
        file_color(31, 1, catalog, path(9)),
        palette_color(stable_hash_numbers(&[31, 1, stable_hash("path")]))
    );
    assert_eq!(palette_color(17), Rgb8::new(236, 170, 54));
    assert_eq!(directory_color(), Rgb8::new(119, 139, 164));
    assert_ne!(action_color(Action::Add), action_color(Action::Delete));
}

#[test]
fn sorting_is_stable() {
    let keys: Vec<SortKey> = vec![(2, 0, 0), (1, 5, 0), (2, 0, 0), (1, 4, 9)];
    let places = stable_order(&keys);
    assert_eq!(places, vec![3, 1, 0, 2]);
    assert_eq!(arrange(&vec!['a', 'b', 'c', 'd'], &places), vec!['d', 'b', 'a', 'c']);
}

#[test]
fn maps_keep_their_entries_ordered() {
    let mut map: IdMap<char> = IdMap::new();
    map.set(7, 'b');
    map.set(3, 'a');
    map.set(7, 'c');
    assert_eq!(map.len(), 2);
    assert_eq!(map.entry(0), (3, 'a'));
    assert_eq!(map.entry(1), (7, 'c'));
    assert_eq!(map.get(4), None);
    assert_eq!(map.copy().get(7), Some('c'));
}

fn node(parent: u64, id: HierarchyNodeId) -> LayoutNode {
    LayoutNode {
        parent: DirId { value: parent },
        id,
    }
}

#[test]
fn nodes_are_grouped_by_parent_directories_first() {
    let file = |value: u64| HierarchyNodeId::File(FileId { value });
    let directory = |value: u64| HierarchyNodeId::Directory(DirId { value });
    let nodes = vec![node(2, file(1)), node(1, file(9)), node(1, directory(2)), node(2, file(0))];
    assert_eq!(layout_order(&nodes), vec![2, 1, 3, 0]);

    let parents: Vec<DirId> = [1, 1, 1, 4, 4, 9]
        .iter()
        .map(|value| DirId { value: *value })
        .collect();
    let groups = partition_layout_groups(&parents);
    let ranges: Vec<(usize, usize, u128)> = groups
        .iter()
        .map(|group| (group.start, group.end, group.pair_work))
        .collect();
    assert_eq!(ranges, vec![(0, 3, 3), (3, 5, 1), (5, 6, 0)]);
    assert_eq!(total_pair_work(&groups), 4);
    assert_eq!(pair_work_for_len(0), 0);
    assert_eq!(pair_work_for_len(48), 1128);
    assert_eq!(group_split(&groups, 4), None);
}

#[test]
fn work_is_split_evenly() {
    let group = |start: usize, pair_work: u128| LayoutGroup {
        start,
        end: start + 1,
        pair_work,
    };
    let groups = [group(0, 600), group(1, 700), group(2, 600), group(3, 500)];
    assert_eq!(group_split(&groups, 2400), Some((2, 1300, 1100)));
    assert_eq!(group_split(&groups[..1], 600), None);
}

#[test]
fn pools_are_bounded_and_count_what_they_drop() {
    let mut pool: SnapshotBufferPool<u8> = SnapshotBufferPool::with_capacity(9);
    assert_eq!(pool.capacity(), 3);
    for value in 0..4 {
        pool.publish(value);
    }
    assert_eq!((pool.published(), pool.discarded(), pool.len()), (4, 1, 3));
    assert_eq!(pool.acquire_latest(), Some(3));
    assert_eq!(pool.discarded(), 3);
    assert_eq!(pool.acquire_latest(), None);
}

#[test]
fn files_fade_and_actions_keep_their_file() {
    let history = history("0|alice|A|a.rs\n1|bob|D|a.rs|102030\n");
    let events = history.events();
    let paint = Paint {
        seed: 31,
        algorithm_version: 1,
    };
    let created = FileNode {
        file_id: FileId { value: 5 },
        path_id: path(1),
        parent: DirId { value: 1 },
        alive: true,
        color: None,
    };
    let mut lives = Lives::new();
    let add = WorldDelta {
        deleted_files: Vec::new(),
        created_files: vec![created],
        modified_files: Vec::new(),
        active_file: Some(created.file_id),
    };
    lives.apply_event(&events[0], &add, 0, paint, history.catalog());
    let file = lives.files.get(5).expect("file");
    assert!(file.visible);
    assert_eq!(file.color, file_color(31, 1, history.catalog(), path(1)));
    let delete = WorldDelta {
        deleted_files: vec![created.file_id],
        created_files: Vec::new(),
        modified_files: Vec::new(),
        active_file: None,
    };
    lives.apply_event(&events[1], &delete, 10, paint, history.catalog());
    assert_eq!(lives.actions.len(), 2);
    assert_eq!(lives.actions[1].file_id, Some(created.file_id));
    assert_eq!(lives.actions[1].color, Rgb8::new(0x10, 0x20, 0x30));
    lives.integrate(40, None);
    let file = lives.files.get(5).expect("file");
    assert!(!file.visible);
    assert_eq!(file.fade_remaining, FILE_FADE_TICKS - 30);
    lives.integrate(10 + FILE_FADE_TICKS, None);
    assert_eq!(lives.files.get(5), None);
}

#[test]
fn replay_errors_render() {
    assert_eq!(
        ReplayError::InvalidConfig("tick overflow").render(),
        "invalid replay config: tick overflow"
    );
    assert!(!ReplayError::Cancelled.render().is_empty());
}
