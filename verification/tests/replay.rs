//! Replaying a history, against a small world of files.

use std::collections::{BTreeMap, BTreeSet};

use gource::history::IndexedHistory;
use gource::ingest::parse_bytes;
use gource::lives::{
    FileNode, WorldDelta, ACTION_LIFETIME_TICKS, ACTION_TRAVEL_TICKS, FILE_FADE_TICKS,
};
use gource::model::{Action, Event, Rgb8};
use gource::options::IngestOptions;
use gource::palette::{action_color, DirId, FileId, HierarchyNodeId};
use gource::rational::{RationalTime, ReplayError};
use gource::replay::{
    ExecutionMode, PumpResult, ReplaySession, ReplayTiming, ThreadCount, WorkBudget,
    MAX_CHECKPOINTS,
};
use gource::replay_clock::{auto_skip_ticks, SIMULATION_HZ};
use gource::replay_identity::{replay_identity, CameraMode, ReplayConfig, ReplayLimits};
use gource::replay_run::{ReplayRun, RunStep};
use gource::scene::{DirectoryNode, SceneSnapshot, WorldTree};
use gource::snapshot_pool::SnapshotBufferPool;

const ROOT: DirId = DirId { value: 1 };

/// The files of a repository and the directories that hold them.
#[derive(Clone)]
struct TestWorld {
    directories: Vec<(String, DirectoryNode)>,
    files: Vec<FileNode>,
    active: BTreeMap<u64, usize>,
}

impl TestWorld {
    fn new() -> Self {
        let root = DirectoryNode {
            id: ROOT,
            parent: None,
            depth: 0,
        };
        TestWorld {
            directories: vec![(String::new(), root)],
            files: Vec::new(),
            active: BTreeMap::new(),
        }
    }

    fn directory(&mut self, path: &str) -> DirId {
        let mut current = ROOT;
        let mut depth = 0;
        for (end, _) in path.match_indices('/') {
            depth += 1;
            let name = &path[..end];
            current = match self.directories.iter().find(|(known, _)| known == name) {
                Some((_, node)) => node.id,
                None => {
                    let id = DirId {
                        value: self.directories.len() as u64 + 1,
                    };
                    let node = DirectoryNode {
                        id,
                        parent: Some(current),
                        depth,
                    };
                    self.directories.push((name.to_owned(), node));
                    id
                }
            };
        }
        current
    }

    fn apply(&mut self, event: Event, path: &str) -> WorldDelta {
        let path_id = event.path_id();
        let action = event.action;
        let key = path_id.value as u64;
        let mut delta = WorldDelta {
            deleted_files: Vec::new(),
            created_files: Vec::new(),
            modified_files: Vec::new(),
            active_file: None,
        };
        if action != Action::Modify {
            if let Some(place) = self.active.remove(&key) {
                self.files[place].alive = false;
                delta.deleted_files.push(self.files[place].file_id);
            }
        }
        if action == Action::Add {
            let node = FileNode {
                file_id: FileId {
                    value: self.files.len() as u64 + 1,
                },
                path_id,
                parent: self.directory(path),
                alive: true,
                color: event.color,
            };
            self.active.insert(key, self.files.len());
            self.files.push(node);
            delta.created_files.push(node);
        }
        if let Some(place) = self.active.get(&key) {
            if action == Action::Modify {
                delta.modified_files.push(self.files[*place]);
            }
            delta.active_file = Some(self.files[*place].file_id);
        }
        delta
    }

    fn tree(&self) -> WorldTree {
        WorldTree {
            root: ROOT,
            directories: self.directories.iter().map(|(_, node)| *node).collect(),
            files: self.files.clone(),
        }
    }
}

/// A session with its world and its latest scene.
struct Replay {
    session: ReplaySession,
    world: TestWorld,
    snapshot: SceneSnapshot,
}

impl Replay {
    fn new(history: IndexedHistory, timing: ReplayTiming) -> Self {
        let mut replay = Replay {
            session: ReplaySession::new(history, config(), timing),
            world: TestWorld::new(),
            snapshot: SceneSnapshot::empty(),
        };
        replay.begin();
        replay
    }

    fn delta(&mut self, event: usize) -> WorldDelta {
        let event = self.session.history().events()[event];
        let path = event.path_id();
        let text = self.session.catalog().paths()[path.value as usize - 1]
            .canonical()
            .to_owned();
        self.world.apply(event, &text)
    }

    fn publish(&mut self) {
        let tree = self.world.tree();
        self.snapshot = self.session.publish(&tree);
    }

    fn begin(&mut self) {
        self.world = TestWorld::new();
        let run = self.session.advance_ticks(0).expect("origin");
        self.run(run).expect("origin");
    }

    fn run(&mut self, mut run: ReplayRun) -> Result<PumpResult, ReplayError> {
        loop {
            match run.next(&mut self.session)? {
                RunStep::Apply { event } => {
                    let delta = self.delta(event);
                    run.take_event(&mut self.session, &delta);
                }
                RunStep::Settle => {
                    run.settle(&mut self.session)?;
                    self.publish();
                }
                RunStep::Done => return Ok(run.result(&self.session)),
            }
        }
    }

    fn advance_ticks(&mut self, ticks: u64) -> Result<PumpResult, ReplayError> {
        let run = self.session.advance_ticks(ticks)?;
        self.run(run)
    }

    fn pump(&mut self, budget: WorkBudget) -> Result<PumpResult, ReplayError> {
        let run = self.session.pump(budget);
        self.run(run)
    }

    fn advance_wall(&mut self, nanos: u128) -> Result<PumpResult, ReplayError> {
        let run = self.session.advance_wall(nanos)?;
        self.run(run)
    }

    fn seek_tick(&mut self, tick: u64) -> Result<PumpResult, ReplayError> {
        let run = self.session.seek_tick(tick)?;
        self.world = TestWorld::new();
        self.run(run)
    }

    fn seek_repository_time(&mut self, time: RationalTime) -> Result<PumpResult, ReplayError> {
        let run = self.session.seek_repository_time(time)?;
        self.world = TestWorld::new();
        self.run(run)
    }
}

fn config() -> ReplayConfig {
    ReplayConfig {
        version: 1,
        seed: 0,
        algorithm_version: 1,
        seconds_per_day_bits: 86_400.0_f64.to_bits(),
        time_scale_bits: 1.0_f64.to_bits(),
        auto_skip_bits: 0.0_f64.to_bits(),
        realtime: true,
        file_idle_bits: None,
        camera_mode: CameraMode::Overview,
        limits: ReplayLimits {
            record_bytes: 1,
            input_bytes: 2,
            path_bytes: 3,
            contributor_bytes: 4,
            path_components: 5,
            working_memory_bytes: 6,
            working_disk_bytes: 7,
            max_events: 8,
            max_paths: 9,
            max_contributors: 10,
        },
    }
}

fn timing() -> ReplayTiming {
    ReplayTiming {
        repository_rate: RationalTime::new(1, 1),
        auto_skip_ticks: auto_skip_ticks(RationalTime::new(0, 1)),
        file_idle_ticks: None,
    }
}

fn history(log: &str) -> IndexedHistory {
    parse_bytes(log.as_bytes(), &IngestOptions::default()).expect("history")
}

fn history_with_actions(paths: &[&str], records: &[(i64, usize, Action)]) -> IndexedHistory {
    let mut log = String::new();
    for (timestamp, path, action) in records {
        let letter = match action {
            Action::Add => 'A',
            Action::Modify => 'M',
            Action::Delete => 'D',
        };
        log.push_str(&format!("{timestamp}|alice|{letter}|{}\n", paths[*path]));
    }
    history(&log)
}

fn sample_history() -> IndexedHistory {
    history("0|alice|A|src/a.rs|0A141E\n1|alice|A|src/b.rs\n2|alice|D|src/a.rs\n")
}

#[test]
fn rational_values_reduce_exactly() {
    assert_eq!(
        RationalTime::new(120, 240).reduced().unwrap(),
        RationalTime::new(1, 2).reduced().unwrap()
    );
    assert_eq!(
        RationalTime::new(-2, -4).reduced().unwrap(),
        RationalTime::new(1, 2).reduced().unwrap()
    );
}

#[test]
fn rational_minimum_values_normalize_without_panicking() {
    assert_eq!(
        RationalTime::new(0, i128::MIN).reduced(),
        Ok(RationalTime::new(0, 1))
    );
    assert_eq!(
        RationalTime::new(i128::MIN, i128::MIN).reduced(),
        Ok(RationalTime::new(1, 1))
    );
    assert_eq!(
        RationalTime::new(1, i128::MIN).reduced(),
        Err(ReplayError::RationalTimeOutOfRange)
    );
    assert_eq!(
        RationalTime::new(i128::MIN, -1).reduced(),
        Err(ReplayError::RationalTimeOutOfRange)
    );
    assert_eq!(
        RationalTime::new(1, 0).reduced(),
        Err(ReplayError::RationalTimeOutOfRange)
    );
}

#[test]
fn pool_keeps_three_latest_snapshots() {
    let mut pool = SnapshotBufferPool::new();
    for tick in 0..5 {
        let mut snapshot = SceneSnapshot::empty();
        snapshot.tick = tick;
        pool.publish(snapshot);
    }
    assert_eq!(pool.len(), 3);
    assert_eq!(
        pool.acquire_latest().as_ref().map(|snapshot| snapshot.tick),
        Some(4)
    );
    assert!(pool.is_empty());
    assert_eq!(pool.published(), 5);
    assert_eq!(pool.discarded(), 4);
}

#[test]
fn default_visual_palette_is_nonblack_and_actions_are_semantic() {
    let paths = ["src/a.rs", "src/b.py", "docs/readme.md"];
    let records = [
        (0, 0, Action::Add),
        (0, 1, Action::Add),
        (0, 2, Action::Add),
    ];
    let black = Rgb8::new(0, 0, 0);
    let replay = Replay::new(history_with_actions(&paths, &records), timing());
    let snapshot = &replay.snapshot;
    assert!(snapshot.files.iter().all(|file| file.color != black));
    assert!(
        snapshot
            .files
            .iter()
            .map(|file| file.color)
            .collect::<BTreeSet<_>>()
            .len()
            >= 2
    );
    assert!(snapshot
        .directories
        .iter()
        .all(|directory| directory.color != black));
    assert!(snapshot
        .contributors
        .iter()
        .all(|contributor| contributor.color != black));
    assert_eq!(snapshot.actions.len(), 3);
    assert!(snapshot
        .actions
        .iter()
        .all(|action| action.color == action_color(Action::Add)));

    let mut actions = Replay::new(
        history_with_actions(
            &["src/changes.rs"],
            &[
                (0, 0, Action::Add),
                (1, 0, Action::Modify),
                (2, 0, Action::Delete),
            ],
        ),
        timing(),
    );
    let color_of = |replay: &Replay, kind: Action| {
        replay
            .snapshot
            .actions
            .iter()
            .find(|action| action.action == kind)
            .map(|action| action.color)
    };
    assert_eq!(color_of(&actions, Action::Add), Some(Rgb8::new(73, 211, 119)));
    actions.advance_ticks(120).unwrap();
    assert_eq!(color_of(&actions, Action::Modify), Some(Rgb8::new(244, 164, 52)));
    actions.advance_ticks(120).unwrap();
    assert_eq!(color_of(&actions, Action::Delete), Some(Rgb8::new(235, 78, 88)));
}

#[test]
fn action_remains_through_final_lifetime_tick_then_expires() {
    let mut replay = Replay::new(
        history_with_actions(&["src/action.rs"], &[(0, 0, Action::Add)]),
        timing(),
    );

    replay.advance_ticks(ACTION_LIFETIME_TICKS).unwrap();
    let final_tick = &replay.snapshot;
    assert_eq!(final_tick.tick, ACTION_LIFETIME_TICKS);
    assert_eq!(final_tick.actions.len(), 1);
    assert_eq!(final_tick.actions[0].progress_ticks, ACTION_TRAVEL_TICKS);

    replay.advance_ticks(1).unwrap();
    let expired_tick = &replay.snapshot;
    assert_eq!(expired_tick.tick, ACTION_LIFETIME_TICKS + 1);
    assert!(expired_tick.actions.is_empty());
}

#[test]
fn explicit_event_color_wins_for_file_contributor_and_action() {
    let custom = Rgb8::new(1, 2, 3);
    let replay = Replay::new(history("0|custom-user|A|custom.rs|010203\n"), timing());
    let snapshot = &replay.snapshot;
    assert_eq!(snapshot.files[0].color, custom);
    assert_eq!(snapshot.contributors[0].color, custom);
    assert_eq!(snapshot.actions[0].color, custom);
}

#[test]
fn every_shown_node_has_exactly_one_branch() {
    let replay = Replay::new(
        history_with_actions(
            &["src/lib/a.rs", "src/lib/b.rs", "src/main.rs"],
            &[
                (0, 0, Action::Add),
                (0, 1, Action::Add),
                (0, 2, Action::Add),
            ],
        ),
        timing(),
    );
    let snapshot = &replay.snapshot;
    let expected: Vec<HierarchyNodeId> = snapshot
        .directories
        .iter()
        .map(|directory| HierarchyNodeId::Directory(directory.id))
        .chain(
            snapshot
                .files
                .iter()
                .map(|file| HierarchyNodeId::File(file.file_id)),
        )
        .collect();
    assert_eq!(snapshot.branches.len(), expected.len());
    for child in expected {
        assert_eq!(
            snapshot
                .branches
                .iter()
                .filter(|branch| branch.child == child)
                .count(),
            1
        );
    }
    assert_eq!(snapshot.branches[0].parent, None);
    assert_eq!(snapshot.branches[1].parent, Some(DirId { value: 2 }));
}

#[test]
fn delete_action_keeps_old_incarnation_target_after_recreate() {
    let mut replay = Replay::new(
        history_with_actions(
            &["src/a.rs"],
            &[
                (0, 0, Action::Add),
                (1, 0, Action::Delete),
                (2, 0, Action::Add),
            ],
        ),
        timing(),
    );

    replay.advance_ticks(120).unwrap();
    let old_file_id = replay
        .snapshot
        .files
        .iter()
        .find(|file| !file.active)
        .expect("deleted incarnation remains during fade")
        .file_id;
    let delete_target = |replay: &Replay| {
        replay
            .session
            .current_lives()
            .actions
            .iter()
            .find(|action| action.action == Action::Delete)
            .expect("delete action")
            .file_id
    };
    assert_eq!(delete_target(&replay), Some(old_file_id));

    replay.advance_ticks(120).unwrap();
    let active = replay
        .snapshot
        .files
        .iter()
        .find(|file| file.active)
        .expect("recreated active file");
    assert_ne!(active.file_id, old_file_id);
    let delete_action = replay
        .snapshot
        .actions
        .iter()
        .find(|action| action.action == Action::Delete)
        .expect("delete beam survives recreation");
    assert_eq!(delete_action.file_id, Some(old_file_id));
    assert_eq!(delete_target(&replay), Some(old_file_id));
}

#[test]
fn wall_cadence_does_not_publish_partial_ticks() {
    let mut cadence = Replay::new(sample_history(), timing());
    let initial = cadence.snapshot.tick;
    cadence.advance_wall(8_000_000).unwrap();
    assert_eq!(cadence.snapshot.tick, initial);
    cadence.advance_wall(1_000_000).unwrap();

    let mut fixed = Replay::new(sample_history(), timing());
    fixed.advance_ticks(1).unwrap();
    assert_eq!(cadence.snapshot, fixed.snapshot);
}

#[test]
fn seek_and_checkpoint_restore_match_fresh_forward_replay() {
    let mut fresh = Replay::new(sample_history(), timing());
    fresh.seek_tick(0).unwrap();
    fresh.advance_ticks(360).unwrap();

    let mut sought = Replay::new(sample_history(), timing());
    sought.seek_tick(360).unwrap();
    assert_eq!(sought.snapshot, fresh.snapshot);

    let mut checkpointed = Replay::new(sample_history(), timing());
    checkpointed.advance_ticks(120).unwrap();
    let checkpoint = checkpointed.session.checkpoint();
    let world = checkpointed.world.clone();
    let checkpoint_snapshot = checkpointed.snapshot.clone();
    checkpointed.advance_ticks(240).unwrap();
    checkpointed.session.restore_checkpoint(&checkpoint).unwrap();
    checkpointed.world = world;
    checkpointed.publish();
    assert_eq!(checkpointed.snapshot, checkpoint_snapshot);
}

#[test]
fn repository_seek_uses_negative_epoch_origin_and_clamps_before_it() {
    let history = history_with_actions(
        &["src/negative.rs"],
        &[(-100, 0, Action::Add), (-99, 0, Action::Modify)],
    );
    let mut replay = Replay::new(history, timing());

    replay.seek_repository_time(RationalTime::new(-100, 1)).unwrap();
    assert_eq!(replay.snapshot.tick, 0);
    assert_eq!(
        replay.snapshot.repository_time,
        RationalTime::new(-100, 1).reduced().unwrap()
    );

    replay.seek_repository_time(RationalTime::new(-99, 1)).unwrap();
    assert_eq!(replay.snapshot.tick, 120);
    assert_eq!(
        replay.snapshot.repository_time,
        RationalTime::new(-99, 1).reduced().unwrap()
    );

    replay.seek_repository_time(RationalTime::new(-101, 1)).unwrap();
    assert_eq!(replay.snapshot.tick, 0);
    assert_eq!(
        replay.snapshot.repository_time,
        RationalTime::new(-100, 1).reduced().unwrap()
    );
}

#[test]
fn repository_seek_rejects_tick_overflow_without_replay_loop() {
    let history = history_with_actions(&["src/overflow.rs"], &[(0, 0, Action::Add)]);
    let mut replay = Replay::new(history, timing());
    let result = replay.seek_repository_time(RationalTime::new(i128::from(u64::MAX) + 1, 1));
    assert_eq!(result, Err(ReplayError::RepositoryTimeOverflow));
}

#[test]
fn pump_idle_gap_matches_canonical_seek_state() {
    let history = history_with_actions(
        &["src/a.rs"],
        &[(0, 0, Action::Add), (20, 0, Action::Modify)],
    );
    let mut timing = timing();
    timing.auto_skip_ticks = auto_skip_ticks(RationalTime::new(3, 1));
    let target_tick = 300;

    let mut pumped = Replay::new(history.clone(), timing);
    pumped.seek_tick(0).unwrap();
    while pumped.session.tick() < target_tick {
        let remaining = target_tick - pumped.session.tick();
        let result = pumped.pump(WorkBudget::new(remaining.min(17), 64)).unwrap();
        assert!(result.ticks > 0, "idle pump made no canonical progress");
    }

    let mut sought = Replay::new(history, timing);
    sought.seek_tick(target_tick).unwrap();
    assert_eq!(pumped.snapshot, sought.snapshot);
}

#[test]
fn auto_skip_is_shared_by_pump_wall_seek_and_advance_ticks() {
    const IDLE_THRESHOLD_TICKS: u64 = 120;
    let history = history_with_actions(
        &["src/a.rs"],
        &[(0, 0, Action::Add), (10, 0, Action::Modify)],
    );
    let mut enabled = timing();
    enabled.auto_skip_ticks = auto_skip_ticks(RationalTime::new(1, 1));

    let mut pumped = Replay::new(history.clone(), enabled);
    while pumped.session.tick() < ACTION_LIFETIME_TICKS + IDLE_THRESHOLD_TICKS - 1 {
        let result = pumped.pump(WorkBudget::new(1, 64)).unwrap();
        assert_eq!(result.ticks, 1);
    }
    assert_eq!(pumped.session.idle_ticks(), IDLE_THRESHOLD_TICKS - 1);
    assert_eq!(pumped.session.next_event(), 1);

    // The threshold is fully reached at this tick, so the jump begins on
    // the following tick rather than shortening the configured idle span.
    pumped.pump(WorkBudget::new(1, 64)).unwrap();
    assert_eq!(
        pumped.session.tick(),
        ACTION_LIFETIME_TICKS + IDLE_THRESHOLD_TICKS
    );
    assert_eq!(pumped.session.idle_ticks(), IDLE_THRESHOLD_TICKS);
    assert_eq!(pumped.session.next_event(), 1);
    pumped.pump(WorkBudget::new(1, 64)).unwrap();
    assert_eq!(pumped.session.next_event(), 2);
    assert_eq!(pumped.session.repository_time(), RationalTime::new(10, 1));

    let mut advanced = Replay::new(history.clone(), enabled);
    advanced
        .advance_ticks(ACTION_LIFETIME_TICKS + IDLE_THRESHOLD_TICKS)
        .unwrap();
    assert_eq!(advanced.session.next_event(), 1);
    advanced.advance_ticks(1).unwrap();
    assert_eq!(advanced.session.next_event(), 2);
    assert_eq!(advanced.snapshot, pumped.snapshot);

    let mut walled = Replay::new(history.clone(), enabled);
    for _ in 0..(ACTION_LIFETIME_TICKS + IDLE_THRESHOLD_TICKS) {
        walled.advance_wall(8_333_334).unwrap();
    }
    walled.advance_wall(8_333_334).unwrap();
    assert_eq!(walled.session.next_event(), 2);
    assert_eq!(walled.snapshot, pumped.snapshot);

    let mut sought = Replay::new(history.clone(), enabled);
    sought
        .seek_tick(ACTION_LIFETIME_TICKS + IDLE_THRESHOLD_TICKS)
        .unwrap();
    assert_eq!(sought.session.next_event(), 1);
    sought
        .seek_tick(ACTION_LIFETIME_TICKS + IDLE_THRESHOLD_TICKS + 1)
        .unwrap();
    assert_eq!(sought.session.next_event(), 2);

    let mut no_skip = Replay::new(history, timing());
    no_skip
        .advance_ticks(ACTION_LIFETIME_TICKS + IDLE_THRESHOLD_TICKS + 1)
        .unwrap();
    assert_eq!(no_skip.session.next_event(), 1);
    let no_skip_time = no_skip.session.repository_time().reduced().unwrap();
    assert!(no_skip_time.numerator.div_euclid(no_skip_time.denominator) < 10);
}

#[test]
fn file_idle_starts_full_fade_after_configured_tick_threshold() {
    let mut timing = timing();
    timing.file_idle_ticks = Some(SIMULATION_HZ);
    let mut replay = Replay::new(
        history_with_actions(&["src/idle.rs"], &[(0, 0, Action::Add)]),
        timing,
    );

    replay.advance_ticks(120).unwrap();
    assert!(replay.snapshot.files[0].active);
    assert_eq!(replay.snapshot.files[0].opacity_ticks, FILE_FADE_TICKS);

    replay.advance_ticks(1).unwrap();
    assert!(!replay.snapshot.files[0].active);
    assert_eq!(replay.snapshot.files[0].opacity_ticks, FILE_FADE_TICKS);
    let (_, life) = replay.session.current_lives().files.entry(0);
    assert_eq!(life.fade_remaining, FILE_FADE_TICKS);

    replay.advance_ticks(1).unwrap();
    assert_eq!(replay.snapshot.files[0].opacity_ticks, FILE_FADE_TICKS - 1);
}

#[test]
fn delete_fade_has_full_start_and_exact_ninety_tick_lifetime() {
    let mut replay = Replay::new(
        history_with_actions(
            &["src/deleted.rs"],
            &[(0, 0, Action::Add), (1, 0, Action::Delete)],
        ),
        timing(),
    );
    replay.advance_ticks(120).unwrap();
    assert_eq!(replay.snapshot.files.len(), 1);
    assert!(!replay.snapshot.files[0].active);
    assert_eq!(replay.snapshot.files[0].opacity_ticks, FILE_FADE_TICKS);

    replay.advance_ticks(FILE_FADE_TICKS - 1).unwrap();
    assert_eq!(replay.snapshot.files.len(), 1);
    assert_eq!(replay.snapshot.files[0].opacity_ticks, 1);

    replay.advance_ticks(1).unwrap();
    assert!(replay.snapshot.files.is_empty());
}

#[test]
fn origin_delete_uses_the_same_full_fade_start_boundary() {
    let mut replay = Replay::new(
        history_with_actions(
            &["src/origin-delete.rs"],
            &[(0, 0, Action::Add), (0, 0, Action::Delete)],
        ),
        timing(),
    );
    assert_eq!(replay.snapshot.files.len(), 1);
    assert!(!replay.snapshot.files[0].active);
    assert_eq!(replay.snapshot.files[0].opacity_ticks, FILE_FADE_TICKS);

    replay.advance_ticks(1).unwrap();
    assert_eq!(replay.snapshot.files[0].opacity_ticks, FILE_FADE_TICKS - 1);
}

#[test]
fn origin_timestamp_events_are_in_tick_zero_snapshot() {
    let replay = Replay::new(sample_history(), timing());
    let snapshot = &replay.snapshot;
    assert_eq!(snapshot.tick, 0);
    assert_eq!(snapshot.files.iter().filter(|file| file.active).count(), 1);
    assert_eq!(snapshot.directories.len(), 1);
    assert_eq!(snapshot.actions.len(), 1);
    assert_eq!(snapshot.labels.len(), 1);
    assert_eq!(snapshot.labels[0].text, "src/a.rs");
    assert_eq!(snapshot.labels[0].priority, 1);
}

#[test]
fn duplicate_add_replaces_world_file_incarnation() {
    let history =
        history_with_actions(&["src/a.rs"], &[(0, 0, Action::Add), (1, 0, Action::Add)]);
    let mut replay = Replay::new(history, timing());
    let initial_incarnation = replay
        .snapshot
        .files
        .iter()
        .find(|file| file.active)
        .map(|file| file.incarnation)
        .unwrap();
    replay.advance_ticks(120).unwrap();
    let snapshot = &replay.snapshot;
    let active: Vec<_> = snapshot.files.iter().filter(|file| file.active).collect();
    assert_eq!(active.len(), 1);
    assert!(active[0].incarnation > initial_incarnation);
    assert!(snapshot
        .files
        .iter()
        .any(|file| !file.active && file.incarnation == initial_incarnation));
}

#[test]
fn equal_time_burst_never_publishes_partial_tick() {
    let mut paths = vec!["origin"];
    paths.extend(["a", "b", "c", "d", "e"]);
    let records = [
        (0, 0, Action::Add),
        (1, 1, Action::Add),
        (1, 2, Action::Add),
        (1, 3, Action::Add),
        (1, 4, Action::Add),
        (1, 5, Action::Add),
    ];
    let history = history_with_actions(&paths, &records);
    let mut replay = Replay::new(history.clone(), timing());
    replay.seek_tick(119).unwrap();

    let first = replay.pump(WorkBudget::new(1, 2)).unwrap();
    assert_eq!(
        (first.ticks, first.events, first.snapshot_tick),
        (0, 2, 119)
    );
    let second = replay.pump(WorkBudget::new(1, 2)).unwrap();
    assert_eq!(
        (second.ticks, second.events, second.snapshot_tick),
        (0, 2, 119)
    );
    let third = replay.pump(WorkBudget::new(1, 2)).unwrap();
    assert_eq!(
        (third.ticks, third.events, third.snapshot_tick),
        (1, 1, 120)
    );

    let mut expected = Replay::new(history, timing());
    expected.seek_tick(120).unwrap();
    assert_eq!(replay.snapshot, expected.snapshot);
}

#[test]
fn checkpoints_reject_same_ids_with_different_catalog_content() {
    let left_history = history_with_actions(&["left/a.rs"], &[(0, 0, Action::Add)]);
    let right_history = history_with_actions(&["right/a.rs"], &[(0, 0, Action::Add)]);
    let mut left = Replay::new(left_history, timing());
    let checkpoint = left.session.checkpoint();
    let mut right = Replay::new(right_history, timing());
    assert_eq!(
        right.session.restore_checkpoint(&checkpoint),
        Err(ReplayError::CheckpointIdentityMismatch)
    );
}

#[test]
fn checkpoints_end_with_their_generation() {
    let mut replay = Replay::new(sample_history(), timing());
    let checkpoint = replay.session.checkpoint();
    assert_eq!(replay.session.checkpoint_count(), 1);
    replay.session.restart();
    assert_eq!(replay.session.checkpoint_count(), 0);
    assert_eq!(replay.session.generation(), 1);
    assert_eq!(
        replay.session.restore_checkpoint(&checkpoint),
        Err(ReplayError::CheckpointGenerationMismatch)
    );
    for _ in 0..MAX_CHECKPOINTS + 3 {
        replay.session.checkpoint();
    }
    assert_eq!(replay.session.checkpoint_count(), MAX_CHECKPOINTS);
}

#[test]
fn pump_budget_makes_one_tick_of_idle_progress_and_keeps_a_due_burst() {
    let history = history_with_actions(
        &["src/main.rs"],
        &[
            (0, 0, Action::Add),
            (1, 0, Action::Modify),
            (1, 0, Action::Modify),
            (1, 0, Action::Modify),
        ],
    );
    let mut expected = Replay::new(history.clone(), timing());
    expected.advance_ticks(123).unwrap();

    let mut replay = Replay::new(history, timing());
    assert_eq!(replay.snapshot.tick, 0);

    let budget = WorkBudget::new(1, 3);
    let idle = replay.pump(budget).unwrap();
    assert_eq!((idle.ticks, idle.events, idle.snapshot_tick), (1, 0, 1));
    assert!(!idle.complete);
    assert!(!idle.cancelled);
    assert_eq!(replay.snapshot.tick, 1);

    for expected_tick in 2..=119 {
        let result = replay.pump(budget).unwrap();
        assert_eq!(result.ticks, 1, "idle pump stalled at tick {expected_tick}");
        assert_eq!(result.events, 0);
        assert_eq!(result.snapshot_tick, expected_tick);
        assert!(!result.cancelled);
    }

    let burst = replay.pump(budget).unwrap();
    assert_eq!(
        (burst.ticks, burst.events, burst.snapshot_tick),
        (1, 3, 120)
    );
    assert!(!burst.complete);
    assert!(!burst.cancelled);

    assert_eq!(replay.snapshot.tick, 120);
    assert_eq!(replay.snapshot.actions.len(), 4);
    let count = |action: Action| {
        replay
            .snapshot
            .actions
            .iter()
            .filter(|visual| visual.action == action)
            .count()
    };
    assert_eq!(count(Action::Add), 1);
    assert_eq!(count(Action::Modify), 3);

    for expected_tick in 121..=123 {
        let result = replay.pump(budget).unwrap();
        assert_eq!(result.ticks, 1);
        assert_eq!(result.events, 0);
        assert_eq!(result.snapshot_tick, expected_tick);
        assert!(!result.cancelled);
    }

    assert_eq!(replay.snapshot.tick, 123);
    assert_eq!(replay.snapshot, expected.snapshot);
}

#[test]
fn cancelled_sessions_refuse_work() {
    let mut replay = Replay::new(sample_history(), timing());
    replay.session.cancel();
    assert!(replay.session.is_cancelled());
    assert_eq!(replay.advance_ticks(1), Err(ReplayError::Cancelled));
    assert_eq!(replay.advance_wall(1), Err(ReplayError::Cancelled));
    assert_eq!(replay.seek_tick(1), Err(ReplayError::Cancelled));
    let result = replay.pump(WorkBudget::default()).unwrap();
    assert_eq!((result.ticks, result.events), (0, 0));
    assert!(result.cancelled && !result.complete);
    replay.session.clear_cancellation();
    assert_eq!(replay.advance_ticks(1).unwrap().ticks, 1);
}

#[test]
fn replays_end_when_nothing_is_left_to_show() {
    let mut replay = Replay::new(
        history_with_actions(&["a"], &[(0, 0, Action::Add), (0, 0, Action::Delete)]),
        timing(),
    );
    assert!(!replay.session.is_at_end());
    replay.advance_ticks(ACTION_LIFETIME_TICKS + 1).unwrap();
    assert!(replay.session.is_at_end());
    assert!(replay.pump(WorkBudget::new(1, 1)).unwrap().complete);
}

#[test]
fn sessions_remember_how_they_run() {
    let threads = ThreadCount::new(4).expect("threads");
    let session = ReplaySession::new_with_execution(
        sample_history(),
        config(),
        timing(),
        ExecutionMode::Parallel { threads },
    );
    assert_eq!(ThreadCount::new(0), None);
    assert_eq!(session.execution_mode(), ExecutionMode::Parallel { threads });
    assert_eq!(session.configured_threads(), 4);
    assert_eq!(ExecutionMode::Serial.configured_threads(), 1);
    assert!(!session.is_at_rest());
    assert!(!session.is_in_tick());
}

#[test]
fn identities_depend_on_the_history_and_the_configuration() {
    let first = replay_identity(&sample_history(), &config());
    assert_eq!(first, replay_identity(&sample_history(), &config()));
    let mut other = config();
    other.seed = 1;
    assert_ne!(first, replay_identity(&sample_history(), &other));
    let longer = history("0|alice|A|src/a.rs|0A141E\n1|alice|A|src/b.rs\n");
    assert_ne!(first, replay_identity(&longer, &config()));
}
