use buck2_engine::buck2_error::error::Error;
use buck2_engine::buck2_error::root::UniqueRootId;
use buck2_engine::buck2_resource_control::action_cgroups::ActionCgroupResult;
use buck2_engine::buck2_resource_control::action_cgroups::ActionCgroups;
use buck2_engine::buck2_resource_control::action_cgroups::AncestorCgroupConstraints;
use buck2_engine::buck2_resource_control::action_cgroups::CgroupExists;
use buck2_engine::buck2_resource_control::action_cgroups::CgroupNotFound;
use buck2_engine::buck2_resource_control::action_cgroups::CommandType;
use buck2_engine::buck2_resource_control::action_cgroups::InvalidLimit;
use buck2_engine::buck2_resource_control::action_cgroups::ResourceControlKind;
use buck2_engine::buck2_resource_control::memory_tracker::MemoryPressureState;
use buck2_engine::buck2_resource_control::memory_tracker::MemoryReading;

fn reading(current: u64) -> MemoryReading {
    MemoryReading {
        buck2_slice_memory_current: current,
        buck2_slice_memory_swap_current: 0,
        buck2_slice_memory_pressure: 12,
        daemon_memory_current: 8000,
        daemon_memory_swap_current: 0,
    }
}

fn finished(cgroups: &mut ActionCgroups, path: &str) -> (ActionCgroupResult, bool) {
    cgroups
        .command_finished(&path.to_owned())
        .unwrap_or_else(|_| panic!("{} is in use", path))
}

/// One round of what the tracker does with a reading, without the file system: the memory
/// of each control group is noted, then freezing and unfreezing are decided on.
fn update(
    cgroups: &mut ActionCgroups,
    memory: &[(&str, u64, u64)],
    pressure_state: MemoryPressureState,
    memory_reading: &MemoryReading,
    now: u64,
) -> Vec<(ResourceControlKind, String)> {
    let mut done = Vec::new();
    for (path, current, swap) in memory {
        assert!(cgroups.record_reading(&(*path).to_owned(), *current, *swap));
    }
    if pressure_state == MemoryPressureState::AbovePressureLimit {
        if let Some(path) = cgroups.maybe_freeze(now) {
            let event = cgroups
                .freeze_succeeded(&path, memory_reading, now)
                .unwrap_or_else(|| panic!("{} can be frozen", path));
            assert_eq!(event.kind, ResourceControlKind::Freeze);
            done.push((event.kind, path));
        }
        if cgroups.needs_unset_memory_high(pressure_state) {
            cgroups.memory_high_unset("4096".to_owned());
        }
    }
    if let Some((path, event)) = cgroups.maybe_unfreeze(pressure_state, memory_reading, now) {
        assert_eq!(event.kind, ResourceControlKind::Unfreeze);
        done.push((event.kind, path));
    }
    if let Some(original) = cgroups.take_memory_high_to_restore(pressure_state) {
        assert_eq!(original, "4096");
    }
    done
}

#[test]
fn test_peak_memory_and_swap() {
    let mut action_cgroups = ActionCgroups::new(false, None);
    assert_eq!(
        action_cgroups.command_started(
            "/cgroup_1".to_owned(),
            10,
            15,
            CommandType::Build,
            Some("action_1".to_owned())
        ),
        Ok(())
    );
    assert_eq!(
        action_cgroups.command_started(
            "/cgroup_2".to_owned(),
            10,
            15,
            CommandType::Build,
            Some("action_2".to_owned())
        ),
        Ok(())
    );

    let memory_reading = reading(10000);
    let done = update(
        &mut action_cgroups,
        &[("/cgroup_1", 20, 18), ("/cgroup_2", 5, 6)],
        MemoryPressureState::AbovePressureLimit,
        &memory_reading,
        0,
    );
    assert!(done.is_empty());

    let cgroup_1_res = finished(&mut action_cgroups, "/cgroup_1").0;
    let cgroup_2_res = finished(&mut action_cgroups, "/cgroup_2").0;
    assert_eq!(cgroup_1_res.memory_peak, Some(10));
    assert_eq!(cgroup_2_res.memory_peak, Some(0));
    assert_eq!(cgroup_1_res.swap_peak, Some(3));
    assert_eq!(cgroup_2_res.swap_peak, Some(0));
}

#[test]
fn test_freeze() {
    let mut action_cgroups = ActionCgroups::new(true, None);
    assert!(action_cgroups
        .command_started("/cgroup_1".to_owned(), 0, 0, CommandType::Build, None)
        .is_ok());
    assert!(action_cgroups
        .command_started("/cgroup_2".to_owned(), 0, 0, CommandType::Build, None)
        .is_ok());

    let memory_reading = reading(10000);
    let done = update(
        &mut action_cgroups,
        &[("/cgroup_1", 1, 0), ("/cgroup_2", 2, 0)],
        MemoryPressureState::AbovePressureLimit,
        &memory_reading,
        5000,
    );
    assert_eq!(done, vec![(ResourceControlKind::Freeze, "/cgroup_2".to_owned())]);
    assert_eq!(action_cgroups.original_memory_high, Some("4096".to_owned()));

    let (cgroup_1_res, unfreeze) = finished(&mut action_cgroups, "/cgroup_1");
    assert_eq!(cgroup_1_res.was_frozen, false);
    assert!(!unfreeze);

    let memory_reading_2 = MemoryReading {
        buck2_slice_memory_current: 0,
        buck2_slice_memory_swap_current: 0,
        buck2_slice_memory_pressure: 0,
        daemon_memory_current: 0,
        daemon_memory_swap_current: 0,
    };
    let done = update(
        &mut action_cgroups,
        &[("/cgroup_2", 2, 0)],
        MemoryPressureState::BelowPressureLimit,
        &memory_reading_2,
        5700,
    );
    assert_eq!(done, vec![(ResourceControlKind::Unfreeze, "/cgroup_2".to_owned())]);
    assert_eq!(action_cgroups.original_memory_high, None);

    let (cgroup_2_res, unfreeze) = finished(&mut action_cgroups, "/cgroup_2");
    assert_eq!(cgroup_2_res.was_frozen, true);
    assert_eq!(cgroup_2_res.freeze_duration, Some(700));
    assert!(!unfreeze);
}

#[test]
fn reused_cgroup_is_an_error() {
    let mut cgroups = ActionCgroups::new(true, None);
    assert_eq!(
        cgroups.command_started("/a".to_owned(), 7, 0, CommandType::Test, None),
        Ok(())
    );
    assert_eq!(
        cgroups.command_started("/a".to_owned(), 9, 0, CommandType::Build, None),
        Err(CgroupExists)
    );
    // the first command is still the one that is known
    assert_eq!(cgroups.paths(), vec!["/a".to_owned()]);
    assert_eq!(cgroups.active_cgroups[0].memory_initial, 7);
    assert!(matches!(
        cgroups.command_finished(&"/b".to_owned()),
        Err(CgroupNotFound)
    ));
    assert!(!cgroups.record_reading(&"/b".to_owned(), 1, 1));
    assert!(!cgroups.record_error(&"/b".to_owned(), Error::new(UniqueRootId(1), "gone")));
    assert!(cgroups.record_error(&"/a".to_owned(), Error::new(UniqueRootId(2), "unreadable")));
    let (result, _) = finished(&mut cgroups, "/a");
    assert_eq!(result.error.map(|e| e.root_id()), Some(UniqueRootId(2)));
    assert_eq!(cgroups.count_running(), 0);
}

#[test]
fn freezes_the_largest_and_never_the_last() {
    let mut cgroups = ActionCgroups::new(true, None);
    for (path, memory) in [("/a", 5), ("/b", 9), ("/c", 9), ("/d", 1)] {
        assert!(cgroups
            .command_started(path.to_owned(), memory, 0, CommandType::Build, Some(path.to_owned()))
            .is_ok());
    }
    // of the largest ones the last is taken
    assert_eq!(cgroups.maybe_freeze(0), Some("/c".to_owned()));
    let event = cgroups
        .freeze_succeeded(&"/c".to_owned(), &reading(100), 0)
        .unwrap_or_else(|| panic!("/c can be frozen"));
    assert_eq!(event.action_digest, "/c");
    assert_eq!(event.command, CommandType::Build);
    assert_eq!(event.cgroup_memory_current, 9);
    assert_eq!(event.memory_current, 100);
    assert_eq!(event.memory_pressure, 12);
    assert_eq!(event.daemon_memory_current, 8000);
    assert_eq!((event.frozen_cgroup_count, event.active_cgroup_count), (1, 4));
    // a control group is not frozen twice
    assert!(cgroups.freeze_succeeded(&"/c".to_owned(), &reading(100), 0).is_none());
    assert!(cgroups.freeze_succeeded(&"/x".to_owned(), &reading(100), 0).is_none());

    // not before a second has passed
    assert_eq!(cgroups.maybe_freeze(999), None);
    assert_eq!(cgroups.maybe_freeze(1000), Some("/b".to_owned()));
    assert!(cgroups.freeze_succeeded(&"/b".to_owned(), &reading(90), 1000).is_some());
    assert_eq!(cgroups.maybe_freeze(2000), Some("/a".to_owned()));
    assert!(cgroups.freeze_succeeded(&"/a".to_owned(), &reading(80), 2000).is_some());
    // one command is left running
    assert_eq!(cgroups.count_running(), 1);
    assert_eq!(cgroups.maybe_freeze(10000), None);
    assert_eq!(cgroups.frozen_cgroups, vec!["/c".to_owned(), "/b".to_owned(), "/a".to_owned()]);
}

#[test]
fn freezing_can_be_switched_off() {
    let mut cgroups = ActionCgroups::new(false, None);
    for path in ["/a", "/b"] {
        assert!(cgroups
            .command_started(path.to_owned(), 0, 0, CommandType::Worker, None)
            .is_ok());
    }
    assert_eq!(cgroups.maybe_freeze(0), None);
    assert!(!cgroups.needs_unset_memory_high(MemoryPressureState::AbovePressureLimit));
    assert!(cgroups
        .maybe_unfreeze(MemoryPressureState::BelowPressureLimit, &reading(0), 0)
        .is_none());
}

#[test]
fn unfreezes_in_order_and_not_too_often() {
    let constraints = AncestorCgroupConstraints {
        memory_max: Some(1 << 30),
        memory_high: None,
        memory_swap_max: None,
        memory_swap_high: Some(5),
    };
    let mut cgroups = ActionCgroups::new(true, Some(constraints));
    for (path, memory) in [("/a", 50), ("/b", 30), ("/c", 10)] {
        assert!(cgroups
            .command_started(path.to_owned(), memory, 0, CommandType::Build, None)
            .is_ok());
    }
    assert_eq!(cgroups.maybe_freeze(100), Some("/a".to_owned()));
    assert!(cgroups.freeze_succeeded(&"/a".to_owned(), &reading(1000), 100).is_some());
    assert_eq!(cgroups.maybe_freeze(1100), Some("/b".to_owned()));
    assert!(cgroups.freeze_succeeded(&"/b".to_owned(), &reading(900), 1100).is_some());

    // memory is still short, and a command runs: nothing is unfrozen
    assert!(cgroups
        .maybe_unfreeze(MemoryPressureState::AbovePressureLimit, &reading(0), 2000)
        .is_none());
    // memory is not short, but its use has not fallen far enough: 850 + 50 is not below 900
    assert!(cgroups
        .maybe_unfreeze(MemoryPressureState::BelowPressureLimit, &reading(850), 2000)
        .is_none());
    // now it has: the control group that was frozen first is unfrozen
    let (path, event) = cgroups
        .maybe_unfreeze(MemoryPressureState::BelowPressureLimit, &reading(849), 2000)
        .unwrap_or_else(|| panic!("an unfreeze is due"));
    assert_eq!(path, "/a");
    assert_eq!(event.kind, ResourceControlKind::Unfreeze);
    assert_eq!((event.frozen_cgroup_count, event.active_cgroup_count), (1, 3));
    assert_eq!(event.ancestor_cgroup_constraints, Some(constraints));
    assert_eq!(cgroups.active_cgroups[0].freeze_duration, Some(1900));
    assert!(cgroups.active_cgroups[0].was_frozen);
    assert_eq!(cgroups.frozen_cgroups, vec!["/b".to_owned()]);

    // not again before three seconds have passed
    assert!(cgroups
        .maybe_unfreeze(MemoryPressureState::BelowPressureLimit, &reading(0), 4999)
        .is_none());
    // the limit on memory is not set again while a control group is frozen
    cgroups.memory_high_unset("max".to_owned());
    assert_eq!(
        cgroups.take_memory_high_to_restore(MemoryPressureState::BelowPressureLimit),
        None
    );
    let (path, _) = cgroups
        .maybe_unfreeze(MemoryPressureState::BelowPressureLimit, &reading(0), 5000)
        .unwrap_or_else(|| panic!("an unfreeze is due"));
    assert_eq!(path, "/b");
    assert_eq!(
        cgroups.take_memory_high_to_restore(MemoryPressureState::AbovePressureLimit),
        None
    );
    assert_eq!(
        cgroups.take_memory_high_to_restore(MemoryPressureState::BelowPressureLimit),
        Some("max".to_owned())
    );
    assert_eq!(
        cgroups.take_memory_high_to_restore(MemoryPressureState::BelowPressureLimit),
        None
    );
}

#[test]
fn frozen_command_that_finishes_has_to_be_unfrozen() {
    let mut cgroups = ActionCgroups::new(true, None);
    for (path, memory) in [("/a", 1), ("/b", 2)] {
        assert!(cgroups
            .command_started(path.to_owned(), memory, 0, CommandType::Build, None)
            .is_ok());
    }
    assert!(cgroups.freeze_succeeded(&"/b".to_owned(), &reading(10), 0).is_some());
    let (result, unfreeze) = finished(&mut cgroups, "/b");
    assert!(unfreeze);
    assert!(!result.was_frozen);
    assert!(cgroups.frozen_cgroups.is_empty());
    assert_eq!(cgroups.count_running(), 1);
}

#[test]
fn result_from_error_knows_nothing_else() {
    let result = ActionCgroupResult::from_error(Error::new(UniqueRootId(3), "cgroup not found"));
    assert_eq!(result.memory_peak, None);
    assert_eq!(result.swap_peak, None);
    assert!(!result.was_frozen);
    assert_eq!(result.freeze_duration, None);
    assert_eq!(result.error.map(|e| e.get_stack_for_debug()), Some("ROOT:\ncgroup not found\n".to_owned()));
}

#[test]
fn ancestor_constraints_are_numbers() {
    assert_eq!(
        AncestorCgroupConstraints::new(
            Some("1024".to_owned()),
            None,
            Some("0".to_owned()),
            Some("18446744073709551615".to_owned())
        ),
        Ok(AncestorCgroupConstraints {
            memory_max: Some(1024),
            memory_high: None,
            memory_swap_max: Some(0),
            memory_swap_high: Some(u64::MAX),
        })
    );
    assert_eq!(
        AncestorCgroupConstraints::new(None, Some("max".to_owned()), Some("x".to_owned()), None),
        Err(InvalidLimit::MemoryHigh)
    );
    assert_eq!(
        AncestorCgroupConstraints::new(Some("".to_owned()), None, None, None),
        Err(InvalidLimit::MemoryMax)
    );
    assert_eq!(
        AncestorCgroupConstraints::new(None, None, Some("1 ".to_owned()), None),
        Err(InvalidLimit::MemorySwapMax)
    );
    assert_eq!(
        AncestorCgroupConstraints::new(None, None, None, Some("-1".to_owned())),
        Err(InvalidLimit::MemorySwapHigh)
    );
    assert_eq!(CommandType::Worker.as_str(), "worker");
}
