use conduit_core::lookup::cache::lmdb_policy::{
    bumped_count, cap_action, check_sync_config, choose_sample_victim, map_full_action, stored_count, sync_step,
    CapAction, FlusherStep, LmdbSync, LmdbWhenFull, MapFullAction, SyncConfigError, SyncStep,
};

#[test]
fn cap_only_affects_new_keys_at_the_cap() {
    assert_eq!(cap_action(0, false, 10, LmdbWhenFull::Refuse), CapAction::Store);
    assert_eq!(cap_action(10, true, 10, LmdbWhenFull::Refuse), CapAction::Store);
    assert_eq!(cap_action(10, false, 9, LmdbWhenFull::Refuse), CapAction::Store);
    assert_eq!(cap_action(10, false, 10, LmdbWhenFull::Refuse), CapAction::Refuse);
    assert_eq!(cap_action(10, false, 11, LmdbWhenFull::EvictOne), CapAction::EvictThenStore);
    assert_eq!(cap_action(10, false, 10, LmdbWhenFull::Sample), CapAction::EvictThenStore);
}

#[test]
fn map_full_retries_once() {
    assert_eq!(map_full_action(LmdbWhenFull::Refuse, true), MapFullAction::Refuse);
    assert_eq!(map_full_action(LmdbWhenFull::Sample, true), MapFullAction::EvictThenRetry);
    assert_eq!(map_full_action(LmdbWhenFull::EvictOne, false), MapFullAction::GiveUp);
}

#[test]
fn sample_prefers_first_expired() {
    let exp = vec![Some(500), Some(90), Some(50)];
    assert_eq!(choose_sample_victim(&exp, 8, 100), Some(1));
}

#[test]
fn sample_falls_back_to_soonest_expiry() {
    let exp = vec![Some(500), None, Some(300), Some(300), Some(400)];
    assert_eq!(choose_sample_victim(&exp, 8, 100), Some(2));
}

#[test]
fn sample_examines_only_sample_size_entries() {
    let exp = vec![Some(500), Some(400), Some(10)];
    assert_eq!(choose_sample_victim(&exp, 2, 100), Some(1));
    assert_eq!(choose_sample_victim(&exp, 0, 100), Some(0));
}

#[test]
fn sample_without_decodable_values_has_no_victim() {
    assert_eq!(choose_sample_victim(&vec![None, None], 8, 100), None);
    assert_eq!(choose_sample_victim(&vec![], 8, 100), None);
}

#[test]
fn apply_sync_config_rejects_invalid_coupling() {
    assert_eq!(check_sync_config(LmdbSync::Periodic, None), Err(SyncConfigError::PeriodicWithoutInterval));
    assert_eq!(check_sync_config(LmdbSync::Full, Some(1000)), Err(SyncConfigError::IntervalWithoutPeriodic));
    assert_eq!(check_sync_config(LmdbSync::Periodic, Some(1000)), Ok(()));
    assert_eq!(check_sync_config(LmdbSync::NoSync, None), Ok(()));
    assert_eq!(LmdbSync::Periodic.as_str(), "periodic");
    assert_eq!(LmdbSync::NoSync.as_str(), "none");
}

#[test]
fn sync_steps_start_retune_and_stop_the_flusher() {
    assert_eq!(sync_step(LmdbSync::Full, None, LmdbSync::Full, None), SyncStep::Unchanged);
    assert_eq!(
        sync_step(LmdbSync::Full, None, LmdbSync::Periodic, Some(50)),
        SyncStep::Apply { flip_env_flags: true, flusher: FlusherStep::RunAt(50) }
    );
    assert_eq!(
        sync_step(LmdbSync::Periodic, Some(50), LmdbSync::Periodic, Some(80)),
        SyncStep::Apply { flip_env_flags: false, flusher: FlusherStep::RunAt(80) }
    );
    assert_eq!(
        sync_step(LmdbSync::Periodic, Some(80), LmdbSync::NoSync, None),
        SyncStep::Apply { flip_env_flags: true, flusher: FlusherStep::Stop }
    );
}

#[test]
fn entry_count_record() {
    assert_eq!(stored_count(Some(&7u64.to_le_bytes())), 7);
    assert_eq!(stored_count(Some(&[1u8, 2, 3])), 0);
    assert_eq!(stored_count(None), 0);
    assert_eq!(bumped_count(5, 1), 6);
    assert_eq!(bumped_count(0, -1), 0);
    assert_eq!(bumped_count(u64::MAX, 3), u64::MAX);
    assert_eq!(bumped_count(10, i64::MIN), 0);
}
