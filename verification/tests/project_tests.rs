use audiocloud::media_jobs::{
    record_update, AppMediaObjectId, DbConfig, RecordedState, TransferJobs, TransferKind, TransferUpdate,
};
use audiocloud::project_spec::{
    AudioEngineProject, Connection, FlowKind, MediaSpec, ModifyOutcome, ModifySessionSpec, ProjectError,
    SessionFlowId, SessionSpec,
};

fn s(x: &str) -> String {
    x.to_string()
}

fn flow(kind: FlowKind, id: &str) -> SessionFlowId {
    SessionFlowId::new(kind, s(id))
}

fn spec() -> SessionSpec {
    SessionSpec {
        tracks: vec![s("t1")],
        media: vec![MediaSpec { track_id: s("t1"), media_id: s("m1"), object_id: s("o1") }],
        fixed: vec![s("f1")],
        mixers: vec![s("mx")],
        connections: vec![
            Connection { id: s("c1"), to: flow(FlowKind::MixerInput, "mx") },
            Connection { id: s("c2"), to: flow(FlowKind::TrackOutput, "t1") },
        ],
    }
}

fn flows(v: &[SessionFlowId]) -> Vec<(FlowKind, String)> {
    v.iter().map(|f| (f.kind, f.id.clone())).collect()
}

#[test]
fn project_built_from_spec() {
    let p = AudioEngineProject::new(spec(), &vec![s("o1")]);
    assert_eq!(p.tracks, vec![s("t1")]);
    assert_eq!(p.media.len(), 1);
    assert!(p.media[0].ready);
    let q = AudioEngineProject::new(spec(), &vec![]);
    assert!(!q.media[0].ready);
}

#[test]
fn transaction_marks_touched_flows() {
    let mut p = AudioEngineProject::new(spec(), &vec![]);
    let tx = vec![
        ModifySessionSpec::AddMixer { mixer_id: s("m2") },
        ModifySessionSpec::AddTrack { track_id: s("t2") },
        ModifySessionSpec::AddTrackMedia { track_id: s("t2"), media_id: s("m9"), object_id: s("o9") },
        ModifySessionSpec::AddConnection { connection_id: s("c3"), to: flow(FlowKind::MixerInput, "m2") },
    ];
    match p.modify_spec(tx, &vec![s("o9")]) {
        Ok(ModifyOutcome::Committed(dirty)) => assert_eq!(
            flows(&dirty),
            vec![(FlowKind::MixerInput, s("m2")), (FlowKind::MixerOutput, s("m2")), (FlowKind::TrackOutput, s("t2"))]
        ),
        other => panic!("unexpected {:?}", other),
    }
    assert_eq!(p.mixers, vec![s("mx"), s("m2")]);
    assert_eq!(p.tracks, vec![s("t1"), s("t2")]);
    assert_eq!(p.media.len(), 2);
    assert!(p.media[1].ready);
}

#[test]
fn failed_transaction_rolls_back() {
    let mut p = AudioEngineProject::new(spec(), &vec![]);
    let tx = vec![
        ModifySessionSpec::AddMixer { mixer_id: s("m2") },
        ModifySessionSpec::DeleteTrack { track_id: s("t1") },
        ModifySessionSpec::AddTrackMedia { track_id: s("nope"), media_id: s("m"), object_id: s("o") },
    ];
    assert!(matches!(p.modify_spec(tx, &vec![s("o1")]), Ok(ModifyOutcome::RolledBack)));
    assert_eq!(p.mixers, vec![s("mx")]);
    assert_eq!(p.tracks, vec![s("t1")]);
    assert_eq!(p.media.len(), 1);
    assert!(p.media[0].ready);
}

#[test]
fn unknown_targets_fail_when_written() {
    let mut p = AudioEngineProject::new(spec(), &vec![]);
    let tx = vec![ModifySessionSpec::AddConnection { connection_id: s("c9"), to: flow(FlowKind::MixerInput, "ghost") }];
    match p.modify_spec(tx, &vec![]) {
        Err(ProjectError::FlowNotFound(f)) => assert_eq!((f.kind, f.id), (FlowKind::MixerInput, s("ghost"))),
        other => panic!("unexpected {:?}", other),
    }
    let tx = vec![ModifySessionSpec::AddConnection { connection_id: s("c9"), to: flow(FlowKind::DynamicInstanceInput, "d") }];
    assert!(matches!(p.modify_spec(tx, &vec![]), Err(ProjectError::DynamicNotSupported)));
}

#[test]
fn single_modifications_and_their_errors() {
    let mut p = AudioEngineProject::new(spec(), &vec![]);
    let mut dirty = Vec::new();
    assert!(matches!(
        p.modify_spec_one(ModifySessionSpec::UpdateTrackMedia { track_id: s("t1"), media_id: s("zz") }, &vec![], &mut dirty),
        Err(ProjectError::MediaNotFound(ref m)) if m == "zz"
    ));
    assert!(matches!(
        p.modify_spec_one(ModifySessionSpec::DeleteTrackMedia { track_id: s("t9"), media_id: s("m1") }, &vec![], &mut dirty),
        Err(ProjectError::TrackNotFound(ref t)) if t == "t9"
    ));
    assert!(matches!(
        p.modify_spec_one(ModifySessionSpec::SetConnectionParameterValues { connection_id: s("c9") }, &vec![], &mut dirty),
        Err(ProjectError::ConnectionNotFound(ref c)) if c == "c9"
    ));
    assert!(matches!(
        p.modify_spec_one(ModifySessionSpec::SetConnectionParameterValues { connection_id: s("c2") }, &vec![], &mut dirty),
        Err(ProjectError::UnsupportedTarget)
    ));
    assert!(p.modify_spec_one(ModifySessionSpec::SetConnectionParameterValues { connection_id: s("c1") }, &vec![], &mut dirty).is_ok());
    assert!(dirty.is_empty());

    assert!(p.modify_spec_one(ModifySessionSpec::UpdateTrackMedia { track_id: s("t1"), media_id: s("m1") }, &vec![s("o1")], &mut dirty).is_ok());
    assert!(p.media[0].ready);
    assert_eq!(flows(&dirty), vec![(FlowKind::TrackOutput, s("t1"))]);

    assert!(p.modify_spec_one(ModifySessionSpec::DeleteConnection { connection_id: s("c1") }, &vec![], &mut dirty).is_ok());
    assert_eq!(p.spec.connections.len(), 1);
    assert_eq!(flows(&dirty), vec![(FlowKind::TrackOutput, s("t1")), (FlowKind::MixerInput, s("mx"))]);

    assert!(p.modify_spec_one(ModifySessionSpec::DeleteMixer { mixer_id: s("mx") }, &vec![], &mut dirty).is_ok());
    assert!(p.mixers.is_empty());
    assert!(matches!(
        p.modify_spec_one(ModifySessionSpec::SetConnectionParameterValues { connection_id: s("c2") }, &vec![], &mut dirty),
        Err(ProjectError::UnsupportedTarget)
    ));
}

#[test]
fn add_then_delete_restores() {
    let mut p = AudioEngineProject::new(spec(), &vec![]);
    let mut dirty = Vec::new();
    p.modify_spec_one(ModifySessionSpec::AddFixedInstance { fixed_id: s("f2") }, &vec![], &mut dirty).unwrap();
    assert_eq!(p.fixed, vec![s("f1"), s("f2")]);
    p.modify_spec_one(ModifySessionSpec::DeleteFixedInstance { fixed_id: s("f2") }, &vec![], &mut dirty).unwrap();
    assert_eq!(p.fixed, vec![s("f1")]);
    assert_eq!(flows(&dirty), vec![(FlowKind::FixedInstanceInput, s("f2")), (FlowKind::FixedInstanceOutput, s("f2"))]);
}

#[test]
fn transfer_retries_until_success() {
    let mut jobs: TransferJobs<&str> = TransferJobs::new();
    let id = AppMediaObjectId::new(s("app"), s("media"));
    assert_eq!(id.relative_path(), "app/media");
    assert!(jobs.finished(&id, true).is_none());
    jobs.add(AppMediaObjectId::new(s("app"), s("media")), "https://up");
    let (update, job) = jobs.finished(&id, false).expect("a transfer under way");
    assert_eq!(update, TransferUpdate::Retrying { retry: 0 });
    assert!(jobs.jobs.is_empty());
    jobs.requeue(job);
    let (update, job) = jobs.finished(&id, false).expect("a transfer under way");
    assert_eq!(update, TransferUpdate::Retrying { retry: 1 });
    jobs.requeue(job);
    assert_eq!(jobs.jobs[0].retry, 2);
    let (update, job) = jobs.finished(&id, true).expect("a transfer under way");
    assert_eq!(update, TransferUpdate::Completed);
    assert_eq!(job.spec, "https://up");
    assert!(jobs.jobs.is_empty());
    assert!(jobs.finished(&id, false).is_none());
}

#[test]
fn a_failed_attempt_whose_record_fails_is_dropped() {
    let mut jobs: TransferJobs<u8> = TransferJobs::new();
    jobs.add(AppMediaObjectId::new(s("a"), s("1")), 1);
    let (update, _job) = jobs.finished(&AppMediaObjectId::new(s("a"), s("1")), false).expect("a transfer under way");
    assert_eq!(update, TransferUpdate::Retrying { retry: 0 });
    assert!(jobs.jobs.is_empty());
}

#[test]
fn adding_a_transfer_again_restarts_it() {
    let mut jobs: TransferJobs<u8> = TransferJobs::new();
    jobs.add(AppMediaObjectId::new(s("a"), s("1")), 1);
    jobs.add(AppMediaObjectId::new(s("a"), s("2")), 2);
    let (_, job) = jobs.finished(&AppMediaObjectId::new(s("a"), s("1")), false).expect("a transfer under way");
    jobs.requeue(job);
    assert_eq!(jobs.jobs[1].retry, 1);
    jobs.add(AppMediaObjectId::new(s("a"), s("1")), 3);
    assert_eq!(jobs.jobs.len(), 2);
    assert_eq!(jobs.jobs[1].spec, 3);
    assert_eq!(jobs.jobs[1].retry, 0);
}

#[test]
fn default_database_is_in_memory() {
    assert_eq!(DbConfig::default_database_url(), "sqlite::memory:");
}

#[test]
fn finished_uploads_record_their_path() {
    let id = AppMediaObjectId::new(s("app"), s("media"));
    let up = record_update(TransferKind::Upload, &id, TransferUpdate::Completed);
    assert_eq!(up.state, RecordedState::Completed);
    assert_eq!(up.path, Some(s("app/media")));
    let down = record_update(TransferKind::Download, &id, TransferUpdate::Completed);
    assert_eq!(down.state, RecordedState::Completed);
    assert_eq!(down.path, None);
    let again = record_update(TransferKind::Upload, &id, TransferUpdate::Retrying { retry: 2 });
    assert_eq!(again.state, RecordedState::InProgress { retry: 2 });
    assert_eq!(again.path, None);
}

#[test]
fn media_updates_follow_available_and_removed_objects() {
    let mut sp = spec();
    sp.tracks.push(s("t2"));
    sp.media.push(MediaSpec { track_id: s("t2"), media_id: s("m2"), object_id: s("o2") });
    let mut p = AudioEngineProject::new(sp, &vec![s("o2")]);
    assert!(!p.media[0].ready && p.media[1].ready);
    let changed = p.on_media_updated(&vec![s("o1")], &vec![]);
    assert_eq!(changed, vec![s("t1")]);
    assert!(p.media[0].ready && p.media[1].ready);
    let changed = p.on_media_updated(&vec![], &vec![s("o1"), s("o2")]);
    assert_eq!(changed, vec![s("t1"), s("t2")]);
    assert!(!p.media[0].ready && !p.media[1].ready);
    assert!(p.on_media_updated(&vec![], &vec![s("o1")]).is_empty());
}
