use audiocloud::audio_engine::{
    dispatch_cmd, Dispatch, DispatchError, EngineCommandKind, PlaySession, PluginRegistry, ProjectPlayState, ReaperAudioEngine, request_result,
    ProjectTransport, RegistryError, RenderSession,
};
use audiocloud::chunk::{beautify_chunk, quote};
use audiocloud::control_surface::{ControlSurfaceState, EngineMode, ReaperTrackId, SurfaceEvent, TrackIdError};
use audiocloud::guids::{track_uuid_from_guid, uuid_from_guid};
use audiocloud::ids::{AppTaskId, PlayId, RenderId};
use audiocloud::project_spec::{MediaSpec, SessionSpec};

fn sid(n: &str) -> AppTaskId {
    AppTaskId::new("app".to_string(), n.to_string())
}

fn play(n: u64, mixer: &str) -> PlaySession {
    PlaySession { play_id: PlayId(n), mixer_id: mixer.to_string(), looping: false }
}

#[test]
fn commands_go_to_their_session() {
    let sessions = vec![sid("a"), sid("b")];
    assert_eq!(dispatch_cmd(&sessions, EngineCommandKind::SetSpec, &sid("b")), Ok(Dispatch::UpdateSession(1)));
    assert_eq!(dispatch_cmd(&sessions, EngineCommandKind::SetSpec, &sid("c")), Ok(Dispatch::CreateSession));
    assert_eq!(dispatch_cmd(&sessions, EngineCommandKind::Media, &sid("c")), Ok(Dispatch::AllSessions));
    assert_eq!(dispatch_cmd(&sessions, EngineCommandKind::Instances, &sid("c")), Ok(Dispatch::AllSessions));
    assert_eq!(dispatch_cmd(&sessions, EngineCommandKind::Play, &sid("a")), Ok(Dispatch::Session(0)));
    assert_eq!(dispatch_cmd(&sessions, EngineCommandKind::Close, &sid("b")), Ok(Dispatch::CloseSession(1)));
    assert_eq!(dispatch_cmd(&sessions, EngineCommandKind::SetDynamicParameters, &sid("a")), Ok(Dispatch::Unsupported(0)));
    assert_eq!(dispatch_cmd(&sessions, EngineCommandKind::Stop, &sid("z")), Err(DispatchError::SessionNotFound));
    assert_eq!(dispatch_cmd(&sessions, EngineCommandKind::ModifySpec, &sid("z")), Err(DispatchError::SessionNotFound));
}

#[test]
fn plugin_registry_lookup() {
    let mut reg: PluginRegistry<u32> = PluginRegistry::new();
    assert!(!reg.has(&sid("a")));
    assert_eq!(reg.plugin_for(&sid("a")).err(), Some(RegistryError::NoPlugin));
    reg.register(sid("a"), 7);
    reg.register(sid("a"), 8);
    assert!(reg.has(&sid("a")));
    assert_eq!(reg.plugin_for(&sid("a")), Ok(&8));
    reg.unregister(&sid("a"));
    assert!(!reg.has(&sid("a")));
}

#[test]
fn play_then_ready() {
    let mut p = ProjectTransport::new(sid("a"), vec!["m1".to_string(), "m2".to_string()], 0);
    let actions = p.play(play(3, "m2"), true, 100).expect("plugin present");
    assert_eq!(actions.master_sends, vec![false, true]);
    assert_eq!(actions.cleared_render, None);
    assert!(matches!(p.play_state, ProjectPlayState::PreparingToPlay(_)));
    p.play_ready(PlayId(4), 150);
    assert!(matches!(p.play_state, ProjectPlayState::PreparingToPlay(_)));
    p.play_ready(PlayId(3), 200);
    assert!(matches!(p.play_state, ProjectPlayState::Playing(ref s) if s.play_id == PlayId(3)));
    assert_eq!(p.changed_at, 200);
}

#[test]
fn play_without_plugin_fails() {
    let mut p = ProjectTransport::new(sid("a"), vec!["m1".to_string()], 0);
    assert_eq!(p.play(play(1, "m1"), false, 10).err(), Some(RegistryError::NoPlugin));
    assert!(matches!(p.play_state, ProjectPlayState::Stopped));
}

#[test]
fn preparing_times_out_after_a_second() {
    let mut p = ProjectTransport::new(sid("a"), vec![], 0);
    let _ = p.play(play(1, "m"), true, 1000);
    assert_eq!(p.run(2999), None);
    let err = p.run(3000).expect("timed out");
    assert_eq!(err, "Timed out preparing resampling or compression");
    assert!(matches!(p.play_state, ProjectPlayState::Stopped));
}

#[test]
fn render_and_stop_clear_unfinished_render() {
    let mut p = ProjectTransport::new(sid("a"), vec!["m".to_string()], 0);
    let cleared = p.render(RenderSession { render_id: RenderId(1), mixer_id: "m".to_string() }, 10);
    assert_eq!(cleared, None);
    assert!(matches!(p.play_state, ProjectPlayState::Rendering(_)));
    let again = p.render(RenderSession { render_id: RenderId(2), mixer_id: "m".to_string() }, 20);
    assert_eq!(again, Some("m".to_string()));
    assert_eq!(p.stop(30), Some("m".to_string()));
    assert_eq!(p.stop(40), None);
    assert_eq!(p.changed_at, 40);
    assert_eq!(p.master_sends(&"m".to_string()), vec![true]);
}

#[test]
fn beautified_chunk_is_indented() {
    let chunk = "  <TRACK\n NAME x \n\n  <FX\nA 1\n  >\n>\n".to_string();
    assert_eq!(beautify_chunk(chunk), "<TRACK\n\tNAME x\n\t<FX\n\t\tA 1\n\t>\n>");
    assert_eq!(beautify_chunk(String::new()), "");
    let once = beautify_chunk("  <A\n\n   <B \n x\n>\n  >  ".to_string());
    assert_eq!(once, "<A\n\t<B\n\t\tx\n\t>\n>");
    assert_eq!(beautify_chunk(once.clone()), once);
}

#[test]
fn quoting() {
    assert_eq!(quote("out:t1".to_string()), "\"out:t1\"");
    assert_eq!(quote(String::new()), "\"\"");
}

#[test]
fn track_names_round_trip() {
    let input = ReaperTrackId::Input("mixer:a".to_string());
    assert_eq!(input.to_string(), "inp:mixer:a");
    match ReaperTrackId::from_str(&input.to_string()) {
        Ok(ReaperTrackId::Input(id)) => assert_eq!(id, "mixer:a"),
        other => panic!("unexpected {:?}", other),
    }
    let output = ReaperTrackId::Output("t".to_string());
    assert_eq!(output.to_string(), "out:t");
    assert!(matches!(ReaperTrackId::from_str("out:t"), Ok(ReaperTrackId::Output(ref id)) if id == "t"));
    assert!(matches!(ReaperTrackId::from_str("nothing"), Err(TrackIdError::MissingDelimiter)));
    assert!(matches!(ReaperTrackId::from_str("xyz:a"), Err(TrackIdError::UnknownTag(ref t)) if t == "xyz"));
    assert!(matches!(ReaperTrackId::from_str("input:a"), Err(TrackIdError::UnknownTag(ref t)) if t == "input"));
}

#[test]
fn render_end_reports_file() {
    let mut s = ControlSurfaceState::new(false);
    s.mode = EngineMode::Rendering(RenderSession { render_id: RenderId(9), mixer_id: "m".to_string() });
    assert!(!s.render_ends(false));
    assert!(s.render_ends(true));
    let out = s.update_play_state(true, true, Some("/r.wav".to_string()));
    assert!(out.clear_parent_sends);
    assert_eq!(out.remove_file, None);
    assert_eq!(out.events.len(), 1);
    assert!(matches!(&out.events[0], SurfaceEvent::RenderingFinished { render_id: RenderId(9), path } if path == "/r.wav"));
    assert!(matches!(s.mode, EngineMode::Stopped));
    assert!(s.is_playing);
}

#[test]
fn interrupted_render_deletes_file() {
    let mut s = ControlSurfaceState::new(false);
    s.mode = EngineMode::Rendering(RenderSession { render_id: RenderId(9), mixer_id: "m".to_string() });
    let out = s.update_play_state(true, false, Some("/r.wav".to_string()));
    assert_eq!(out.remove_file, Some("/r.wav".to_string()));
    assert_eq!(out.events.len(), 1);
    assert!(matches!(&out.events[0], SurfaceEvent::RenderingFailed { render_id: RenderId(9), reason } if reason == "rendering interrupted"));
}

#[test]
fn surface_ignores_other_transport_changes() {
    let mut s = ControlSurfaceState::new(true);
    s.mode = EngineMode::Playing(play(2, "m"));
    let out = s.update_play_state(true, false, None);
    assert!(out.events.is_empty() && !out.clear_parent_sends);
    assert!(matches!(s.mode, EngineMode::Playing(_)));
    let out = s.update_play_state(false, false, None);
    assert!(!out.clear_parent_sends);
    let out = s.update_play_state(true, false, None);
    assert!(out.clear_parent_sends && out.events.is_empty());
    assert!(matches!(s.mode, EngineMode::Stopped));
}

#[test]
fn streaming_setup_callbacks() {
    let mut s = ControlSurfaceState::new(false);
    s.mode = EngineMode::Playing(play(2, "m"));
    assert!(s.on_streaming_setup_complete(PlayId(2)));
    assert!(!s.on_streaming_setup_complete(PlayId(3)));
    assert!(s.on_streaming_setup_error(PlayId(3), "x".to_string()).is_none());
    match s.on_streaming_setup_error(PlayId(2), "no codec".to_string()) {
        Some(SurfaceEvent::PlayingFailed { play_id, error }) => {
            assert_eq!(play_id, PlayId(2));
            assert_eq!(error, "no codec");
        },
        other => panic!("unexpected {:?}", other),
    }
}

#[test]
fn guids_read_as_uuids() {
    let guid = "{550E8400-E29B-41D4-A716-446655440000}";
    let bytes = uuid_from_guid(guid).expect("valid guid");
    assert_eq!(bytes[0], 0x55);
    assert_eq!(bytes[15], 0x00);
    assert_eq!(bytes[6], 0x41);
    assert_eq!(track_uuid_from_guid(guid), bytes);
    assert_eq!(uuid_from_guid("{not a guid}"), None);
    let random = track_uuid_from_guid("{garbage}");
    assert_eq!(random[6] >> 4, 4);
    assert_eq!(random[8] >> 6, 2);
}

fn spec_with_mixer(mixer: &str) -> SessionSpec {
    SessionSpec { tracks: vec![], media: vec![], fixed: vec![], mixers: vec![mixer.to_string()], connections: vec![] }
}

#[test]
fn engine_checks_every_project() {
    let mut engine = ReaperAudioEngine::new();
    for name in ["a", "b", "c"] {
        assert_eq!(engine.set_spec(sid(name), spec_with_mixer("m"), &vec![], 0, true), Ok(()));
    }
    let _ = engine.sessions[0].transport.play(play(1, "m"), true, 0);
    let _ = engine.sessions[2].transport.play(play(2, "m"), true, 0);
    assert!(engine.play_ready(&sid("c"), PlayId(2), 500));
    assert!(!engine.play_ready(&sid("zz"), PlayId(2), 500));
    let errors = engine.run(2500);
    assert_eq!(errors.len(), 1);
    assert_eq!(errors[0].session_id.task_id, "a");
    assert_eq!(errors[0].error, "Timed out preparing resampling or compression");
    assert!(matches!(engine.sessions[0].transport.play_state, ProjectPlayState::Stopped));
    assert!(matches!(engine.sessions[2].transport.play_state, ProjectPlayState::Playing(_)));
    assert!(engine.run(10_000).is_empty());
}

#[test]
fn set_spec_creates_or_rebuilds_sessions() {
    let mut engine = ReaperAudioEngine::new();
    assert_eq!(engine.set_spec(sid("a"), spec_with_mixer("m1"), &vec![], 5, false), Err(DispatchError::ProjectFailed));
    assert!(engine.sessions.is_empty());
    assert_eq!(engine.set_spec(sid("a"), spec_with_mixer("m1"), &vec![], 5, true), Ok(()));
    assert_eq!(engine.set_spec(sid("b"), spec_with_mixer("m2"), &vec![], 6, true), Ok(()));
    assert_eq!(engine.sessions.len(), 2);
    assert_eq!(engine.sessions[0].project.mixers, vec!["m1".to_string()]);
    assert_eq!(engine.sessions[0].transport.changed_at, 5);
    assert_eq!(engine.set_spec(sid("a"), spec_with_mixer("m3"), &vec![], 9, true), Ok(()));
    assert_eq!(engine.sessions.len(), 2);
    assert_eq!(engine.sessions[0].project.mixers, vec!["m3".to_string()]);
    assert_eq!(engine.sessions[0].project.spec.mixers, vec!["m3".to_string()]);
    assert_eq!(engine.sessions[0].transport.mixers, vec!["m3".to_string()]);
    assert_eq!(engine.sessions[0].transport.changed_at, 5);
    assert_eq!(engine.set_spec(sid("b"), spec_with_mixer("m4"), &vec![], 9, false), Err(DispatchError::ProjectFailed));
    assert_eq!(engine.sessions[1].project.mixers, vec!["m2".to_string()]);
}

#[test]
fn close_drops_only_that_session() {
    let mut engine = ReaperAudioEngine::new();
    for name in ["a", "b", "c"] {
        assert_eq!(engine.set_spec(sid(name), spec_with_mixer("m"), &vec![], 0, true), Ok(()));
    }
    assert_eq!(engine.close(&sid("b")), Ok(()));
    assert_eq!(engine.sessions.len(), 2);
    assert_eq!(engine.sessions[0].transport.id.task_id, "a");
    assert_eq!(engine.sessions[1].transport.id.task_id, "c");
    assert_eq!(engine.close(&sid("b")), Err(DispatchError::SessionNotFound));
    assert_eq!(engine.sessions.len(), 2);
    assert_eq!(engine.set_spec(sid("d"), spec_with_mixer("m"), &vec![], 3, true), Ok(()));
    assert_eq!(engine.close(&sid("d")), Ok(()));
    assert_eq!(engine.sessions.len(), 2);
    assert_eq!(engine.sessions[1].transport.id.task_id, "c");
}

#[test]
fn request_answers() {
    assert_eq!(request_result(None), Err("Request timed out".to_string()));
    assert_eq!(request_result(Some(Err("bad spec".to_string()))), Err("bad spec".to_string()));
    assert_eq!(request_result(Some(Ok(()))), Ok(()));
}

#[test]
fn media_updates_reach_every_session() {
    let mut engine = ReaperAudioEngine::new();
    for (name, object) in [("a", "o1"), ("b", "o2")] {
        let mut spec = spec_with_mixer("m");
        spec.tracks.push("t".to_string());
        spec.media.push(MediaSpec { track_id: "t".to_string(), media_id: "x".to_string(), object_id: object.to_string() });
        assert_eq!(engine.set_spec(sid(name), spec, &vec![], 0, true), Ok(()));
    }
    let changed = engine.on_media_updated(&vec!["o2".to_string()], &vec![]);
    assert_eq!(changed, vec![vec![], vec!["t".to_string()]]);
    assert!(!engine.sessions[0].project.media[0].ready);
    assert!(engine.sessions[1].project.media[0].ready);
}
