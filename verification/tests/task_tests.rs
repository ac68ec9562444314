use audiocloud::ids::{AppTaskId, PlayId, RenderId};
use audiocloud::task::{
    become_online, desired_instance_state, init, AudioEngineEvent, DesiredInstancePlayState, DesiredTaskPlayState,
    EngineCommand, EngineLoad, PacketError, RequestPlay, RequestRender, Session, TaskActor, TaskPlayState, TaskUpdated,
};
use audiocloud::tasks::{TaskOpts, TaskReservation};

fn id() -> AppTaskId {
    AppTaskId::new("app".to_string(), "task".to_string())
}

fn play(n: u64) -> RequestPlay {
    RequestPlay { play_id: PlayId(n), mixer_id: "mix".to_string() }
}

fn render(n: u64) -> RequestRender {
    RequestRender {
        render_id: RenderId(n),
        mixer_id: "mix".to_string(),
        object_id: "obj".to_string(),
        put_url: "put".to_string(),
        notify_url: "notify".to_string(),
        context: "ctx".to_string(),
    }
}

#[test]
fn instance_state_follows_desired() {
    assert_eq!(desired_instance_state(&DesiredTaskPlayState::Stopped), DesiredInstancePlayState::Stopped);
    assert_eq!(desired_instance_state(&DesiredTaskPlayState::Play(play(3))), DesiredInstancePlayState::Playing { play_id: PlayId(3) });
    assert_eq!(
        desired_instance_state(&DesiredTaskPlayState::Render(render(4))),
        DesiredInstancePlayState::Rendering { render_id: RenderId(4) }
    );
}

#[test]
fn play_handshake() {
    let mut actor = TaskActor::new(&id(), 0);
    assert!(actor.state.play_state.is_stopped());
    let answer = actor.set_desired_state(DesiredTaskPlayState::Play(play(1)));
    assert!(matches!(answer, TaskUpdated::Updated { ref app_id, ref task_id, version: 1 } if app_id == "app" && task_id == "task"));
    assert!(actor.state.play_state.is_stopped());
    assert_eq!(actor.instances_desired, DesiredInstancePlayState::Playing { play_id: PlayId(1) });
    let u = actor.update(false, false, true);
    assert!(matches!(actor.state.play_state, TaskPlayState::PreparingToPlay(ref p) if p.play_id == PlayId(1)));
    assert!(u.command.is_none() && u.reset_tracker && u.emit_state);
    assert_eq!(actor.instances_desired, DesiredInstancePlayState::Playing { play_id: PlayId(1) });

    let waiting = actor.update(true, false, true);
    assert!(waiting.command.is_none());
    let u = actor.update(false, false, true);
    assert!(matches!(u.command, Some(EngineCommand::Play(ref p)) if p.play_id == PlayId(1)));
    assert!(!u.emit_state);

    let out = actor.handle_engine_event(AudioEngineEvent::Playing { play_id: PlayId(1) }, 10, vec![], vec![]);
    assert!(out.emit_state);
    assert!(actor.state.play_state.is_playing(PlayId(1)));
    let again = actor.handle_engine_event(AudioEngineEvent::Playing { play_id: PlayId(1) }, 20, vec![], vec![]);
    assert!(!again.emit_state);
}

#[test]
fn stop_handshake() {
    let mut actor = TaskActor::new(&id(), 0);
    actor.set_desired_state(DesiredTaskPlayState::Play(play(1)));
    actor.update(false, false, true);
    actor.update(false, false, true);
    actor.handle_engine_event(AudioEngineEvent::Playing { play_id: PlayId(1) }, 10, vec![], vec![]);
    let answer = actor.set_desired_state(DesiredTaskPlayState::Stopped);
    assert!(matches!(answer, TaskUpdated::Updated { version: 2, .. }));
    assert_eq!(actor.instances_desired, DesiredInstancePlayState::Stopped);
    let u = actor.update(false, false, true);
    assert!(matches!(u.command, Some(EngineCommand::StopPlay(PlayId(1)))));
    assert!(matches!(actor.state.play_state, TaskPlayState::StoppingPlay(PlayId(1))));
    assert_eq!(actor.instances_desired, DesiredInstancePlayState::Stopped);
    let retry = actor.update(false, false, true);
    assert!(matches!(retry.command, Some(EngineCommand::StopPlay(PlayId(1)))));
    let no_retry = actor.update(false, false, false);
    assert!(no_retry.command.is_none());
    let out = actor.handle_engine_event(AudioEngineEvent::Stopped, 20, vec![], vec![]);
    assert!(out.emit_state);
    assert!(actor.state.play_state.is_stopped());
}

#[test]
fn render_handshake_reports_completion() {
    let mut actor = TaskActor::new(&id(), 0);
    actor.set_desired_state(DesiredTaskPlayState::Render(render(5)));
    assert_eq!(actor.instances_desired, DesiredInstancePlayState::Rendering { render_id: RenderId(5) });
    actor.update(false, false, true);
    let blocked = actor.update(false, true, true);
    assert!(blocked.command.is_none());
    let u = actor.update(false, false, true);
    assert!(matches!(u.command, Some(EngineCommand::Render(ref r)) if r.render_id == RenderId(5)));
    actor.handle_engine_event(AudioEngineEvent::Rendering { render_id: RenderId(5) }, 10, vec![], vec![]);
    assert!(actor.state.play_state.is_rendering(RenderId(5)));
    let out = actor.handle_engine_event(AudioEngineEvent::RenderingFinished { render_id: RenderId(5), path: "/tmp/out.wav".to_string() }, 20, vec![], vec![]);
    let done = out.render_complete.expect("render completion");
    assert_eq!(done.render_id, RenderId(5));
    assert_eq!(done.path, "/tmp/out.wav");
    assert_eq!(done.object_id, "obj");
    assert_eq!(done.task_id.task_id, "task");
    assert!(actor.state.play_state.is_stopped());
}

#[test]
fn errors_go_into_the_packet() {
    let mut actor = TaskActor::new(&id(), 0);
    let out = actor.handle_engine_event(AudioEngineEvent::Error { error: "boom".to_string() }, 100, vec![], vec![]);
    assert!(out.packet.is_none());
    assert!(!out.emit_state);
    assert_eq!(actor.packet.errors.len(), 1);
    let out = actor.handle_engine_event(
        AudioEngineEvent::PlayingFailed { play_id: PlayId(2), error: "late".to_string() },
        600, vec![], vec![]);
    let packet = out.packet.expect("packet is due after half a second");
    assert_eq!(packet.errors.len(), 2);
    assert!(matches!(&packet.errors[0], PacketError::General(e) if e == "boom"));
    assert!(matches!(&packet.errors[1], PacketError::Play { play_id: PlayId(2), error } if error == "late"));
    assert_eq!(actor.packet.created_at, 600);
    assert!(actor.packet.errors.is_empty());
}

#[test]
fn packet_sent_when_old_or_full() {
    let mut actor = TaskActor::new(&id(), 0);
    assert!(actor.maybe_emit_packet(500, vec![], vec![]).is_none());
    let p = actor.maybe_emit_packet(501, vec!["i1".to_string()], vec!["m1".to_string(), "m2".to_string()]).expect("older than half a second");
    assert_eq!(p.waiting_for_instances, vec!["i1".to_string()]);
    assert_eq!(p.waiting_for_media.len(), 2);
    assert!(actor.packet.waiting_for_media.is_empty());
    assert_eq!(p.created_at, 0);
    assert_eq!(actor.packet.created_at, 501);
    actor.packet.compressed_audio_frames = 3;
    let p = actor.maybe_emit_packet(502, vec![], vec![]).expect("more audio than the minimum");
    assert_eq!(p.compressed_audio_frames, 3);
}

#[test]
fn sessions_start_on_least_loaded_engine() {
    let sessions = vec![
        Session { id: AppTaskId::new("a".to_string(), "1".to_string()), reservations: TaskReservation { from: 0, to: 100 } },
        Session { id: AppTaskId::new("a".to_string(), "2".to_string()), reservations: TaskReservation { from: 200, to: 300 } },
    ];
    let engines = vec![
        EngineLoad { engine_id: "busy".to_string(), num_sessions: 5 },
        EngineLoad { engine_id: "idle".to_string(), num_sessions: 1 },
        EngineLoad { engine_id: "idle2".to_string(), num_sessions: 1 },
    ];
    let mut sup = init(sessions, engines);
    assert!(!sup.online);
    assert_eq!(sup.allocate_engine(), Some("idle".to_string()));
    become_online(&mut sup, 50);
    assert!(sup.online);
    assert_eq!(sup.active.len(), 1);
    assert_eq!(sup.active[0].id.task_id, "1");
    assert_eq!(sup.active[0].engine_id, "idle");
    become_online(&mut sup, 250);
    assert_eq!(sup.active.len(), 1);
}

#[test]
fn packets_follow_task_options() {
    let opts = TaskOpts::default();
    let mut actor = TaskActor::new(&id(), 1000);
    assert!(actor.maybe_send_packet(1250, &opts).is_none());
    let p = actor.maybe_send_packet(1251, &opts).expect("older than the maximum age");
    assert_eq!(p.created_at, 1000);
    assert_eq!(actor.packet.created_at, 1251);
    actor.packet.compressed_audio_frames = 4;
    assert!(actor.maybe_send_packet(1252, &opts).is_none());
    actor.packet.compressed_audio_frames = 5;
    let p = actor.maybe_send_packet(1253, &opts).expect("more buffers than the maximum count");
    assert_eq!(p.compressed_audio_frames, 5);
    assert_eq!(actor.packet.compressed_audio_frames, 0);
}

#[test]
fn new_desired_play_reaches_the_instances_at_once() {
    let mut actor = TaskActor::new(&id(), 0);
    actor.set_desired_state(DesiredTaskPlayState::Play(play(1)));
    actor.update(false, false, true);
    actor.update(false, false, true);
    actor.handle_engine_event(AudioEngineEvent::Playing { play_id: PlayId(1) }, 10, vec![], vec![]);
    assert!(actor.state.play_state.is_playing(PlayId(1)));
    let answer = actor.set_desired_state(DesiredTaskPlayState::Play(play(2)));
    assert!(matches!(answer, TaskUpdated::Updated { version: 2, .. }));
    assert_eq!(actor.instances_desired, DesiredInstancePlayState::Playing { play_id: PlayId(2) });
    assert!(actor.state.play_state.is_playing(PlayId(1)));
}
