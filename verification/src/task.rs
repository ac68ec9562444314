//! Play-state control of one task on its audio engine: what the task actor decides
//! when its desired play state changes, on every update tick, and on engine events.
use vstd::prelude::*;
use crate::ids::{AppTaskId, PlayId, RenderId, copy_string};
use crate::tasks::{TaskOpts, TaskReservation};
use crate::security::DomainError;

verus! {

/// A request to play a task's mix.
#[derive(Debug)]
pub struct RequestPlay {
    pub play_id: PlayId,
    pub mixer_id: String,
}

/// A request to render a task's mix into a media object.
#[derive(Debug)]
pub struct RequestRender {
    pub render_id: RenderId,
    pub mixer_id: String,
    pub object_id: String,
    pub put_url: String,
    pub notify_url: String,
    pub context: String,
}

impl RequestPlay {
    pub fn duplicate(&self) -> (r: Self)
        ensures
            r == *self,
    {
        RequestPlay { play_id: self.play_id, mixer_id: self.mixer_id.clone() }
    }
}

impl RequestRender {
    pub fn duplicate(&self) -> (r: Self)
        ensures
            r == *self,
    {
        RequestRender {
            render_id: self.render_id,
            mixer_id: self.mixer_id.clone(),
            object_id: self.object_id.clone(),
            put_url: self.put_url.clone(),
            notify_url: self.notify_url.clone(),
            context: self.context.clone(),
        }
    }
}

/// What the task's engine is actually doing.
#[derive(Debug)]
pub enum TaskPlayState {
    Stopped,
    PreparingToPlay(RequestPlay),
    PreparingToRender(RequestRender),
    Playing(RequestPlay),
    Rendering(RequestRender),
    StoppingPlay(PlayId),
    StoppingRender(RenderId),
}

/// What the task's clients want the engine to do.
#[derive(Debug)]
pub enum DesiredTaskPlayState {
    Stopped,
    Play(RequestPlay),
    Render(RequestRender),
}

/// What the task wants its fixed (hardware) instances to do.
#[derive(Clone, Copy, PartialEq, Eq, Structural, Debug)]
pub enum DesiredInstancePlayState {
    Stopped,
    Playing { play_id: PlayId },
    Rendering { render_id: RenderId },
}

impl TaskPlayState {
    pub open spec fn spec_is_stopped(&self) -> bool {
        self is Stopped
    }

    pub open spec fn spec_is_playing(&self, play_id: PlayId) -> bool {
        self matches TaskPlayState::Playing(p) && p.play_id == play_id
    }

    pub open spec fn spec_is_rendering(&self, render_id: RenderId) -> bool {
        self matches TaskPlayState::Rendering(r) && r.render_id == render_id
    }

    #[verifier::when_used_as_spec(spec_is_stopped)]
    pub fn is_stopped(&self) -> (r: bool)
        ensures
            r == self.spec_is_stopped(),
    {
        matches!(self, TaskPlayState::Stopped)
    }

    #[verifier::when_used_as_spec(spec_is_playing)]
    pub fn is_playing(&self, play_id: PlayId) -> (r: bool)
        ensures
            r == self.spec_is_playing(play_id),
    {
        match self {
            TaskPlayState::Playing(p) => p.play_id == play_id,
            _ => false,
        }
    }

    #[verifier::when_used_as_spec(spec_is_rendering)]
    pub fn is_rendering(&self, render_id: RenderId) -> (r: bool)
        ensures
            r == self.spec_is_rendering(render_id),
    {
        match self {
            TaskPlayState::Rendering(r) => r.render_id == render_id,
            _ => false,
        }
    }

    pub fn duplicate(&self) -> (r: Self)
        ensures
            r == *self,
    {
        match self {
            TaskPlayState::Stopped => TaskPlayState::Stopped,
            TaskPlayState::PreparingToPlay(p) => TaskPlayState::PreparingToPlay(p.duplicate()),
            TaskPlayState::PreparingToRender(r) => TaskPlayState::PreparingToRender(r.duplicate()),
            TaskPlayState::Playing(p) => TaskPlayState::Playing(p.duplicate()),
            TaskPlayState::Rendering(r) => TaskPlayState::Rendering(r.duplicate()),
            TaskPlayState::StoppingPlay(id) => TaskPlayState::StoppingPlay(*id),
            TaskPlayState::StoppingRender(id) => TaskPlayState::StoppingRender(*id),
        }
    }
}

impl DesiredTaskPlayState {
    pub open spec fn spec_is_playing_of(&self, play: &RequestPlay) -> bool {
        self matches DesiredTaskPlayState::Play(p) && p.play_id == play.play_id
    }

    pub open spec fn spec_is_rendering_of(&self, render: &RequestRender) -> bool {
        self matches DesiredTaskPlayState::Render(r) && r.render_id == render.render_id
    }

    /// Whether the desired state asks for this very play.
    #[verifier::when_used_as_spec(spec_is_playing_of)]
    pub fn is_playing_of(&self, play: &RequestPlay) -> (r: bool)
        ensures
            r == self.spec_is_playing_of(play),
    {
        match self {
            DesiredTaskPlayState::Play(p) => p.play_id == play.play_id,
            _ => false,
        }
    }

    /// Whether the desired state asks for this very render.
    #[verifier::when_used_as_spec(spec_is_rendering_of)]
    pub fn is_rendering_of(&self, render: &RequestRender) -> (r: bool)
        ensures
            r == self.spec_is_rendering_of(render),
    {
        match self {
            DesiredTaskPlayState::Render(r) => r.render_id == render.render_id,
            _ => false,
        }
    }

    pub fn duplicate(&self) -> (r: Self)
        ensures
            r == *self,
    {
        match self {
            DesiredTaskPlayState::Stopped => DesiredTaskPlayState::Stopped,
            DesiredTaskPlayState::Play(p) => DesiredTaskPlayState::Play(p.duplicate()),
            DesiredTaskPlayState::Render(r) => DesiredTaskPlayState::Render(r.duplicate()),
        }
    }
}

/// The instance play state that goes with a desired task play state.
pub open spec fn instance_state_for(desired: DesiredTaskPlayState) -> DesiredInstancePlayState {
    match desired {
        DesiredTaskPlayState::Stopped => DesiredInstancePlayState::Stopped,
        DesiredTaskPlayState::Play(p) => DesiredInstancePlayState::Playing { play_id: p.play_id },
        DesiredTaskPlayState::Render(r) => DesiredInstancePlayState::Rendering { render_id: r.render_id },
    }
}

/// Maps a desired task play state to the play state its fixed instances should take.
pub fn desired_instance_state(desired: &DesiredTaskPlayState) -> (r: DesiredInstancePlayState)
    ensures
        r == instance_state_for(*desired),
{
    match desired {
        DesiredTaskPlayState::Stopped => DesiredInstancePlayState::Stopped,
        DesiredTaskPlayState::Play(p) => DesiredInstancePlayState::Playing { play_id: p.play_id },
        DesiredTaskPlayState::Render(r) => DesiredInstancePlayState::Rendering { render_id: r.render_id },
    }
}

/// The actual and the desired play state of a task.
#[derive(Debug)]
pub struct TaskState {
    pub play_state: TaskPlayState,
    pub desired_play_state: DesiredTaskPlayState,
}

/// A command the task actor sends to its audio engine.
#[derive(Debug)]
pub enum EngineCommand {
    Play(RequestPlay),
    Render(RequestRender),
    StopPlay(PlayId),
    StopRender(RenderId),
}

/// What one update tick decides, as a value.
pub struct UpdateStep {
    pub play_state: TaskPlayState,
    pub command: Option<EngineCommand>,
    pub instances: Option<DesiredInstancePlayState>,
    pub reset_tracker: bool,
    pub emit_state: bool,
}

/// A tick that changes nothing.
pub open spec fn no_step(play: TaskPlayState) -> UpdateStep {
    UpdateStep { play_state: play, command: None, instances: None, reset_tracker: false, emit_state: false }
}

/// The decision of one update tick, from the actual and the desired play state and
/// from whether fixed instances or media are still being prepared and whether the
/// request tracker allows another attempt.
pub open spec fn update_step(
    play: TaskPlayState,
    desired: DesiredTaskPlayState,
    instances_waiting: bool,
    media_waiting: bool,
    should_retry: bool,
) -> UpdateStep {
    match play {
        TaskPlayState::Stopped => match desired {
            DesiredTaskPlayState::Play(p) => UpdateStep {
                play_state: TaskPlayState::PreparingToPlay(p),
                command: None,
                instances: Some(DesiredInstancePlayState::Playing { play_id: p.play_id }),
                reset_tracker: true,
                emit_state: true,
            },
            DesiredTaskPlayState::Render(r) => UpdateStep {
                play_state: TaskPlayState::PreparingToRender(r),
                command: None,
                instances: Some(DesiredInstancePlayState::Rendering { render_id: r.render_id }),
                reset_tracker: true,
                emit_state: true,
            },
            DesiredTaskPlayState::Stopped => no_step(play),
        },
        TaskPlayState::Rendering(r) => if !desired.spec_is_rendering_of(&r) {
            UpdateStep {
                play_state: TaskPlayState::StoppingRender(r.render_id),
                command: Some(EngineCommand::StopRender(r.render_id)),
                instances: Some(DesiredInstancePlayState::Stopped),
                reset_tracker: false,
                emit_state: true,
            }
        } else {
            no_step(play)
        },
        TaskPlayState::Playing(p) => if !desired.spec_is_playing_of(&p) {
            UpdateStep {
                play_state: TaskPlayState::StoppingPlay(p.play_id),
                command: Some(EngineCommand::StopPlay(p.play_id)),
                instances: Some(DesiredInstancePlayState::Stopped),
                reset_tracker: false,
                emit_state: true,
            }
        } else {
            no_step(play)
        },
        TaskPlayState::PreparingToRender(pr) => match desired {
            DesiredTaskPlayState::Render(r) => if pr.render_id == r.render_id && !instances_waiting
                && !media_waiting && should_retry {
                UpdateStep {
                    play_state: play,
                    command: Some(EngineCommand::Render(r)),
                    instances: None,
                    reset_tracker: false,
                    emit_state: false,
                }
            } else {
                no_step(play)
            },
            _ => no_step(play),
        },
        TaskPlayState::PreparingToPlay(pp) => match desired {
            DesiredTaskPlayState::Play(p) => if pp.play_id == p.play_id && !instances_waiting
                && should_retry {
                UpdateStep {
                    play_state: play,
                    command: Some(EngineCommand::Play(p)),
                    instances: None,
                    reset_tracker: false,
                    emit_state: false,
                }
            } else {
                no_step(play)
            },
            _ => no_step(play),
        },
        TaskPlayState::StoppingRender(id) => if should_retry {
            UpdateStep {
                play_state: play,
                command: Some(EngineCommand::StopRender(id)),
                instances: None,
                reset_tracker: false,
                emit_state: false,
            }
        } else {
            no_step(play)
        },
        TaskPlayState::StoppingPlay(id) => if should_retry {
            UpdateStep {
                play_state: play,
                command: Some(EngineCommand::StopPlay(id)),
                instances: None,
                reset_tracker: false,
                emit_state: false,
            }
        } else {
            no_step(play)
        },
    }
}

/// What an update tick asks of the surrounding actor: the command to send to the engine
/// (sending it counts as one attempt for the request tracker), whether the request
/// tracker is to be reset, and whether the new task state is to be published.
#[derive(Debug)]
pub struct TaskUpdate {
    pub command: Option<EngineCommand>,
    pub reset_tracker: bool,
    pub emit_state: bool,
}

/// An event that the audio engine reports for the task.
#[derive(Debug)]
pub enum AudioEngineEvent {
    Stopped,
    Playing { play_id: PlayId },
    Rendering { render_id: RenderId },
    RenderingFinished { render_id: RenderId, path: String },
    Error { error: String },
    PlayingFailed { play_id: PlayId, error: String },
    RenderingFailed { render_id: RenderId, error: String },
}

/// An error carried to the task's clients in the next streaming packet.
#[derive(Debug)]
pub enum PacketError {
    General(String),
    Play { play_id: PlayId, error: String },
    Render { render_id: RenderId, error: String },
}

/// The data streamed to the clients of a task: errors, audio and the play state.
#[derive(Debug)]
pub struct StreamingPacket {
    /// Milliseconds since the epoch at which the packet was started.
    pub created_at: i64,
    /// Number of compressed audio buffers collected so far.
    pub compressed_audio_frames: usize,
    pub errors: Vec<PacketError>,
    pub play_state: TaskPlayState,
    pub desired_play_state: DesiredTaskPlayState,
    /// The fixed instances the task was still waiting for when the packet went out.
    pub waiting_for_instances: Vec<String>,
    /// The media objects the task was still waiting for when the packet went out.
    pub waiting_for_media: Vec<String>,
}

/// An empty packet started at `now`.
pub open spec fn is_fresh_packet(p: StreamingPacket, now: i64) -> bool {
    &&& p.created_at == now
    &&& p.compressed_audio_frames == 0
    &&& p.errors@.len() == 0
    &&& p.play_state == TaskPlayState::Stopped
    &&& p.desired_play_state == DesiredTaskPlayState::Stopped
    &&& p.waiting_for_instances@.len() == 0
    &&& p.waiting_for_media@.len() == 0
}

/// A packet is sent once it is older than half a second or holds more audio buffers
/// than the minimum to transmit.
pub open spec fn packet_due(packet: StreamingPacket, now: i64, min_transmit_audio: usize) -> bool {
    now - packet.created_at > 500 || packet.compressed_audio_frames > min_transmit_audio
}

/// A packet is sent once its age exceeds the options' maximum age or it holds more audio
/// buffers than their maximum count.
pub open spec fn packet_due_by(packet: StreamingPacket, now: i64, opts: TaskOpts) -> bool {
    now - packet.created_at > opts.max_packet_age_ms || packet.compressed_audio_frames > opts.max_packet_audio_frames
}

/// Render completion to be reported to the media service.
#[derive(Debug)]
pub struct NotifyRenderComplete {
    pub task_id: AppTaskId,
    pub render_id: RenderId,
    pub path: String,
    pub object_id: String,
    pub put_url: String,
    pub notify_url: String,
    pub context: String,
}

/// The play state after an engine event.
pub open spec fn play_state_after_event(
    play: TaskPlayState,
    desired: DesiredTaskPlayState,
    event: AudioEngineEvent,
) -> TaskPlayState {
    match event {
        AudioEngineEvent::Stopped => TaskPlayState::Stopped,
        AudioEngineEvent::Playing { play_id } => match desired {
            DesiredTaskPlayState::Play(p) => if p.play_id == play_id && !play.spec_is_playing(play_id) {
                TaskPlayState::Playing(p)
            } else {
                play
            },
            _ => play,
        },
        AudioEngineEvent::Rendering { render_id } => match desired {
            DesiredTaskPlayState::Render(r) => if r.render_id == render_id
                && !play.spec_is_rendering(render_id) {
                TaskPlayState::Rendering(r)
            } else {
                play
            },
            _ => play,
        },
        AudioEngineEvent::Error { .. } => play,
        _ => TaskPlayState::Stopped,
    }
}

/// Whether an engine event leads to publishing the task state.
pub open spec fn event_emits_state(
    play: TaskPlayState,
    desired: DesiredTaskPlayState,
    event: AudioEngineEvent,
) -> bool {
    match event {
        AudioEngineEvent::Stopped => !play.spec_is_stopped(),
        AudioEngineEvent::Playing { .. } => play_state_after_event(play, desired, event) != play,
        AudioEngineEvent::Rendering { .. } => play_state_after_event(play, desired, event) != play,
        AudioEngineEvent::Error { .. } => false,
        _ => true,
    }
}

/// The packet error an engine event adds, if any.
pub open spec fn event_error(event: AudioEngineEvent) -> Option<PacketError> {
    match event {
        AudioEngineEvent::Error { error } => Some(PacketError::General(error)),
        AudioEngineEvent::PlayingFailed { play_id, error } => Some(PacketError::Play { play_id, error }),
        AudioEngineEvent::RenderingFailed { render_id, error } => Some(
            PacketError::Render { render_id, error },
        ),
        _ => None,
    }
}

/// Whether the task checks after the event whether its streaming packet is due.
pub open spec fn event_checks_packet(event: AudioEngineEvent) -> bool {
    !(event is Stopped) && !(event is Rendering) && !(event is Error)
}

/// The decisions of a task actor that plays and renders on one audio engine.
#[derive(Debug)]
pub struct TaskActor {
    pub id: AppTaskId,
    pub state: TaskState,
    /// The play state the task asks of its fixed instances.
    pub instances_desired: DesiredInstancePlayState,
    /// The streaming packet being filled.
    pub packet: StreamingPacket,
    /// Audio buffers above which a packet is sent even if it is young.
    pub min_transmit_audio: usize,
    /// The revision of the desired play state: it counts the changes made to it.
    pub version: u64,
}

/// The answer to a change of a task's desired play state.
#[derive(Debug)]
pub enum TaskUpdated {
    Updated { app_id: String, task_id: String, version: u64 },
}

/// What an engine event asks of the surrounding actor.
#[derive(Debug)]
pub struct EventOutcome {
    pub emit_state: bool,
    pub render_complete: Option<NotifyRenderComplete>,
    pub packet: Option<StreamingPacket>,
}

impl TaskActor {
    /// A stopped task with no desired play, a packet started at `now` and a minimum of
    /// two audio buffers per packet.
    pub fn new(id: &AppTaskId, now: i64) -> (r: Self)
        ensures
            r.id@ == id@,
            r.state.play_state == TaskPlayState::Stopped,
            r.state.desired_play_state == DesiredTaskPlayState::Stopped,
            r.instances_desired == DesiredInstancePlayState::Stopped,
            is_fresh_packet(r.packet, now),
            r.min_transmit_audio == 2,
            r.version == 0,
    {
        TaskActor {
            id: id.duplicate(),
            state: TaskState {
                play_state: TaskPlayState::Stopped,
                desired_play_state: DesiredTaskPlayState::Stopped,
            },
            instances_desired: DesiredInstancePlayState::Stopped,
            packet: StreamingPacket {
                created_at: now,
                compressed_audio_frames: 0,
                errors: Vec::new(),
                play_state: TaskPlayState::Stopped,
                desired_play_state: DesiredTaskPlayState::Stopped,
                waiting_for_instances: Vec::new(),
                waiting_for_media: Vec::new(),
            },
            min_transmit_audio: 2,
            version: 0,
        }
    }

    /// One update tick: moves the actual play state towards the desired one.
    pub fn update(&mut self, instances_waiting: bool, media_waiting: bool, should_retry: bool) -> (r:
        TaskUpdate)
        ensures
            ({
                let step = update_step(
                    old(self).state.play_state,
                    old(self).state.desired_play_state,
                    instances_waiting,
                    media_waiting,
                    should_retry,
                );
                &&& final(self).state.play_state == step.play_state
                &&& r.command == step.command
                &&& r.reset_tracker == step.reset_tracker
                &&& r.emit_state == step.emit_state
                &&& final(self).instances_desired == match step.instances {
                    Some(i) => i,
                    None => old(self).instances_desired,
                }
            }),
            final(self).state.desired_play_state == old(self).state.desired_play_state,
            final(self).id == old(self).id,
            final(self).packet == old(self).packet,
            final(self).min_transmit_audio == old(self).min_transmit_audio,
    {
        let play = self.state.play_state.duplicate();
        match play {
            TaskPlayState::Stopped => match &self.state.desired_play_state {
                DesiredTaskPlayState::Play(p) => {
                    self.instances_desired = DesiredInstancePlayState::Playing { play_id: p.play_id };
                    self.state.play_state = TaskPlayState::PreparingToPlay(p.duplicate());
                    TaskUpdate { command: None, reset_tracker: true, emit_state: true }
                },
                DesiredTaskPlayState::Render(r) => {
                    self.instances_desired = DesiredInstancePlayState::Rendering { render_id: r.render_id };
                    self.state.play_state = TaskPlayState::PreparingToRender(r.duplicate());
                    TaskUpdate { command: None, reset_tracker: true, emit_state: true }
                },
                DesiredTaskPlayState::Stopped => TaskUpdate {
                    command: None,
                    reset_tracker: false,
                    emit_state: false,
                },
            },
            TaskPlayState::Rendering(r) => {
                if !self.state.desired_play_state.is_rendering_of(&r) {
                    self.instances_desired = DesiredInstancePlayState::Stopped;
                    self.state.play_state = TaskPlayState::StoppingRender(r.render_id);
                    TaskUpdate {
                        command: Some(EngineCommand::StopRender(r.render_id)),
                        reset_tracker: false,
                        emit_state: true,
                    }
                } else {
                    TaskUpdate { command: None, reset_tracker: false, emit_state: false }
                }
            },
            TaskPlayState::Playing(p) => {
                if !self.state.desired_play_state.is_playing_of(&p) {
                    self.instances_desired = DesiredInstancePlayState::Stopped;
                    self.state.play_state = TaskPlayState::StoppingPlay(p.play_id);
                    TaskUpdate {
                        command: Some(EngineCommand::StopPlay(p.play_id)),
                        reset_tracker: false,
                        emit_state: true,
                    }
                } else {
                    TaskUpdate { command: None, reset_tracker: false, emit_state: false }
                }
            },
            TaskPlayState::PreparingToRender(pr) => match &self.state.desired_play_state {
                DesiredTaskPlayState::Render(r) => {
                    if pr.render_id == r.render_id && !instances_waiting && !media_waiting && should_retry {
                        TaskUpdate {
                            command: Some(EngineCommand::Render(r.duplicate())),
                            reset_tracker: false,
                            emit_state: false,
                        }
                    } else {
                        TaskUpdate { command: None, reset_tracker: false, emit_state: false }
                    }
                },
                _ => TaskUpdate { command: None, reset_tracker: false, emit_state: false },
            },
            TaskPlayState::PreparingToPlay(pp) => match &self.state.desired_play_state {
                DesiredTaskPlayState::Play(p) => {
                    if pp.play_id == p.play_id && !instances_waiting && should_retry {
                        TaskUpdate {
                            command: Some(EngineCommand::Play(p.duplicate())),
                            reset_tracker: false,
                            emit_state: false,
                        }
                    } else {
                        TaskUpdate { command: None, reset_tracker: false, emit_state: false }
                    }
                },
                _ => TaskUpdate { command: None, reset_tracker: false, emit_state: false },
            },
            TaskPlayState::StoppingRender(id) => {
                if should_retry {
                    TaskUpdate {
                        command: Some(EngineCommand::StopRender(id)),
                        reset_tracker: false,
                        emit_state: false,
                    }
                } else {
                    TaskUpdate { command: None, reset_tracker: false, emit_state: false }
                }
            },
            TaskPlayState::StoppingPlay(id) => {
                if should_retry {
                    TaskUpdate {
                        command: Some(EngineCommand::StopPlay(id)),
                        reset_tracker: false,
                        emit_state: false,
                    }
                } else {
                    TaskUpdate { command: None, reset_tracker: false, emit_state: false }
                }
            },
        }
    }

    /// Sets the desired play state: the fixed instances are asked for the play state that goes
    /// with it and the revision of the desired state goes up by one. The answer names the task
    /// and the new revision. No update tick runs here.
    pub fn set_desired_state(&mut self, desired: DesiredTaskPlayState) -> (r: TaskUpdated)
        requires
            old(self).version < u64::MAX,
        ensures
            final(self).state.desired_play_state == desired,
            final(self).instances_desired == instance_state_for(desired),
            final(self).version == old(self).version + 1,
            r == (TaskUpdated::Updated {
                app_id: old(self).id.app_id,
                task_id: old(self).id.task_id,
                version: final(self).version,
            }),
            final(self).state.play_state == old(self).state.play_state,
            final(self).id == old(self).id,
            final(self).packet == old(self).packet,
            final(self).min_transmit_audio == old(self).min_transmit_audio,
    {
        self.instances_desired = desired_instance_state(&desired);
        self.state.desired_play_state = desired;
        self.version = self.version + 1;
        TaskUpdated::Updated {
            app_id: self.id.app_id.clone(),
            task_id: self.id.task_id.clone(),
            version: self.version,
        }
    }

    /// Sends the streaming packet if it is due: the packet goes out with the current play
    /// states and with the fixed instances and media objects the task is waiting for, and a
    /// fresh packet started at `now` takes its place.
    pub fn maybe_emit_packet(
        &mut self,
        now: i64,
        waiting_for_instances: Vec<String>,
        waiting_for_media: Vec<String>,
    ) -> (r: Option<StreamingPacket>)
        ensures
            final(self).id == old(self).id,
            final(self).state == old(self).state,
            final(self).instances_desired == old(self).instances_desired,
            final(self).min_transmit_audio == old(self).min_transmit_audio,
            packet_due(old(self).packet, now, old(self).min_transmit_audio) ==> {
                &&& r == Some(StreamingPacket {
                    play_state: old(self).state.play_state,
                    desired_play_state: old(self).state.desired_play_state,
                    waiting_for_instances,
                    waiting_for_media,
                    ..old(self).packet
                })
                &&& is_fresh_packet(final(self).packet, now)
            },
            !packet_due(old(self).packet, now, old(self).min_transmit_audio) ==> {
                &&& r is None
                &&& final(self).packet == old(self).packet
            },
    {
        let age = (now as i128) - (self.packet.created_at as i128);
        if age > 500 || self.packet.compressed_audio_frames > self.min_transmit_audio {
            let fresh = StreamingPacket {
                created_at: now,
                compressed_audio_frames: 0,
                errors: Vec::new(),
                play_state: TaskPlayState::Stopped,
                desired_play_state: DesiredTaskPlayState::Stopped,
                waiting_for_instances: Vec::new(),
                waiting_for_media: Vec::new(),
            };
            let mut packet = fresh;
            std::mem::swap(&mut packet, &mut self.packet);
            packet.play_state = self.state.play_state.duplicate();
            packet.desired_play_state = self.state.desired_play_state.duplicate();
            packet.waiting_for_instances = waiting_for_instances;
            packet.waiting_for_media = waiting_for_media;
            Some(packet)
        } else {
            None
        }
    }

    /// Sends the streaming packet once it exceeds the age or the audio buffer count that the
    /// task options allow: the packet goes out as it is and a fresh packet started at `now`
    /// takes its place.
    pub fn maybe_send_packet(&mut self, now: i64, opts: &TaskOpts) -> (r: Option<StreamingPacket>)
        ensures
            final(self).id == old(self).id,
            final(self).state == old(self).state,
            final(self).instances_desired == old(self).instances_desired,
            final(self).min_transmit_audio == old(self).min_transmit_audio,
            packet_due_by(old(self).packet, now, *opts) ==> r == Some(old(self).packet) && is_fresh_packet(
                final(self).packet,
                now,
            ),
            !packet_due_by(old(self).packet, now, *opts) ==> r is None && final(self).packet == old(self).packet,
    {
        let age = (now as i128) - (self.packet.created_at as i128);
        if age > opts.max_packet_age_ms as i128 || self.packet.compressed_audio_frames > opts.max_packet_audio_frames {
            let mut packet = StreamingPacket {
                created_at: now,
                compressed_audio_frames: 0,
                errors: Vec::new(),
                play_state: TaskPlayState::Stopped,
                desired_play_state: DesiredTaskPlayState::Stopped,
                waiting_for_instances: Vec::new(),
                waiting_for_media: Vec::new(),
            };
            std::mem::swap(&mut packet, &mut self.packet);
            Some(packet)
        } else {
            None
        }
    }

    /// Handles an event that the audio engine reports about the task; a packet that goes out
    /// carries the fixed instances and media objects the task is waiting for.
    pub fn handle_engine_event(
        &mut self,
        event: AudioEngineEvent,
        now: i64,
        waiting_for_instances: Vec<String>,
        waiting_for_media: Vec<String>,
    ) -> (r: EventOutcome)
        ensures
            final(self).id == old(self).id,
            final(self).state.desired_play_state == old(self).state.desired_play_state,
            final(self).instances_desired == old(self).instances_desired,
            final(self).min_transmit_audio == old(self).min_transmit_audio,
            final(self).state.play_state == play_state_after_event(
                old(self).state.play_state,
                old(self).state.desired_play_state,
                event,
            ),
            r.emit_state == event_emits_state(
                old(self).state.play_state,
                old(self).state.desired_play_state,
                event,
            ),
            r.render_complete == match (event, old(self).state.play_state) {
                (
                    AudioEngineEvent::RenderingFinished { render_id, path },
                    TaskPlayState::Rendering(render),
                ) => if render.render_id == render_id {
                    Some(
                        NotifyRenderComplete {
                            task_id: old(self).id,
                            render_id,
                            path,
                            object_id: render.object_id,
                            put_url: render.put_url,
                            notify_url: render.notify_url,
                            context: render.context,
                        },
                    )
                } else {
                    None
                },
                _ => None,
            },
            ({
                let errors = match event_error(event) {
                    Some(e) => old(self).packet.errors@.push(e),
                    None => old(self).packet.errors@,
                };
                let filled = StreamingPacket {
                    errors: final(self).packet.errors,
                    ..old(self).packet
                };
                if event_checks_packet(event) && packet_due(old(self).packet, now, old(self).min_transmit_audio) {
                    &&& r.packet matches Some(p) && p.errors@ == errors
                        && p.created_at == old(self).packet.created_at
                        && p.compressed_audio_frames == old(self).packet.compressed_audio_frames
                        && p.play_state == final(self).state.play_state
                        && p.desired_play_state == final(self).state.desired_play_state
                        && p.waiting_for_instances == waiting_for_instances
                        && p.waiting_for_media == waiting_for_media
                    &&& is_fresh_packet(final(self).packet, now)
                } else {
                    &&& r.packet is None
                    &&& final(self).packet.errors@ == errors
                    &&& final(self).packet.created_at == old(self).packet.created_at
                    &&& final(self).packet.compressed_audio_frames == old(self).packet.compressed_audio_frames
                    &&& final(self).packet.play_state == old(self).packet.play_state
                    &&& final(self).packet.desired_play_state == old(self).packet.desired_play_state
                    &&& final(self).packet.waiting_for_instances == old(self).packet.waiting_for_instances
                    &&& final(self).packet.waiting_for_media == old(self).packet.waiting_for_media
                }
            }),
    {
        let mut emit_state = false;
        let mut render_complete: Option<NotifyRenderComplete> = None;
        let mut check_packet = false;
        match event {
            AudioEngineEvent::Stopped => {
                if !self.state.play_state.is_stopped() {
                    self.state.play_state = TaskPlayState::Stopped;
                    emit_state = true;
                }
            },
            AudioEngineEvent::Playing { play_id } => {
                match &self.state.desired_play_state {
                    DesiredTaskPlayState::Play(play) => {
                        if play.play_id == play_id && !self.state.play_state.is_playing(play_id) {
                            self.state.play_state = TaskPlayState::Playing(play.duplicate());
                            emit_state = true;
                        }
                    },
                    _ => {},
                }
                check_packet = true;
            },
            AudioEngineEvent::Rendering { render_id } => {
                match &self.state.desired_play_state {
                    DesiredTaskPlayState::Render(render) => {
                        if render.render_id == render_id && !self.state.play_state.is_rendering(render_id) {
                            self.state.play_state = TaskPlayState::Rendering(render.duplicate());
                            emit_state = true;
                        }
                    },
                    _ => {},
                }
            },
            AudioEngineEvent::RenderingFinished { render_id, path } => {
                match &self.state.play_state {
                    TaskPlayState::Rendering(render) => {
                        if render.render_id == render_id {
                            render_complete = Some(
                                NotifyRenderComplete {
                                    task_id: self.id.duplicate(),
                                    render_id,
                                    path,
                                    object_id: copy_string(&render.object_id),
                                    put_url: copy_string(&render.put_url),
                                    notify_url: copy_string(&render.notify_url),
                                    context: copy_string(&render.context),
                                },
                            );
                        }
                    },
                    _ => {},
                }
                self.state.play_state = TaskPlayState::Stopped;
                emit_state = true;
                check_packet = true;
            },
            AudioEngineEvent::Error { error } => {
                self.packet.errors.push(PacketError::General(error));
            },
            AudioEngineEvent::PlayingFailed { play_id, error } => {
                self.packet.errors.push(PacketError::Play { play_id, error });
                self.state.play_state = TaskPlayState::Stopped;
                emit_state = true;
                check_packet = true;
            },
            AudioEngineEvent::RenderingFailed { render_id, error } => {
                self.packet.errors.push(PacketError::Render { render_id, error });
                self.state.play_state = TaskPlayState::Stopped;
                emit_state = true;
                check_packet = true;
            },
        }
        let packet = if check_packet {
            self.maybe_emit_packet(now, waiting_for_instances, waiting_for_media)
        } else {
            None
        };
        EventOutcome { emit_state, render_complete, packet }
    }
}


/// What the engine's events do to a task's play state: a stop, a failed play or render, and
/// a finished render leave the task stopped; a report that the desired play (render) is
/// playing (rendering) makes the task play (render) it, and publishes the state when that is
/// news; a report about another play or render, or an error, leaves the play state as it
/// is, and an error is not published.
pub proof fn lemma_engine_events(play: TaskPlayState, desired: DesiredTaskPlayState, event: AudioEngineEvent)
    ensures
        ({
            let after = play_state_after_event(play, desired, event);
            let emits = event_emits_state(play, desired, event);
            match event {
                AudioEngineEvent::Stopped => after == TaskPlayState::Stopped && (emits <==> !(play is Stopped)),
                AudioEngineEvent::PlayingFailed { .. } => after == TaskPlayState::Stopped && emits,
                AudioEngineEvent::RenderingFailed { .. } => after == TaskPlayState::Stopped && emits,
                AudioEngineEvent::RenderingFinished { .. } => after == TaskPlayState::Stopped && emits,
                AudioEngineEvent::Error { .. } => after == play && !emits,
                AudioEngineEvent::Playing { play_id } => match desired {
                    DesiredTaskPlayState::Play(p) => if p.play_id == play_id {
                        if play matches TaskPlayState::Playing(q) && q.play_id == play_id {
                            after == play && !emits
                        } else {
                            after == TaskPlayState::Playing(p) && emits
                        }
                    } else {
                        after == play && !emits
                    },
                    _ => after == play && !emits,
                },
                AudioEngineEvent::Rendering { render_id } => match desired {
                    DesiredTaskPlayState::Render(r) => if r.render_id == render_id {
                        if play matches TaskPlayState::Rendering(q) && q.render_id == render_id {
                            after == play && !emits
                        } else {
                            after == TaskPlayState::Rendering(r) && emits
                        }
                    } else {
                        after == play && !emits
                    },
                    _ => after == play && !emits,
                },
            }
        }),
{
}

/// The start handshakes: a stopped task asked to play (render) prepares that very play
/// (render) at the next tick, asks its fixed instances for it, resets its request tracker and
/// publishes its state, without a command yet; once preparing, a tick sends the engine the
/// play (render) as soon as nothing is awaited and the tracker allows an attempt. A task
/// that is stopped and asked for nothing does nothing.
pub proof fn lemma_start_handshakes(
    play: TaskPlayState,
    desired: DesiredTaskPlayState,
    instances_waiting: bool,
    media_waiting: bool,
    should_retry: bool,
)
    ensures
        ({
            let step = update_step(play, desired, instances_waiting, media_waiting, should_retry);
            match (play, desired) {
                (TaskPlayState::Stopped, DesiredTaskPlayState::Play(p)) => {
                    &&& step.play_state == TaskPlayState::PreparingToPlay(p)
                    &&& step.command is None
                    &&& step.instances == Some(DesiredInstancePlayState::Playing { play_id: p.play_id })
                    &&& step.reset_tracker
                    &&& step.emit_state
                },
                (TaskPlayState::Stopped, DesiredTaskPlayState::Render(r)) => {
                    &&& step.play_state == TaskPlayState::PreparingToRender(r)
                    &&& step.command is None
                    &&& step.instances == Some(DesiredInstancePlayState::Rendering { render_id: r.render_id })
                    &&& step.reset_tracker
                    &&& step.emit_state
                },
                (TaskPlayState::Stopped, DesiredTaskPlayState::Stopped) => {
                    &&& step.play_state == play
                    &&& step.command is None
                    &&& step.instances is None
                    &&& !step.emit_state
                },
                (TaskPlayState::PreparingToPlay(pp), DesiredTaskPlayState::Play(p)) => pp.play_id == p.play_id
                    ==> step.play_state == play && (step.command == if !instances_waiting && should_retry {
                    Some(EngineCommand::Play(p))
                } else {
                    None
                }),
                (TaskPlayState::PreparingToRender(pr), DesiredTaskPlayState::Render(r)) => pr.render_id == r.render_id
                    ==> step.play_state == play && (step.command == if !instances_waiting && !media_waiting
                    && should_retry {
                    Some(EngineCommand::Render(r))
                } else {
                    None
                }),
                _ => true,
            }
        }),
{
}

/// The stop handshakes: a task that renders (plays) something the desired state no longer
/// asks for stops it at the next update tick, whatever is being prepared: it sends the
/// engine the stop of that very render (play), goes to stopping it, asks its fixed
/// instances to stop, and publishes its state. While stopping, every tick the request
/// tracker allows sends the stop again.
pub proof fn lemma_stop_handshakes(
    play: TaskPlayState,
    desired: DesiredTaskPlayState,
    instances_waiting: bool,
    media_waiting: bool,
    should_retry: bool,
)
    ensures
        ({
            let step = update_step(play, desired, instances_waiting, media_waiting, should_retry);
            match play {
                TaskPlayState::Rendering(r) => !(desired matches DesiredTaskPlayState::Render(x) && x.render_id
                    == r.render_id) ==> {
                    &&& step.command == Some(EngineCommand::StopRender(r.render_id))
                    &&& step.play_state == TaskPlayState::StoppingRender(r.render_id)
                    &&& step.instances == Some(DesiredInstancePlayState::Stopped)
                    &&& step.emit_state
                },
                TaskPlayState::Playing(p) => !(desired matches DesiredTaskPlayState::Play(x) && x.play_id
                    == p.play_id) ==> {
                    &&& step.command == Some(EngineCommand::StopPlay(p.play_id))
                    &&& step.play_state == TaskPlayState::StoppingPlay(p.play_id)
                    &&& step.instances == Some(DesiredInstancePlayState::Stopped)
                    &&& step.emit_state
                },
                TaskPlayState::StoppingRender(id) => should_retry ==> step.command == Some(
                    EngineCommand::StopRender(id),
                ) && step.play_state == play,
                TaskPlayState::StoppingPlay(id) => should_retry ==> step.command == Some(EngineCommand::StopPlay(id))
                    && step.play_state == play,
                _ => true,
            }
        }),
{
}

/// When the actual play state already is what is desired (stopped and stopped, playing
/// the desired play, rendering the desired render), an update tick changes nothing.
pub proof fn lemma_reconciled_state_is_stable(
    play: TaskPlayState,
    desired: DesiredTaskPlayState,
    instances_waiting: bool,
    media_waiting: bool,
    should_retry: bool,
)
    requires
        (play is Stopped && desired is Stopped) || (play matches TaskPlayState::Playing(p)
            && desired.spec_is_playing_of(&p)) || (play matches TaskPlayState::Rendering(r)
            && desired.spec_is_rendering_of(&r)),
    ensures
        update_step(play, desired, instances_waiting, media_waiting, should_retry) == no_step(play),
{
}

/// Every command an update tick sends is reflected in the play state it leaves behind:
/// a stop command leaves the task stopping that very play or render, a play or render
/// command leaves it preparing that very request.
pub proof fn lemma_command_matches_play_state(
    play: TaskPlayState,
    desired: DesiredTaskPlayState,
    instances_waiting: bool,
    media_waiting: bool,
    should_retry: bool,
)
    ensures
        ({
            let step = update_step(play, desired, instances_waiting, media_waiting, should_retry);
            match step.command {
                Some(EngineCommand::StopPlay(id)) => step.play_state == TaskPlayState::StoppingPlay(id),
                Some(EngineCommand::StopRender(id)) => step.play_state == TaskPlayState::StoppingRender(id),
                Some(EngineCommand::Play(p)) => step.play_state matches TaskPlayState::PreparingToPlay(q)
                    && q.play_id == p.play_id && desired == DesiredTaskPlayState::Play(p),
                Some(EngineCommand::Render(r)) => step.play_state matches TaskPlayState::PreparingToRender(q)
                    && q.render_id == r.render_id && desired == DesiredTaskPlayState::Render(r),
                None => true,
            }
        }),
{
}

/// Whenever an update tick sets the fixed instances' desired state, it is the state that
/// goes with the desired task play state when the task starts preparing, and stopped when
/// the task starts stopping.
pub proof fn lemma_instances_follow_desired(
    play: TaskPlayState,
    desired: DesiredTaskPlayState,
    instances_waiting: bool,
    media_waiting: bool,
    should_retry: bool,
)
    ensures
        ({
            let step = update_step(play, desired, instances_waiting, media_waiting, should_retry);
            step.instances matches Some(i) ==> (if step.play_state is PreparingToPlay
                || step.play_state is PreparingToRender {
                i == instance_state_for(desired)
            } else {
                i == DesiredInstancePlayState::Stopped
            })
        }),
{
}

/// The play handshake: a stopped task that is asked to play prepares, sends the play
/// command once its instances are ready, becomes playing when the engine reports that
/// play, and then stays as it is.
pub proof fn lemma_play_handshake(p: RequestPlay, media_waiting: bool)
    ensures
        ({
            let desired = DesiredTaskPlayState::Play(p);
            let s1 = update_step(TaskPlayState::Stopped, desired, true, media_waiting, true);
            let s2 = update_step(s1.play_state, desired, false, media_waiting, true);
            let s3 = play_state_after_event(s2.play_state, desired, AudioEngineEvent::Playing { play_id: p.play_id });
            &&& s1.play_state == TaskPlayState::PreparingToPlay(p)
            &&& s1.command is None
            &&& s2.command == Some(EngineCommand::Play(p))
            &&& s3 == TaskPlayState::Playing(p)
            &&& update_step(s3, desired, false, media_waiting, true) == no_step(s3)
        }),
{
}

/// The stop handshake: a playing task whose desired state becomes stopped sends a stop
/// command, becomes stopped when the engine reports it, and then stays as it is.
pub proof fn lemma_stop_handshake(p: RequestPlay, instances_waiting: bool, media_waiting: bool)
    ensures
        ({
            let desired = DesiredTaskPlayState::Stopped;
            let s1 = update_step(TaskPlayState::Playing(p), desired, instances_waiting, media_waiting, true);
            let s2 = play_state_after_event(s1.play_state, desired, AudioEngineEvent::Stopped);
            &&& s1.play_state == TaskPlayState::StoppingPlay(p.play_id)
            &&& s1.command == Some(EngineCommand::StopPlay(p.play_id))
            &&& s1.instances == Some(DesiredInstancePlayState::Stopped)
            &&& s2 == TaskPlayState::Stopped
            &&& update_step(s2, desired, instances_waiting, media_waiting, true) == no_step(s2)
        }),
{
}

/// The render handshake: a stopped task asked to render prepares, sends the render command
/// once instances and media are ready, becomes rendering when the engine reports it, and
/// is stopped once the engine reports the render finished.
pub proof fn lemma_render_handshake(r: RequestRender, path: String)
    ensures
        ({
            let desired = DesiredTaskPlayState::Render(r);
            let s1 = update_step(TaskPlayState::Stopped, desired, false, false, true);
            let s2 = update_step(s1.play_state, desired, false, false, true);
            let s3 = play_state_after_event(s2.play_state, desired, AudioEngineEvent::Rendering { render_id: r.render_id });
            let s4 = play_state_after_event(s3, desired, AudioEngineEvent::RenderingFinished { render_id: r.render_id, path });
            &&& s1.play_state == TaskPlayState::PreparingToRender(r)
            &&& s2.command == Some(EngineCommand::Render(r))
            &&& s3 == TaskPlayState::Rendering(r)
            &&& update_step(s3, desired, false, false, true) == no_step(s3)
            &&& s4 == TaskPlayState::Stopped
        }),
{
}


/// An audio engine and the number of sessions it runs.
#[derive(Debug)]
pub struct EngineLoad {
    pub engine_id: String,
    pub num_sessions: usize,
}

/// A task known to the sessions supervisor.
#[derive(Debug)]
pub struct Session {
    pub id: AppTaskId,
    pub reservations: TaskReservation,
}

/// A task whose actor runs, and the engine it runs on.
#[derive(Debug)]
pub struct ActiveSession {
    pub id: AppTaskId,
    pub engine_id: String,
}

/// Index of the first engine with the fewest sessions, or -1 when there is no engine.
pub open spec fn least_loaded(engines: Seq<EngineLoad>) -> int
    decreases engines.len(),
{
    if engines.len() == 0 {
        -1
    } else {
        let i = least_loaded(engines.drop_last());
        if i >= 0 && engines[i].num_sessions <= engines.last().num_sessions {
            i
        } else {
            engines.len() - 1
        }
    }
}

/// Index of the first entry for task `id`, or -1 when there is none.
pub open spec fn index_of_task(active: Seq<ActiveSession>, id: (Seq<char>, Seq<char>)) -> int
    decreases active.len(),
{
    if active.len() == 0 {
        -1
    } else if active[0].id@ == id {
        0
    } else {
        let r = index_of_task(active.drop_first(), id);
        if r < 0 {
            -1
        } else {
            r + 1
        }
    }
}

/// The active list after starting `id` on `engine_id`: the first entry for the same task
/// is replaced, otherwise the entry is appended.
pub open spec fn with_active(active: Seq<ActiveSession>, id: AppTaskId, engine_id: String) -> Seq<ActiveSession> {
    let e = ActiveSession { id, engine_id };
    let i = index_of_task(active, id@);
    if i >= 0 {
        active.update(i, e)
    } else {
        active.push(e)
    }
}

proof fn lemma_index_of_task(active: Seq<ActiveSession>, id: (Seq<char>, Seq<char>), i: int)
    requires
        0 <= i <= active.len(),
        forall|j: int| 0 <= j < i ==> (#[trigger] active[j]).id@ != id,
        i == active.len() || active[i].id@ == id,
    ensures
        index_of_task(active, id) == if i == active.len() { -1 } else { i },
    decreases i,
{
    if i > 0 {
        let t = active.drop_first();
        assert forall|j: int| 0 <= j < i - 1 implies (#[trigger] t[j]).id@ != id by {
            assert(t[j] == active[j + 1]);
        }
        lemma_index_of_task(t, id, i - 1);
    }
}

/// The supervisor that starts one task actor per reserved session once it is online.
#[derive(Debug)]
pub struct SessionsSupervisor {
    pub sessions: Vec<Session>,
    pub engines: Vec<EngineLoad>,
    pub active: Vec<ActiveSession>,
    pub online: bool,
}

/// The active sessions after going online at `now`: every session whose reservation
/// contains `now` is started on the least loaded engine, when there is one.
pub open spec fn started_sessions(
    active: Seq<ActiveSession>,
    sessions: Seq<Session>,
    engines: Seq<EngineLoad>,
    now: i64,
) -> Seq<ActiveSession>
    decreases sessions.len(),
{
    if sessions.len() == 0 {
        active
    } else {
        let before = started_sessions(active, sessions.drop_last(), engines, now);
        let s = sessions.last();
        if s.reservations.spec_contains(now) && least_loaded(engines) >= 0 {
            with_active(before, s.id, engines[least_loaded(engines)].engine_id)
        } else {
            before
        }
    }
}

proof fn lemma_least_loaded(engines: Seq<EngineLoad>)
    ensures
        engines.len() == 0 ==> least_loaded(engines) == -1,
        engines.len() > 0 ==> {
            let i = least_loaded(engines);
            &&& 0 <= i < engines.len()
            &&& forall|j: int| 0 <= j < engines.len() ==> engines[i].num_sessions <= (#[trigger] engines[j]).num_sessions
            &&& forall|j: int| 0 <= j < i ==> (#[trigger] engines[j]).num_sessions > engines[i].num_sessions
        },
    decreases engines.len(),
{
    if engines.len() > 0 {
        let d = engines.drop_last();
        lemma_least_loaded(d);
        let i = least_loaded(engines);
        let k = least_loaded(d);
        assert forall|j: int| 0 <= j < engines.len() implies engines[i].num_sessions <= (
        #[trigger] engines[j]).num_sessions by {
            if j < d.len() {
                assert(d[j] == engines[j]);
            }
        }
        assert forall|j: int| 0 <= j < i implies (#[trigger] engines[j]).num_sessions
            > engines[i].num_sessions by {
            if j < d.len() {
                assert(d[j] == engines[j]);
                if i < d.len() {
                    assert(d[i] == engines[i]);
                }
            }
        }
    }
}

impl SessionsSupervisor {
    /// The engine with the fewest sessions (the first such engine on a tie), if any.
    pub fn allocate_engine(&self) -> (r: Option<String>)
        ensures
            self.engines@.len() == 0 ==> r is None,
            self.engines@.len() > 0 ==> r == Some(self.engines@[least_loaded(self.engines@)].engine_id),
            self.engines@.len() > 0 ==> forall|j: int| 0 <= j < self.engines@.len() ==>
                self.engines@[least_loaded(self.engines@)].num_sessions <= (#[trigger] self.engines@[j]).num_sessions,
    {
        proof {
            lemma_least_loaded(self.engines@);
        }
        let n = self.engines.len();
        if n == 0 {
            return None;
        }
        let mut best: usize = 0;
        let mut i: usize = 1;
        proof {
            assert(self.engines@.take(1).drop_last() =~= Seq::<EngineLoad>::empty());
            assert(least_loaded(Seq::<EngineLoad>::empty()) == -1);
            assert(least_loaded(self.engines@.take(1)) == 0);
        }
        while i < n
            invariant
                1 <= i <= n,
                n == self.engines@.len(),
                best as int == least_loaded(self.engines@.take(i as int)),
            decreases n - i,
        {
            proof {
                assert(self.engines@.take(i as int + 1).drop_last() =~= self.engines@.take(i as int));
                lemma_least_loaded(self.engines@.take(i as int));
            }
            if !(self.engines[best].num_sessions <= self.engines[i].num_sessions) {
                best = i;
            }
            i = i + 1;
        }
        proof {
            assert(self.engines@.take(n as int) =~= self.engines@);
        }
        Some(copy_string(&self.engines[best].engine_id))
    }

    fn insert_active(&mut self, id: AppTaskId, engine_id: String)
        ensures
            final(self).active@ == with_active(old(self).active@, id, engine_id),
            final(self).sessions == old(self).sessions,
            final(self).engines == old(self).engines,
            final(self).online == old(self).online,
    {
        let n = self.active.len();
        let mut i: usize = 0;
        while i < n
            invariant
                n == self.active@.len(),
                i <= n,
                self.active == old(self).active,
                self.sessions == old(self).sessions,
                self.engines == old(self).engines,
                self.online == old(self).online,
                forall|j: int| 0 <= j < i ==> (#[trigger] self.active@[j]).id@ != id@,
            decreases n - i,
        {
            if self.active[i].id.same_as(&id) {
                proof {
                    lemma_index_of_task(self.active@, id@, i as int);
                }
                self.active.remove(i);
                self.active.insert(i, ActiveSession { id, engine_id });
                return;
            }
            i = i + 1;
        }
        proof {
            lemma_index_of_task(self.active@, id@, n as int);
        }
        self.active.push(ActiveSession { id, engine_id });
    }

    /// The active session that a request for task `task_id` goes to, or the error that the
    /// task has no active session.
    pub fn active_session(&self, task_id: &AppTaskId) -> (r: Result<usize, DomainError>)
        ensures
            ({
                let i = index_of_task(self.active@, task_id@);
                if i >= 0 {
                    r == Ok::<usize, DomainError>(i as usize)
                } else {
                    r matches Err(DomainError::TaskNotFound { task_id: t }) && t == *task_id
                }
            }),
    {
        let n = self.active.len();
        let mut i: usize = 0;
        while i < n && !self.active[i].id.same_as(task_id)
            invariant
                n == self.active@.len(),
                i <= n,
                forall|j: int| 0 <= j < i ==> (#[trigger] self.active@[j]).id@ != task_id@,
            decreases n - i,
        {
            i = i + 1;
        }
        proof {
            lemma_index_of_task(self.active@, task_id@, i as int);
        }
        if i < n {
            Ok(i)
        } else {
            Err(DomainError::TaskNotFound { task_id: task_id.duplicate() })
        }
    }

    /// Goes online once: every session whose reservation contains `now` gets an actor on
    /// the least loaded engine (when there is an engine). Going online again does nothing.
    pub fn become_online(&mut self, now: i64)
        ensures
            final(self).online,
            final(self).sessions == old(self).sessions,
            final(self).engines == old(self).engines,
            old(self).online ==> final(self).active == old(self).active,
            !old(self).online ==> final(self).active@ == started_sessions(
                old(self).active@,
                old(self).sessions@,
                old(self).engines@,
                now,
            ),
    {
        if self.online {
            return;
        }
        self.online = true;
        let n = self.sessions.len();
        let mut i: usize = 0;
        while i < n
            invariant
                n == self.sessions@.len(),
                i <= n,
                self.online,
                self.sessions == old(self).sessions,
                self.engines == old(self).engines,
                self.active@ == started_sessions(
                    old(self).active@,
                    old(self).sessions@.take(i as int),
                    old(self).engines@,
                    now,
                ),
            decreases n - i,
        {
            proof {
                assert(self.sessions@.take(i as int + 1).drop_last() =~= self.sessions@.take(i as int));
                lemma_least_loaded(self.engines@);
            }
            if self.sessions[i].reservations.contains(now) {
                match self.allocate_engine() {
                    Some(engine_id) => {
                        let id = self.sessions[i].id.duplicate();
                        self.insert_active(id, engine_id);
                    },
                    None => {},
                }
            }
            i = i + 1;
        }
        proof {
            assert(self.sessions@.take(n as int) =~= self.sessions@);
        }
    }
}

/// Makes the sessions supervisor go online at `now`.
pub fn become_online(supervisor: &mut SessionsSupervisor, now: i64)
    ensures
        final(supervisor).online,
        final(supervisor).sessions == old(supervisor).sessions,
        !old(supervisor).online ==> final(supervisor).active@ == started_sessions(
            old(supervisor).active@,
            old(supervisor).sessions@,
            old(supervisor).engines@,
            now,
        ),
        old(supervisor).online ==> final(supervisor).active == old(supervisor).active,
{
    supervisor.become_online(now);
}

/// The sessions supervisor starts empty, offline, over the sessions and engines it is given.
pub fn init(sessions: Vec<Session>, engines: Vec<EngineLoad>) -> (r: SessionsSupervisor)
    ensures
        r.sessions == sessions,
        r.engines == engines,
        r.active@.len() == 0,
        !r.online,
{
    SessionsSupervisor { sessions, engines, active: Vec::new(), online: false }
}

} // verus!
