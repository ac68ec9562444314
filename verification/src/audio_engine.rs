//! The REAPER audio engine: which session a command goes to, the plugin registry of the
//! streaming plugins, and the play state of one session's project.
use vstd::prelude::*;
use crate::ids::{
    AppTaskId, PlayId, RenderId, copy_string, distinct_by, first_index, lemma_distinct_by_same_keys, lemma_first_index,
    lemma_first_index_spec,
};
use crate::project_spec::{
    AudioEngineProject, ProjectModel, SessionSpec, built_from, changed_tracks, copy_ids, ids, media_updated,
};
use crate::task_map::TaskMap;

verus! {

broadcast use vstd::seq_lib::group_seq_properties;

/// The kinds of command the audio engine executes.
#[derive(Clone, Copy, PartialEq, Eq, Structural, Debug)]
pub enum EngineCommandKind {
    SetSpec,
    Media,
    ModifySpec,
    SetDynamicParameters,
    Render,
    Play,
    UpdatePlay,
    Stop,
    Instances,
    Close,
}

/// Where a command goes.
#[derive(Clone, Copy, PartialEq, Eq, Structural, Debug)]
pub enum Dispatch {
    /// Create a session with the given spec.
    CreateSession,
    /// Give the session at this index its new spec.
    UpdateSession(usize),
    /// Hand the command to every session.
    AllSessions,
    /// Hand the command to the session at this index.
    Session(usize),
    /// The session exists but the command has no effect on it yet.
    Unsupported(usize),
    /// Close and drop the session at this index.
    CloseSession(usize),
}

/// Why the engine refused a command.
#[derive(Clone, Copy, PartialEq, Eq, Structural, Debug)]
pub enum DispatchError {
    SessionNotFound,
    /// REAPER could not write or open the session's project.
    ProjectFailed,
}

/// Whether a session id is `id`.
pub open spec fn is_session(id: (Seq<char>, Seq<char>)) -> spec_fn(AppTaskId) -> bool {
    |s: AppTaskId| s@ == id
}

pub open spec fn session_index(sessions: Seq<AppTaskId>, id: (Seq<char>, Seq<char>)) -> int {
    first_index(sessions, is_session(id))
}

/// The routing decision for a command about session `id` among the engine's sessions.
pub open spec fn dispatch_of(sessions: Seq<AppTaskId>, kind: EngineCommandKind, id: (Seq<char>, Seq<char>)) -> Result<
    Dispatch,
    DispatchError,
> {
    let i = session_index(sessions, id);
    match kind {
        EngineCommandKind::Media => Ok(Dispatch::AllSessions),
        EngineCommandKind::Instances => Ok(Dispatch::AllSessions),
        EngineCommandKind::SetSpec => if i >= 0 {
            Ok(Dispatch::UpdateSession(i as usize))
        } else {
            Ok(Dispatch::CreateSession)
        },
        _ => if i < 0 {
            Err(DispatchError::SessionNotFound)
        } else if kind == EngineCommandKind::SetDynamicParameters {
            Ok(Dispatch::Unsupported(i as usize))
        } else if kind == EngineCommandKind::Close {
            Ok(Dispatch::CloseSession(i as usize))
        } else {
            Ok(Dispatch::Session(i as usize))
        },
    }
}

/// Decides where a command about session `session_id` goes: a spec creates the session
/// or updates it, media and instance updates go to every session, and every other command
/// needs the session to exist.
pub fn dispatch_cmd(sessions: &Vec<AppTaskId>, kind: EngineCommandKind, session_id: &AppTaskId) -> (r: Result<
    Dispatch,
    DispatchError,
>)
    ensures
        r == dispatch_of(sessions@, kind, session_id@),
{
    let ghost p = is_session(session_id@);
    let n = sessions.len();
    let mut i: usize = 0;
    while i < n && !sessions[i].same_as(session_id)
        invariant
            n == sessions@.len(),
            i <= n,
            p == is_session(session_id@),
            forall|j: int| 0 <= j < i ==> !p(#[trigger] sessions@[j]),
        decreases n - i,
    {
        i = i + 1;
    }
    proof {
        lemma_first_index(sessions@, p, i as int);
    }
    let found = i < n;
    match kind {
        EngineCommandKind::Media => Ok(Dispatch::AllSessions),
        EngineCommandKind::Instances => Ok(Dispatch::AllSessions),
        EngineCommandKind::SetSpec => if found {
            Ok(Dispatch::UpdateSession(i))
        } else {
            Ok(Dispatch::CreateSession)
        },
        _ => if !found {
            Err(DispatchError::SessionNotFound)
        } else if kind == EngineCommandKind::SetDynamicParameters {
            Ok(Dispatch::Unsupported(i))
        } else if kind == EngineCommandKind::Close {
            Ok(Dispatch::CloseSession(i))
        } else {
            Ok(Dispatch::Session(i))
        },
    }
}

/// Where each command about a session that the engine holds goes: with `i` the position of
/// the session, a spec updates it, media and instance updates go to every session, a close
/// closes it, dynamic parameters are not supported yet, and modifying the spec, rendering,
/// playing, updating a play and stopping are handed to that very session. A command about
/// a session the engine does not hold is refused, except a spec, which creates it, and the
/// updates that go to every session.
pub proof fn lemma_dispatch_targets(sessions: Seq<AppTaskId>, i: int, id: (Seq<char>, Seq<char>))
    requires
        0 <= i < sessions.len(),
        sessions[i]@ == id,
        forall|j: int| 0 <= j < i ==> (#[trigger] sessions[j])@ != id,
    ensures
        dispatch_of(sessions, EngineCommandKind::SetSpec, id) == Ok::<Dispatch, DispatchError>(
            Dispatch::UpdateSession(i as usize),
        ),
        dispatch_of(sessions, EngineCommandKind::Media, id) == Ok::<Dispatch, DispatchError>(Dispatch::AllSessions),
        dispatch_of(sessions, EngineCommandKind::Instances, id) == Ok::<Dispatch, DispatchError>(Dispatch::AllSessions),
        dispatch_of(sessions, EngineCommandKind::Close, id) == Ok::<Dispatch, DispatchError>(
            Dispatch::CloseSession(i as usize),
        ),
        dispatch_of(sessions, EngineCommandKind::SetDynamicParameters, id) == Ok::<Dispatch, DispatchError>(
            Dispatch::Unsupported(i as usize),
        ),
        dispatch_of(sessions, EngineCommandKind::ModifySpec, id) == Ok::<Dispatch, DispatchError>(
            Dispatch::Session(i as usize),
        ),
        dispatch_of(sessions, EngineCommandKind::Render, id) == Ok::<Dispatch, DispatchError>(
            Dispatch::Session(i as usize),
        ),
        dispatch_of(sessions, EngineCommandKind::Play, id) == Ok::<Dispatch, DispatchError>(
            Dispatch::Session(i as usize),
        ),
        dispatch_of(sessions, EngineCommandKind::UpdatePlay, id) == Ok::<Dispatch, DispatchError>(
            Dispatch::Session(i as usize),
        ),
        dispatch_of(sessions, EngineCommandKind::Stop, id) == Ok::<Dispatch, DispatchError>(
            Dispatch::Session(i as usize),
        ),
{
    lemma_first_index(sessions, is_session(id), i);
}

/// A command about a session the engine does not hold is refused, except a spec, which
/// creates the session, and the media and instance updates, which go to every session.
pub proof fn lemma_dispatch_unknown_session(sessions: Seq<AppTaskId>, kind: EngineCommandKind, id: (Seq<char>, Seq<char>))
    requires
        forall|j: int| 0 <= j < sessions.len() ==> (#[trigger] sessions[j])@ != id,
    ensures
        kind == EngineCommandKind::SetSpec ==> dispatch_of(sessions, kind, id) == Ok::<Dispatch, DispatchError>(
            Dispatch::CreateSession,
        ),
        kind == EngineCommandKind::Media || kind == EngineCommandKind::Instances ==> dispatch_of(sessions, kind, id)
            == Ok::<Dispatch, DispatchError>(Dispatch::AllSessions),
        kind != EngineCommandKind::SetSpec && kind != EngineCommandKind::Media && kind != EngineCommandKind::Instances
            ==> dispatch_of(sessions, kind, id) == Err::<Dispatch, DispatchError>(DispatchError::SessionNotFound),
{
    lemma_first_index(sessions, is_session(id), sessions.len() as int);
}

/// Why the plugin registry could not serve a request.
#[derive(Clone, Copy, PartialEq, Eq, Structural, Debug)]
pub enum RegistryError {
    /// No streaming plugin is registered for the session.
    NoPlugin,
}

/// The streaming plugins of the sessions; `S` is the channel to a plugin.
#[derive(Debug)]
pub struct PluginRegistry<S> {
    pub plugins: TaskMap<S>,
}

impl<S> PluginRegistry<S> {
    /// A registry without plugins.
    pub fn new() -> (r: Self)
        ensures
            forall|t: (Seq<char>, Seq<char>)| r.plugins.spec_get(t) is None,
    {
        PluginRegistry { plugins: TaskMap::new() }
    }

    /// Registers the plugin of a session, replacing an earlier one.
    pub fn register(&mut self, id: AppTaskId, sender: S)
        ensures
            final(self).plugins.spec_get(id@) == Some(sender),
            forall|t: (Seq<char>, Seq<char>)| t != id@ ==> #[trigger] final(self).plugins.spec_get(t)
                == old(self).plugins.spec_get(t),
    {
        self.plugins.insert(id, sender);
    }

    /// Forgets the plugin of a session.
    pub fn unregister(&mut self, id: &AppTaskId)
        ensures
            final(self).plugins.spec_get(id@) is None,
            forall|t: (Seq<char>, Seq<char>)| t != id@ ==> #[trigger] final(self).plugins.spec_get(t)
                == old(self).plugins.spec_get(t),
    {
        let _ = self.plugins.remove(id);
    }

    /// Whether a session has a plugin.
    pub fn has(&self, id: &AppTaskId) -> (r: bool)
        ensures
            r == self.plugins.spec_get(id@) is Some,
    {
        self.plugins.get(id).is_some()
    }

    /// The plugin to send a play or flush request of a session to.
    pub fn plugin_for(&self, id: &AppTaskId) -> (r: Result<&S, RegistryError>)
        ensures
            match r {
                Ok(s) => self.plugins.spec_get(id@) == Some(*s),
                Err(e) => e == RegistryError::NoPlugin && self.plugins.spec_get(id@) is None,
            },
    {
        match self.plugins.get(id) {
            Some(s) => Ok(s),
            None => Err(RegistryError::NoPlugin),
        }
    }
}

/// A play request for a project.
#[derive(Debug)]
pub struct PlaySession {
    pub play_id: PlayId,
    pub mixer_id: String,
    pub looping: bool,
}

/// A render request for a project.
#[derive(Debug)]
pub struct RenderSession {
    pub render_id: RenderId,
    pub mixer_id: String,
}

/// The play state of a project.
#[derive(Debug)]
pub enum ProjectPlayState {
    PreparingToPlay(PlaySession),
    Playing(PlaySession),
    Rendering(RenderSession),
    Stopped,
}

/// The play state of one session's REAPER project and the mixers it holds, in order.
#[derive(Debug)]
pub struct ProjectTransport {
    pub id: AppTaskId,
    pub play_state: ProjectPlayState,
    /// Milliseconds since the epoch of the last play state change.
    pub changed_at: i64,
    pub mixers: Vec<String>,
}

/// Whether each mixer, in order, sends to the master bus: only the mixer `selected` does.
pub open spec fn master_sends_for(mixers: Seq<String>, selected: Seq<char>) -> Seq<bool> {
    Seq::new(mixers.len(), |i: int| mixers[i]@ == selected)
}

/// The mixer whose unfinished render a stop clears: that of the render under way, if any.
pub open spec fn cleared_render_of(state: ProjectPlayState) -> Option<String> {
    match state {
        ProjectPlayState::Rendering(render) => Some(render.mixer_id),
        _ => None,
    }
}

/// Whether a project has been preparing a play for more than one whole second at `now`.
pub open spec fn preparing_timed_out(p: ProjectTransport, now: i64) -> bool {
    p.play_state is PreparingToPlay && whole_seconds(p.changed_at, now) > 1
}

/// A project after its periodic check at `now`: one that timed out preparing is stopped.
pub open spec fn after_run(p: ProjectTransport, now: i64) -> ProjectTransport {
    if preparing_timed_out(p, now) {
        ProjectTransport { play_state: ProjectPlayState::Stopped, changed_at: now, ..p }
    } else {
        p
    }
}

/// Whole seconds from `since` to `now`, rounded towards zero.
pub open spec fn whole_seconds(since: i64, now: i64) -> int {
    let d = now - since;
    if d >= 0 {
        d / 1000
    } else {
        -((-d) / 1000)
    }
}

/// What starting a play asks of the project.
#[derive(Debug)]
pub struct PlayActions {
    /// The mixer whose interrupted render is to be cleared, if a render was stopped.
    pub cleared_render: Option<String>,
    /// Whether each mixer sends to the master bus.
    pub master_sends: Vec<bool>,
}

impl ProjectTransport {
    /// A stopped project whose state changed at `now`.
    pub fn new(id: AppTaskId, mixers: Vec<String>, now: i64) -> (r: Self)
        ensures
            r.id == id,
            r.mixers == mixers,
            r.play_state is Stopped,
            r.changed_at == now,
    {
        ProjectTransport { id, play_state: ProjectPlayState::Stopped, changed_at: now, mixers }
    }

    /// The streaming plugin is ready for a play: a project preparing that very play starts
    /// playing it.
    pub fn play_ready(&mut self, play_id: PlayId, now: i64)
        ensures
            final(self).id == old(self).id,
            final(self).mixers == old(self).mixers,
            match old(self).play_state {
                ProjectPlayState::PreparingToPlay(p) => if p.play_id == play_id {
                    final(self).play_state == ProjectPlayState::Playing(p) && final(self).changed_at == now
                } else {
                    final(self).play_state == old(self).play_state && final(self).changed_at == old(self).changed_at
                },
                _ => final(self).play_state == old(self).play_state && final(self).changed_at == old(self).changed_at,
            },
    {
        let mut state = ProjectPlayState::Stopped;
        std::mem::swap(&mut state, &mut self.play_state);
        match state {
            ProjectPlayState::PreparingToPlay(p) => {
                if p.play_id == play_id {
                    self.play_state = ProjectPlayState::Playing(p);
                    self.changed_at = now;
                } else {
                    self.play_state = ProjectPlayState::PreparingToPlay(p);
                }
            },
            other => {
                self.play_state = other;
            },
        }
    }

    /// A project that has been preparing a play for more than one whole second gives up:
    /// it stops and reports the timeout.
    pub fn run(&mut self, now: i64) -> (r: Option<String>)
        ensures
            *final(self) == after_run(*old(self), now),
            preparing_timed_out(*old(self), now) ==> r is Some && r->0@ == "Timed out preparing resampling or compression"@,
            !preparing_timed_out(*old(self), now) ==> r is None,
    {
        let preparing = match self.play_state {
            ProjectPlayState::PreparingToPlay(_) => true,
            _ => false,
        };
        let d: i128 = (now as i128) - (self.changed_at as i128);
        let secs: i128 = if d >= 0 { d / 1000 } else { -((-d) / 1000) };
        if preparing && secs > 1 {
            self.play_state = ProjectPlayState::Stopped;
            self.changed_at = now;
            let msg = String::from_str("Timed out preparing resampling or compression");
            Some(msg)
        } else {
            None
        }
    }

    /// Stops the project; when it was rendering, answers the mixer whose unfinished render
    /// is to be cleared.
    pub fn stop(&mut self, now: i64) -> (r: Option<String>)
        ensures
            final(self).id == old(self).id,
            final(self).mixers == old(self).mixers,
            final(self).play_state is Stopped,
            final(self).changed_at == now,
            r == cleared_render_of(old(self).play_state),
    {
        let mut state = ProjectPlayState::Stopped;
        std::mem::swap(&mut state, &mut self.play_state);
        self.changed_at = now;
        match state {
            ProjectPlayState::Rendering(render) => Some(render.mixer_id),
            _ => None,
        }
    }

    /// Whether each mixer, in order, sends to the master bus when `selected` is played.
    pub fn master_sends(&self, selected: &String) -> (r: Vec<bool>)
        ensures
            r@ == master_sends_for(self.mixers@, selected@),
    {
        let mut r: Vec<bool> = Vec::new();
        let n = self.mixers.len();
        let mut i: usize = 0;
        while i < n
            invariant
                n == self.mixers@.len(),
                i <= n,
                r@ =~= master_sends_for(self.mixers@, selected@).take(i as int),
            decreases n - i,
        {
            r.push(self.mixers[i] == *selected);
            i = i + 1;
        }
        proof {
            assert(master_sends_for(self.mixers@, selected@).take(n as int) =~= master_sends_for(self.mixers@, selected@));
        }
        r
    }

    /// Starts a play: the project stops, only the played mixer sends to the master bus, and,
    /// when the session's streaming plugin is registered, the project prepares the play;
    /// without a plugin the play fails and the project stays stopped.
    pub fn play(&mut self, play: PlaySession, has_plugin: bool, now: i64) -> (r: Result<PlayActions, RegistryError>)
        ensures
            final(self).id == old(self).id,
            final(self).mixers == old(self).mixers,
            final(self).changed_at == now,
            has_plugin ==> (r matches Ok(actions) && actions.cleared_render == cleared_render_of(old(self).play_state)
                && actions.master_sends@ == master_sends_for(old(self).mixers@, play.mixer_id@)
                && final(self).play_state == ProjectPlayState::PreparingToPlay(play)),
            !has_plugin ==> r == Err::<PlayActions, RegistryError>(RegistryError::NoPlugin) && final(self).play_state is Stopped,
    {
        let cleared_render = self.stop(now);
        let master_sends = self.master_sends(&play.mixer_id);
        if !has_plugin {
            return Err(RegistryError::NoPlugin);
        }
        self.play_state = ProjectPlayState::PreparingToPlay(play);
        Ok(PlayActions { cleared_render, master_sends })
    }

    /// Starts a render: the project stops, no mixer sends to the master bus, and the project
    /// renders; answers the mixer whose earlier unfinished render is to be cleared.
    pub fn render(&mut self, render: RenderSession, now: i64) -> (r: Option<String>)
        ensures
            final(self).id == old(self).id,
            final(self).mixers == old(self).mixers,
            final(self).changed_at == now,
            final(self).play_state == ProjectPlayState::Rendering(render),
            r == cleared_render_of(old(self).play_state),
    {
        let cleared = self.stop(now);
        self.play_state = ProjectPlayState::Rendering(render);
        cleared
    }
}

/// An error a project reports to the engine's listeners.
#[derive(Debug)]
pub struct SessionError {
    pub session_id: AppTaskId,
    pub error: String,
}

/// A session of the engine: the structure of its REAPER project and its transport.
#[derive(Debug)]
pub struct EngineSession {
    pub project: AudioEngineProject,
    pub transport: ProjectTransport,
}

/// The key of a session: its id.
pub open spec fn session_key() -> spec_fn(EngineSession) -> (Seq<char>, Seq<char>) {
    |s: EngineSession| s.transport.id@
}

/// The REAPER audio engine: its sessions, in creation order.
#[derive(Debug)]
pub struct ReaperAudioEngine {
    pub sessions: Vec<EngineSession>,
}

/// Index of the session `id`, or -1.
pub open spec fn project_index(sessions: Seq<EngineSession>, id: (Seq<char>, Seq<char>)) -> int {
    first_index(sessions, |s: EngineSession| s.transport.id@ == id)
}

/// A session after its periodic check at `now`.
pub open spec fn session_after_run(s: EngineSession, now: i64) -> EngineSession {
    EngineSession { project: s.project, transport: after_run(s.transport, now) }
}

impl ReaperAudioEngine {
    /// The sessions are keyed by id, as in a map: no two share an id; and every session's
    /// project is keyed.
    pub open spec fn wf(&self) -> bool {
        &&& distinct_by(self.sessions@, session_key())
        &&& forall|i: int| 0 <= i < self.sessions@.len() ==> (#[trigger] self.sessions@[i]).project.wf()
    }

    /// An engine without sessions.
    pub fn new() -> (r: Self)
        ensures
            r.sessions@.len() == 0,
            r.wf(),
    {
        ReaperAudioEngine { sessions: Vec::new() }
    }

    fn find_session(&self, session_id: &AppTaskId) -> (r: usize)
        ensures
            r <= self.sessions@.len(),
            r < self.sessions@.len() ==> project_index(self.sessions@, session_id@) == r
                && self.sessions@[r as int].transport.id@ == session_id@,
            r == self.sessions@.len() ==> project_index(self.sessions@, session_id@) == -1 && forall|j: int|
                0 <= j < self.sessions@.len() ==> (#[trigger] self.sessions@[j]).transport.id@ != session_id@,
    {
        let ghost p = |t: EngineSession| t.transport.id@ == session_id@;
        let n = self.sessions.len();
        let mut i: usize = 0;
        while i < n && !self.sessions[i].transport.id.same_as(session_id)
            invariant
                n == self.sessions@.len(),
                i <= n,
                p == (|t: EngineSession| t.transport.id@ == session_id@),
                forall|j: int| 0 <= j < i ==> !p(#[trigger] self.sessions@[j]),
            decreases n - i,
        {
            i = i + 1;
        }
        proof {
            lemma_first_index(self.sessions@, p, i as int);
        }
        i
    }

    /// Gives session `session_id` the spec `spec`: an existing session's project is rebuilt
    /// from it, and its transport takes the spec's mixers; otherwise a session is created,
    /// stopped since `now`, with a project built from the spec. `opened` tells whether REAPER
    /// wrote and opened the project: when it did not, the command fails and no session
    /// changes. `avail` lists the media objects that are ready.
    pub fn set_spec(
        &mut self,
        session_id: AppTaskId,
        spec: SessionSpec,
        avail: &Vec<String>,
        now: i64,
        opened: bool,
    ) -> (r: Result<(), DispatchError>)
        requires
            old(self).wf(),
            spec.wf(),
        ensures
            final(self).wf(),
            ({
                let old_s = old(self).sessions@;
                let new_s = final(self).sessions@;
                let i = project_index(old_s, session_id@);
                let model = built_from(spec@, ids(avail@));
                if !opened {
                    &&& r == Err::<(), DispatchError>(DispatchError::ProjectFailed)
                    &&& new_s == old_s
                } else if i >= 0 {
                    &&& r is Ok
                    &&& new_s.len() == old_s.len()
                    &&& forall|j: int| 0 <= j < old_s.len() && j != i ==> #[trigger] new_s[j] == old_s[j]
                    &&& new_s[i].project@ == model
                    &&& new_s[i].transport.id == old_s[i].transport.id
                    &&& new_s[i].transport.play_state == old_s[i].transport.play_state
                    &&& new_s[i].transport.changed_at == old_s[i].transport.changed_at
                    &&& ids(new_s[i].transport.mixers@) == spec@.mixers
                } else {
                    &&& r is Ok
                    &&& new_s.len() == old_s.len() + 1
                    &&& new_s.drop_last() == old_s
                    &&& new_s.last().project@ == model
                    &&& new_s.last().transport.id == session_id
                    &&& new_s.last().transport.play_state is Stopped
                    &&& new_s.last().transport.changed_at == now
                    &&& ids(new_s.last().transport.mixers@) == spec@.mixers
                }
            }),
    {
        if !opened {
            return Err(DispatchError::ProjectFailed);
        }
        let i = self.find_session(&session_id);
        let mixers = copy_ids(&spec.mixers);
        if i < self.sessions.len() {
            let ghost before = self.sessions@;
            let mut session = self.sessions.remove(i);
            session.project.set_spec(spec, avail);
            session.transport.mixers = mixers;
            self.sessions.insert(i, session);
            proof {
                assert forall|j: int| 0 <= j < before.len() && j != i implies #[trigger] self.sessions@[j] == before[j] by {
                }
                assert forall|j: int| 0 <= j < before.len() implies session_key()(#[trigger] before[j]) == session_key()(
                    self.sessions@[j],
                ) by {
                    if j != i {
                        assert(self.sessions@[j] == before[j]);
                    }
                }
                lemma_distinct_by_same_keys(before, session_key(), self.sessions@, session_key());
            }
        } else {
            let ghost before = self.sessions@;
            let ghost sid = session_id@;
            let project = AudioEngineProject::new(spec, avail);
            let transport = ProjectTransport::new(session_id, mixers, now);
            self.sessions.push(EngineSession { project, transport });
            proof {
                assert(self.sessions@.drop_last() =~= before);
                let out = self.sessions@;
                assert forall|a: int, b: int| 0 <= a < out.len() && 0 <= b < out.len() && a != b implies session_key()(
                    #[trigger] out[a],
                ) != session_key()(#[trigger] out[b]) by {
                    if a < before.len() && b < before.len() {
                        assert(out[a] == before[a] && out[b] == before[b]);
                    } else if a < before.len() {
                        assert(out[a] == before[a]);
                    } else {
                        assert(out[b] == before[b]);
                    }
                }
            }
        }
        Ok(())
    }

    /// Closes session `session_id`: the session and its project are dropped and every other
    /// session stays as it was; an unknown session is refused and nothing changes.
    pub fn close(&mut self, session_id: &AppTaskId) -> (r: Result<(), DispatchError>)
        requires
            old(self).wf(),
        ensures
            final(self).wf(),
            ({
                let i = project_index(old(self).sessions@, session_id@);
                if i < 0 {
                    &&& r == Err::<(), DispatchError>(DispatchError::SessionNotFound)
                    &&& final(self).sessions@ == old(self).sessions@
                } else {
                    &&& r is Ok
                    &&& final(self).sessions@ == old(self).sessions@.remove(i)
                    &&& forall|j: int| 0 <= j < final(self).sessions@.len() ==> (#[trigger] final(self).sessions@[j]).transport.id@
                        != session_id@
                }
            }),
    {
        let i = self.find_session(session_id);
        if i == self.sessions.len() {
            return Err(DispatchError::SessionNotFound);
        }
        let ghost before = self.sessions@;
        let _closed = self.sessions.remove(i);
        proof {
            let out = self.sessions@;
            assert forall|a: int, b: int| 0 <= a < out.len() && 0 <= b < out.len() && a != b implies session_key()(
                #[trigger] out[a],
            ) != session_key()(#[trigger] out[b]) by {
                let a2 = if a < i { a } else { a + 1 };
                let b2 = if b < i { b } else { b + 1 };
                assert(out[a] == before[a2] && out[b] == before[b2]);
            }
            assert forall|j: int| 0 <= j < out.len() implies (#[trigger] out[j]).transport.id@ != session_id@ by {
                let j2 = if j < i { j } else { j + 1 };
                assert(out[j] == before[j2]);
                assert(session_key()(before[i as int]) != session_key()(before[j2]));
            }
        }
        Ok(())
    }

    /// Hands a media update to every session: each project takes it in (see
    /// `AudioEngineProject::on_media_updated`), and the answer gives, per session in order,
    /// the tracks whose state is to be written again. The transports do not change.
    pub fn on_media_updated(&mut self, avail: &Vec<String>, removed: &Vec<String>) -> (r: Vec<Vec<String>>)
        requires
            old(self).wf(),
        ensures
            final(self).wf(),
            final(self).sessions@.len() == old(self).sessions@.len(),
            r@.len() == old(self).sessions@.len(),
            forall|i: int| 0 <= i < old(self).sessions@.len() ==> {
                let p = old(self).sessions@[i].project@;
                &&& (#[trigger] final(self).sessions@[i]).transport == old(self).sessions@[i].transport
                &&& final(self).sessions@[i].project@ == (ProjectModel {
                    media: media_updated(p.media, ids(avail@), ids(removed@)),
                    ..p
                })
                &&& ids(r@[i]@) == p.tracks.filter(
                    |t: Seq<char>| changed_tracks(p.media, ids(avail@), ids(removed@)).contains(t),
                )
            },
    {
        let mut input: Vec<EngineSession> = Vec::new();
        std::mem::swap(&mut input, &mut self.sessions);
        let ghost all = input@;
        let mut r: Vec<Vec<String>> = Vec::new();
        for session in it: input.into_iter()
            invariant
                it.seq() == all,
                all == old(self).sessions@,
                distinct_by(all, session_key()),
                forall|i: int| 0 <= i < all.len() ==> (#[trigger] all[i]).project.wf(),
                self.sessions@.len() == it.index(),
                r@.len() == it.index(),
                forall|i: int| 0 <= i < it.index() ==> {
                    let p = all[i].project@;
                    &&& (#[trigger] self.sessions@[i]).transport == all[i].transport
                    &&& self.sessions@[i].project.wf()
                    &&& self.sessions@[i].project@ == (ProjectModel {
                        media: media_updated(p.media, ids(avail@), ids(removed@)),
                        ..p
                    })
                    &&& ids(r@[i]@) == p.tracks.filter(
                        |t: Seq<char>| changed_tracks(p.media, ids(avail@), ids(removed@)).contains(t),
                    )
                },
        {
            let ghost k = it.index() as int;
            assert(session == all[k]);
            let mut session = session;
            let changed = session.project.on_media_updated(avail, removed);
            self.sessions.push(session);
            r.push(changed);
        }
        proof {
            let out = self.sessions@;
            assert forall|i: int| 0 <= i < all.len() implies session_key()(#[trigger] all[i]) == session_key()(out[i]) by {}
            lemma_distinct_by_same_keys(all, session_key(), out, session_key());
        }
        r
    }

    /// The streaming plugin of a session is ready for play `play_id`; answers whether the
    /// session exists.
    pub fn play_ready(&mut self, session_id: &AppTaskId, play_id: PlayId, now: i64) -> (r: bool)
        requires
            old(self).wf(),
        ensures
            final(self).wf(),
            ({
                let i = project_index(old(self).sessions@, session_id@);
                let old_t = old(self).sessions@[i].transport;
                let new_t = final(self).sessions@[i].transport;
                &&& r == (i >= 0)
                &&& i < 0 ==> final(self).sessions@ == old(self).sessions@
                &&& i >= 0 ==> final(self).sessions@.len() == old(self).sessions@.len()
                &&& i >= 0 ==> forall|j: int| 0 <= j < old(self).sessions@.len() && j != i ==> #[trigger] final(self).sessions@[j] == old(self).sessions@[j]
                &&& i >= 0 ==> final(self).sessions@[i].project == old(self).sessions@[i].project
                &&& i >= 0 ==> new_t.id == old_t.id
                &&& i >= 0 ==> new_t.mixers == old_t.mixers
                &&& i >= 0 ==> match old_t.play_state {
                    ProjectPlayState::PreparingToPlay(p) => if p.play_id == play_id {
                        new_t.play_state == ProjectPlayState::Playing(p) && new_t.changed_at == now
                    } else {
                        new_t.play_state == old_t.play_state && new_t.changed_at == old_t.changed_at
                    },
                    _ => new_t.play_state == old_t.play_state && new_t.changed_at == old_t.changed_at,
                }
            }),
    {
        let i = self.find_session(session_id);
        if i == self.sessions.len() {
            return false;
        }
        let ghost before = self.sessions@;
        let mut session = self.sessions.remove(i);
        session.transport.play_ready(play_id, now);
        self.sessions.insert(i, session);
        proof {
            assert forall|j: int| 0 <= j < before.len() && j != i implies #[trigger] self.sessions@[j] == before[j] by {
            }
            assert forall|j: int| 0 <= j < before.len() implies session_key()(#[trigger] before[j]) == session_key()(
                self.sessions@[j],
            ) by {
                if j != i {
                    assert(self.sessions@[j] == before[j]);
                }
            }
            lemma_distinct_by_same_keys(before, session_key(), self.sessions@, session_key());
        }
        true
    }

    /// The periodic check of every project: the projects that timed out preparing a play stop,
    /// and their errors are reported, in session order.
    pub fn run(&mut self, now: i64) -> (r: Vec<SessionError>)
        requires
            old(self).wf(),
        ensures
            final(self).wf(),
            final(self).sessions@ == old(self).sessions@.map_values(|s: EngineSession| session_after_run(s, now)),
            r@.map_values(|e: SessionError| e.session_id@) == old(self).sessions@.filter(
                |s: EngineSession| preparing_timed_out(s.transport, now),
            ).map_values(|s: EngineSession| s.transport.id@),
            forall|k: int| 0 <= k < r@.len() ==> (#[trigger] r@[k]).error@ == "Timed out preparing resampling or compression"@,
    {
        let ghost timed = |s: EngineSession| preparing_timed_out(s.transport, now);
        let ghost id_of = |s: EngineSession| s.transport.id@;
        let ghost ran = |s: EngineSession| session_after_run(s, now);
        let mut input: Vec<EngineSession> = Vec::new();
        std::mem::swap(&mut input, &mut self.sessions);
        let ghost all = input@;
        let mut errors: Vec<SessionError> = Vec::new();
        for session in it: input.into_iter()
            invariant
                it.seq() == all,
                all == old(self).sessions@,
                timed == (|s: EngineSession| preparing_timed_out(s.transport, now)),
                id_of == (|s: EngineSession| s.transport.id@),
                ran == (|s: EngineSession| session_after_run(s, now)),
                self.sessions@ == all.take(it.index() as int).map_values(ran),
                errors@.map_values(|e: SessionError| e.session_id@) == all.take(it.index() as int).filter(timed).map_values(id_of),
                forall|k: int| 0 <= k < errors@.len() ==> (#[trigger] errors@[k]).error@ == "Timed out preparing resampling or compression"@,
        {
            let ghost k = it.index() as int;
            let ghost before_errors = errors@;
            let ghost before_sessions = self.sessions@;
            let ghost s0 = session;
            proof {
                assert(all.take(k + 1) =~= all.take(k).push(session));
                all.take(k).lemma_filter_push(session, timed);
                all.take(k).filter(timed).lemma_push_map_commute(id_of, session);
            }
            let mut session = session;
            match session.transport.run(now) {
                Some(error) => {
                    errors.push(SessionError { session_id: session.transport.id.duplicate(), error });
                    proof {
                        assert(errors@.map_values(|e: SessionError| e.session_id@) =~= before_errors.map_values(
                            |e: SessionError| e.session_id@,
                        ).push(s0.transport.id@));
                    }
                },
                None => {},
            }
            self.sessions.push(session);
            proof {
                assert(self.sessions@ =~= before_sessions.push(session_after_run(s0, now)));
                assert(all.take(k + 1).map_values(ran) =~= all.take(k).map_values(ran).push(session_after_run(s0, now)));
            }
        }
        proof {
            assert(all.take(all.len() as int) =~= all);
            lemma_distinct_by_same_keys(all, session_key(), self.sessions@, session_key());
        }
        errors
    }
}

/// Closing a session that a spec has just created gives back the sessions from before:
/// creating and closing leave no trace.
pub proof fn lemma_close_undoes_create(before: Seq<EngineSession>, created: EngineSession)
    requires
        project_index(before, created.transport.id@) == -1,
    ensures
        project_index(before.push(created), created.transport.id@) == before.len(),
        before.push(created).remove(before.len() as int) == before,
{
    lemma_first_index_spec(before, |s: EngineSession| s.transport.id@ == created.transport.id@);
    let after = before.push(created);
    assert forall|j: int| 0 <= j < before.len() implies !(|s: EngineSession| s.transport.id@ == created.transport.id@)(
        #[trigger] after[j],
    ) by {
        assert(after[j] == before[j]);
    }
    lemma_first_index(after, |s: EngineSession| s.transport.id@ == created.transport.id@, before.len() as int);
    assert(after.remove(before.len() as int) =~= before);
}

/// The answer to a command request, from what the engine answered within the waiting time:
/// no answer in time is a timeout, an engine error is passed on as its text.
pub fn request_result(answer: Option<Result<(), String>>) -> (r: Result<(), String>)
    ensures
        match answer {
            None => r matches Err(e) && e@ == "Request timed out"@,
            Some(Err(e)) => r == Err::<(), String>(e),
            Some(Ok(())) => r is Ok,
        },
{
    match answer {
        None => Err(String::from_str("Request timed out")),
        Some(Err(e)) => Err(e),
        Some(Ok(())) => Ok(()),
    }
}

} // verus!
