//! The engine's control surface: how its tracks are named, and how its mode follows the
//! transport of REAPER.
use vstd::prelude::*;
use crate::ids::{first_index, lemma_first_index, PlayId, RenderId};
use crate::audio_engine::{PlaySession, RenderSession};

verus! {

/// A track of the control surface: the input or the output of a session object, named by
/// the object's id.
#[derive(Debug)]
pub enum ReaperTrackId {
    Input(String),
    Output(String),
}

impl View for ReaperTrackId {
    /// Whether it is an input, and the object's id.
    type V = (bool, Seq<char>);

    open spec fn view(&self) -> (bool, Seq<char>) {
        match self {
            ReaperTrackId::Input(id) => (true, id@),
            ReaperTrackId::Output(id) => (false, id@),
        }
    }
}

/// Why a track name could not be read.
#[derive(Debug)]
pub enum TrackIdError {
    MissingDelimiter,
    UnknownTag(String),
}

pub open spec fn input_tag() -> Seq<char> {
    seq!['i', 'n', 'p']
}

pub open spec fn output_tag() -> Seq<char> {
    seq!['o', 'u', 't']
}

/// The name of a track: its tag, a colon, and the object's id.
pub open spec fn track_id_text(id: (bool, Seq<char>)) -> Seq<char> {
    (if id.0 {
        input_tag()
    } else {
        output_tag()
    }) + seq![':'] + id.1
}

/// Index of the first colon of `s`, or -1.
pub open spec fn delimiter_index(s: Seq<char>) -> int {
    first_index(s, |c: char| c == ':')
}

impl ReaperTrackId {
    /// The track's name.
    pub fn to_string(&self) -> (r: String)
        ensures
            r@ == track_id_text(self@),
    {
        match self {
            ReaperTrackId::Input(id) => {
                let mut r = String::from_str("inp:");
                proof {
                    reveal_strlit("inp:");
                    assert("inp:"@ =~= input_tag() + seq![':']);
                }
                r.append(id.as_str());
                r
            },
            ReaperTrackId::Output(id) => {
                let mut r = String::from_str("out:");
                proof {
                    reveal_strlit("out:");
                    assert("out:"@ =~= output_tag() + seq![':']);
                }
                r.append(id.as_str());
                r
            },
        }
    }

    /// Reads a track name: the text before the first colon is the tag, `inp` or `out`, and
    /// the text after it the object's id.
    pub fn from_str(s: &str) -> (r: Result<ReaperTrackId, TrackIdError>)
        ensures
            ({
                let i = delimiter_index(s@);
                if i < 0 {
                    r matches Err(TrackIdError::MissingDelimiter)
                } else if s@.take(i) == input_tag() {
                    r matches Ok(id) && id@ == (true, s@.skip(i + 1))
                } else if s@.take(i) == output_tag() {
                    r matches Ok(id) && id@ == (false, s@.skip(i + 1))
                } else {
                    r matches Err(TrackIdError::UnknownTag(t)) && t@ == s@.take(i)
                }
            }),
    {
        let ghost p = |c: char| c == ':';
        let n = s.unicode_len();
        let mut i: usize = 0;
        while i < n && s.get_char(i) != ':'
            invariant
                n == s@.len(),
                i <= n,
                p == (|c: char| c == ':'),
                forall|j: int| 0 <= j < i ==> !p(#[trigger] s@[j]),
            decreases n - i,
        {
            i = i + 1;
        }
        proof {
            lemma_first_index(s@, p, i as int);
        }
        if i == n {
            return Err(TrackIdError::MissingDelimiter);
        }
        let tag = s.substring_char(0, i);
        let rest = s.substring_char(i + 1, n);
        proof {
            assert(tag@ =~= s@.take(i as int));
            assert(rest@ =~= s@.skip(i + 1));
        }
        let is_input = i == 3 && tag.get_char(0) == 'i' && tag.get_char(1) == 'n' && tag.get_char(2) == 'p';
        let is_output = i == 3 && tag.get_char(0) == 'o' && tag.get_char(1) == 'u' && tag.get_char(2) == 't';
        proof {
            assert(is_input <==> tag@ =~= input_tag());
            assert(is_output <==> tag@ =~= output_tag());
        }
        if is_input {
            Ok(ReaperTrackId::Input(String::from_str(rest)))
        } else if is_output {
            Ok(ReaperTrackId::Output(String::from_str(rest)))
        } else {
            Err(TrackIdError::UnknownTag(String::from_str(tag)))
        }
    }
}

/// Reading the name of a track gives the track back.
pub proof fn lemma_track_id_round_trip(id: (bool, Seq<char>))
    ensures
        ({
            let s = track_id_text(id);
            let i = delimiter_index(s);
            &&& i == 3
            &&& s.take(i) == (if id.0 { input_tag() } else { output_tag() })
            &&& s.take(i) != (if id.0 { output_tag() } else { input_tag() })
            &&& s.skip(i + 1) == id.1
        }),
{
    let s = track_id_text(id);
    let tag = if id.0 { input_tag() } else { output_tag() };
    assert(s[3] == ':');
    assert(s[0] != ':' && s[1] != ':' && s[2] != ':');
    lemma_first_index(s, |c: char| c == ':', 3);
    assert(s.take(3) =~= tag);
    assert(s.skip(4) =~= id.1);
    if id.0 {
        assert(s.take(3)[0] != output_tag()[0]);
    } else {
        assert(s.take(3)[0] != input_tag()[0]);
    }
}

/// What the engine is doing.
#[derive(Debug)]
pub enum EngineMode {
    Stopped,
    Rendering(RenderSession),
    Playing(PlaySession),
}

/// What the control surface reports to the engine.
#[derive(Debug)]
pub enum SurfaceEvent {
    RenderingFinished { render_id: RenderId, path: String },
    RenderingFailed { render_id: RenderId, reason: String },
    PlayingFailed { play_id: PlayId, error: String },
}

/// What the control surface does after REAPER's transport changed: the events it reports,
/// a rendered file to delete, and whether every track stops sending to the master bus.
#[derive(Debug)]
pub struct TransportOutcome {
    pub events: Vec<SurfaceEvent>,
    pub remove_file: Option<String>,
    pub clear_parent_sends: bool,
}

/// The control surface's mode and the last transport state it saw.
#[derive(Debug)]
pub struct ControlSurfaceState {
    pub mode: EngineMode,
    pub is_playing: bool,
}

/// Whether the transport went from not playing to playing, the change on which the mode
/// ends.
pub open spec fn mode_ends(was_playing: bool, now_playing: bool) -> bool {
    !was_playing && now_playing
}

pub open spec fn interrupted_reason() -> Seq<char> {
    "rendering interrupted"@
}

impl ControlSurfaceState {
    pub fn new(is_playing: bool) -> (r: Self)
        ensures
            r.mode is Stopped,
            r.is_playing == is_playing,
    {
        ControlSurfaceState { mode: EngineMode::Stopped, is_playing }
    }

    /// Whether the next transport change to `now_playing` ends a render, so that the file
    /// rendered on the mixer's output track is to be collected first.
    pub fn render_ends(&self, now_playing: bool) -> (r: bool)
        ensures
            r == (self.mode is Rendering && mode_ends(self.is_playing, now_playing)),
    {
        match self.mode {
            EngineMode::Rendering(_) => !self.is_playing && now_playing,
            _ => false,
        }
    }

    /// Follows REAPER's transport. When the mode ends, a render reports its file when it
    /// reached the end of its segment (`reached_end`) and deletes it otherwise, reporting the
    /// failure; any mode then clears the tracks' master sends and stops.
    pub fn update_play_state(&mut self, now_playing: bool, reached_end: bool, rendered_path: Option<String>) -> (r:
        TransportOutcome)
        ensures
            final(self).is_playing == now_playing,
            !mode_ends(old(self).is_playing, now_playing) || old(self).mode is Stopped ==> {
                &&& final(self).mode == old(self).mode
                &&& r.events@.len() == 0
                &&& r.remove_file is None
                &&& !r.clear_parent_sends
            },
            mode_ends(old(self).is_playing, now_playing) && old(self).mode is Playing ==> {
                &&& final(self).mode is Stopped
                &&& r.events@.len() == 0
                &&& r.remove_file is None
                &&& r.clear_parent_sends
            },
            mode_ends(old(self).is_playing, now_playing) && old(self).mode is Rendering ==> {
                let render_id = old(self).mode->Rendering_0.render_id;
                &&& final(self).mode is Stopped
                &&& r.clear_parent_sends
                &&& r.remove_file == (if reached_end { None } else { rendered_path })
                &&& r.events@.len() == (if reached_end && rendered_path is Some { 1int } else if reached_end {
                    0int
                } else {
                    1int
                })
                &&& reached_end && rendered_path is Some ==> (r.events@[0] matches SurfaceEvent::RenderingFinished {
                    render_id: id,
                    path,
                } && id == render_id && Some(path) == rendered_path)
                &&& !reached_end ==> (r.events@[0] matches SurfaceEvent::RenderingFailed { render_id: id, reason }
                    && id == render_id && reason@ == interrupted_reason())
            },
    {
        let ends = !self.is_playing && now_playing;
        self.is_playing = now_playing;
        let mut events: Vec<SurfaceEvent> = Vec::new();
        if !ends {
            return TransportOutcome { events, remove_file: None, clear_parent_sends: false };
        }
        let mut mode = EngineMode::Stopped;
        std::mem::swap(&mut mode, &mut self.mode);
        match mode {
            EngineMode::Rendering(render) => {
                let mut remove_file = None;
                match rendered_path {
                    Some(path) => {
                        if reached_end {
                            events.push(SurfaceEvent::RenderingFinished { render_id: render.render_id, path });
                        } else {
                            remove_file = Some(path);
                        }
                    },
                    None => {},
                }
                if !reached_end {
                    let reason = String::from_str("rendering interrupted");
                    events.push(SurfaceEvent::RenderingFailed { render_id: render.render_id, reason });
                }
                TransportOutcome { events, remove_file, clear_parent_sends: true }
            },
            EngineMode::Playing(_) => TransportOutcome { events, remove_file: None, clear_parent_sends: true },
            EngineMode::Stopped => TransportOutcome { events, remove_file: None, clear_parent_sends: false },
        }
    }

    /// Whether the streaming set up for play `play_id` completed in time to start REAPER's
    /// transport: only while that play is the current mode.
    pub fn on_streaming_setup_complete(&self, play_id: PlayId) -> (r: bool)
        ensures
            r == (self.mode matches EngineMode::Playing(p) && p.play_id == play_id),
    {
        match &self.mode {
            EngineMode::Playing(p) => p.play_id == play_id,
            _ => false,
        }
    }

    /// The failure to report when the streaming of play `play_id` could not be set up: only
    /// while that play is the current mode, after which the engine stops.
    pub fn on_streaming_setup_error(&self, play_id: PlayId, error: String) -> (r: Option<SurfaceEvent>)
        ensures
            (self.mode matches EngineMode::Playing(p) && p.play_id == play_id) ==> (r matches Some(
                SurfaceEvent::PlayingFailed { play_id: id, error: e },
            ) && id == play_id && e == error),
            !(self.mode matches EngineMode::Playing(p) && p.play_id == play_id) ==> r is None,
    {
        match &self.mode {
            EngineMode::Playing(p) => if p.play_id == play_id {
                Some(SurfaceEvent::PlayingFailed { play_id, error })
            } else {
                None
            },
            _ => None,
        }
    }
}

/// The encoding of a track's media file.
#[derive(Clone, Copy, PartialEq, Eq, Structural, Debug)]
pub enum SessionTrackMediaFormat {
    Wav,
    Mp3,
    Flac,
    WavPack,
}

/// The source type REAPER reads a media file of the given format with.
pub fn media_source_type(format: SessionTrackMediaFormat) -> (r: &'static str)
    ensures
        r@ == match format {
            SessionTrackMediaFormat::Wav => "WAV"@,
            SessionTrackMediaFormat::Mp3 => "MP3"@,
            SessionTrackMediaFormat::Flac => "FLAC"@,
            SessionTrackMediaFormat::WavPack => "WAVPACK"@,
        },
{
    match format {
        SessionTrackMediaFormat::Wav => "WAV",
        SessionTrackMediaFormat::Mp3 => "MP3",
        SessionTrackMediaFormat::Flac => "FLAC",
        SessionTrackMediaFormat::WavPack => "WAVPACK",
    }
}

} // verus!
