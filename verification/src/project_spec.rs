//! The structure of an engine project: which tracks, media items, fixed instances and mixers
//! it holds, and how a transaction of spec modifications changes it, with the flows whose
//! state must be written again afterwards.
use vstd::prelude::*;
use crate::ids::{
    distinct_by, first_index, lemma_distinct_by_same_keys, lemma_filter_distinct_by, lemma_filter_keeps_all, lemma_first_index,
    lemma_first_index_spec,
};

verus! {

/// The kind of a flow of a session: the input or output of an object.
#[derive(Clone, Copy, PartialEq, Eq, Structural, Debug)]
pub enum FlowKind {
    MixerInput,
    MixerOutput,
    FixedInstanceInput,
    FixedInstanceOutput,
    DynamicInstanceInput,
    DynamicInstanceOutput,
    TrackOutput,
}

/// A flow of a session, named by its kind and the id of its object.
#[derive(Debug)]
pub struct SessionFlowId {
    pub kind: FlowKind,
    pub id: String,
}

impl View for SessionFlowId {
    type V = (FlowKind, Seq<char>);

    open spec fn view(&self) -> (FlowKind, Seq<char>) {
        (self.kind, self.id@)
    }
}

impl SessionFlowId {
    pub fn new(kind: FlowKind, id: String) -> (r: Self)
        ensures
            r@ == (kind, id@),
    {
        SessionFlowId { kind, id }
    }

    /// Whether both name the same flow.
    pub fn same_as(&self, other: &SessionFlowId) -> (r: bool)
        ensures
            r == (self@ == other@),
    {
        self.kind == other.kind && self.id == other.id
    }

    /// A copy of the flow id.
    pub fn duplicate(&self) -> (r: Self)
        ensures
            r@ == self@,
    {
        SessionFlowId { kind: self.kind, id: self.id.clone() }
    }
}

/// A media item placed on a track of the project; `ready` tells whether its media object
/// is available on disk.
#[derive(Debug)]
pub struct MediaItem {
    pub track_id: String,
    pub media_id: String,
    pub object_id: String,
    pub ready: bool,
}

impl View for MediaItem {
    type V = (Seq<char>, Seq<char>, Seq<char>, bool);

    open spec fn view(&self) -> (Seq<char>, Seq<char>, Seq<char>, bool) {
        (self.track_id@, self.media_id@, self.object_id@, self.ready)
    }
}

/// A media item as the session spec describes it.
#[derive(Debug)]
pub struct MediaSpec {
    pub track_id: String,
    pub media_id: String,
    pub object_id: String,
}

impl View for MediaSpec {
    type V = (Seq<char>, Seq<char>, Seq<char>);

    open spec fn view(&self) -> (Seq<char>, Seq<char>, Seq<char>) {
        (self.track_id@, self.media_id@, self.object_id@)
    }
}

/// A connection of the session spec, into the flow `to`.
#[derive(Debug)]
pub struct Connection {
    pub id: String,
    pub to: SessionFlowId,
}

impl View for Connection {
    type V = (Seq<char>, (FlowKind, Seq<char>));

    open spec fn view(&self) -> (Seq<char>, (FlowKind, Seq<char>)) {
        (self.id@, self.to@)
    }
}

/// The ids of a list of strings.
pub open spec fn ids(v: Seq<String>) -> Seq<Seq<char>> {
    v.map_values(|s: String| s@)
}

/// The views of a list.
pub open spec fn views<T: View>(v: Seq<T>) -> Seq<T::V> {
    v.map_values(|x: T| x@)
}

/// A set of ids after adding `id`: unchanged when it is there already.
pub open spec fn insert_key(s: Seq<Seq<char>>, id: Seq<char>) -> Seq<Seq<char>> {
    if s.contains(id) {
        s
    } else {
        s.push(id)
    }
}

/// Whether an id differs from `id`.
pub open spec fn other_than(id: Seq<char>) -> spec_fn(Seq<char>) -> bool {
    |x: Seq<char>| x != id
}

/// A set of ids after removing every occurrence of `id`.
pub open spec fn remove_key(s: Seq<Seq<char>>, id: Seq<char>) -> Seq<Seq<char>> {
    s.filter(other_than(id))
}

/// Whether the list holds `id`.
pub fn contains_id(v: &Vec<String>, id: &String) -> (r: bool)
    ensures
        r == ids(v@).contains(id@),
{
    let n = v.len();
    let mut i: usize = 0;
    while i < n
        invariant
            n == v@.len(),
            i <= n,
            forall|j: int| 0 <= j < i ==> v@[j]@ != id@,
        decreases n - i,
    {
        if v[i] == *id {
            proof {
                assert(ids(v@)[i as int] == id@);
            }
            return true;
        }
        i = i + 1;
    }
    proof {
        if ids(v@).contains(id@) {
            let k = choose|k: int| 0 <= k < ids(v@).len() && ids(v@)[k] == id@;
            assert(v@[k]@ == id@);
        }
    }
    false
}

/// Adds `id` to the list unless it holds it already.
pub fn insert_id(v: &mut Vec<String>, id: String)
    ensures
        ids(final(v)@) == insert_key(ids(old(v)@), id@),
{
    if !contains_id(v, &id) {
        let ghost before = v@;
        let ghost id_view = id@;
        v.push(id);
        proof {
            assert(ids(v@) =~= ids(before).push(id_view));
        }
    }
}

/// Removes every occurrence of `id` from the list.
pub fn remove_id(v: &mut Vec<String>, id: &String)
    ensures
        ids(final(v)@) == remove_key(ids(old(v)@), id@),
{
    let ghost keep = other_than(id@);
    let mut input: Vec<String> = Vec::new();
    std::mem::swap(&mut input, v);
    let ghost all = input@;
    for s in it: input.into_iter()
        invariant
            it.seq() == all,
            all == old(v)@,
            keep == other_than(id@),
            ids(v@) == ids(all).take(it.index() as int).filter(keep),
    {
        let ghost k = it.index() as int;
        let ghost before = v@;
        proof {
            assert(ids(all).take(k + 1) =~= ids(all).take(k).push(s@));
            ids(all).take(k).lemma_filter_push(s@, keep);
        }
        if s != *id {
            let ghost sv = s@;
            v.push(s);
            proof {
                assert(ids(v@) =~= ids(before).push(sv));
            }
        }
    }
    proof {
        assert(ids(all).take(ids(all).len() as int) =~= ids(all));
    }
}

/// A media item, by view: track, media id, media object, readiness.
pub type MediaView = (Seq<char>, Seq<char>, Seq<char>, bool);

/// A flow, by view.
pub type FlowView = (FlowKind, Seq<char>);

/// What a session spec holds.
#[verifier::ext_equal]
pub struct SpecModel {
    pub tracks: Seq<Seq<char>>,
    pub media: Seq<(Seq<char>, Seq<char>, Seq<char>)>,
    pub fixed: Seq<Seq<char>>,
    pub mixers: Seq<Seq<char>>,
    pub connections: Seq<(Seq<char>, FlowView)>,
}

/// What a project holds: its tracks, media items, fixed instances and mixers, and the spec
/// it was last given.
#[verifier::ext_equal]
pub struct ProjectModel {
    pub tracks: Seq<Seq<char>>,
    pub media: Seq<MediaView>,
    pub fixed: Seq<Seq<char>>,
    pub mixers: Seq<Seq<char>>,
    pub spec: SpecModel,
}

/// The spec of a session: its tracks with their media, fixed instances, mixers and
/// connections.
#[derive(Debug)]
pub struct SessionSpec {
    pub tracks: Vec<String>,
    pub media: Vec<MediaSpec>,
    pub fixed: Vec<String>,
    pub mixers: Vec<String>,
    pub connections: Vec<Connection>,
}

impl View for SessionSpec {
    type V = SpecModel;

    open spec fn view(&self) -> SpecModel {
        SpecModel {
            tracks: ids(self.tracks@),
            media: views(self.media@),
            fixed: ids(self.fixed@),
            mixers: ids(self.mixers@),
            connections: views(self.connections@),
        }
    }
}

/// The structure of an engine project.
#[derive(Debug)]
pub struct AudioEngineProject {
    pub tracks: Vec<String>,
    pub media: Vec<MediaItem>,
    pub fixed: Vec<String>,
    pub mixers: Vec<String>,
    pub spec: SessionSpec,
}

impl View for AudioEngineProject {
    type V = ProjectModel;

    open spec fn view(&self) -> ProjectModel {
        ProjectModel {
            tracks: ids(self.tracks@),
            media: views(self.media@),
            fixed: ids(self.fixed@),
            mixers: ids(self.mixers@),
            spec: self.spec@,
        }
    }
}

/// One modification of a session spec.
#[derive(Debug)]
pub enum ModifySessionSpec {
    AddTrack { track_id: String },
    AddTrackMedia { track_id: String, media_id: String, object_id: String },
    UpdateTrackMedia { track_id: String, media_id: String },
    DeleteTrackMedia { track_id: String, media_id: String },
    DeleteTrack { track_id: String },
    AddFixedInstance { fixed_id: String },
    AddDynamicInstance { dynamic_id: String },
    AddMixer { mixer_id: String },
    DeleteMixer { mixer_id: String },
    DeleteFixedInstance { fixed_id: String },
    DeleteDynamicInstance { dynamic_id: String },
    DeleteConnection { connection_id: String },
    AddConnection { connection_id: String, to: SessionFlowId },
    SetConnectionParameterValues { connection_id: String },
    SetFixedInstanceParameterValues { fixed_id: String },
    SetDynamicInstanceParameterValues { dynamic_id: String },
}

/// Why a modification, or writing a flow's state, failed.
#[derive(Debug)]
pub enum ProjectError {
    TrackNotFound(String),
    MediaNotFound(String),
    ConnectionNotFound(String),
    /// Connection values can only be set on the input of a mixer or of a fixed instance.
    UnsupportedTarget,
    TargetNotFound,
    FlowNotFound(SessionFlowId),
    DynamicNotSupported,
}

/// The flows to write again, after adding `f` (once).
pub open spec fn add_flow(d: Seq<FlowView>, f: FlowView) -> Seq<FlowView> {
    if d.contains(f) {
        d
    } else {
        d.push(f)
    }
}

/// Index of the media item `m` of track `t`, or -1.
pub open spec fn item_index(media: Seq<MediaView>, t: Seq<char>, m: Seq<char>) -> int {
    first_index(media, |x: MediaView| x.0 == t && x.1 == m)
}

/// Index of the connection `c` in the spec, or -1.
pub open spec fn connection_index(conns: Seq<(Seq<char>, FlowView)>, c: Seq<char>) -> int {
    first_index(conns, |x: (Seq<char>, FlowView)| x.0 == c)
}

/// Whether a media item is on another track than `t`.
pub open spec fn off_track(t: Seq<char>) -> spec_fn(MediaView) -> bool {
    |x: MediaView| x.0 != t
}

/// Whether a media item is another than the item `m` of track `t`.
pub open spec fn other_item(t: Seq<char>, m: Seq<char>) -> spec_fn(MediaView) -> bool {
    |x: MediaView| !(x.0 == t && x.1 == m)
}

/// The media items after removing those of track `t`.
pub open spec fn without_track_media(media: Seq<MediaView>, t: Seq<char>) -> Seq<MediaView> {
    media.filter(off_track(t))
}

/// The media items after removing the item `m` of track `t`.
pub open spec fn without_item(media: Seq<MediaView>, t: Seq<char>, m: Seq<char>) -> Seq<MediaView> {
    media.filter(other_item(t, m))
}

/// What one modification does to the project and to the flows to write again, or why it
/// fails.
pub open spec fn step(p: ProjectModel, item: ModifySessionSpec, avail: Seq<Seq<char>>, d: Seq<FlowView>) -> Result<
    (ProjectModel, Seq<FlowView>),
    ProjectError,
> {
    match item {
        ModifySessionSpec::AddTrack { track_id } => {
            let t = track_id@;
            Ok((
                ProjectModel { tracks: insert_key(p.tracks, t), media: without_track_media(p.media, t), ..p },
                add_flow(d, (FlowKind::TrackOutput, t)),
            ))
        },
        ModifySessionSpec::AddTrackMedia { track_id, media_id, object_id } => {
            let t = track_id@;
            if !p.tracks.contains(t) {
                Err(ProjectError::TrackNotFound(track_id))
            } else {
                let item = (t, media_id@, object_id@, avail.contains(object_id@));
                Ok((
                    ProjectModel { media: without_item(p.media, t, media_id@).push(item), ..p },
                    add_flow(d, (FlowKind::TrackOutput, t)),
                ))
            }
        },
        ModifySessionSpec::UpdateTrackMedia { track_id, media_id } => {
            let t = track_id@;
            let i = item_index(p.media, t, media_id@);
            if !p.tracks.contains(t) {
                Err(ProjectError::TrackNotFound(track_id))
            } else if i < 0 {
                Err(ProjectError::MediaNotFound(media_id))
            } else {
                let x = p.media[i];
                if !x.3 && avail.contains(x.2) {
                    Ok((
                        ProjectModel { media: p.media.update(i, (x.0, x.1, x.2, true)), ..p },
                        add_flow(d, (FlowKind::TrackOutput, t)),
                    ))
                } else {
                    Ok((p, d))
                }
            }
        },
        ModifySessionSpec::DeleteTrackMedia { track_id, media_id } => {
            let t = track_id@;
            if !p.tracks.contains(t) {
                Err(ProjectError::TrackNotFound(track_id))
            } else if item_index(p.media, t, media_id@) >= 0 {
                Ok((
                    ProjectModel { media: without_item(p.media, t, media_id@), ..p },
                    add_flow(d, (FlowKind::TrackOutput, t)),
                ))
            } else {
                Ok((p, d))
            }
        },
        ModifySessionSpec::DeleteTrack { track_id } => {
            let t = track_id@;
            Ok((
                ProjectModel { tracks: remove_key(p.tracks, t), media: without_track_media(p.media, t), ..p },
                d,
            ))
        },
        ModifySessionSpec::AddFixedInstance { fixed_id } => {
            let f = fixed_id@;
            Ok((
                ProjectModel { fixed: insert_key(p.fixed, f), ..p },
                add_flow(add_flow(d, (FlowKind::FixedInstanceInput, f)), (FlowKind::FixedInstanceOutput, f)),
            ))
        },
        ModifySessionSpec::AddMixer { mixer_id } => {
            let m = mixer_id@;
            Ok((
                ProjectModel { mixers: insert_key(p.mixers, m), ..p },
                add_flow(add_flow(d, (FlowKind::MixerInput, m)), (FlowKind::MixerOutput, m)),
            ))
        },
        ModifySessionSpec::DeleteMixer { mixer_id } => Ok(
            (ProjectModel { mixers: remove_key(p.mixers, mixer_id@), ..p }, d),
        ),
        ModifySessionSpec::DeleteFixedInstance { fixed_id } => Ok(
            (ProjectModel { fixed: remove_key(p.fixed, fixed_id@), ..p }, d),
        ),
        ModifySessionSpec::DeleteConnection { connection_id } => {
            let i = connection_index(p.spec.connections, connection_id@);
            if i >= 0 {
                Ok((
                    ProjectModel { spec: SpecModel { connections: p.spec.connections.remove(i), ..p.spec }, ..p },
                    add_flow(d, p.spec.connections[i].1),
                ))
            } else {
                Ok((p, d))
            }
        },
        ModifySessionSpec::AddConnection { to, .. } => Ok((p, add_flow(d, to@))),
        ModifySessionSpec::SetConnectionParameterValues { connection_id } => {
            let i = connection_index(p.spec.connections, connection_id@);
            if i < 0 {
                Err(ProjectError::ConnectionNotFound(connection_id))
            } else {
                let to = p.spec.connections[i].1;
                match to.0 {
                    FlowKind::MixerInput => if p.mixers.contains(to.1) {
                        Ok((p, d))
                    } else {
                        Err(ProjectError::TargetNotFound)
                    },
                    FlowKind::FixedInstanceInput => if p.fixed.contains(to.1) {
                        Ok((p, d))
                    } else {
                        Err(ProjectError::TargetNotFound)
                    },
                    _ => Err(ProjectError::UnsupportedTarget),
                }
            }
        },
        _ => Ok((p, d)),
    }
}

/// Finds the media item `m` of track `t`: its index, or the length when there is none.
fn find_item(media: &Vec<MediaItem>, t: &String, m: &String) -> (r: usize)
    ensures
        r <= media@.len(),
        r == media@.len() <==> item_index(views(media@), t@, m@) < 0,
        r < media@.len() ==> item_index(views(media@), t@, m@) == r,
{
    let ghost p = |x: MediaView| x.0 == t@ && x.1 == m@;
    let ghost vs = views(media@);
    let n = media.len();
    let mut i: usize = 0;
    while i < n && !(media[i].track_id == *t && media[i].media_id == *m)
        invariant
            n == media@.len(),
            i <= n,
            vs == views(media@),
            p == (|x: MediaView| x.0 == t@ && x.1 == m@),
            forall|j: int| 0 <= j < i ==> !p(#[trigger] vs[j]),
        decreases n - i,
    {
        i = i + 1;
    }
    proof {
        lemma_first_index(vs, p, i as int);
    }
    i
}

/// Finds the connection `c`: its index, or the length when there is none.
fn find_connection(conns: &Vec<Connection>, c: &String) -> (r: usize)
    ensures
        r <= conns@.len(),
        r == conns@.len() <==> connection_index(views(conns@), c@) < 0,
        r < conns@.len() ==> connection_index(views(conns@), c@) == r,
{
    let ghost p = |x: (Seq<char>, FlowView)| x.0 == c@;
    let ghost vs = views(conns@);
    let n = conns.len();
    let mut i: usize = 0;
    while i < n && conns[i].id != *c
        invariant
            n == conns@.len(),
            i <= n,
            vs == views(conns@),
            p == (|x: (Seq<char>, FlowView)| x.0 == c@),
            forall|j: int| 0 <= j < i ==> !p(#[trigger] vs[j]),
        decreases n - i,
    {
        i = i + 1;
    }
    proof {
        lemma_first_index(vs, p, i as int);
    }
    i
}

/// Removes the media items of track `t`, and, when `only` is given, only the item of that
/// media id.
fn drop_media(media: &mut Vec<MediaItem>, t: &String, only: Option<&String>)
    ensures
        views(final(media)@) == match only {
            Some(m) => without_item(views(old(media)@), t@, m@),
            None => without_track_media(views(old(media)@), t@),
        },
{
    let ghost keep = match only {
        Some(m) => other_item(t@, m@),
        None => off_track(t@),
    };
    let mut input: Vec<MediaItem> = Vec::new();
    std::mem::swap(&mut input, media);
    let ghost all = views(input@);
    let ghost input_seq = input@;
    for x in it: input.into_iter()
        invariant
            it.seq() == input_seq,
            all == views(input_seq),
            all == views(old(media)@),
            keep == match only {
                Some(m) => other_item(t@, m@),
                None => off_track(t@),
            },
            views(media@) == all.take(it.index() as int).filter(keep),
    {
        let ghost k = it.index() as int;
        let ghost before = media@;
        proof {
            assert(all.take(k + 1) =~= all.take(k).push(x@));
            all.take(k).lemma_filter_push(x@, keep);
        }
        let same_track = x.track_id == *t;
        let drop = match only {
            Some(m) => same_track && x.media_id == *m,
            None => same_track,
        };
        if !drop {
            let ghost xv = x@;
            media.push(x);
            proof {
                assert(views(media@) =~= views(before).push(xv));
            }
        }
    }
    proof {
        assert(all.take(all.len() as int) =~= all);
    }
}

/// Adds `f` to the flows to write again, unless it is there already.
fn add_flow_once(d: &mut Vec<SessionFlowId>, f: SessionFlowId)
    ensures
        views(final(d)@) == add_flow(views(old(d)@), f@),
{
    let n = d.len();
    let mut i: usize = 0;
    while i < n && !d[i].same_as(&f)
        invariant
            n == d@.len(),
            i <= n,
            forall|j: int| 0 <= j < i ==> d@[j]@ != f@,
        decreases n - i,
    {
        i = i + 1;
    }
    if i < n {
        proof {
            assert(views(d@)[i as int] == f@);
        }
    } else {
        proof {
            if views(d@).contains(f@) {
                let k = choose|k: int| 0 <= k < views(d@).len() && views(d@)[k] == f@;
                assert(d@[k]@ == f@);
            }
        }
        let ghost before = d@;
        let ghost fv = f@;
        d.push(f);
        proof {
            assert(views(d@) =~= views(before).push(fv));
        }
    }
}

impl AudioEngineProject {
    /// Applies one modification of the spec, noting in `dirty` the flows whose state must be
    /// written again. A modification that fails changes nothing.
    pub fn modify_spec_one(&mut self, item: ModifySessionSpec, avail: &Vec<String>, dirty: &mut Vec<SessionFlowId>) -> (r:
        Result<(), ProjectError>)
        requires
            old(self).wf(),
        ensures
            final(self).wf(),
            match step(old(self)@, item, ids(avail@), views(old(dirty)@)) {
                Ok((p, d)) => r is Ok && final(self)@ == p && views(final(dirty)@) == d,
                Err(e) => r == Err::<(), ProjectError>(e) && final(self)@ == old(self)@ && final(dirty)@ == old(
                    dirty,
                )@,
            },
    {
        proof {
            lemma_step_wf(self@, item, ids(avail@), views(dirty@));
        }
        match item {
            ModifySessionSpec::AddTrack { track_id } => {
                let flow = SessionFlowId::new(FlowKind::TrackOutput, track_id.clone());
                drop_media(&mut self.media, &track_id, None);
                insert_id(&mut self.tracks, track_id);
                add_flow_once(dirty, flow);
                Ok(())
            },
            ModifySessionSpec::AddTrackMedia { track_id, media_id, object_id } => {
                if !contains_id(&self.tracks, &track_id) {
                    return Err(ProjectError::TrackNotFound(track_id));
                }
                let flow = SessionFlowId::new(FlowKind::TrackOutput, track_id.clone());
                drop_media(&mut self.media, &track_id, Some(&media_id));
                let ready = contains_id(avail, &object_id);
                let ghost before = self.media@;
                let item = MediaItem { track_id, media_id, object_id, ready };
                let ghost iv = item@;
                self.media.push(item);
                proof {
                    assert(views(self.media@) =~= views(before).push(iv));
                }
                add_flow_once(dirty, flow);
                Ok(())
            },
            ModifySessionSpec::UpdateTrackMedia { track_id, media_id } => {
                if !contains_id(&self.tracks, &track_id) {
                    return Err(ProjectError::TrackNotFound(track_id));
                }
                let i = find_item(&self.media, &track_id, &media_id);
                if i == self.media.len() {
                    return Err(ProjectError::MediaNotFound(media_id));
                }
                if !self.media[i].ready && contains_id(avail, &self.media[i].object_id) {
                    let ghost before = self.media@;
                    let old_item = self.media.remove(i);
                    let MediaItem { track_id: t, media_id: m, object_id: o, ready: _ } = old_item;
                    let item = MediaItem { track_id: t, media_id: m, object_id: o, ready: true };
                    let ghost iv = item@;
                    self.media.insert(i, item);
                    proof {
                        assert(views(self.media@) =~= views(before).update(i as int, iv));
                    }
                    add_flow_once(dirty, SessionFlowId::new(FlowKind::TrackOutput, track_id));
                }
                Ok(())
            },
            ModifySessionSpec::DeleteTrackMedia { track_id, media_id } => {
                if !contains_id(&self.tracks, &track_id) {
                    return Err(ProjectError::TrackNotFound(track_id));
                }
                let i = find_item(&self.media, &track_id, &media_id);
                if i < self.media.len() {
                    drop_media(&mut self.media, &track_id, Some(&media_id));
                    add_flow_once(dirty, SessionFlowId::new(FlowKind::TrackOutput, track_id));
                }
                Ok(())
            },
            ModifySessionSpec::DeleteTrack { track_id } => {
                drop_media(&mut self.media, &track_id, None);
                remove_id(&mut self.tracks, &track_id);
                Ok(())
            },
            ModifySessionSpec::AddFixedInstance { fixed_id } => {
                let input = SessionFlowId::new(FlowKind::FixedInstanceInput, fixed_id.clone());
                let output = SessionFlowId::new(FlowKind::FixedInstanceOutput, fixed_id.clone());
                insert_id(&mut self.fixed, fixed_id);
                add_flow_once(dirty, input);
                add_flow_once(dirty, output);
                Ok(())
            },
            ModifySessionSpec::AddMixer { mixer_id } => {
                let input = SessionFlowId::new(FlowKind::MixerInput, mixer_id.clone());
                let output = SessionFlowId::new(FlowKind::MixerOutput, mixer_id.clone());
                insert_id(&mut self.mixers, mixer_id);
                add_flow_once(dirty, input);
                add_flow_once(dirty, output);
                Ok(())
            },
            ModifySessionSpec::DeleteMixer { mixer_id } => {
                remove_id(&mut self.mixers, &mixer_id);
                Ok(())
            },
            ModifySessionSpec::DeleteFixedInstance { fixed_id } => {
                remove_id(&mut self.fixed, &fixed_id);
                Ok(())
            },
            ModifySessionSpec::DeleteConnection { connection_id } => {
                let i = find_connection(&self.spec.connections, &connection_id);
                if i < self.spec.connections.len() {
                    let ghost before = self.spec.connections@;
                    let removed = self.spec.connections.remove(i);
                    proof {
                        assert(views(self.spec.connections@) =~= views(before).remove(i as int));
                    }
                    add_flow_once(dirty, removed.to);
                }
                Ok(())
            },
            ModifySessionSpec::AddConnection { connection_id: _, to } => {
                add_flow_once(dirty, to);
                Ok(())
            },
            ModifySessionSpec::SetConnectionParameterValues { connection_id } => {
                let i = find_connection(&self.spec.connections, &connection_id);
                if i == self.spec.connections.len() {
                    return Err(ProjectError::ConnectionNotFound(connection_id));
                }
                let to = &self.spec.connections[i].to;
                match to.kind {
                    FlowKind::MixerInput => if contains_id(&self.mixers, &to.id) {
                        Ok(())
                    } else {
                        Err(ProjectError::TargetNotFound)
                    },
                    FlowKind::FixedInstanceInput => if contains_id(&self.fixed, &to.id) {
                        Ok(())
                    } else {
                        Err(ProjectError::TargetNotFound)
                    },
                    _ => Err(ProjectError::UnsupportedTarget),
                }
            },
            ModifySessionSpec::AddDynamicInstance { .. } => Ok(()),
            ModifySessionSpec::DeleteDynamicInstance { .. } => Ok(()),
            ModifySessionSpec::SetFixedInstanceParameterValues { .. } => Ok(()),
            ModifySessionSpec::SetDynamicInstanceParameterValues { .. } => Ok(()),
        }
    }
}

/// The project that a spec builds: its tracks, media items (ready when their media object is
/// available), fixed instances and mixers, with the spec itself.
pub open spec fn built_from(spec: SpecModel, avail: Seq<Seq<char>>) -> ProjectModel {
    ProjectModel {
        tracks: spec.tracks,
        media: spec.media.map_values(|m: (Seq<char>, Seq<char>, Seq<char>)| (m.0, m.1, m.2, avail.contains(m.2))),
        fixed: spec.fixed,
        mixers: spec.mixers,
        spec,
    }
}

/// A media item after the media objects `avail` became available and the objects
/// `removed` went away: a ready item whose object went away is no longer ready, an item
/// that was not ready becomes ready when its object is available.
pub open spec fn media_after_update(x: MediaView, avail: Seq<Seq<char>>, removed: Seq<Seq<char>>) -> MediaView {
    if x.3 {
        if removed.contains(x.2) {
            (x.0, x.1, x.2, false)
        } else {
            x
        }
    } else if avail.contains(x.2) {
        (x.0, x.1, x.2, true)
    } else {
        x
    }
}

/// The media items after a media update.
pub open spec fn media_updated(media: Seq<MediaView>, avail: Seq<Seq<char>>, removed: Seq<Seq<char>>) -> Seq<
    MediaView,
> {
    media.map_values(|x: MediaView| media_after_update(x, avail, removed))
}

/// The tracks of the media items whose readiness a media update changes, in item order.
pub open spec fn changed_tracks(media: Seq<MediaView>, avail: Seq<Seq<char>>, removed: Seq<Seq<char>>) -> Seq<
    Seq<char>,
> {
    media.filter(|x: MediaView| media_after_update(x, avail, removed) != x).map_values(|x: MediaView| x.0)
}

/// The modifications of a transaction applied in order, stopping at the first that fails.
pub open spec fn apply_all(p: ProjectModel, items: Seq<ModifySessionSpec>, avail: Seq<Seq<char>>) -> Result<
    (ProjectModel, Seq<FlowView>),
    ProjectError,
>
    decreases items.len(),
{
    if items.len() == 0 {
        Ok((p, Seq::empty()))
    } else {
        match apply_all(p, items.drop_last(), avail) {
            Ok((q, d)) => step(q, items.last(), avail, d),
            Err(e) => Err(e),
        }
    }
}

/// Whether the object that owns flow `f` is in the project, so that the flow's state can be
/// written.
pub open spec fn flow_ok(p: ProjectModel, f: FlowView) -> bool {
    match f.0 {
        FlowKind::MixerInput | FlowKind::MixerOutput => p.mixers.contains(f.1),
        FlowKind::FixedInstanceInput | FlowKind::FixedInstanceOutput => p.fixed.contains(f.1),
        FlowKind::TrackOutput => p.tracks.contains(f.1),
        _ => false,
    }
}

/// Whether `e` is the error for a flow `f` whose state cannot be written.
pub open spec fn error_for(e: ProjectError, f: FlowView) -> bool {
    match f.0 {
        FlowKind::DynamicInstanceInput | FlowKind::DynamicInstanceOutput => e is DynamicNotSupported,
        _ => e matches ProjectError::FlowNotFound(g) && g@ == f,
    }
}

/// Index of the first flow of `d` whose state cannot be written, or -1.
pub open spec fn first_bad_flow(p: ProjectModel, d: Seq<FlowView>) -> int {
    first_index(d, |f: FlowView| !flow_ok(p, f))
}

/// How a transaction ended.
#[derive(Debug)]
pub enum ModifyOutcome {
    /// Every modification applied; these flows are to be written again.
    Committed(Vec<SessionFlowId>),
    /// A modification failed and the project was rebuilt from the spec it had before.
    RolledBack,
}

/// Copies a list of ids.
pub fn copy_ids(v: &Vec<String>) -> (r: Vec<String>)
    ensures
        ids(r@) == ids(v@),
{
    let mut r: Vec<String> = Vec::new();
    let n = v.len();
    let mut i: usize = 0;
    while i < n
        invariant
            n == v@.len(),
            i <= n,
            ids(r@) == ids(v@).take(i as int),
        decreases n - i,
    {
        let ghost before = r@;
        r.push(v[i].clone());
        proof {
            assert(ids(r@) =~= ids(before).push(v@[i as int]@));
            assert(ids(v@).take(i + 1) =~= ids(v@).take(i as int).push(v@[i as int]@));
        }
        i = i + 1;
    }
    proof {
        assert(ids(v@).take(n as int) =~= ids(v@));
    }
    r
}

impl SessionSpec {
    /// The spec is keyed as maps are.
    pub open spec fn wf(&self) -> bool {
        spec_wf(self@)
    }

    /// A copy of the spec.
    pub fn duplicate(&self) -> (r: Self)
        ensures
            r@ == self@,
    {
        let mut media: Vec<MediaSpec> = Vec::new();
        let n = self.media.len();
        let mut i: usize = 0;
        while i < n
            invariant
                n == self.media@.len(),
                i <= n,
                views(media@) == views(self.media@).take(i as int),
            decreases n - i,
        {
            let m = &self.media[i];
            let c = MediaSpec { track_id: m.track_id.clone(), media_id: m.media_id.clone(), object_id: m.object_id.clone() };
            let ghost before = media@;
            media.push(c);
            proof {
                assert(views(media@) =~= views(before).push(self.media@[i as int]@));
                assert(views(self.media@).take(i + 1) =~= views(self.media@).take(i as int).push(self.media@[i as int]@));
            }
            i = i + 1;
        }
        let mut connections: Vec<Connection> = Vec::new();
        let k = self.connections.len();
        let mut j: usize = 0;
        while j < k
            invariant
                k == self.connections@.len(),
                j <= k,
                views(connections@) == views(self.connections@).take(j as int),
            decreases k - j,
        {
            let c = &self.connections[j];
            let copy = Connection { id: c.id.clone(), to: c.to.duplicate() };
            let ghost before = connections@;
            connections.push(copy);
            proof {
                assert(views(connections@) =~= views(before).push(self.connections@[j as int]@));
                assert(views(self.connections@).take(j + 1) =~= views(self.connections@).take(j as int).push(
                    self.connections@[j as int]@,
                ));
            }
            j = j + 1;
        }
        proof {
            assert(views(self.media@).take(n as int) =~= views(self.media@));
            assert(views(self.connections@).take(k as int) =~= views(self.connections@));
        }
        SessionSpec {
            tracks: copy_ids(&self.tracks),
            media,
            fixed: copy_ids(&self.fixed),
            mixers: copy_ids(&self.mixers),
            connections,
        }
    }
}

impl AudioEngineProject {
    /// The project is keyed as maps are.
    pub open spec fn wf(&self) -> bool {
        project_wf(self@)
    }

    /// A project built from `spec`.
    pub fn new(spec: SessionSpec, avail: &Vec<String>) -> (r: Self)
        requires
            spec.wf(),
        ensures
            r@ == built_from(spec@, ids(avail@)),
            r.wf(),
    {
        let mut r = AudioEngineProject {
            tracks: Vec::new(),
            media: Vec::new(),
            fixed: Vec::new(),
            mixers: Vec::new(),
            spec: SessionSpec {
                tracks: Vec::new(),
                media: Vec::new(),
                fixed: Vec::new(),
                mixers: Vec::new(),
                connections: Vec::new(),
            },
        };
        r.set_spec(spec, avail);
        r
    }

    /// Takes in a media update: the media objects `avail` are now available and the objects
    /// `removed` went away. Each media item's readiness follows, and the answer lists the
    /// project's tracks, in order, that hold an item whose readiness changed, whose state is
    /// to be written again.
    pub fn on_media_updated(&mut self, avail: &Vec<String>, removed: &Vec<String>) -> (r: Vec<String>)
        requires
            old(self).wf(),
        ensures
            final(self).wf(),
            final(self)@ == (ProjectModel {
                media: media_updated(old(self)@.media, ids(avail@), ids(removed@)),
                ..old(self)@
            }),
            ids(r@) == old(self)@.tracks.filter(
                |t: Seq<char>| changed_tracks(old(self)@.media, ids(avail@), ids(removed@)).contains(t),
            ),
    {
        let ghost av = ids(avail@);
        let ghost rm = ids(removed@);
        let ghost upd = |x: MediaView| media_after_update(x, av, rm);
        let ghost chg = |x: MediaView| media_after_update(x, av, rm) != x;
        let ghost tr = |x: MediaView| x.0;
        let mut input: Vec<MediaItem> = Vec::new();
        std::mem::swap(&mut input, &mut self.media);
        let ghost input_seq = input@;
        let ghost all = views(input_seq);
        let mut changed: Vec<String> = Vec::new();
        proof {
            assert(all.take(0) =~= Seq::<MediaView>::empty());
            assert(views(self.media@) =~= Seq::<MediaView>::empty());
            assert(ids(changed@) =~= Seq::<Seq<char>>::empty());
        }
        for x in it: input.into_iter()
            invariant
                it.seq() == input_seq,
                all == views(input_seq),
                all == views(old(self).media@),
                av == ids(avail@),
                rm == ids(removed@),
                upd == (|x: MediaView| media_after_update(x, av, rm)),
                chg == (|x: MediaView| media_after_update(x, av, rm) != x),
                tr == (|x: MediaView| x.0),
                self.tracks == old(self).tracks,
                self.fixed == old(self).fixed,
                self.mixers == old(self).mixers,
                self.spec == old(self).spec,
                views(self.media@) == all.take(it.index() as int).map_values(upd),
                ids(changed@) == all.take(it.index() as int).filter(chg).map_values(tr),
        {
            let ghost k = it.index() as int;
            let ghost xv = x@;
            let ghost before_media = self.media@;
            let ghost before_changed = changed@;
            proof {
                assert(all[k] == xv);
                assert(all.take(k + 1) =~= all.take(k).push(xv));
                all.take(k).lemma_filter_push(xv, chg);
                all.take(k).filter(chg).lemma_push_map_commute(tr, xv);
                all.take(k).lemma_push_map_commute(upd, xv);
            }
            let mut x = x;
            let flip = if x.ready {
                contains_id(removed, &x.object_id)
            } else {
                contains_id(avail, &x.object_id)
            };
            if flip {
                changed.push(x.track_id.clone());
                x.ready = !x.ready;
                proof {
                    assert(chg(xv));
                    assert(ids(changed@) =~= ids(before_changed).push(xv.0));
                }
            } else {
                proof {
                    assert(!chg(xv));
                }
            }
            self.media.push(x);
            proof {
                assert(x@ == upd(xv));
                assert(views(self.media@) =~= views(before_media).push(upd(xv)));
            }
        }
        proof {
            assert(all.take(all.len() as int) =~= all);
            assert(views(self.media@) =~= media_updated(all, av, rm));
            assert(ids(changed@) =~= changed_tracks(all, av, rm));
        }
        let ghost ct = ids(changed@);
        let ghost keep = |t: Seq<char>| ct.contains(t);
        let ghost ts = ids(self.tracks@);
        let mut r: Vec<String> = Vec::new();
        let n = self.tracks.len();
        let mut i: usize = 0;
        proof {
            assert(ts.take(0) =~= Seq::<Seq<char>>::empty());
            assert(ids(r@) =~= Seq::<Seq<char>>::empty());
        }
        while i < n
            invariant
                n == self.tracks@.len(),
                i <= n,
                ts == ids(self.tracks@),
                ct == ids(changed@),
                keep == (|t: Seq<char>| ct.contains(t)),
                ids(r@) == ts.take(i as int).filter(keep),
            decreases n - i,
        {
            let ghost before = r@;
            proof {
                assert(ts[i as int] == self.tracks@[i as int]@);
                assert(ts.take(i as int + 1) =~= ts.take(i as int).push(ts[i as int]));
                ts.take(i as int).lemma_filter_push(ts[i as int], keep);
            }
            if contains_id(&changed, &self.tracks[i]) {
                r.push(self.tracks[i].clone());
                proof {
                    assert(ids(r@) =~= ids(before).push(ts[i as int]));
                }
            }
            i = i + 1;
        }
        proof {
            assert(ts.take(n as int) =~= ts);
            assert(self@ =~= ProjectModel { media: media_updated(all, av, rm), ..old(self)@ });
            lemma_media_updated_wf(old(self)@, av, rm);
        }
        r
    }

    /// Replaces everything in the project by what `spec` describes.
    pub fn set_spec(&mut self, spec: SessionSpec, avail: &Vec<String>)
        requires
            spec.wf(),
        ensures
            final(self)@ == built_from(spec@, ids(avail@)),
            final(self).wf(),
    {
        let ghost av = ids(avail@);
        proof {
            lemma_built_from_wf(spec@, av);
        }
        let mut media: Vec<MediaItem> = Vec::new();
        let n = spec.media.len();
        let mut i: usize = 0;
        while i < n
            invariant
                n == spec.media@.len(),
                i <= n,
                av == ids(avail@),
                views(media@) == built_from(spec@, av).media.take(i as int),
            decreases n - i,
        {
            let m = &spec.media[i];
            let ready = contains_id(avail, &m.object_id);
            let item = MediaItem { track_id: m.track_id.clone(), media_id: m.media_id.clone(), object_id: m.object_id.clone(), ready };
            let ghost before = media@;
            let ghost iv = item@;
            media.push(item);
            proof {
                assert(views(media@) =~= views(before).push(iv));
                assert(built_from(spec@, av).media.take(i + 1) =~= built_from(spec@, av).media.take(i as int).push(iv));
            }
            i = i + 1;
        }
        proof {
            assert(built_from(spec@, av).media.take(n as int) =~= built_from(spec@, av).media);
        }
        self.tracks = copy_ids(&spec.tracks);
        self.media = media;
        self.fixed = copy_ids(&spec.fixed);
        self.mixers = copy_ids(&spec.mixers);
        self.spec = spec;
    }

    /// Checks that the object owning flow `f` is in the project, so that the flow's state can
    /// be written.
    pub fn locate_flow(&self, f: &SessionFlowId) -> (r: Result<(), ProjectError>)
        ensures
            r is Ok <==> flow_ok(self@, f@),
            r matches Err(e) ==> error_for(e, f@),
    {
        let found = match f.kind {
            FlowKind::MixerInput | FlowKind::MixerOutput => contains_id(&self.mixers, &f.id),
            FlowKind::FixedInstanceInput | FlowKind::FixedInstanceOutput => contains_id(&self.fixed, &f.id),
            FlowKind::TrackOutput => contains_id(&self.tracks, &f.id),
            _ => {
                return Err(ProjectError::DynamicNotSupported);
            },
        };
        if found {
            Ok(())
        } else {
            Err(ProjectError::FlowNotFound(f.duplicate()))
        }
    }
}

impl AudioEngineProject {
    /// Applies a transaction of modifications. When one fails, the project is rebuilt from
    /// the spec it had before the transaction; otherwise the state of every flow that the
    /// modifications touched is to be written again, which needs the flow's owner to be in
    /// the project.
    pub fn modify_spec(&mut self, transaction: Vec<ModifySessionSpec>, avail: &Vec<String>) -> (r: Result<
        ModifyOutcome,
        ProjectError,
    >)
        requires
            old(self).wf(),
        ensures
            final(self).wf(),
            match apply_all(old(self)@, transaction@, ids(avail@)) {
                Err(_) => r matches Ok(ModifyOutcome::RolledBack) && final(self)@ == built_from(
                    old(self)@.spec,
                    ids(avail@),
                ),
                Ok((p, d)) => final(self)@ == p && if first_bad_flow(p, d) < 0 {
                    r matches Ok(ModifyOutcome::Committed(flows)) && views(flows@) == d
                } else {
                    r matches Err(e) && error_for(e, d[first_bad_flow(p, d)])
                },
            },
    {
        let ghost p0 = self@;
        let ghost av = ids(avail@);
        let ghost items = transaction@;
        let saved = self.spec.duplicate();
        let mut dirty: Vec<SessionFlowId> = Vec::new();
        proof {
            assert(items.take(0) =~= Seq::<ModifySessionSpec>::empty());
            assert(views(dirty@) =~= Seq::<FlowView>::empty());
        }
        for item in it: transaction.into_iter()
            invariant
                it.seq() == items,
                p0 == old(self)@,
                av == ids(avail@),
                saved@ == p0.spec,
                project_wf(p0),
                self.wf(),
                apply_all(p0, items.take(it.index() as int), av) == Ok::<(ProjectModel, Seq<FlowView>), ProjectError>(
                    (self@, views(dirty@)),
                ),
        {
            let ghost k = it.index() as int;
            proof {
                assert(items.take(k + 1).drop_last() =~= items.take(k));
                assert(items.take(k + 1).last() == item);
            }
            match self.modify_spec_one(item, avail, &mut dirty) {
                Ok(()) => {},
                Err(_) => {
                    proof {
                        lemma_apply_all_fails_on(p0, items, av, k + 1);
                    }
                    self.set_spec(saved, avail);
                    return Ok(ModifyOutcome::RolledBack);
                },
            }
        }
        proof {
            assert(items.take(items.len() as int) =~= items);
        }
        let ghost p = self@;
        let ghost d = views(dirty@);
        let ghost bad = |f: FlowView| !flow_ok(p, f);
        assert(items == transaction@);
        let n = dirty.len();
        let mut i: usize = 0;
        while i < n
            invariant
                n == dirty@.len(),
                i <= n,
                p == self@,
                d == views(dirty@),
                bad == (|f: FlowView| !flow_ok(p, f)),
                p0 == old(self)@,
                av == ids(avail@),
                items == transaction@,
                apply_all(p0, items, av) == Ok::<(ProjectModel, Seq<FlowView>), ProjectError>((p, d)),
                self.wf(),
                forall|j: int| 0 <= j < i ==> !bad(#[trigger] d[j]),
            decreases n - i,
        {
            match self.locate_flow(&dirty[i]) {
                Ok(()) => {},
                Err(e) => {
                    proof {
                        assert(d[i as int] == dirty@[i as int]@);
                        lemma_first_index(d, bad, i as int);
                    }
                    return Err(e);
                },
            }
            i = i + 1;
        }
        proof {
            lemma_first_index(d, bad, n as int);
        }
        Ok(ModifyOutcome::Committed(dirty))
    }
}

/// The key of an id: the id itself.
pub open spec fn id_key() -> spec_fn(Seq<char>) -> Seq<char> {
    |x: Seq<char>| x
}

/// The key of a media item of a project: its track and media id.
pub open spec fn item_key() -> spec_fn(MediaView) -> (Seq<char>, Seq<char>) {
    |x: MediaView| (x.0, x.1)
}

/// The key of a media item of a spec: its track and media id.
pub open spec fn spec_item_key() -> spec_fn((Seq<char>, Seq<char>, Seq<char>)) -> (Seq<char>, Seq<char>) {
    |x: (Seq<char>, Seq<char>, Seq<char>)| (x.0, x.1)
}

/// The key of a connection: its id.
pub open spec fn connection_key() -> spec_fn((Seq<char>, FlowView)) -> Seq<char> {
    |x: (Seq<char>, FlowView)| x.0
}

/// A spec is keyed as maps are: no track, fixed instance, mixer or connection id occurs
/// twice, and no track holds two media items with the same id.
pub open spec fn spec_wf(s: SpecModel) -> bool {
    &&& distinct_by(s.tracks, id_key())
    &&& distinct_by(s.media, spec_item_key())
    &&& distinct_by(s.fixed, id_key())
    &&& distinct_by(s.mixers, id_key())
    &&& distinct_by(s.connections, connection_key())
}

/// A project is keyed as maps are, and so is the spec it holds.
pub open spec fn project_wf(p: ProjectModel) -> bool {
    &&& distinct_by(p.tracks, id_key())
    &&& distinct_by(p.media, item_key())
    &&& distinct_by(p.fixed, id_key())
    &&& distinct_by(p.mixers, id_key())
    &&& spec_wf(p.spec)
}

proof fn lemma_insert_key_distinct(s: Seq<Seq<char>>, k: Seq<char>)
    requires
        distinct_by(s, id_key()),
    ensures
        distinct_by(insert_key(s, k), id_key()),
{
    if !s.contains(k) {
        let out = s.push(k);
        assert forall|a: int, b: int| 0 <= a < out.len() && 0 <= b < out.len() && a != b implies id_key()(
            #[trigger] out[a],
        ) != id_key()(#[trigger] out[b]) by {
            if a < s.len() && b < s.len() {
                assert(out[a] == s[a] && out[b] == s[b]);
            } else if a < s.len() {
                assert(out[a] == s[a]);
                if s[a] == k {
                    assert(s.contains(k));
                }
            } else {
                assert(out[b] == s[b]);
                if s[b] == k {
                    assert(s.contains(k));
                }
            }
        }
    }
}

proof fn lemma_remove_distinct<A, K>(s: Seq<A>, i: int, key: spec_fn(A) -> K)
    requires
        distinct_by(s, key),
        0 <= i < s.len(),
    ensures
        distinct_by(s.remove(i), key),
{
    let out = s.remove(i);
    assert(out =~= s.subrange(0, i) + s.subrange(i + 1, s.len() as int));
    assert forall|a: int, b: int| 0 <= a < out.len() && 0 <= b < out.len() && a != b implies key(#[trigger] out[a])
        != key(#[trigger] out[b]) by {
        let a2 = if a < i { a } else { a + 1 };
        let b2 = if b < i { b } else { b + 1 };
        assert(out[a] == s[a2] && out[b] == s[b2]);
    }
}

proof fn lemma_replace_item_distinct(media: Seq<MediaView>, x: MediaView)
    requires
        distinct_by(media, item_key()),
    ensures
        distinct_by(without_item(media, x.0, x.1).push(x), item_key()),
{
    let keep = other_item(x.0, x.1);
    lemma_filter_distinct_by(media, keep, item_key());
    let f = media.filter(keep);
    let out = f.push(x);
    assert forall|a: int, b: int| 0 <= a < out.len() && 0 <= b < out.len() && a != b implies item_key()(
        #[trigger] out[a],
    ) != item_key()(#[trigger] out[b]) by {
        if a < f.len() {
            media.lemma_filter_pred(keep, a);
            assert(out[a] == f[a]);
        }
        if b < f.len() {
            media.lemma_filter_pred(keep, b);
            assert(out[b] == f[b]);
        }
    }
}

/// A project built from a keyed spec is keyed.
pub proof fn lemma_built_from_wf(spec: SpecModel, avail: Seq<Seq<char>>)
    requires
        spec_wf(spec),
    ensures
        project_wf(built_from(spec, avail)),
{
    let b = built_from(spec, avail);
    assert forall|i: int| 0 <= i < spec.media.len() implies spec_item_key()(#[trigger] spec.media[i]) == item_key()(
        b.media[i],
    ) by {}
    lemma_distinct_by_same_keys(spec.media, spec_item_key(), b.media, item_key());
}

/// A media update keeps a project keyed.
pub proof fn lemma_media_updated_wf(p: ProjectModel, avail: Seq<Seq<char>>, removed: Seq<Seq<char>>)
    requires
        project_wf(p),
    ensures
        project_wf(ProjectModel { media: media_updated(p.media, avail, removed), ..p }),
{
    let m = media_updated(p.media, avail, removed);
    assert forall|i: int| 0 <= i < p.media.len() implies item_key()(#[trigger] p.media[i]) == item_key()(m[i]) by {}
    lemma_distinct_by_same_keys(p.media, item_key(), m, item_key());
}

/// Every modification that succeeds keeps a project keyed.
pub proof fn lemma_step_wf(p: ProjectModel, item: ModifySessionSpec, avail: Seq<Seq<char>>, d: Seq<FlowView>)
    requires
        project_wf(p),
    ensures
        step(p, item, avail, d) matches Ok((q, _)) ==> project_wf(q),
{
    match item {
        ModifySessionSpec::AddTrack { track_id } => {
            lemma_insert_key_distinct(p.tracks, track_id@);
            lemma_filter_distinct_by(p.media, off_track(track_id@), item_key());
        },
        ModifySessionSpec::AddTrackMedia { track_id, media_id, object_id } => {
            lemma_replace_item_distinct(p.media, (track_id@, media_id@, object_id@, avail.contains(object_id@)));
        },
        ModifySessionSpec::UpdateTrackMedia { track_id, media_id } => {
            let i = item_index(p.media, track_id@, media_id@);
            lemma_first_index_spec(p.media, |x: MediaView| x.0 == track_id@ && x.1 == media_id@);
            if p.tracks.contains(track_id@) && i >= 0 {
                let x = p.media[i];
                let m = p.media.update(i, (x.0, x.1, x.2, true));
                assert forall|j: int| 0 <= j < p.media.len() implies item_key()(#[trigger] p.media[j]) == item_key()(
                    m[j],
                ) by {}
                lemma_distinct_by_same_keys(p.media, item_key(), m, item_key());
            }
        },
        ModifySessionSpec::DeleteTrackMedia { track_id, media_id } => {
            lemma_filter_distinct_by(p.media, other_item(track_id@, media_id@), item_key());
        },
        ModifySessionSpec::DeleteTrack { track_id } => {
            lemma_filter_distinct_by(p.tracks, other_than(track_id@), id_key());
            lemma_filter_distinct_by(p.media, off_track(track_id@), item_key());
        },
        ModifySessionSpec::AddFixedInstance { fixed_id } => {
            lemma_insert_key_distinct(p.fixed, fixed_id@);
        },
        ModifySessionSpec::AddMixer { mixer_id } => {
            lemma_insert_key_distinct(p.mixers, mixer_id@);
        },
        ModifySessionSpec::DeleteMixer { mixer_id } => {
            lemma_filter_distinct_by(p.mixers, other_than(mixer_id@), id_key());
        },
        ModifySessionSpec::DeleteFixedInstance { fixed_id } => {
            lemma_filter_distinct_by(p.fixed, other_than(fixed_id@), id_key());
        },
        ModifySessionSpec::DeleteConnection { connection_id } => {
            let i = connection_index(p.spec.connections, connection_id@);
            if i >= 0 {
                lemma_first_index_spec(p.spec.connections, |x: (Seq<char>, FlowView)| x.0 == connection_id@);
                lemma_remove_distinct(p.spec.connections, i, connection_key());
            }
        },
        _ => {},
    }
}

/// Every transaction that succeeds keeps a project keyed.
pub proof fn lemma_apply_all_wf(p: ProjectModel, items: Seq<ModifySessionSpec>, avail: Seq<Seq<char>>)
    requires
        project_wf(p),
    ensures
        apply_all(p, items, avail) matches Ok((q, _)) ==> project_wf(q),
    decreases items.len(),
{
    if items.len() > 0 {
        lemma_apply_all_wf(p, items.drop_last(), avail);
        match apply_all(p, items.drop_last(), avail) {
            Ok((q, d)) => lemma_step_wf(q, items.last(), avail, d),
            Err(_) => {},
        }
    }
}

/// Deleting a connection of a keyed project leaves no connection with its id.
pub proof fn lemma_deleted_connection_gone(p: ProjectModel, connection_id: String, avail: Seq<Seq<char>>, d: Seq<FlowView>)
    requires
        project_wf(p),
    ensures
        step(p, ModifySessionSpec::DeleteConnection { connection_id }, avail, d) matches Ok((q, _)) ==> forall|j: int|
            0 <= j < q.spec.connections.len() ==> (#[trigger] q.spec.connections[j]).0 != connection_id@,
{
    let c = p.spec.connections;
    let i = connection_index(c, connection_id@);
    lemma_first_index_spec(c, |x: (Seq<char>, FlowView)| x.0 == connection_id@);
    if i >= 0 {
        let out = c.remove(i);
        assert(out =~= c.subrange(0, i) + c.subrange(i + 1, c.len() as int));
        assert forall|j: int| 0 <= j < out.len() implies (#[trigger] out[j]).0 != connection_id@ by {
            let j2 = if j < i { j } else { j + 1 };
            assert(out[j] == c[j2]);
            assert(connection_key()(c[i]) != connection_key()(c[j2]));
        }
    } else {
        assert forall|j: int| 0 <= j < c.len() implies (#[trigger] c[j]).0 != connection_id@ by {
            assert(!(|x: (Seq<char>, FlowView)| x.0 == connection_id@)(c[j]));
        }
    }
}

/// A transaction whose prefix of `k` modifications fails fails as a whole.
proof fn lemma_apply_all_fails_on(p: ProjectModel, items: Seq<ModifySessionSpec>, avail: Seq<Seq<char>>, k: int)
    requires
        0 < k <= items.len(),
        apply_all(p, items.take(k), avail) is Err,
    ensures
        apply_all(p, items, avail) is Err,
    decreases items.len() - k,
{
    if k < items.len() {
        assert(items.take(k + 1).drop_last() =~= items.take(k));
        lemma_apply_all_fails_on(p, items, avail, k + 1);
    } else {
        assert(items.take(k) =~= items);
    }
}

/// Removing an id from a set that gained it, and did not hold it before, gives the set back.
proof fn lemma_remove_added_key(s: Seq<Seq<char>>, k: Seq<char>)
    requires
        !s.contains(k),
    ensures
        remove_key(insert_key(s, k), k) == s,
{
    let keep = other_than(k);
    assert forall|i: int| 0 <= i < s.len() implies keep(#[trigger] s[i]) by {
        if s[i] == k {
            assert(s.contains(k));
        }
    }
    lemma_filter_keeps_all(s, keep);
    s.lemma_filter_push(k, keep);
}

/// Removing the media items of a track that has none gives the items back.
proof fn lemma_without_absent_track(media: Seq<MediaView>, t: Seq<char>)
    requires
        forall|i: int| 0 <= i < media.len() ==> (#[trigger] media[i]).0 != t,
    ensures
        without_track_media(media, t) == media,
{
    let keep = off_track(t);
    assert forall|i: int| 0 <= i < media.len() implies keep(#[trigger] media[i]) by {}
    lemma_filter_keeps_all(media, keep);
}

/// Adding a mixer that the project does not hold and deleting it again leaves the project
/// as it was; the flows to write again gain the mixer's input and output.
pub proof fn lemma_add_then_delete_mixer(p: ProjectModel, mixer_id: String, avail: Seq<Seq<char>>, d: Seq<FlowView>)
    requires
        !p.mixers.contains(mixer_id@),
    ensures
        ({
            let added = step(p, ModifySessionSpec::AddMixer { mixer_id }, avail, d);
            let (q, dq) = added->Ok_0;
            &&& added is Ok
            &&& step(q, ModifySessionSpec::DeleteMixer { mixer_id }, avail, dq) == Ok::<
                (ProjectModel, Seq<FlowView>),
                ProjectError,
            >((p, dq))
            &&& dq.contains((FlowKind::MixerInput, mixer_id@))
            &&& dq.contains((FlowKind::MixerOutput, mixer_id@))
        }),
{
    let m = mixer_id@;
    lemma_remove_added_key(p.mixers, m);
    let q = ProjectModel { mixers: insert_key(p.mixers, m), ..p };
    assert(ProjectModel { mixers: remove_key(q.mixers, m), ..q } =~= p);
    let d1 = add_flow(d, (FlowKind::MixerInput, m));
    let d2 = add_flow(d1, (FlowKind::MixerOutput, m));
    assert(d1.contains((FlowKind::MixerInput, m))) by {
        if !d.contains((FlowKind::MixerInput, m)) {
            assert(d1[d.len() as int] == (FlowKind::MixerInput, m));
        }
    }
    assert(d2.contains((FlowKind::MixerInput, m))) by {
        let i = choose|i: int| 0 <= i < d1.len() && d1[i] == (FlowKind::MixerInput, m);
        assert(d2[i] == (FlowKind::MixerInput, m));
    }
    assert(d2.contains((FlowKind::MixerOutput, m))) by {
        if !d1.contains((FlowKind::MixerOutput, m)) {
            assert(d2[d1.len() as int] == (FlowKind::MixerOutput, m));
        }
    }
}

/// Adding a track that the project does not hold, and that has no media items, and deleting
/// it again leaves the project as it was.
pub proof fn lemma_add_then_delete_track(p: ProjectModel, track_id: String, avail: Seq<Seq<char>>, d: Seq<FlowView>)
    requires
        !p.tracks.contains(track_id@),
        forall|i: int| 0 <= i < p.media.len() ==> (#[trigger] p.media[i]).0 != track_id@,
    ensures
        ({
            let added = step(p, ModifySessionSpec::AddTrack { track_id }, avail, d);
            let (q, dq) = added->Ok_0;
            &&& added is Ok
            &&& step(q, ModifySessionSpec::DeleteTrack { track_id }, avail, dq) == Ok::<
                (ProjectModel, Seq<FlowView>),
                ProjectError,
            >((p, dq))
        }),
{
    let t = track_id@;
    lemma_remove_added_key(p.tracks, t);
    lemma_without_absent_track(p.media, t);
    let q = ProjectModel { tracks: insert_key(p.tracks, t), media: without_track_media(p.media, t), ..p };
    assert(ProjectModel { tracks: remove_key(q.tracks, t), media: without_track_media(q.media, t), ..q } =~= p);
}

/// The flows to write again that an outcome holds, if it succeeded.
pub open spec fn dirty_of(r: Result<(ProjectModel, Seq<FlowView>), ProjectError>) -> Seq<FlowView> {
    match r {
        Ok((_, d)) => d,
        Err(_) => Seq::empty(),
    }
}

/// Whether no flow occurs twice.
pub open spec fn no_repeats(d: Seq<FlowView>) -> bool {
    forall|i: int, j: int| 0 <= i < j < d.len() ==> d[i] != d[j]
}

proof fn lemma_add_flow_no_repeats(d: Seq<FlowView>, f: FlowView)
    requires
        no_repeats(d),
    ensures
        no_repeats(add_flow(d, f)),
{
    if !d.contains(f) {
        let e = d.push(f);
        assert forall|i: int, j: int| 0 <= i < j < e.len() implies e[i] != e[j] by {
            if j == d.len() {
                if e[i] == e[j] {
                    assert(d[i] == f);
                }
            }
        }
    }
}

proof fn lemma_step_no_repeats(p: ProjectModel, item: ModifySessionSpec, avail: Seq<Seq<char>>, d: Seq<FlowView>)
    requires
        no_repeats(d),
        step(p, item, avail, d) is Ok,
    ensures
        no_repeats(dirty_of(step(p, item, avail, d))),
{
    match item {
        ModifySessionSpec::AddTrack { track_id } => lemma_add_flow_no_repeats(d, (FlowKind::TrackOutput, track_id@)),
        ModifySessionSpec::AddTrackMedia { track_id, .. } => lemma_add_flow_no_repeats(d, (FlowKind::TrackOutput, track_id@)),
        ModifySessionSpec::UpdateTrackMedia { track_id, .. } => lemma_add_flow_no_repeats(d, (FlowKind::TrackOutput, track_id@)),
        ModifySessionSpec::DeleteTrackMedia { track_id, .. } => lemma_add_flow_no_repeats(d, (FlowKind::TrackOutput, track_id@)),
        ModifySessionSpec::AddFixedInstance { fixed_id } => {
            lemma_add_flow_no_repeats(d, (FlowKind::FixedInstanceInput, fixed_id@));
            lemma_add_flow_no_repeats(add_flow(d, (FlowKind::FixedInstanceInput, fixed_id@)), (FlowKind::FixedInstanceOutput, fixed_id@));
        },
        ModifySessionSpec::AddMixer { mixer_id } => {
            lemma_add_flow_no_repeats(d, (FlowKind::MixerInput, mixer_id@));
            lemma_add_flow_no_repeats(add_flow(d, (FlowKind::MixerInput, mixer_id@)), (FlowKind::MixerOutput, mixer_id@));
        },
        ModifySessionSpec::DeleteConnection { connection_id } => {
            let i = connection_index(p.spec.connections, connection_id@);
            if i >= 0 {
                lemma_add_flow_no_repeats(d, p.spec.connections[i].1);
            }
        },
        ModifySessionSpec::AddConnection { to, .. } => lemma_add_flow_no_repeats(d, to@),
        _ => {},
    }
}

proof fn lemma_add_flow_facts(d: Seq<FlowView>, f: FlowView)
    ensures
        add_flow(d, f).contains(f),
        forall|g: FlowView| #[trigger] d.contains(g) ==> add_flow(d, f).contains(g),
        forall|g: FlowView| #[trigger] add_flow(d, f).contains(g) ==> g == f || d.contains(g),
{
    let e = add_flow(d, f);
    if !d.contains(f) {
        assert(e[d.len() as int] == f);
        assert forall|g: FlowView| #[trigger] d.contains(g) implies e.contains(g) by {
            let k = choose|k: int| 0 <= k < d.len() && d[k] == g;
            assert(e[k] == g);
        }
        assert forall|g: FlowView| #[trigger] e.contains(g) implies g == f || d.contains(g) by {
            let k = choose|k: int| 0 <= k < e.len() && e[k] == g;
            if k < d.len() {
                assert(d[k] == g);
            }
        }
    }
}

proof fn lemma_insert_key_facts(s: Seq<Seq<char>>, k: Seq<char>)
    ensures
        insert_key(s, k).contains(k),
        forall|x: Seq<char>| #[trigger] s.contains(x) ==> insert_key(s, k).contains(x),
        forall|x: Seq<char>| #[trigger] insert_key(s, k).contains(x) ==> x == k || s.contains(x),
{
    let e = insert_key(s, k);
    if !s.contains(k) {
        assert(e[s.len() as int] == k);
        assert forall|x: Seq<char>| #[trigger] s.contains(x) implies e.contains(x) by {
            let j = choose|j: int| 0 <= j < s.len() && s[j] == x;
            assert(e[j] == x);
        }
        assert forall|x: Seq<char>| #[trigger] e.contains(x) implies x == k || s.contains(x) by {
            let j = choose|j: int| 0 <= j < e.len() && e[j] == x;
            if j < s.len() {
                assert(s[j] == x);
            }
        }
    }
}

proof fn lemma_remove_key_facts(s: Seq<Seq<char>>, k: Seq<char>)
    ensures
        !remove_key(s, k).contains(k),
        forall|x: Seq<char>| #[trigger] s.contains(x) && x != k ==> remove_key(s, k).contains(x),
        forall|x: Seq<char>| #[trigger] remove_key(s, k).contains(x) ==> s.contains(x),
{
    let keep = other_than(k);
    let f = s.filter(keep);
    if f.contains(k) {
        let j = choose|j: int| 0 <= j < f.len() && f[j] == k;
        s.lemma_filter_pred(keep, j);
    }
    assert forall|x: Seq<char>| #[trigger] s.contains(x) && x != k implies f.contains(x) by {
        let j = choose|j: int| 0 <= j < s.len() && s[j] == x;
        s.lemma_filter_contains(keep, j);
    }
    assert forall|x: Seq<char>| #[trigger] f.contains(x) implies s.contains(x) by {
        s.lemma_filter_contains_rev(keep, x);
    }
}

/// Adding a track gives the project that track (keeping the others) with no media items on
/// it, and asks for its output to be written again; deleting a track removes it, keeps the
/// other tracks, and drops its media items while keeping every other item.
pub proof fn lemma_track_steps(p: ProjectModel, track_id: String, avail: Seq<Seq<char>>, d: Seq<FlowView>)
    ensures
        step(p, ModifySessionSpec::AddTrack { track_id }, avail, d) matches Ok((q, dq)) && {
            &&& q.tracks.contains(track_id@)
            &&& forall|x: Seq<char>| #[trigger] p.tracks.contains(x) ==> q.tracks.contains(x)
            &&& forall|j: int| 0 <= j < q.media.len() ==> (#[trigger] q.media[j]).0 != track_id@
            &&& forall|x: MediaView| #[trigger] p.media.contains(x) && x.0 != track_id@ ==> q.media.contains(x)
            &&& dq.contains((FlowKind::TrackOutput, track_id@))
            &&& forall|f: FlowView| #[trigger] d.contains(f) ==> dq.contains(f)
        },
        step(p, ModifySessionSpec::DeleteTrack { track_id }, avail, d) matches Ok((q, dq)) && {
            &&& !q.tracks.contains(track_id@)
            &&& forall|x: Seq<char>| #[trigger] p.tracks.contains(x) && x != track_id@ ==> q.tracks.contains(x)
            &&& forall|j: int| 0 <= j < q.media.len() ==> (#[trigger] q.media[j]).0 != track_id@
            &&& forall|x: MediaView| #[trigger] p.media.contains(x) && x.0 != track_id@ ==> q.media.contains(x)
            &&& forall|x: MediaView| #[trigger] q.media.contains(x) ==> p.media.contains(x)
            &&& dq == d
        },
{
    let t = track_id@;
    lemma_insert_key_facts(p.tracks, t);
    lemma_remove_key_facts(p.tracks, t);
    lemma_add_flow_facts(d, (FlowKind::TrackOutput, t));
    let keep = off_track(t);
    let m = p.media.filter(keep);
    assert forall|j: int| 0 <= j < m.len() implies (#[trigger] m[j]).0 != t by {
        p.media.lemma_filter_pred(keep, j);
    }
    assert forall|x: MediaView| #[trigger] p.media.contains(x) && x.0 != t implies m.contains(x) by {
        let k = choose|k: int| 0 <= k < p.media.len() && p.media[k] == x;
        p.media.lemma_filter_contains(keep, k);
    }
    assert forall|x: MediaView| #[trigger] m.contains(x) implies p.media.contains(x) by {
        p.media.lemma_filter_contains_rev(keep, x);
    }
}

/// Adding a media item to a track the project holds places the item, ready exactly when its
/// media object is available, replaces any item of that track with the same media id, keeps
/// every other item, and asks for the track's output to be written again; adding one to a
/// track the project does not hold fails with that track.
pub proof fn lemma_add_track_media(
    p: ProjectModel,
    track_id: String,
    media_id: String,
    object_id: String,
    avail: Seq<Seq<char>>,
    d: Seq<FlowView>,
)
    ensures
        !p.tracks.contains(track_id@) ==> step(
            p,
            ModifySessionSpec::AddTrackMedia { track_id, media_id, object_id },
            avail,
            d,
        ) == Err::<(ProjectModel, Seq<FlowView>), ProjectError>(ProjectError::TrackNotFound(track_id)),
        p.tracks.contains(track_id@) ==> (step(
            p,
            ModifySessionSpec::AddTrackMedia { track_id, media_id, object_id },
            avail,
            d,
        ) matches Ok((q, dq)) && {
            let item = (track_id@, media_id@, object_id@, avail.contains(object_id@));
            &&& q.media.contains(item)
            &&& forall|j: int| 0 <= j < q.media.len() && (#[trigger] q.media[j]).0 == track_id@ && q.media[j].1
                == media_id@ ==> q.media[j] == item
            &&& forall|x: MediaView| #[trigger] p.media.contains(x) && !(x.0 == track_id@ && x.1 == media_id@)
                ==> q.media.contains(x)
            &&& forall|x: MediaView| #[trigger] q.media.contains(x) ==> x == item || p.media.contains(x)
            &&& q.tracks == p.tracks
            &&& dq.contains((FlowKind::TrackOutput, track_id@))
            &&& forall|f: FlowView| #[trigger] d.contains(f) ==> dq.contains(f)
        }),
{
    let t = track_id@;
    let m = media_id@;
    let item = (t, m, object_id@, avail.contains(object_id@));
    lemma_add_flow_facts(d, (FlowKind::TrackOutput, t));
    let keep = other_item(t, m);
    let f = p.media.filter(keep);
    let q = f.push(item);
    assert(q[f.len() as int] == item);
    assert forall|j: int| 0 <= j < q.len() && (#[trigger] q[j]).0 == t && q[j].1 == m implies q[j] == item by {
        if j < f.len() {
            assert(q[j] == f[j]);
            p.media.lemma_filter_pred(keep, j);
        }
    }
    assert forall|x: MediaView| #[trigger] p.media.contains(x) && !(x.0 == t && x.1 == m) implies q.contains(x) by {
        let k = choose|k: int| 0 <= k < p.media.len() && p.media[k] == x;
        p.media.lemma_filter_contains(keep, k);
        let j = choose|j: int| 0 <= j < f.len() && f[j] == x;
        assert(q[j] == x);
    }
    assert forall|x: MediaView| #[trigger] q.contains(x) implies x == item || p.media.contains(x) by {
        let j = choose|j: int| 0 <= j < q.len() && q[j] == x;
        if j < f.len() {
            assert(f[j] == x);
            assert(f.contains(x));
            p.media.lemma_filter_contains_rev(keep, x);
        }
    }
}

/// Adding a mixer (fixed instance) gives the project it, keeping the others, and asks for its
/// input and output to be written again; deleting one removes it and keeps the others.
pub proof fn lemma_mixer_and_fixed_steps(p: ProjectModel, id: String, avail: Seq<Seq<char>>, d: Seq<FlowView>)
    ensures
        step(p, ModifySessionSpec::AddMixer { mixer_id: id }, avail, d) matches Ok((q, dq)) && {
            &&& q.mixers.contains(id@)
            &&& forall|x: Seq<char>| #[trigger] p.mixers.contains(x) ==> q.mixers.contains(x)
            &&& dq.contains((FlowKind::MixerInput, id@))
            &&& dq.contains((FlowKind::MixerOutput, id@))
        },
        step(p, ModifySessionSpec::DeleteMixer { mixer_id: id }, avail, d) matches Ok((q, dq)) && {
            &&& !q.mixers.contains(id@)
            &&& forall|x: Seq<char>| #[trigger] p.mixers.contains(x) && x != id@ ==> q.mixers.contains(x)
        },
        step(p, ModifySessionSpec::AddFixedInstance { fixed_id: id }, avail, d) matches Ok((q, dq)) && {
            &&& q.fixed.contains(id@)
            &&& forall|x: Seq<char>| #[trigger] p.fixed.contains(x) ==> q.fixed.contains(x)
            &&& dq.contains((FlowKind::FixedInstanceInput, id@))
            &&& dq.contains((FlowKind::FixedInstanceOutput, id@))
        },
        step(p, ModifySessionSpec::DeleteFixedInstance { fixed_id: id }, avail, d) matches Ok((q, dq)) && {
            &&& !q.fixed.contains(id@)
            &&& forall|x: Seq<char>| #[trigger] p.fixed.contains(x) && x != id@ ==> q.fixed.contains(x)
        },
{
    lemma_insert_key_facts(p.mixers, id@);
    lemma_remove_key_facts(p.mixers, id@);
    lemma_insert_key_facts(p.fixed, id@);
    lemma_remove_key_facts(p.fixed, id@);
    lemma_add_flow_facts(d, (FlowKind::MixerInput, id@));
    lemma_add_flow_facts(add_flow(d, (FlowKind::MixerInput, id@)), (FlowKind::MixerOutput, id@));
    lemma_add_flow_facts(d, (FlowKind::FixedInstanceInput, id@));
    lemma_add_flow_facts(add_flow(d, (FlowKind::FixedInstanceInput, id@)), (FlowKind::FixedInstanceOutput, id@));
}

/// Updating a media item of a track: the item becomes ready when its media object is
/// available (a ready item stays ready), nothing else changes, and a newly ready item asks
/// for the track's output to be written again; an item the track does not hold is reported
/// missing.
pub proof fn lemma_update_track_media(
    p: ProjectModel,
    track_id: String,
    media_id: String,
    i: int,
    avail: Seq<Seq<char>>,
    d: Seq<FlowView>,
)
    requires
        p.tracks.contains(track_id@),
        -1 <= i < p.media.len(),
        i >= 0 ==> p.media[i].0 == track_id@ && p.media[i].1 == media_id@,
        forall|j: int| 0 <= j < p.media.len() && (i < 0 || j < i) ==> !((#[trigger] p.media[j]).0 == track_id@
            && p.media[j].1 == media_id@),
    ensures
        i < 0 ==> step(p, ModifySessionSpec::UpdateTrackMedia { track_id, media_id }, avail, d) == Err::<
            (ProjectModel, Seq<FlowView>),
            ProjectError,
        >(ProjectError::MediaNotFound(media_id)),
        i >= 0 ==> (step(p, ModifySessionSpec::UpdateTrackMedia { track_id, media_id }, avail, d) matches Ok((q, dq))
            && {
            &&& q.media.len() == p.media.len()
            &&& q.media[i].0 == p.media[i].0 && q.media[i].1 == p.media[i].1 && q.media[i].2 == p.media[i].2
            &&& q.media[i].3 == (p.media[i].3 || avail.contains(p.media[i].2))
            &&& forall|j: int| 0 <= j < p.media.len() && j != i ==> #[trigger] q.media[j] == p.media[j]
            &&& q.tracks == p.tracks
            &&& (!p.media[i].3 && avail.contains(p.media[i].2)) ==> dq.contains((FlowKind::TrackOutput, track_id@))
            &&& forall|f: FlowView| #[trigger] d.contains(f) ==> dq.contains(f)
        }),
{
    if i < 0 {
        lemma_first_index(p.media, |x: MediaView| x.0 == track_id@ && x.1 == media_id@, p.media.len() as int);
    } else {
        lemma_first_index(p.media, |x: MediaView| x.0 == track_id@ && x.1 == media_id@, i);
    }
    lemma_add_flow_facts(d, (FlowKind::TrackOutput, track_id@));
}

/// Deleting a media item that a track of the project holds succeeds, removes that item and
/// only it (every other item stays, no item is added, the tracks, fixed instances, mixers and
/// spec are untouched), and asks for the track's output to be written again, keeping the
/// flows asked for before.
pub proof fn lemma_delete_track_media(
    p: ProjectModel,
    track_id: String,
    media_id: String,
    avail: Seq<Seq<char>>,
    d: Seq<FlowView>,
)
    requires
        p.tracks.contains(track_id@),
        exists|i: int| 0 <= i < p.media.len() && (#[trigger] p.media[i]).0 == track_id@ && p.media[i].1 == media_id@,
    ensures
        step(p, ModifySessionSpec::DeleteTrackMedia { track_id, media_id }, avail, d) matches Ok((q, dq)) && {
            &&& forall|j: int| 0 <= j < q.media.len() ==> !((#[trigger] q.media[j]).0 == track_id@ && q.media[j].1
                == media_id@)
            &&& forall|x: MediaView| #[trigger] p.media.contains(x) && !(x.0 == track_id@ && x.1 == media_id@)
                ==> q.media.contains(x)
            &&& forall|x: MediaView| #[trigger] q.media.contains(x) ==> p.media.contains(x)
            &&& q.tracks == p.tracks
            &&& q.fixed == p.fixed
            &&& q.mixers == p.mixers
            &&& q.spec == p.spec
            &&& dq.contains((FlowKind::TrackOutput, track_id@))
            &&& forall|f: FlowView| #[trigger] d.contains(f) ==> dq.contains(f)
        },
{
    let t = track_id@;
    let m = media_id@;
    let w = choose|i: int| 0 <= i < p.media.len() && (#[trigger] p.media[i]).0 == t && p.media[i].1 == m;
    lemma_first_index_spec(p.media, |x: MediaView| x.0 == track_id@ && x.1 == media_id@);
    assert(item_index(p.media, track_id@, media_id@) >= 0) by {
        if item_index(p.media, track_id@, media_id@) < 0 {
            assert(!(|x: MediaView| x.0 == track_id@ && x.1 == media_id@)(p.media[w]));
        }
    }
    let keep = other_item(t, m);
    let q = p.media.filter(keep);
    assert forall|j: int| 0 <= j < q.len() implies !((#[trigger] q[j]).0 == t && q[j].1 == m) by {
        p.media.lemma_filter_pred(keep, j);
    }
    assert forall|x: MediaView| #[trigger] p.media.contains(x) && !(x.0 == t && x.1 == m) implies q.contains(x) by {
        let k = choose|k: int| 0 <= k < p.media.len() && p.media[k] == x;
        p.media.lemma_filter_contains(keep, k);
    }
    assert forall|x: MediaView| #[trigger] q.contains(x) implies p.media.contains(x) by {
        p.media.lemma_filter_contains_rev(keep, x);
    }
    let f = (FlowKind::TrackOutput, t);
    let d2 = add_flow(d, f);
    if !d.contains(f) {
        assert(d2[d.len() as int] == f);
        assert forall|g: FlowView| #[trigger] d.contains(g) implies d2.contains(g) by {
            let k = choose|k: int| 0 <= k < d.len() && d[k] == g;
            assert(d2[k] == g);
        }
    }
}

/// The flows that a transaction leaves to be written again name each flow once.
pub proof fn lemma_dirty_flows_once(p: ProjectModel, items: Seq<ModifySessionSpec>, avail: Seq<Seq<char>>)
    requires
        apply_all(p, items, avail) is Ok,
    ensures
        no_repeats(dirty_of(apply_all(p, items, avail))),
    decreases items.len(),
{
    if items.len() > 0 {
        lemma_dirty_flows_once(p, items.drop_last(), avail);
        let (q, dq) = apply_all(p, items.drop_last(), avail)->Ok_0;
        lemma_step_no_repeats(q, items.last(), avail, dq);
    }
}

} // verus!
