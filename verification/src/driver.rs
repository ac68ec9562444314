//! Commands, errors and configuration shared by the instrument drivers.
use vstd::prelude::*;
use crate::ids::{PlayId, RenderId};
use crate::netio::NetioConfig;
use crate::ids::{first_index, lemma_first_index};

verus! {

/// A command for an instrument driver. Low-gain values arrive as raw potentiometer words.
#[derive(Debug)]
pub enum InstanceDriverCommand {
    CheckConnection,
    Stop,
    Play { play_id: PlayId },
    Render { render_id: RenderId },
    Rewind,
    SetParameters { low_gain: Option<Vec<u16>> },
}

/// Why a driver refused a command.
#[derive(Clone, PartialEq, Eq, Debug)]
pub enum InstanceDriverError {
    MediaNotPresent,
    InstanceNotFound(String),
}

/// Configuration of a Summatra.
#[derive(Clone, Copy, Debug)]
pub struct SummatraConfig;

/// Configuration of a Distopik device.
#[derive(Debug)]
pub enum DistopikConfig {
    Dual1084(crate::dual_1084::Config),
    Summatra(SummatraConfig),
}

/// Configuration of one instance driver.
#[derive(Debug)]
pub enum DriverConfig {
    Distopik(DistopikConfig),
    Netio(NetioConfig),
}

/// Asks the driver supervisor for the ids of its instances.
pub struct GetInstances;

/// The driver supervisor: the configured instances, by id, in configuration order.
#[derive(Debug)]
pub struct DriverSupervisor {
    pub instances: Vec<String>,
}

/// Index of the instance `id`, or -1.
pub open spec fn instance_index(instances: Seq<String>, id: Seq<char>) -> int {
    first_index(instances, |i: String| i@ == id)
}

impl DriverSupervisor {
    /// A supervisor of the given instances.
    pub fn new(instances: Vec<String>) -> (r: Self)
        ensures
            r.instances == instances,
    {
        DriverSupervisor { instances }
    }

    /// The instance that a command for `instance_id` goes to, or the error that the instance
    /// is not known.
    pub fn route(&self, instance_id: &String) -> (r: Result<usize, InstanceDriverError>)
        ensures
            ({
                let i = instance_index(self.instances@, instance_id@);
                if i >= 0 {
                    r == Ok::<usize, InstanceDriverError>(i as usize)
                } else {
                    r == Err::<usize, InstanceDriverError>(InstanceDriverError::InstanceNotFound(*instance_id))
                }
            }),
    {
        let ghost p = |i: String| i@ == instance_id@;
        let n = self.instances.len();
        let mut i: usize = 0;
        while i < n && self.instances[i] != *instance_id
            invariant
                n == self.instances@.len(),
                i <= n,
                p == (|i: String| i@ == instance_id@),
                forall|j: int| 0 <= j < i ==> !p(#[trigger] self.instances@[j]),
            decreases n - i,
        {
            i = i + 1;
        }
        proof {
            lemma_first_index(self.instances@, p, i as int);
        }
        if i < n {
            Ok(i)
        } else {
            Err(InstanceDriverError::InstanceNotFound(instance_id.clone()))
        }
    }
}

/// The values of one parameter (or report), channel by channel; a channel may have no value.
#[derive(Debug)]
pub struct ChannelValues<V> {
    pub id: String,
    pub values: Vec<Option<V>>,
}

impl<V> View for ChannelValues<V> {
    type V = (Seq<char>, Seq<Option<V>>);

    open spec fn view(&self) -> (Seq<char>, Seq<Option<V>>) {
        (self.id@, self.values@)
    }
}

/// A parameter of an instance's model and the number of channels its scope spans.
#[derive(Debug)]
pub struct ParameterMeta {
    pub id: String,
    pub channels: usize,
}

/// The parameter and report values an instance driver notifies.
#[derive(Debug)]
pub struct NotifyInstanceValues<V> {
    pub instance_id: String,
    pub parameters: Vec<ChannelValues<V>>,
    pub reports: Vec<ChannelValues<V>>,
}

/// The views of a list of channel values.
pub open spec fn value_views<V>(v: Seq<ChannelValues<V>>) -> Seq<(Seq<char>, Seq<Option<V>>)> {
    v.map_values(|c: ChannelValues<V>| c@)
}

/// The number of channels of parameter `id` in the model, if the model has it.
pub open spec fn model_channels(model: Seq<ParameterMeta>, id: Seq<char>) -> Option<usize> {
    let i = first_index(model, |m: ParameterMeta| m.id@ == id);
    if i >= 0 {
        Some(model[i].channels)
    } else {
        None
    }
}

/// Index of the values of parameter `id`, or -1.
pub open spec fn values_index<V>(ps: Seq<(Seq<char>, Seq<Option<V>>)>, id: Seq<char>) -> int {
    first_index(ps, |p: (Seq<char>, Seq<Option<V>>)| p.0 == id)
}

/// `dest` with its leading channels replaced by `values`; values beyond `dest` are dropped.
pub open spec fn overlaid<V>(dest: Seq<Option<V>>, values: Seq<Option<V>>) -> Seq<Option<V>> {
    Seq::new(dest.len(), |j: int| if j < values.len() { values[j] } else { dest[j] })
}

/// The parameters after merging the values of one parameter: a parameter the model does not
/// know is skipped; a parameter not notified yet starts with no value on each of its channels.
pub open spec fn merged_one<V>(
    ps: Seq<(Seq<char>, Seq<Option<V>>)>,
    entry: (Seq<char>, Seq<Option<V>>),
    model: Seq<ParameterMeta>,
) -> Seq<(Seq<char>, Seq<Option<V>>)> {
    match model_channels(model, entry.0) {
        None => ps,
        Some(n) => {
            let i = values_index(ps, entry.0);
            if i >= 0 {
                ps.update(i, (entry.0, overlaid(ps[i].1, entry.1)))
            } else {
                ps.push((entry.0, overlaid(Seq::new(n as nat, |j: int| None::<V>), entry.1)))
            }
        },
    }
}

/// The parameters after merging every entry, in order.
pub open spec fn merged_all<V>(
    ps: Seq<(Seq<char>, Seq<Option<V>>)>,
    entries: Seq<(Seq<char>, Seq<Option<V>>)>,
    model: Seq<ParameterMeta>,
) -> Seq<(Seq<char>, Seq<Option<V>>)>
    decreases entries.len(),
{
    if entries.len() == 0 {
        ps
    } else {
        merged_one(merged_all(ps, entries.drop_last(), model), entries.last(), model)
    }
}

fn find_meta(model: &Vec<ParameterMeta>, id: &String) -> (r: Option<usize>)
    ensures
        r == model_channels(model@, id@),
{
    let ghost p = |m: ParameterMeta| m.id@ == id@;
    let n = model.len();
    let mut i: usize = 0;
    while i < n && model[i].id != *id
        invariant
            n == model@.len(),
            i <= n,
            p == (|m: ParameterMeta| m.id@ == id@),
            forall|j: int| 0 <= j < i ==> !p(#[trigger] model@[j]),
        decreases n - i,
    {
        i = i + 1;
    }
    proof {
        lemma_first_index(model@, p, i as int);
    }
    if i < n {
        Some(model[i].channels)
    } else {
        None
    }
}

fn find_values<V>(ps: &Vec<ChannelValues<V>>, id: &String) -> (r: usize)
    ensures
        r <= ps@.len(),
        r == ps@.len() <==> values_index(value_views(ps@), id@) < 0,
        r < ps@.len() ==> values_index(value_views(ps@), id@) == r,
        r < ps@.len() ==> ps@[r as int].id@ == id@,
{
    let ghost p = |c: (Seq<char>, Seq<Option<V>>)| c.0 == id@;
    let ghost vs = value_views(ps@);
    let n = ps.len();
    let mut i: usize = 0;
    while i < n && ps[i].id != *id
        invariant
            n == ps@.len(),
            i <= n,
            vs == value_views(ps@),
            p == (|c: (Seq<char>, Seq<Option<V>>)| c.0 == id@),
            forall|j: int| 0 <= j < i ==> !p(#[trigger] vs[j]),
        decreases n - i,
    {
        i = i + 1;
    }
    proof {
        lemma_first_index(vs, p, i as int);
    }
    i
}

/// Overlays `values` onto `dest`, channel by channel.
fn overlay<V>(dest: &mut Vec<Option<V>>, values: Vec<Option<V>>)
    ensures
        final(dest)@ == overlaid(old(dest)@, values@),
{
    let ghost all = values@;
    let ghost d0 = dest@;
    let mut idx: usize = 0;
    for value in it: values.into_iter()
        invariant
            it.seq() == all,
            idx == if it.index() < d0.len() { it.index() as int } else { d0.len() as int },
            d0 == old(dest)@,
            dest@.len() == d0.len(),
            forall|j: int| 0 <= j < d0.len() ==> #[trigger] dest@[j] == if j < it.index() { all[j] } else { d0[j] },
    {
        if idx < dest.len() {
            dest.set(idx, value);
            idx = idx + 1;
        }
    }
    proof {
        assert(dest@ =~= overlaid(d0, all));
    }
}

impl<V> NotifyInstanceValues<V> {
    /// No values yet.
    pub fn new(instance_id: String) -> (r: Self)
        ensures
            r.instance_id == instance_id,
            r.parameters@.len() == 0,
            r.reports@.len() == 0,
    {
        NotifyInstanceValues { instance_id, parameters: Vec::new(), reports: Vec::new() }
    }

    /// Merges new parameter values: for every parameter the model knows, the channels given
    /// overwrite the held ones; channels beyond the parameter's scope are dropped.
    pub fn extend_parameters(&mut self, values: Vec<ChannelValues<V>>, model: &Vec<ParameterMeta>)
        ensures
            value_views(final(self).parameters@) == merged_all(value_views(old(self).parameters@), value_views(values@), model@),
            final(self).instance_id == old(self).instance_id,
            final(self).reports == old(self).reports,
    {
        let ghost entries = value_views(values@);
        let ghost input = values@;
        for entry in it: values.into_iter()
            invariant
                it.seq() == input,
                entries == value_views(input),
                self.instance_id == old(self).instance_id,
                self.reports == old(self).reports,
                value_views(self.parameters@) == merged_all(value_views(old(self).parameters@), entries.take(it.index() as int), model@),
        {
            let ghost k = it.index() as int;
            proof {
                assert(entries.take(k + 1).drop_last() =~= entries.take(k));
                assert(entries.take(k + 1).last() == entry@);
            }
            let ghost before = value_views(self.parameters@);
            let ghost ev = entry@;
            let ChannelValues { id, values: vals } = entry;
            assert(ev == (id@, vals@));
            match find_meta(model, &id) {
                None => {
                    assert(merged_one(before, ev, model@) == before);
                },
                Some(n) => {
                    let i = find_values(&self.parameters, &id);
                    if i < self.parameters.len() {
                        let ghost ps0 = self.parameters@;
                        let mut cur = self.parameters.remove(i);
                        overlay(&mut cur.values, vals);
                        let ghost cv = cur@;
                        self.parameters.insert(i, cur);
                        proof {
                            assert(value_views(self.parameters@) =~= before.update(i as int, cv));
                            assert(before[i as int] == ps0[i as int]@);
                            assert(cv == (id@, overlaid(before[i as int].1, vals@)));
                            assert(merged_one(before, ev, model@) == before.update(i as int, cv));
                        }
                    } else {
                        let mut dest: Vec<Option<V>> = Vec::new();
                        let mut j: usize = 0;
                        while j < n
                            invariant
                                j <= n,
                                dest@.len() == j,
                                forall|t: int| 0 <= t < j ==> dest@[t] is None,
                            decreases n - j,
                        {
                            dest.push(None);
                            j = j + 1;
                        }
                        proof {
                            assert(dest@ =~= Seq::new(n as nat, |t: int| None::<V>));
                        }
                        overlay(&mut dest, vals);
                        let ghost before_ps = self.parameters@;
                        let added = ChannelValues { id, values: dest };
                        let ghost av = added@;
                        self.parameters.push(added);
                        proof {
                            assert(value_views(self.parameters@) =~= value_views(before_ps).push(av));
                            assert(merged_one(before, ev, model@) == before.push(av));
                        }
                    }
                },
            }
        }
        proof {
            assert(entries.take(entries.len() as int) =~= entries);
        }
    }
}

} // verus!
