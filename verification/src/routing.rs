//! How a fixed (hardware) instance and the session's connections map onto REAPER
//! channels: hardware sends, record inputs and receive channels.
use vstd::prelude::*;
use crate::ids::copy_string;

verus! {

/// The hardware channels a fixed instance is wired to.
#[derive(Clone, Copy, PartialEq, Eq, Structural, Debug)]
pub struct InstanceRouting {
    pub send_channel: usize,
    pub send_count: usize,
    pub return_channel: usize,
    pub return_count: usize,
}

/// The channels of one end of a connection: a mono channel or a stereo pair starting at
/// the given channel.
#[derive(Clone, Copy, PartialEq, Eq, Structural, Debug)]
pub enum MixerChannels {
    Mono(usize),
    Stereo(usize),
}

/// The channels of both ends of a session connection.
#[derive(Clone, Copy, PartialEq, Eq, Structural, Debug)]
pub struct ConnectionChannels {
    pub from_channels: MixerChannels,
    pub to_channels: MixerChannels,
}

/// REAPER's flag that marks a channel number as mono.
pub const MONO_FLAG: usize = 1024;

/// REAPER's channel number for mixer channels: a mono channel carries the mono flag.
pub open spec fn spec_reaper_channel(channels: MixerChannels) -> i32 {
    match channels {
        MixerChannels::Mono(start) => (start | 1024usize) as i32,
        MixerChannels::Stereo(start) => start as i32,
    }
}

pub fn reaper_channel(channels: MixerChannels) -> (r: i32)
    ensures
        r == spec_reaper_channel(channels),
{
    match channels {
        MixerChannels::Mono(start) => (start | MONO_FLAG) as i32,
        MixerChannels::Stereo(start) => start as i32,
    }
}

impl ConnectionChannels {
    /// The REAPER channel the connection reads from.
    pub fn source_reaper_channel(&self) -> (r: i32)
        ensures
            r == spec_reaper_channel(self.from_channels),
    {
        reaper_channel(self.from_channels)
    }

    /// The REAPER channel the connection writes to.
    pub fn dest_reaper_channel(&self) -> (r: i32)
        ensures
            r == spec_reaper_channel(self.to_channels),
    {
        reaper_channel(self.to_channels)
    }
}

/// The hardware-send pair for the `k`-th chunk of two send channels: a full pair is sent
/// as a stereo pair, a lone last channel is sent as mono.
pub open spec fn send_pair(start: usize, count: usize, k: int) -> (usize, usize) {
    let channel = 2 * k;
    if channel + 1 < count {
        ((start + channel) as usize, channel as usize)
    } else {
        (((start + channel) as usize | 1024usize), (channel as usize | 1024usize))
    }
}

/// Number of channel pairs (the last one possibly single) for `count` channels.
pub open spec fn pair_count(count: usize) -> int {
    (count as int + 1) / 2
}

/// The routing state of one fixed instance of a session.
#[derive(Debug)]
pub struct FixedInstanceRouting {
    /// The fixed instance this session instance uses.
    pub instance_id: String,
    pub routing: Option<InstanceRouting>,
}

/// One entry of the domain's instance routing table.
#[derive(Debug)]
pub struct InstanceRoutingEntry {
    pub instance_id: String,
    pub routing: InstanceRouting,
}

/// The routing of the first entry for `id`, if any.
pub open spec fn routing_for(entries: Seq<InstanceRoutingEntry>, id: Seq<char>) -> Option<InstanceRouting>
    decreases entries.len(),
{
    if entries.len() == 0 {
        None
    } else if entries[0].instance_id@ == id {
        Some(entries[0].routing)
    } else {
        routing_for(entries.drop_first(), id)
    }
}

pub open spec fn spec_use_reainsert(routing: Option<InstanceRouting>) -> bool {
    match routing {
        Some(r) => r.send_count <= 2 && r.return_count <= 2,
        None => false,
    }
}

pub open spec fn spec_rec_input(routing: Option<InstanceRouting>) -> i32 {
    match routing {
        Some(r) => (if r.return_count == 1 {
            r.return_channel
        } else if r.return_count == 2 {
            r.return_channel | 1024usize
        } else {
            r.return_channel | ((r.return_count << 4usize) as usize)
        }) as i32,
        None => -1i32,
    }
}

fn find_routing(instances: &Vec<InstanceRoutingEntry>, id: &String) -> (r: Option<InstanceRouting>)
    ensures
        r == routing_for(instances@, id@),
{
    let n = instances.len();
    let mut i: usize = 0;
    assert(instances@.subrange(0, n as int) =~= instances@);
    while i < n
        invariant
            n == instances@.len(),
            i <= n,
            routing_for(instances@, id@) == routing_for(instances@.subrange(i as int, n as int), id@),
        decreases n - i,
    {
        assert(instances@.subrange(i as int, n as int).drop_first() =~= instances@.subrange(i as int + 1, n as int));
        if instances[i].instance_id == *id {
            return Some(instances[i].routing);
        }
        i = i + 1;
    }
    assert(instances@.subrange(n as int, n as int) =~= Seq::<InstanceRoutingEntry>::empty());
    None
}

fn same_routing(a: Option<InstanceRouting>, b: Option<InstanceRouting>) -> (r: bool)
    ensures
        r == (a == b),
{
    match (a, b) {
        (None, None) => true,
        (Some(x), Some(y)) => x == y,
        _ => false,
    }
}

impl FixedInstanceRouting {
    /// Takes the instance's routing from the domain's routing table; answers whether it changed.
    pub fn on_instances_updated(&mut self, instances: &Vec<InstanceRoutingEntry>) -> (r: bool)
        ensures
            final(self).instance_id == old(self).instance_id,
            final(self).routing == routing_for(instances@, old(self).instance_id@),
            r == (routing_for(instances@, old(self).instance_id@) != old(self).routing),
    {
        let found = find_routing(instances, &self.instance_id);
        let changed = !same_routing(found, self.routing);
        self.routing = found;
        changed
    }

    /// Whether the instance is small enough (at most two sends and two returns) to be wired
    /// through ReaInsert instead of hardware sends.
    pub fn use_reainsert(&self) -> (r: bool)
        ensures
            r == spec_use_reainsert(self.routing),
    {
        match self.routing {
            Some(routing) => routing.send_count <= 2 && routing.return_count <= 2,
            None => false,
        }
    }

    /// Number of send channels; two when the instance is not routed.
    pub fn send_count(&self) -> (r: usize)
        ensures
            r == match self.routing {
                Some(routing) => routing.send_count,
                None => 2,
            },
    {
        match self.routing {
            None => 2,
            Some(routing) => routing.send_count,
        }
    }

    /// Number of return channels; two when the instance is not routed.
    pub fn return_count(&self) -> (r: usize)
        ensures
            r == match self.routing {
                Some(routing) => routing.return_count,
                None => 2,
            },
    {
        match self.routing {
            None => 2,
            Some(routing) => routing.return_count,
        }
    }

    /// The REAPER channel pairs of the hardware sends: the send channels are taken two at a
    /// time from the first send channel; an unrouted instance has none.
    pub fn reaper_channel_pairs(&self) -> (r: Vec<(usize, usize)>)
        requires
            self.routing matches Some(routing) ==> routing.send_count == 0 || routing.send_channel
                + routing.send_count - 1 <= usize::MAX,
        ensures
            match self.routing {
                None => r@.len() == 0,
                Some(routing) => {
                    &&& r@.len() == pair_count(routing.send_count)
                    &&& forall|k: int| 0 <= k < r@.len() ==> #[trigger] r@[k] == send_pair(
                        routing.send_channel,
                        routing.send_count,
                        k,
                    )
                },
            },
    {
        let mut r: Vec<(usize, usize)> = Vec::new();
        match self.routing {
            None => r,
            Some(routing) => {
                let start = routing.send_channel;
                let count = routing.send_count;
                let pairs = count / 2 + count % 2;
                let mut k: usize = 0;
                while k < pairs
                    invariant
                        start == routing.send_channel,
                        count == routing.send_count,
                        count == 0 || start + count - 1 <= usize::MAX,
                        pairs == pair_count(count),
                        k <= pairs,
                        r@.len() == k,
                        forall|j: int| 0 <= j < r@.len() ==> #[trigger] r@[j] == send_pair(start, count, j),
                    decreases pairs - k,
                {
                    let channel = 2 * k;
                    if channel + 1 < count {
                        r.push((start + channel, channel));
                    } else {
                        r.push(((start + channel) | MONO_FLAG, channel | MONO_FLAG));
                    }
                    k = k + 1;
                }
                r
            },
        }
    }

    /// The REAPER record input of the return track: the return channel for one return, the
    /// stereo pair for two, the multichannel encoding otherwise, and -1 when unrouted.
    pub fn reaper_rec_input(&self) -> (r: i32)
        ensures
            r == spec_rec_input(self.routing),
    {
        match self.routing {
            Some(routing) => {
                let v: usize = if routing.return_count == 1 {
                    routing.return_channel
                } else if routing.return_count == 2 {
                    routing.return_channel | MONO_FLAG
                } else {
                    routing.return_channel | (routing.return_count << 4usize)
                };
                v as i32
            },
            None => -1,
        }
    }
}

/// The entries of a routing table, as instance ids and routings.
pub open spec fn routing_views(entries: Seq<InstanceRoutingEntry>) -> Seq<(Seq<char>, InstanceRouting)> {
    entries.map_values(|e: InstanceRoutingEntry| (e.instance_id@, e.routing))
}

/// Whether an entry routes one of the `reserved` instances.
pub open spec fn is_reserved(reserved: Seq<Seq<char>>) -> spec_fn((Seq<char>, InstanceRouting)) -> bool {
    |e: (Seq<char>, InstanceRouting)| reserved.contains(e.0)
}

fn reserves(reserved: &Vec<String>, id: &String) -> (r: bool)
    ensures
        r == reserved@.map_values(|s: String| s@).contains(id@),
{
    let ghost ids = reserved@.map_values(|s: String| s@);
    let n = reserved.len();
    let mut i: usize = 0;
    while i < n
        invariant
            n == reserved@.len(),
            i <= n,
            ids == reserved@.map_values(|s: String| s@),
            forall|j: int| 0 <= j < i ==> ids[j] != id@,
        decreases n - i,
    {
        if reserved[i] == *id {
            assert(ids[i as int] == id@);
            return true;
        }
        i = i + 1;
    }
    false
}

/// The routing a task hands its engine: the entries of the domain's routing table for the
/// fixed instances the task reserved, in table order.
pub fn engine_fixed_instance_routing(table: &Vec<InstanceRoutingEntry>, reserved: &Vec<String>) -> (r: Vec<
    InstanceRoutingEntry,
>)
    ensures
        routing_views(r@) == routing_views(table@).filter(is_reserved(reserved@.map_values(|s: String| s@))),
{
    let ghost keep = is_reserved(reserved@.map_values(|s: String| s@));
    let ghost all = routing_views(table@);
    let mut r: Vec<InstanceRoutingEntry> = Vec::new();
    let n = table.len();
    let mut i: usize = 0;
    while i < n
        invariant
            n == table@.len(),
            i <= n,
            all == routing_views(table@),
            keep == is_reserved(reserved@.map_values(|s: String| s@)),
            routing_views(r@) == all.take(i as int).filter(keep),
        decreases n - i,
    {
        let ghost before = r@;
        proof {
            assert(all.take(i + 1) =~= all.take(i as int).push(all[i as int]));
            all.take(i as int).lemma_filter_push(all[i as int], keep);
        }
        if reserves(reserved, &table[i].instance_id) {
            let e = InstanceRoutingEntry { instance_id: table[i].instance_id.clone(), routing: table[i].routing };
            r.push(e);
            proof {
                assert(routing_views(r@) =~= routing_views(before).push(all[i as int]));
            }
        }
        i = i + 1;
    }
    proof {
        assert(all.take(n as int) =~= all);
    }
    r
}

/// Whether the routing table changes the routing of a session's fixed instance.
pub open spec fn routing_changed(f: FixedInstanceRouting, table: Seq<InstanceRoutingEntry>) -> bool {
    routing_for(table, f.instance_id@) != f.routing
}

/// Takes in a new routing table for the fixed instances of a session: every instance takes
/// its routing from the table, and the answer lists, in order, the instances whose routing
/// changed, whose state is to be written again.
pub fn instances_updated(instances: &mut Vec<FixedInstanceRouting>, table: &Vec<InstanceRoutingEntry>) -> (r: Vec<String>)
    ensures
        final(instances)@.len() == old(instances)@.len(),
        forall|i: int| 0 <= i < old(instances)@.len() ==> {
            &&& (#[trigger] final(instances)@[i]).instance_id == old(instances)@[i].instance_id
            &&& final(instances)@[i].routing == routing_for(table@, old(instances)@[i].instance_id@)
        },
        r@.map_values(|s: String| s@) == old(instances)@.filter(
            |f: FixedInstanceRouting| routing_changed(f, table@),
        ).map_values(|f: FixedInstanceRouting| f.instance_id@),
{
    let ghost chg = |f: FixedInstanceRouting| routing_changed(f, table@);
    let ghost idf = |f: FixedInstanceRouting| f.instance_id@;
    let mut input: Vec<FixedInstanceRouting> = Vec::new();
    std::mem::swap(&mut input, instances);
    let ghost all = input@;
    let mut r: Vec<String> = Vec::new();
    proof {
        assert(all.take(0) =~= Seq::<FixedInstanceRouting>::empty());
        assert(r@.map_values(|s: String| s@) =~= Seq::<Seq<char>>::empty());
    }
    for f in it: input.into_iter()
        invariant
            it.seq() == all,
            all == old(instances)@,
            chg == (|f: FixedInstanceRouting| routing_changed(f, table@)),
            idf == (|f: FixedInstanceRouting| f.instance_id@),
            instances@.len() == it.index(),
            forall|i: int| 0 <= i < it.index() ==> {
                &&& (#[trigger] instances@[i]).instance_id == all[i].instance_id
                &&& instances@[i].routing == routing_for(table@, all[i].instance_id@)
            },
            r@.map_values(|s: String| s@) == all.take(it.index() as int).filter(chg).map_values(idf),
    {
        let ghost k = it.index() as int;
        let ghost f0 = f;
        let ghost before = r@;
        proof {
            assert(all.take(k + 1) =~= all.take(k).push(f));
            all.take(k).lemma_filter_push(f, chg);
            all.take(k).filter(chg).lemma_push_map_commute(idf, f);
        }
        let mut f = f;
        let id = copy_string(&f.instance_id);
        if f.on_instances_updated(table) {
            r.push(id);
            proof {
                assert(chg(f0));
                assert(r@.map_values(|s: String| s@) =~= before.map_values(|s: String| s@).push(f0.instance_id@));
            }
        } else {
            proof {
                assert(!chg(f0));
            }
        }
        instances.push(f);
    }
    proof {
        assert(all.take(all.len() as int) =~= all);
    }
    r
}

} // verus!
