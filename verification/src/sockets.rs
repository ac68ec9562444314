//! The socket supervisor of the domain server: the clients' sockets, which sockets are
//! attached to which tasks and with which secure keys, which socket gets a task's streaming
//! packets, and how socket messages change that state.
use vstd::prelude::*;
use itertools::Itertools;
use crate::ids::{
    AppTaskId, copy_string, distinct_by, first_index, lemma_distinct_by_same_keys, lemma_filter_distinct_by,
    lemma_filter_keeps_all, lemma_first_index, lemma_first_index_spec,
};
use crate::security::{DomainError, TaskPermissions, TaskSecurity, grants, permissions_for};

verus! {

broadcast use vstd::seq_lib::group_seq_properties;

/// Options of the WebRTC transport.
#[derive(Debug)]
pub struct WebRtcOpts {
    /// Enable WebRTC transport support (used only if the app supports it as well)
    pub enable_web_rtc: bool,
    /// List of ICE servers to use for WebRTC connections
    pub ice_servers: Vec<String>,
    /// Beginning of UDP port range to use for WebRTC (inclusive)
    pub web_rtc_port_min: u16,
    /// End of UDP port range to use for WebRTC (inclusive)
    pub web_rtc_port_max: u16,
    /// Maximum number of retransmits before dropping data
    pub web_rtc_max_retransmits: u16,
    /// Use native WebRTC ordering of packets instead of reordering in the clients
    pub web_rtc_use_native_ordering: bool,
}

/// An ICE server as handed to the WebRTC peer connection.
#[derive(Debug)]
pub struct IceServer {
    pub urls: Vec<String>,
}

impl WebRtcOpts {
    /// One ICE server per configured address, with that address as its only URL.
    pub fn get_ice_servers(&self) -> (r: Vec<IceServer>)
        ensures
            r@.len() == self.ice_servers@.len(),
            forall|i: int| 0 <= i < r@.len() ==> (#[trigger] r@[i]).urls@ == seq![self.ice_servers@[i]],
    {
        let mut r: Vec<IceServer> = Vec::new();
        let n = self.ice_servers.len();
        let mut i: usize = 0;
        while i < n
            invariant
                n == self.ice_servers@.len(),
                i <= n,
                r@.len() == i,
                forall|j: int| 0 <= j < i ==> (#[trigger] r@[j]).urls@ == seq![self.ice_servers@[j]],
            decreases n - i,
        {
            let mut urls: Vec<String> = Vec::new();
            urls.push(copy_string(&self.ice_servers[i]));
            r.push(IceServer { urls });
            i = i + 1;
        }
        r
    }
}

/// Asks a WebRTC socket to add a remote ICE candidate.
#[derive(Debug)]
pub struct AddIceCandidate {
    pub candidate: String,
}

/// Options of the socket supervisor.
#[derive(Debug)]
pub struct SocketsOpts {
    pub web_rtc: WebRtcOpts,
    /// Milliseconds to keep streaming packets cached if for redelivery
    pub packet_cache_max_retention_ms: usize,
    /// Milliseconds without a pong after which a socket is no longer valid
    pub socket_drop_timeout: u64,
    /// Milliseconds a socket may take to complete its initialization
    pub socket_init_timeout: u64,
    /// Milliseconds between pings of active sockets
    pub socket_ping_interval: u64,
}

/// The transport of a socket.
#[derive(Clone, Copy, PartialEq, Eq, Structural, Debug)]
pub enum SocketKind {
    WebRtc,
    WebSocket,
}

/// A socket of a client.
#[derive(Debug)]
pub struct SupervisedSocket {
    pub id: String,
    pub kind: SocketKind,
    /// Whether the socket's actor still accepts messages.
    pub connected: bool,
    /// Milliseconds since the epoch of the last pong.
    pub last_pong_at: i64,
    /// Whether the socket finished its initialization.
    pub init_complete: bool,
    /// Milliseconds since the epoch at which `init_complete` was last set.
    pub init_changed_at: i64,
}

/// Milliseconds elapsed from `since` to `now`, never negative.
pub open spec fn elapsed(since: i64, now: i64) -> int {
    if now >= since {
        now - since
    } else {
        0
    }
}

pub open spec fn socket_score(s: SupervisedSocket) -> int {
    match s.kind {
        SocketKind::WebRtc => 10,
        SocketKind::WebSocket => 1,
    }
}

pub open spec fn socket_valid(s: SupervisedSocket, now: i64, drop_timeout: u64) -> bool {
    elapsed(s.last_pong_at, now) < drop_timeout && s.connected
}

/// A socket may carry a task's packets once it is initialized and still valid.
pub open spec fn socket_eligible(s: SupervisedSocket, now: i64, drop_timeout: u64) -> bool {
    s.init_complete && socket_valid(s, now, drop_timeout)
}

impl SupervisedSocket {
    /// The socket's rank when choosing where to send packets: lower ranks are chosen first.
    pub fn score(&self) -> (r: usize)
        ensures
            r == socket_score(*self),
    {
        match self.kind {
            SocketKind::WebRtc => 10,
            SocketKind::WebSocket => 1,
        }
    }

    /// A socket is valid while it answered a ping less than `socket_drop_timeout`
    /// milliseconds ago and its actor is connected.
    pub fn is_valid(&self, now: i64, socket_drop_timeout: u64) -> (r: bool)
        ensures
            r == socket_valid(*self, now, socket_drop_timeout),
    {
        let e: i128 = if (now as i128) >= (self.last_pong_at as i128) {
            (now as i128) - (self.last_pong_at as i128)
        } else {
            0
        };
        e < (socket_drop_timeout as i128) && self.connected
    }
}

/// A socket attached to a task, with the secure key it attached with.
#[derive(Debug)]
pub struct SocketMembership {
    pub task_id: AppTaskId,
    pub secure_key: String,
    pub socket: ClientSocketId,
}

/// A client of the domain server and its sockets.
#[derive(Debug)]
pub struct SupervisedClient {
    pub id: String,
    pub sockets: Vec<SupervisedSocket>,
}

/// The security of one task.
#[derive(Debug)]
pub struct TaskSecurityEntry {
    pub task_id: AppTaskId,
    pub security: TaskSecurity,
}

/// A socket as a pair of its client's id and its own id.
pub open spec fn socket_key(id: ClientSocketId) -> (Seq<char>, Seq<char>) {
    (id.client_id@, id.socket_id@)
}

/// A membership as plain values: the task, the secure key and the socket.
pub open spec fn member_view(m: SocketMembership) -> ((Seq<char>, Seq<char>), Seq<char>, (Seq<char>, Seq<char>)) {
    (m.task_id@, m.secure_key@, socket_key(m.socket))
}

/// The key of a client in the supervisor: its id.
pub open spec fn client_key() -> spec_fn(SupervisedClient) -> Seq<char> {
    |c: SupervisedClient| c.id@
}

/// The key of a socket among its client's sockets: its id.
pub open spec fn socket_id_key() -> spec_fn(SupervisedSocket) -> Seq<char> {
    |s: SupervisedSocket| s.id@
}

/// The key of a membership: the membership itself, as plain values.
pub open spec fn member_key() -> spec_fn(SocketMembership) -> ((Seq<char>, Seq<char>), Seq<char>, (Seq<char>, Seq<char>)) {
    |m: SocketMembership| member_view(m)
}

/// The key of a task's security entry: the task.
pub open spec fn security_key() -> spec_fn(TaskSecurityEntry) -> (Seq<char>, Seq<char>) {
    |e: TaskSecurityEntry| e.task_id@
}

/// The security of the first entry for `task`, if any.
pub open spec fn security_of(entries: Seq<TaskSecurityEntry>, task: (Seq<char>, Seq<char>)) -> Option<
    TaskSecurity,
>
    decreases entries.len(),
{
    if entries.len() == 0 {
        None
    } else if entries[0].task_id@ == task {
        Some(entries[0].security)
    } else {
        security_of(entries.drop_first(), task)
    }
}

/// Whether the task's security gives the secure key every permission in `required`.
pub open spec fn key_grants(sec: TaskSecurity, key: Seq<char>, required: TaskPermissions) -> bool {
    match permissions_for(sec.security@, key) {
        None => false,
        Some(held) => grants(held, required),
    }
}

/// Whether a membership attaches a socket of `client` to `task` with a secure key that the
/// task's security `sec` gives every permission in `required`.
pub open spec fn member_grants(
    m: SocketMembership,
    sec: TaskSecurity,
    client: Seq<char>,
    task: (Seq<char>, Seq<char>),
    required: TaskPermissions,
) -> bool {
    m.task_id@ == task && m.socket.client_id@ == client && key_grants(sec, m.secure_key@, required)
}

/// Whether client `client` holds every permission in `required` on `task`: the task has
/// security, and a socket of the client is attached to the task with a secure key that the
/// security gives those permissions.
pub open spec fn client_can(
    members: Seq<SocketMembership>,
    security: Seq<TaskSecurityEntry>,
    client: Seq<char>,
    task: (Seq<char>, Seq<char>),
    required: TaskPermissions,
) -> bool {
    match security_of(security, task) {
        None => false,
        Some(sec) => exists|i: int| 0 <= i < members.len() && member_grants(#[trigger] members[i], sec, client, task, required),
    }
}

/// `Itertools::sorted_by_key` of itertools on the enumerated scores, then the first element:
/// the crate collects the items and sorts them with std's stable `sort_by_key`, so the
/// first element is the first position holding the lowest score; `None` for no scores.
#[verifier::external_body]
fn first_lowest(scores: &Vec<usize>) -> (r: Option<usize>)
    ensures
        r is None <==> scores@.len() == 0,
        r is Some ==> r->0 < scores@.len(),
        r is Some ==> forall|j: int| 0 <= j < scores@.len() ==> scores@[r->0 as int] <= #[trigger] scores@[j],
        r is Some ==> forall|j: int| 0 <= j < r->0 ==> #[trigger] scores@[j] > scores@[r->0 as int],
{
    scores.iter().enumerate().sorted_by_key(|entry| *entry.1).next().map(|entry| entry.0)
}

fn find_security(entries: &Vec<TaskSecurityEntry>, task_id: &AppTaskId) -> (r: Option<usize>)
    ensures
        security_of(entries@, task_id@) is None <==> r is None,
        r matches Some(i) ==> i < entries@.len() && security_of(entries@, task_id@) == Some(
            entries@[i as int].security,
        ) && entries@[i as int].task_id@ == task_id@ && forall|j: int| 0 <= j < i ==> (
        #[trigger] entries@[j]).task_id@ != task_id@,
        r is None ==> forall|j: int| 0 <= j < entries@.len() ==> (#[trigger] entries@[j]).task_id@ != task_id@,
{
    let n = entries.len();
    let mut i: usize = 0;
    assert(entries@.subrange(0, n as int) =~= entries@);
    while i < n
        invariant
            n == entries@.len(),
            i <= n,
            security_of(entries@, task_id@) == security_of(entries@.subrange(i as int, n as int), task_id@),
            forall|j: int| 0 <= j < i ==> (#[trigger] entries@[j]).task_id@ != task_id@,
        decreases n - i,
    {
        assert(entries@.subrange(i as int, n as int).drop_first() =~= entries@.subrange(
            i as int + 1,
            n as int,
        ));
        if entries[i].task_id.same_as(task_id) {
            return Some(i);
        }
        i = i + 1;
    }
    assert(entries@.subrange(n as int, n as int) =~= Seq::<TaskSecurityEntry>::empty());
    None
}

/// The socket of a client that carries a task's packets: the eligible socket with the
/// lowest score, the first one on a tie.
pub open spec fn is_best_socket(sockets: Seq<SupervisedSocket>, i: int, now: i64, drop_timeout: u64) -> bool {
    &&& 0 <= i < sockets.len()
    &&& socket_eligible(sockets[i], now, drop_timeout)
    &&& forall|j: int| 0 <= j < sockets.len() && socket_eligible(#[trigger] sockets[j], now, drop_timeout)
        ==> socket_score(sockets[i]) <= socket_score(sockets[j])
    &&& forall|j: int| 0 <= j < i && socket_eligible(#[trigger] sockets[j], now, drop_timeout)
        ==> socket_score(sockets[j]) > socket_score(sockets[i])
}

/// The index of the socket that carries a task's packets, or -1 when no socket is eligible.
pub open spec fn best_socket_index(sockets: Seq<SupervisedSocket>, now: i64, drop_timeout: u64) -> int {
    if exists|i: int| is_best_socket(sockets, i, now, drop_timeout) {
        choose|i: int| is_best_socket(sockets, i, now, drop_timeout)
    } else {
        -1
    }
}

/// At most one socket is the best one.
pub proof fn lemma_best_socket_unique(sockets: Seq<SupervisedSocket>, i: int, j: int, now: i64, drop_timeout: u64)
    requires
        is_best_socket(sockets, i, now, drop_timeout),
        is_best_socket(sockets, j, now, drop_timeout),
    ensures
        i == j,
{
    if i < j {
        assert(socket_eligible(sockets[i], now, drop_timeout));
    } else if j < i {
        assert(socket_eligible(sockets[j], now, drop_timeout));
    }
}

/// Picks the socket of a client that should carry a task's streaming packets.
pub fn best_socket(sockets: &Vec<SupervisedSocket>, now: i64, socket_drop_timeout: u64) -> (r: Option<usize>)
    ensures
        r is None <==> forall|j: int| 0 <= j < sockets@.len() ==> !socket_eligible(
            #[trigger] sockets@[j],
            now,
            socket_drop_timeout,
        ),
        r matches Some(i) ==> is_best_socket(sockets@, i as int, now, socket_drop_timeout),
        match r {
            Some(i) => i as int == best_socket_index(sockets@, now, socket_drop_timeout),
            None => best_socket_index(sockets@, now, socket_drop_timeout) == -1,
        },
{
    let mut candidates: Vec<usize> = Vec::new();
    let mut scores: Vec<usize> = Vec::new();
    let n = sockets.len();
    let mut i: usize = 0;
    while i < n
        invariant
            n == sockets@.len(),
            i <= n,
            candidates@.len() == scores@.len(),
            forall|k: int| 0 <= k < candidates@.len() ==> {
                &&& (#[trigger] candidates@[k]) < i
                &&& socket_eligible(sockets@[candidates@[k] as int], now, socket_drop_timeout)
                &&& scores@[k] == socket_score(sockets@[candidates@[k] as int])
            },
            forall|k1: int, k2: int| 0 <= k1 < k2 < candidates@.len() ==> #[trigger] candidates@[k1]
                < #[trigger] candidates@[k2],
            forall|j: int| 0 <= j < i && socket_eligible(#[trigger] sockets@[j], now, socket_drop_timeout)
                ==> exists|k: int| 0 <= k < candidates@.len() && candidates@[k] == j,
        decreases n - i,
    {
        let ghost before = candidates@;
        if sockets[i].init_complete && sockets[i].is_valid(now, socket_drop_timeout) {
            candidates.push(i);
            scores.push(sockets[i].score());
            proof {
                assert(candidates@[candidates@.len() - 1] == i);
            }
        }
        proof {
            assert forall|j: int| 0 <= j < i + 1 && socket_eligible(#[trigger] sockets@[j], now, socket_drop_timeout)
                implies exists|k: int| 0 <= k < candidates@.len() && candidates@[k] == j by {
                if j == i {
                    assert(candidates@[candidates@.len() - 1] == j);
                } else {
                    let k = choose|k: int| 0 <= k < before.len() && before[k] == j;
                    assert(candidates@[k] == j);
                }
            }
        }
        i = i + 1;
    }
    match first_lowest(&scores) {
        None => {
            proof {
                assert forall|j: int| 0 <= j < sockets@.len() implies !socket_eligible(
                    #[trigger] sockets@[j],
                    now,
                    socket_drop_timeout,
                ) by {
                    if socket_eligible(sockets@[j], now, socket_drop_timeout) {
                        let k = choose|k: int| 0 <= k < candidates@.len() && candidates@[k] == j;
                    }
                }
                if exists|i: int| is_best_socket(sockets@, i, now, socket_drop_timeout) {
                    let i = choose|i: int| is_best_socket(sockets@, i, now, socket_drop_timeout);
                    assert(socket_eligible(sockets@[i], now, socket_drop_timeout));
                }
            }
            None
        },
        Some(k) => {
            let idx = candidates[k];
            proof {
                assert forall|j: int| 0 <= j < sockets@.len() && socket_eligible(#[trigger] sockets@[j], now, socket_drop_timeout)
                    implies socket_score(sockets@[idx as int]) <= socket_score(sockets@[j]) by {
                    let kk = choose|kk: int| 0 <= kk < candidates@.len() && candidates@[kk] == j;
                    assert(scores@[k as int] <= scores@[kk]);
                }
                assert forall|j: int| 0 <= j < idx && socket_eligible(#[trigger] sockets@[j], now, socket_drop_timeout)
                    implies socket_score(sockets@[j]) > socket_score(sockets@[idx as int]) by {
                    let kk = choose|kk: int| 0 <= kk < candidates@.len() && candidates@[kk] == j;
                    if kk >= k {
                        if kk > k {
                            assert(candidates@[k as int] < candidates@[kk]);
                        }
                    }
                    assert(scores@[kk] > scores@[k as int]);
                }
                assert(is_best_socket(sockets@, idx as int, now, socket_drop_timeout));
                let c = choose|i: int| is_best_socket(sockets@, i, now, socket_drop_timeout);
                lemma_best_socket_unique(sockets@, c, idx as int, now, socket_drop_timeout);
            }
            Some(idx)
        },
    }
}


/// A socket of a client, addressed from outside the client.
#[derive(Debug)]
pub struct ClientSocketId {
    pub client_id: String,
    pub socket_id: String,
}

impl ClientSocketId {
    pub fn duplicate(&self) -> (r: Self)
        ensures
            r == *self,
    {
        ClientSocketId { client_id: self.client_id.clone(), socket_id: self.socket_id.clone() }
    }
}

/// How a response is encoded.
#[derive(Clone, Copy, PartialEq, Eq, Structural, Debug)]
pub enum ResponseMedia {
    MsgPack,
    Json,
}

/// A message a client sends over one of its sockets; `M` is the task modification
/// payload, which the supervisor only passes on.
#[derive(Debug)]
pub enum DomainClientMessage<M> {
    RequestSetDesiredPlayState { request_id: String, task_id: AppTaskId },
    RequestModifyTaskSpec { request_id: String, task_id: AppTaskId, modify_spec: M, revision: u64 },
    RequestPeerConnection { request_id: String, description: String },
    SubmitPeerConnectionCandidate { request_id: String, socket_id: String, candidate: String },
    RequestAttachToTask { request_id: String, task_id: AppTaskId, secure_key: String },
    RequestDetachFromTask { request_id: String, task_id: AppTaskId },
    Pong { challenge: String, response: String },
}

/// What the supervisor does about a received message.
#[derive(Debug)]
pub enum ReceiveOutcome<M> {
    /// The message could not be decoded; the socket was dropped.
    DroppedSocket,
    /// The message came from a socket the supervisor does not know; it was dropped.
    UnknownSocket,
    /// The message needs nothing from the supervisor.
    Ignored,
    /// Forward a task modification to the task supervisor, with cloud security, and reply.
    ModifyTaskSpec {
        reply_to: ClientSocketId,
        request_id: String,
        task_id: AppTaskId,
        modify_spec: M,
        revision: u64,
        media: ResponseMedia,
    },
    /// Create a WebRTC peer connection and reply with its description.
    CreatePeerConnection { reply_to: ClientSocketId, request_id: String, description: String, media: ResponseMedia },
    /// Hand an ICE candidate to a WebRTC socket of the client.
    ForwardIceCandidate { rtc_socket: ClientSocketId, candidate: String },
    /// Reply that the candidate's socket is not a WebRTC socket of the client.
    RejectIceCandidate { reply_to: ClientSocketId, request_id: String, error: DomainError, media: ResponseMedia },
    /// The socket was attached to the task with its secure key.
    Attached,
    /// The socket's memberships on the task were dropped.
    Detached,
    /// The socket's pong time was refreshed.
    Ponged,
}

pub open spec fn client_index(clients: Seq<SupervisedClient>, id: Seq<char>) -> int {
    first_index(clients, |c: SupervisedClient| c.id@ == id)
}

pub open spec fn socket_index(sockets: Seq<SupervisedSocket>, id: Seq<char>) -> int {
    first_index(sockets, |s: SupervisedSocket| s.id@ == id)
}

/// The memberships after a socket attaches to a task with a secure key: the membership is
/// added unless the very same one is already there.
pub open spec fn with_member(members: Seq<SocketMembership>, m: SocketMembership) -> Seq<SocketMembership> {
    if exists|i: int| 0 <= i < members.len() && member_view(#[trigger] members[i]) == member_view(m) {
        members
    } else {
        members.push(m)
    }
}

/// Whether a membership is another than a membership of socket `socket` on `task`.
pub open spec fn not_member_of(task: (Seq<char>, Seq<char>), socket: (Seq<char>, Seq<char>)) -> spec_fn(
    SocketMembership,
) -> bool {
    |m: SocketMembership| !(m.task_id@ == task && socket_key(m.socket) == socket)
}

/// The memberships after a socket detaches from a task: every membership of that socket on
/// that task goes, the others stay.
pub open spec fn without_member(
    members: Seq<SocketMembership>,
    task: (Seq<char>, Seq<char>),
    socket: (Seq<char>, Seq<char>),
) -> Seq<SocketMembership> {
    members.filter(not_member_of(task, socket))
}

fn find_client(clients: &Vec<SupervisedClient>, id: &String) -> (r: Option<usize>)
    ensures
        match r {
            Some(i) => i as int == client_index(clients@, id@) && i < clients@.len(),
            None => client_index(clients@, id@) == -1 && forall|j: int| 0 <= j < clients@.len() ==> (
            #[trigger] clients@[j]).id@ != id@,
        },
{
    let ghost p = |c: SupervisedClient| c.id@ == id@;
    let n = clients.len();
    let mut i: usize = 0;
    while i < n
        invariant
            n == clients@.len(),
            i <= n,
            p == (|c: SupervisedClient| c.id@ == id@),
            forall|j: int| 0 <= j < i ==> !p(#[trigger] clients@[j]),
        decreases n - i,
    {
        if clients[i].id == *id {
            proof {
                lemma_first_index(clients@, p, i as int);
            }
            return Some(i);
        }
        i = i + 1;
    }
    proof {
        lemma_first_index(clients@, p, n as int);
    }
    None
}

fn find_socket(sockets: &Vec<SupervisedSocket>, id: &String) -> (r: Option<usize>)
    ensures
        match r {
            Some(i) => i as int == socket_index(sockets@, id@) && i < sockets@.len(),
            None => socket_index(sockets@, id@) == -1,
        },
{
    let ghost p = |s: SupervisedSocket| s.id@ == id@;
    let n = sockets.len();
    let mut i: usize = 0;
    while i < n
        invariant
            n == sockets@.len(),
            i <= n,
            p == (|s: SupervisedSocket| s.id@ == id@),
            forall|j: int| 0 <= j < i ==> !p(#[trigger] sockets@[j]),
        decreases n - i,
    {
        if sockets[i].id == *id {
            proof {
                lemma_first_index(sockets@, p, i as int);
            }
            return Some(i);
        }
        i = i + 1;
    }
    proof {
        lemma_first_index(sockets@, p, n as int);
    }
    None
}

fn same_socket(a: &ClientSocketId, b: &ClientSocketId) -> (r: bool)
    ensures
        r == (socket_key(*a) == socket_key(*b)),
{
    a.client_id == b.client_id && a.socket_id == b.socket_id
}

fn attach_member(members: &mut Vec<SocketMembership>, m: SocketMembership)
    ensures
        final(members)@ == with_member(old(members)@, m),
{
    let n = members.len();
    let mut i: usize = 0;
    let mut found = false;
    while i < n
        invariant
            n == members@.len(),
            i <= n,
            members@ == old(members)@,
            found ==> exists|j: int| 0 <= j < n && member_view(#[trigger] members@[j]) == member_view(m),
            !found ==> forall|j: int| 0 <= j < i ==> member_view(#[trigger] members@[j]) != member_view(m),
        decreases n - i,
    {
        if !found && members[i].task_id.same_as(&m.task_id) && members[i].secure_key == m.secure_key && same_socket(
            &members[i].socket,
            &m.socket,
        ) {
            found = true;
            assert(member_view(members@[i as int]) == member_view(m));
        }
        i = i + 1;
    }
    if !found {
        members.push(m);
    }
}

fn add_socket(sockets: &mut Vec<SupervisedSocket>, s: SupervisedSocket)
    ensures
        final(sockets)@ == with_socket(old(sockets)@, s),
{
    match find_socket(sockets, &s.id) {
        Some(i) => {
            let ghost before = sockets@;
            sockets.remove(i);
            sockets.insert(i, s);
            assert(sockets@ =~= before.update(i as int, s));
        },
        None => {
            sockets.push(s);
        },
    }
}

fn detach_member(members: &mut Vec<SocketMembership>, task_id: &AppTaskId, socket: &ClientSocketId)
    ensures
        final(members)@ == without_member(old(members)@, task_id@, socket_key(*socket)),
{
    let ghost keep = not_member_of(task_id@, socket_key(*socket));
    let mut old_list: Vec<SocketMembership> = Vec::new();
    std::mem::swap(&mut old_list, members);
    let ghost input = old_list@;
    for m in it: old_list.into_iter()
        invariant
            it.seq() == input,
            input == old(members)@,
            keep == not_member_of(task_id@, socket_key(*socket)),
            members@ == input.take(it.index() as int).filter(keep),
    {
        let ghost k = it.index() as int;
        proof {
            assert(input.take(k + 1) =~= input.take(k).push(m));
            input.take(k).lemma_filter_push(m, keep);
        }
        if !(m.task_id.same_as(task_id) && same_socket(&m.socket, socket)) {
            members.push(m);
        }
    }
    proof {
        assert(input.take(input.len() as int) =~= input);
    }
}

/// The permission needed to receive a task's audio.
pub open spec fn audio_permission() -> TaskPermissions {
    TaskPermissions { structure: false, media: false, parameters: false, transport: false, audio: true }
}

/// The sockets that get a task's streaming packet, in client order: for every client that
/// may receive the task's audio, its best socket, if it has one.
pub open spec fn packet_recipients(
    clients: Seq<SupervisedClient>,
    members: Seq<SocketMembership>,
    security: Seq<TaskSecurityEntry>,
    task: (Seq<char>, Seq<char>),
    now: i64,
    drop_timeout: u64,
) -> Seq<(Seq<char>, Seq<char>)>
    decreases clients.len(),
{
    if clients.len() == 0 {
        Seq::empty()
    } else {
        let r = packet_recipients(clients.drop_last(), members, security, task, now, drop_timeout);
        let c = clients.last();
        let b = best_socket_index(c.sockets@, now, drop_timeout);
        if client_can(members, security, c.id@, task, audio_permission()) && b >= 0 {
            r.push((c.id@, c.sockets@[b].id@))
        } else {
            r
        }
    }
}

/// Whether a socket survives the stale-socket cleanup at `now`: it is dropped when it has not
/// completed its initialization within the init timeout, or when it is no longer valid.
pub open spec fn socket_survives(s: SupervisedSocket, now: i64, init_timeout: u64, drop_timeout: u64) -> bool {
    !(!s.init_complete && now - s.init_changed_at > init_timeout) && socket_valid(s, now, drop_timeout)
}

/// The sockets pinged at `now`: every valid socket of every client, in order.
pub open spec fn ping_targets(clients: Seq<SupervisedClient>, now: i64, drop_timeout: u64) -> Seq<(Seq<char>, Seq<char>)>
    decreases clients.len(),
{
    if clients.len() == 0 {
        Seq::empty()
    } else {
        let c = clients.last();
        ping_targets(clients.drop_last(), now, drop_timeout) + c.sockets@.filter(
            |s: SupervisedSocket| socket_valid(s, now, drop_timeout),
        ).map_values(|s: SupervisedSocket| (c.id@, s.id@))
    }
}

pub open spec fn socket_ids(ids: Seq<ClientSocketId>) -> Seq<(Seq<char>, Seq<char>)> {
    ids.map_values(|i: ClientSocketId| (i.client_id@, i.socket_id@))
}

/// A ping to send: the socket, and the challenge it is to answer.
#[derive(Debug)]
pub struct Ping {
    pub target: ClientSocketId,
    pub challenge: String,
}

/// The sockets that pings go to.
pub open spec fn ping_ids(pings: Seq<Ping>) -> Seq<(Seq<char>, Seq<char>)> {
    pings.map_values(|p: Ping| (p.target.client_id@, p.target.socket_id@))
}

/// A character of nanoid's url-safe alphabet: a letter, a digit, `_` or `-`.
pub open spec fn is_id_char(c: char) -> bool {
    ('a' <= c && c <= 'z') || ('A' <= c && c <= 'Z') || ('0' <= c && c <= '9') || c == '_' || c == '-'
}

/// A random id as nanoid makes them by default: 21 characters of its url-safe alphabet.
pub open spec fn is_random_id(s: Seq<char>) -> bool {
    s.len() == 21 && forall|i: int| 0 <= i < 21 ==> is_id_char(#[trigger] s[i])
}

/// A fresh random id from `nanoid::format` with nanoid's default random source, its
/// url-safe alphabet `SAFE` and the default size of 21: 21 characters drawn from that
/// alphabet. Which characters come is left to chance and is not stated.
#[verifier::external_body]
fn random_id() -> (r: String)
    ensures
        is_random_id(r@),
{
    nanoid::format(nanoid::rngs::default, &nanoid::alphabet::SAFE, 21)
}

/// `new` is `old` with only client `ci` changed, to the given sockets.
pub open spec fn client_changed(
    old: Seq<SupervisedClient>,
    new: Seq<SupervisedClient>,
    ci: int,
    sockets: Seq<SupervisedSocket>,
) -> bool {
    &&& 0 <= ci < old.len()
    &&& new.len() == old.len()
    &&& forall|i: int| 0 <= i < old.len() && i != ci ==> #[trigger] new[i] == old[i]
    &&& new[ci].id == old[ci].id
    &&& new[ci].sockets@ == sockets
}

/// The sockets after registering `s`: a socket with the same id is replaced, otherwise `s`
/// is added.
pub open spec fn with_socket(sockets: Seq<SupervisedSocket>, s: SupervisedSocket) -> Seq<SupervisedSocket> {
    let i = socket_index(sockets, s.id@);
    if i >= 0 {
        sockets.update(i, s)
    } else {
        sockets.push(s)
    }
}

proof fn lemma_security_of_update(entries: Seq<TaskSecurityEntry>, i: int, e: TaskSecurityEntry)
    requires
        0 <= i < entries.len(),
        security_of(entries, e.task_id@) == Some(entries[i].security),
        entries[i].task_id@ == e.task_id@,
        forall|j: int| 0 <= j < i ==> (#[trigger] entries[j]).task_id@ != e.task_id@,
    ensures
        security_of(entries.update(i, e), e.task_id@) == Some(e.security),
    decreases i,
{
    if i > 0 {
        let t = entries.drop_first();
        assert(entries.update(i, e).drop_first() =~= t.update(i - 1, e));
        assert forall|j: int| 0 <= j < i - 1 implies (#[trigger] t[j]).task_id@ != e.task_id@ by {
            assert(t[j] == entries[j + 1]);
        }
        assert(entries[0].task_id@ != e.task_id@);
        lemma_security_of_update(t, i - 1, e);
    }
}

proof fn lemma_security_of_push(entries: Seq<TaskSecurityEntry>, e: TaskSecurityEntry)
    requires
        security_of(entries, e.task_id@) is None,
    ensures
        security_of(entries.push(e), e.task_id@) == Some(e.security),
    decreases entries.len(),
{
    if entries.len() > 0 {
        assert(entries.push(e).drop_first() =~= entries.drop_first().push(e));
        lemma_security_of_push(entries.drop_first(), e);
    }
}

proof fn lemma_security_of_update_other(
    entries: Seq<TaskSecurityEntry>,
    i: int,
    e: TaskSecurityEntry,
    t: (Seq<char>, Seq<char>),
)
    requires
        0 <= i < entries.len(),
        entries[i].task_id@ == e.task_id@,
        t != e.task_id@,
    ensures
        security_of(entries.update(i, e), t) == security_of(entries, t),
    decreases i,
{
    if i > 0 {
        let u = entries.update(i, e);
        assert(u[0] == entries[0]);
        assert(u.drop_first() =~= entries.drop_first().update(i - 1, e));
        lemma_security_of_update_other(entries.drop_first(), i - 1, e, t);
    }
}

proof fn lemma_security_of_push_other(entries: Seq<TaskSecurityEntry>, e: TaskSecurityEntry, t: (Seq<char>, Seq<char>))
    requires
        t != e.task_id@,
    ensures
        security_of(entries.push(e), t) == security_of(entries, t),
    decreases entries.len(),
{
    if entries.len() > 0 {
        assert(entries.push(e)[0] == entries[0]);
        assert(entries.push(e).drop_first() =~= entries.drop_first().push(e));
        lemma_security_of_push_other(entries.drop_first(), e, t);
    } else {
        assert(entries.push(e).drop_first() =~= Seq::<TaskSecurityEntry>::empty());
    }
}

/// Changing one client's sockets keeps the clients' ids, and keeps every client's socket
/// ids unrepeated when the new sockets' ids are.
proof fn lemma_client_changed_wf(
    old_clients: Seq<SupervisedClient>,
    new_clients: Seq<SupervisedClient>,
    ci: int,
    sockets: Seq<SupervisedSocket>,
)
    requires
        client_changed(old_clients, new_clients, ci, sockets),
        distinct_by(old_clients, client_key()),
        forall|i: int| 0 <= i < old_clients.len() ==> distinct_by((#[trigger] old_clients[i]).sockets@, socket_id_key()),
        distinct_by(sockets, socket_id_key()),
    ensures
        distinct_by(new_clients, client_key()),
        forall|i: int| 0 <= i < new_clients.len() ==> distinct_by((#[trigger] new_clients[i]).sockets@, socket_id_key()),
{
    assert forall|i: int| 0 <= i < old_clients.len() implies client_key()(#[trigger] old_clients[i]) == client_key()(
        new_clients[i],
    ) by {
        if i != ci {
            assert(new_clients[i] == old_clients[i]);
        }
    }
    lemma_distinct_by_same_keys(old_clients, client_key(), new_clients, client_key());
    assert forall|i: int| 0 <= i < new_clients.len() implies distinct_by(
        (#[trigger] new_clients[i]).sockets@,
        socket_id_key(),
    ) by {
        if i != ci {
            assert(new_clients[i] == old_clients[i]);
        }
    }
}

/// Attaching keeps the memberships free of repeats.
proof fn lemma_with_member_distinct(members: Seq<SocketMembership>, m: SocketMembership)
    requires
        distinct_by(members, member_key()),
    ensures
        distinct_by(with_member(members, m), member_key()),
{
    if !(exists|i: int| 0 <= i < members.len() && member_view(#[trigger] members[i]) == member_view(m)) {
        let out = members.push(m);
        assert forall|i: int, j: int| 0 <= i < out.len() && 0 <= j < out.len() && i != j implies member_key()(
            #[trigger] out[i],
        ) != member_key()(#[trigger] out[j]) by {
            if i < members.len() && j < members.len() {
                assert(out[i] == members[i] && out[j] == members[j]);
            } else if i < members.len() {
                assert(out[i] == members[i]);
                assert(member_view(members[i]) != member_view(m));
            } else {
                assert(out[j] == members[j]);
                assert(member_view(members[j]) != member_view(m));
            }
        }
    }
}

/// The socket supervisor of the domain.
#[derive(Debug)]
pub struct SocketsSupervisor {
    pub opts: SocketsOpts,
    pub clients: Vec<SupervisedClient>,
    /// Which sockets are attached to which tasks, and with which secure keys.
    pub members: Vec<SocketMembership>,
    pub security: Vec<TaskSecurityEntry>,
}

impl SocketsSupervisor {
    /// The supervisor's lists are keyed as maps and sets are: no two clients share an id, no
    /// two sockets of a client share an id, no membership is held twice, and no two security
    /// entries are for the same task.
    pub open spec fn wf(&self) -> bool {
        &&& distinct_by(self.clients@, client_key())
        &&& forall|i: int| 0 <= i < self.clients@.len() ==> distinct_by(
            (#[trigger] self.clients@[i]).sockets@,
            socket_id_key(),
        )
        &&& distinct_by(self.members@, member_key())
        &&& distinct_by(self.security@, security_key())
    }

    /// A supervisor without clients, memberships or task security.
    pub fn new(opts: SocketsOpts) -> (r: Self)
        ensures
            r.opts == opts,
            r.clients@.len() == 0,
            r.members@.len() == 0,
            r.security@.len() == 0,
            r.wf(),
    {
        SocketsSupervisor { opts, clients: Vec::new(), members: Vec::new(), security: Vec::new() }
    }

    /// Whether a client holds every permission in `required` on `task_id`: one of its sockets
    /// is attached to the task with a secure key that the task's security gives them.
    pub fn client_can_on_task(&self, client: &SupervisedClient, task_id: &AppTaskId, required: TaskPermissions) -> (r:
        bool)
        ensures
            r == client_can(self.members@, self.security@, client.id@, task_id@, required),
    {
        match find_security(&self.security, task_id) {
            None => false,
            Some(si) => {
                let sec = &self.security[si].security;
                let n = self.members.len();
                let mut i: usize = 0;
                while i < n
                    invariant
                        n == self.members@.len(),
                        i <= n,
                        security_of(self.security@, task_id@) == Some(*sec),
                        forall|j: int| 0 <= j < i ==> !member_grants(
                            #[trigger] self.members@[j],
                            *sec,
                            client.id@,
                            task_id@,
                            required,
                        ),
                    decreases n - i,
                {
                    let m = &self.members[i];
                    if m.task_id.same_as(task_id) && m.socket.client_id == client.id {
                        match sec.get(&m.secure_key) {
                            Some(held) => {
                                if held.can(required) {
                                    assert(member_grants(self.members@[i as int], *sec, client.id@, task_id@, required));
                                    return true;
                                }
                            },
                            None => {},
                        }
                    }
                    i = i + 1;
                }
                false
            },
        }
    }

    /// The sockets a task's streaming packet goes to.
    pub fn publish_streaming_packet(&self, task_id: &AppTaskId, now: i64) -> (r: Vec<ClientSocketId>)
        ensures
            socket_ids(r@) == packet_recipients(
                self.clients@,
                self.members@,
                self.security@,
                task_id@,
                now,
                self.opts.socket_drop_timeout,
            ),
    {
        let audio = TaskPermissions { structure: false, media: false, parameters: false, transport: false, audio: true };
        let timeout = self.opts.socket_drop_timeout;
        let mut r: Vec<ClientSocketId> = Vec::new();
        let n = self.clients.len();
        let mut i: usize = 0;
        while i < n
            invariant
                n == self.clients@.len(),
                i <= n,
                timeout == self.opts.socket_drop_timeout,
                audio == audio_permission(),
                socket_ids(r@) == packet_recipients(
                    self.clients@.take(i as int),
                    self.members@,
                    self.security@,
                    task_id@,
                    now,
                    timeout,
                ),
            decreases n - i,
        {
            proof {
                assert(self.clients@.take(i as int + 1).drop_last() =~= self.clients@.take(i as int));
            }
            let client = &self.clients[i];
            if self.client_can_on_task(client, task_id, audio) {
                match best_socket(&client.sockets, now, timeout) {
                    Some(b) => {
                        let ghost before = r@;
                        r.push(ClientSocketId { client_id: copy_string(&client.id), socket_id: copy_string(&client.sockets[b].id) });
                        proof {
                            assert(socket_ids(r@) =~= socket_ids(before).push((client.id@, client.sockets@[b as int].id@)));
                        }
                    },
                    None => {},
                }
            }
            i = i + 1;
        }
        proof {
            assert(self.clients@.take(n as int) =~= self.clients@);
        }
        r
    }

    /// Drops, from every client, the sockets that did not complete their initialization in
    /// time and the sockets that are no longer valid.
    pub fn cleanup_stale_sockets(&mut self, now: i64)
        requires
            old(self).wf(),
        ensures
            final(self).wf(),
            final(self).opts == old(self).opts,
            final(self).security == old(self).security,
            final(self).members == old(self).members,
            final(self).clients@.len() == old(self).clients@.len(),
            forall|i: int| 0 <= i < old(self).clients@.len() ==> {
                &&& (#[trigger] final(self).clients@[i]).id == old(self).clients@[i].id
                &&& final(self).clients@[i].sockets@ == old(self).clients@[i].sockets@.filter(
                    |s: SupervisedSocket| socket_survives(s, now, old(self).opts.socket_init_timeout, old(self).opts.socket_drop_timeout),
                )
            },
    {
        let init_timeout = self.opts.socket_init_timeout;
        let drop_timeout = self.opts.socket_drop_timeout;
        let ghost keep = |s: SupervisedSocket| socket_survives(s, now, init_timeout, drop_timeout);
        let mut old_clients: Vec<SupervisedClient> = Vec::new();
        std::mem::swap(&mut old_clients, &mut self.clients);
        let ghost input = old_clients@;
        for c in it: old_clients.into_iter()
            invariant
                it.seq() == input,
                input == old(self).clients@,
                self.opts == old(self).opts,
                self.security == old(self).security,
                self.members == old(self).members,
                init_timeout == self.opts.socket_init_timeout,
                drop_timeout == self.opts.socket_drop_timeout,
                keep == (|s: SupervisedSocket| socket_survives(s, now, init_timeout, drop_timeout)),
                self.clients@.len() == it.index(),
                forall|i: int| 0 <= i < it.index() ==> {
                    &&& (#[trigger] self.clients@[i]).id == input[i].id
                    &&& self.clients@[i].sockets@ == input[i].sockets@.filter(keep)
                },
        {
            let SupervisedClient { id, sockets } = c;
            let ghost sin = sockets@;
            let mut kept: Vec<SupervisedSocket> = Vec::new();
            for sock in it2: sockets.into_iter()
                invariant
                    it2.seq() == sin,
                    keep == (|s: SupervisedSocket| socket_survives(s, now, init_timeout, drop_timeout)),
                    kept@ == sin.take(it2.index() as int).filter(keep),
            {
                let ghost k = it2.index() as int;
                proof {
                    assert(sin.take(k + 1) =~= sin.take(k).push(sock));
                    sin.take(k).lemma_filter_push(sock, keep);
                }
                let stale_init = !sock.init_complete && (now as i128) - (sock.init_changed_at as i128) > (init_timeout as i128);
                if !stale_init && sock.is_valid(now, drop_timeout) {
                    kept.push(sock);
                }
            }
            proof {
                assert(sin.take(sin.len() as int) =~= sin);
            }
            self.clients.push(SupervisedClient { id, sockets: kept });
        }
        proof {
            let out = self.clients@;
            lemma_distinct_by_same_keys(input, client_key(), out, client_key());
            assert forall|i: int| 0 <= i < out.len() implies distinct_by(
                (#[trigger] out[i]).sockets@,
                socket_id_key(),
            ) by {
                assert(distinct_by(input[i].sockets@, socket_id_key()));
                lemma_filter_distinct_by(input[i].sockets@, keep, socket_id_key());
            }
        }
    }

    /// Pings the valid sockets, each with a fresh random challenge, then drops the clients
    /// that have no socket left.
    pub fn ping_active_sockets(&mut self, now: i64) -> (r: Vec<Ping>)
        requires
            old(self).wf(),
        ensures
            ping_ids(r@) == ping_targets(old(self).clients@, now, old(self).opts.socket_drop_timeout),
            forall|k: int| 0 <= k < r@.len() ==> is_random_id(#[trigger] r@[k].challenge@),
            final(self).clients@ == old(self).clients@.filter(|c: SupervisedClient| c.sockets@.len() > 0),
            final(self).opts == old(self).opts,
            final(self).security == old(self).security,
            final(self).members == old(self).members,
            final(self).wf(),
    {
        let timeout = self.opts.socket_drop_timeout;
        let mut r: Vec<Ping> = Vec::new();
        let n = self.clients.len();
        let mut i: usize = 0;
        while i < n
            invariant
                n == self.clients@.len(),
                i <= n,
                self == old(self),
                timeout == self.opts.socket_drop_timeout,
                ping_ids(r@) == ping_targets(self.clients@.take(i as int), now, timeout),
                forall|k: int| 0 <= k < r@.len() ==> is_random_id(#[trigger] r@[k].challenge@),
            decreases n - i,
        {
            proof {
                assert(self.clients@.take(i as int + 1).drop_last() =~= self.clients@.take(i as int));
            }
            let client = &self.clients[i];
            let ghost valid = |s: SupervisedSocket| socket_valid(s, now, timeout);
            let ghost to_id = |s: SupervisedSocket| (client.id@, s.id@);
            let ghost base = ping_ids(r@);
            let m = client.sockets.len();
            let mut j: usize = 0;
            while j < m
                invariant
                    m == client.sockets@.len(),
                    j <= m,
                    valid == (|s: SupervisedSocket| socket_valid(s, now, timeout)),
                    to_id == (|s: SupervisedSocket| (client.id@, s.id@)),
                    ping_ids(r@) == base + client.sockets@.take(j as int).filter(valid).map_values(to_id),
                    forall|k: int| 0 <= k < r@.len() ==> is_random_id(#[trigger] r@[k].challenge@),
                decreases m - j,
            {
                let ghost before = r@;
                proof {
                    let t = client.sockets@.take(j as int);
                    assert(client.sockets@.take(j as int + 1) =~= t.push(client.sockets@[j as int]));
                    t.lemma_filter_push(client.sockets@[j as int], valid);
                    t.filter(valid).lemma_push_map_commute(to_id, client.sockets@[j as int]);
                }
                if client.sockets[j].is_valid(now, timeout) {
                    let target = ClientSocketId { client_id: copy_string(&client.id), socket_id: copy_string(&client.sockets[j].id) };
                    r.push(Ping { target, challenge: random_id() });
                    proof {
                        assert(ping_ids(r@) =~= ping_ids(before).push((client.id@, client.sockets@[j as int].id@)));
                    }
                }
                j = j + 1;
            }
            proof {
                assert(client.sockets@.take(m as int) =~= client.sockets@);
            }
            i = i + 1;
        }
        proof {
            assert(self.clients@.take(n as int) =~= self.clients@);
        }
        let ghost nonempty = |c: SupervisedClient| c.sockets@.len() > 0;
        let mut old_clients: Vec<SupervisedClient> = Vec::new();
        std::mem::swap(&mut old_clients, &mut self.clients);
        let ghost input = old_clients@;
        for c in it: old_clients.into_iter()
            invariant
                it.seq() == input,
                input == old(self).clients@,
                self.opts == old(self).opts,
                self.security == old(self).security,
                self.members == old(self).members,
                nonempty == (|c: SupervisedClient| c.sockets@.len() > 0),
                self.clients@ == input.take(it.index() as int).filter(nonempty),
        {
            let ghost k = it.index() as int;
            proof {
                assert(input.take(k + 1) =~= input.take(k).push(c));
                input.take(k).lemma_filter_push(c, nonempty);
            }
            if c.sockets.len() > 0 {
                self.clients.push(c);
            }
        }
        proof {
            assert(input.take(input.len() as int) =~= input);
            lemma_filter_distinct_by(input, nonempty, client_key());
            let out = self.clients@;
            assert forall|i: int| 0 <= i < out.len() implies distinct_by(
                (#[trigger] out[i]).sockets@,
                socket_id_key(),
            ) by {
                assert(input.contains(out[i]));
                let k = choose|k: int| 0 <= k < input.len() && input[k] == out[i];
                assert(distinct_by(input[k].sockets@, socket_id_key()));
            }
        }
        r
    }


    /// The socket a message for `id` goes to: the client's position and the socket's position
    /// among the client's sockets; `None` when either is unknown, and the message is dropped.
    pub fn locate_socket(&self, id: &ClientSocketId) -> (r: Option<(usize, usize)>)
        ensures
            ({
                let ci = client_index(self.clients@, id.client_id@);
                let si = if ci >= 0 { socket_index(self.clients@[ci].sockets@, id.socket_id@) } else { -1 };
                if ci >= 0 && si >= 0 {
                    r == Some((ci as usize, si as usize))
                } else {
                    r is None
                }
            }),
    {
        match find_client(&self.clients, &id.client_id) {
            None => None,
            Some(ci) => match find_socket(&self.clients[ci].sockets, &id.socket_id) {
                None => None,
                Some(si) => Some((ci, si)),
            },
        }
    }

    /// Handles a message received over a socket of a client. `message` is `None` when the
    /// bytes could not be decoded; `use_json` tells whether the message came as text.
    pub fn on_socket_message_received<M>(
        &mut self,
        from: &ClientSocketId,
        message: Option<DomainClientMessage<M>>,
        use_json: bool,
        now: i64,
    ) -> (r: ReceiveOutcome<M>)
        requires
            old(self).wf(),
        ensures
            final(self).wf(),
            final(self).opts == old(self).opts,
            final(self).security == old(self).security,
            ({
                let clients = old(self).clients@;
                let members = old(self).members@;
                let ci = client_index(clients, from.client_id@);
                let si = if ci >= 0 { socket_index(clients[ci].sockets@, from.socket_id@) } else { -1 };
                let media = if use_json { ResponseMedia::Json } else { ResponseMedia::MsgPack };
                match message {
                    None => {
                        &&& r is DroppedSocket
                        &&& final(self).members == old(self).members
                        &&& ci < 0 ==> final(self).clients@ == clients
                        &&& ci >= 0 ==> client_changed(
                            clients,
                            final(self).clients@,
                            ci,
                            clients[ci].sockets@.filter(|s: SupervisedSocket| s.id@ != from.socket_id@),
                        )
                    },
                    Some(msg) => if ci < 0 || si < 0 {
                        &&& r is UnknownSocket
                        &&& final(self).clients@ == clients
                        &&& final(self).members == old(self).members
                    } else {
                        let c = clients[ci];
                        match msg {
                            DomainClientMessage::Pong { .. } => {
                                &&& r is Ponged
                                &&& final(self).members == old(self).members
                                &&& client_changed(
                                    clients,
                                    final(self).clients@,
                                    ci,
                                    c.sockets@.update(si, SupervisedSocket { last_pong_at: now, ..c.sockets@[si] }),
                                )
                            },
                            DomainClientMessage::RequestAttachToTask { task_id, secure_key, .. } => {
                                &&& r is Attached
                                &&& final(self).clients@ == clients
                                &&& final(self).members@ == with_member(
                                    members,
                                    SocketMembership { task_id, secure_key, socket: *from },
                                )
                            },
                            DomainClientMessage::RequestDetachFromTask { task_id, .. } => {
                                &&& r is Detached
                                &&& final(self).clients@ == clients
                                &&& final(self).members@ == without_member(members, task_id@, socket_key(*from))
                            },
                            DomainClientMessage::RequestModifyTaskSpec { request_id, task_id, modify_spec, revision } => {
                                &&& final(self).clients@ == clients
                                &&& final(self).members == old(self).members
                                &&& r == ReceiveOutcome::ModifyTaskSpec {
                                    reply_to: *from,
                                    request_id,
                                    task_id,
                                    modify_spec,
                                    revision,
                                    media,
                                }
                            },
                            DomainClientMessage::RequestPeerConnection { request_id, description } => {
                                &&& final(self).clients@ == clients
                                &&& final(self).members == old(self).members
                                &&& r == ReceiveOutcome::<M>::CreatePeerConnection {
                                    reply_to: *from,
                                    request_id,
                                    description,
                                    media: ResponseMedia::MsgPack,
                                }
                            },
                            DomainClientMessage::SubmitPeerConnectionCandidate { request_id, socket_id, candidate } => {
                                let ri = socket_index(c.sockets@, socket_id@);
                                &&& final(self).clients@ == clients
                                &&& final(self).members == old(self).members
                                &&& if ri >= 0 && c.sockets@[ri].kind == SocketKind::WebRtc {
                                    r == ReceiveOutcome::<M>::ForwardIceCandidate {
                                        rtc_socket: ClientSocketId { client_id: from.client_id, socket_id },
                                        candidate,
                                    }
                                } else {
                                    r == ReceiveOutcome::<M>::RejectIceCandidate {
                                        reply_to: *from,
                                        request_id,
                                        error: DomainError::SocketNotFound { socket_id },
                                        media: ResponseMedia::Json,
                                    }
                                }
                            },
                            DomainClientMessage::RequestSetDesiredPlayState { .. } => {
                                &&& r is Ignored
                                &&& final(self).clients@ == clients
                                &&& final(self).members == old(self).members
                            },
                        }
                    },
                }
            }),
    {
        let media = if use_json { ResponseMedia::Json } else { ResponseMedia::MsgPack };
        let ci = match find_client(&self.clients, &from.client_id) {
            Some(ci) => ci,
            None => {
                return match message {
                    None => ReceiveOutcome::DroppedSocket,
                    Some(_) => ReceiveOutcome::UnknownSocket,
                };
            },
        };
        let msg = match message {
            None => {
                let c = self.clients.remove(ci);
                let ghost before = self.clients@;
                let SupervisedClient { id, sockets } = c;
                let ghost sin = sockets@;
                let ghost keep = |s: SupervisedSocket| s.id@ != from.socket_id@;
                let mut kept: Vec<SupervisedSocket> = Vec::new();
                for sock in it: sockets.into_iter()
                    invariant
                        it.seq() == sin,
                        keep == (|s: SupervisedSocket| s.id@ != from.socket_id@),
                        kept@ == sin.take(it.index() as int).filter(keep),
                {
                    let ghost k = it.index() as int;
                    proof {
                        assert(sin.take(k + 1) =~= sin.take(k).push(sock));
                        sin.take(k).lemma_filter_push(sock, keep);
                    }
                    if sock.id != from.socket_id {
                        kept.push(sock);
                    }
                }
                proof {
                    assert(sin.take(sin.len() as int) =~= sin);
                }
                let ghost old_clients = old(self).clients@;
                self.clients.insert(ci, SupervisedClient { id, sockets: kept });
                proof {
                    assert forall|i: int| 0 <= i < old_clients.len() && i != ci implies #[trigger] self.clients@[i]
                        == old_clients[i] by {
                        if i < ci {
                            assert(self.clients@[i] == before[i]);
                        } else {
                            assert(self.clients@[i] == before[i - 1]);
                        }
                    }
                    assert(distinct_by(old_clients[ci as int].sockets@, socket_id_key()));
                    lemma_filter_distinct_by(sin, keep, socket_id_key());
                    lemma_client_changed_wf(old_clients, self.clients@, ci as int, kept@);
                }
                return ReceiveOutcome::DroppedSocket;
            },
            Some(msg) => msg,
        };
        let si = match find_socket(&self.clients[ci].sockets, &from.socket_id) {
            Some(si) => si,
            None => {
                return ReceiveOutcome::UnknownSocket;
            },
        };
        match msg {
            DomainClientMessage::Pong { challenge, response } => {
                let ghost old_clients = self.clients@;
                let mut c = self.clients.remove(ci);
                let ghost old_sockets = c.sockets@;
                let mut sock = c.sockets.remove(si);
                sock.last_pong_at = now;
                c.sockets.insert(si, sock);
                proof {
                    assert(c.sockets@ =~= old_sockets.update(si as int, sock));
                }
                self.clients.insert(ci, c);
                proof {
                    assert(self.clients@ =~= old_clients.update(ci as int, c));
                    assert(distinct_by(old_sockets, socket_id_key()));
                    lemma_distinct_by_same_keys(old_sockets, socket_id_key(), c.sockets@, socket_id_key());
                    lemma_client_changed_wf(old_clients, self.clients@, ci as int, c.sockets@);
                }
                ReceiveOutcome::Ponged
            },
            DomainClientMessage::RequestAttachToTask { request_id, task_id, secure_key } => {
                let ghost before = self.members@;
                let m = SocketMembership { task_id, secure_key, socket: from.duplicate() };
                proof {
                    lemma_with_member_distinct(before, m);
                }
                attach_member(&mut self.members, m);
                ReceiveOutcome::Attached
            },
            DomainClientMessage::RequestDetachFromTask { request_id, task_id } => {
                let ghost before = self.members@;
                detach_member(&mut self.members, &task_id, from);
                proof {
                    lemma_filter_distinct_by(before, not_member_of(task_id@, socket_key(*from)), member_key());
                }
                ReceiveOutcome::Detached
            },
            DomainClientMessage::RequestModifyTaskSpec { request_id, task_id, modify_spec, revision } => {
                ReceiveOutcome::ModifyTaskSpec {
                    reply_to: from.duplicate(),
                    request_id,
                    task_id,
                    modify_spec,
                    revision,
                    media,
                }
            },
            DomainClientMessage::RequestPeerConnection { request_id, description } => {
                ReceiveOutcome::CreatePeerConnection {
                    reply_to: from.duplicate(),
                    request_id,
                    description,
                    media: ResponseMedia::MsgPack,
                }
            },
            DomainClientMessage::SubmitPeerConnectionCandidate { request_id, socket_id, candidate } => {
                let is_rtc = match find_socket(&self.clients[ci].sockets, &socket_id) {
                    Some(ri) => self.clients[ci].sockets[ri].kind == SocketKind::WebRtc,
                    None => false,
                };
                if is_rtc {
                    ReceiveOutcome::ForwardIceCandidate {
                        rtc_socket: ClientSocketId { client_id: copy_string(&from.client_id), socket_id },
                        candidate,
                    }
                } else {
                    ReceiveOutcome::RejectIceCandidate {
                        reply_to: from.duplicate(),
                        request_id,
                        error: DomainError::SocketNotFound { socket_id },
                        media: ResponseMedia::Json,
                    }
                }
            },
            DomainClientMessage::RequestSetDesiredPlayState { .. } => ReceiveOutcome::Ignored,
        }
    }


    /// Registers a socket of a client: the client is created if it is unknown, and a socket
    /// with the same id replaces the old one.
    pub fn register_socket(&mut self, client_id: String, socket: SupervisedSocket)
        requires
            old(self).wf(),
        ensures
            final(self).wf(),
            final(self).opts == old(self).opts,
            final(self).security == old(self).security,
            final(self).members == old(self).members,
            ({
                let ci = client_index(old(self).clients@, client_id@);
                if ci >= 0 {
                    client_changed(
                        old(self).clients@,
                        final(self).clients@,
                        ci,
                        with_socket(old(self).clients@[ci].sockets@, socket),
                    )
                } else {
                    &&& final(self).clients@.len() == old(self).clients@.len() + 1
                    &&& final(self).clients@.drop_last() == old(self).clients@
                    &&& final(self).clients@.last().id == client_id
                    &&& final(self).clients@.last().sockets@ == seq![socket]
                }
            }),
    {
        match find_client(&self.clients, &client_id) {
            Some(ci) => {
                let ghost old_clients = self.clients@;
                let mut c = self.clients.remove(ci);
                let ghost old_sockets = c.sockets@;
                let ghost sock = socket;
                add_socket(&mut c.sockets, socket);
                self.clients.insert(ci, c);
                proof {
                    assert(self.clients@ =~= old_clients.update(ci as int, c));
                    assert(old_sockets == old_clients[ci as int].sockets@);
                    assert(distinct_by(old_sockets, socket_id_key()));
                    lemma_with_socket_distinct(old_sockets, sock);
                    lemma_client_changed_wf(old_clients, self.clients@, ci as int, c.sockets@);
                }
            },
            None => {
                let mut sockets: Vec<SupervisedSocket> = Vec::new();
                sockets.push(socket);
                let ghost before = self.clients@;
                let ghost cid = client_id@;
                self.clients.push(SupervisedClient { id: client_id, sockets });
                proof {
                    assert(self.clients@.drop_last() =~= before);
                    assert(self.clients@.last().sockets@ =~= seq![socket]);
                    let out = self.clients@;
                    assert forall|i: int, j: int| 0 <= i < out.len() && 0 <= j < out.len() && i != j implies client_key()(
                        #[trigger] out[i],
                    ) != client_key()(#[trigger] out[j]) by {
                        if i < before.len() && j < before.len() {
                            assert(out[i] == before[i] && out[j] == before[j]);
                        } else if i < before.len() {
                            assert(out[i] == before[i]);
                        } else {
                            assert(out[j] == before[j]);
                        }
                    }
                    assert forall|i: int| 0 <= i < out.len() implies distinct_by(
                        (#[trigger] out[i]).sockets@,
                        socket_id_key(),
                    ) by {
                        if i < before.len() {
                            assert(out[i] == before[i]);
                        }
                    }
                }
            },
        }
    }

    /// Sets the security of a task, replacing the previous one.
    pub fn set_task_security(&mut self, task_id: AppTaskId, security: TaskSecurity)
        requires
            old(self).wf(),
        ensures
            final(self).wf(),
            final(self).opts == old(self).opts,
            final(self).clients == old(self).clients,
            final(self).members == old(self).members,
            security_of(final(self).security@, task_id@) == Some(security),
            forall|t: (Seq<char>, Seq<char>)| t != task_id@ ==> #[trigger] security_of(final(self).security@, t)
                == security_of(old(self).security@, t),
    {
        let ghost tid = task_id@;
        let ghost sec = security;
        match find_security(&self.security, &task_id) {
            Some(i) => {
                let ghost before = self.security@;
                self.security.remove(i);
                self.security.insert(i, TaskSecurityEntry { task_id, security });
                proof {
                    let after = self.security@;
                    assert(after =~= before.update(i as int, TaskSecurityEntry { task_id, security: sec }));
                    lemma_security_of_update(before, i as int, TaskSecurityEntry { task_id, security: sec });
                    lemma_distinct_by_same_keys(before, security_key(), after, security_key());
                    assert forall|t: (Seq<char>, Seq<char>)| t != tid implies #[trigger] security_of(after, t)
                        == security_of(before, t) by {
                        lemma_security_of_update_other(before, i as int, TaskSecurityEntry { task_id, security: sec }, t);
                    }
                }
            },
            None => {
                let ghost before = self.security@;
                self.security.push(TaskSecurityEntry { task_id, security });
                proof {
                    lemma_security_of_push(before, TaskSecurityEntry { task_id, security: sec });
                    let out = self.security@;
                    assert forall|t: (Seq<char>, Seq<char>)| t != tid implies #[trigger] security_of(out, t)
                        == security_of(before, t) by {
                        lemma_security_of_push_other(before, TaskSecurityEntry { task_id, security: sec }, t);
                    }
                    assert forall|i: int, j: int| 0 <= i < out.len() && 0 <= j < out.len() && i != j implies security_key()(
                        #[trigger] out[i],
                    ) != security_key()(#[trigger] out[j]) by {
                        if i < before.len() && j < before.len() {
                            assert(out[i] == before[i] && out[j] == before[j]);
                        } else if i < before.len() {
                            assert(out[i] == before[i]);
                        } else {
                            assert(out[j] == before[j]);
                        }
                    }
                }
            },
        }
    }

}


/// Registering a socket keeps a client's socket ids unrepeated.
proof fn lemma_with_socket_distinct(sockets: Seq<SupervisedSocket>, s: SupervisedSocket)
    requires
        distinct_by(sockets, socket_id_key()),
    ensures
        distinct_by(with_socket(sockets, s), socket_id_key()),
{
    let p = |x: SupervisedSocket| x.id@ == s.id@;
    lemma_first_index_spec(sockets, p);
    let i = socket_index(sockets, s.id@);
    let out = with_socket(sockets, s);
    if i >= 0 {
        assert forall|k: int| 0 <= k < sockets.len() implies socket_id_key()(#[trigger] sockets[k]) == socket_id_key()(
            out[k],
        ) by {
            if k == i {
                assert(p(sockets[i]));
            }
        }
        lemma_distinct_by_same_keys(sockets, socket_id_key(), out, socket_id_key());
    } else {
        assert forall|a: int, b: int| 0 <= a < out.len() && 0 <= b < out.len() && a != b implies socket_id_key()(
            #[trigger] out[a],
        ) != socket_id_key()(#[trigger] out[b]) by {
            if a < sockets.len() && b < sockets.len() {
                assert(out[a] == sockets[a] && out[b] == sockets[b]);
            } else if a < sockets.len() {
                assert(out[a] == sockets[a]);
                assert(!p(sockets[a]));
            } else {
                assert(out[b] == sockets[b]);
                assert(!p(sockets[b]));
            }
        }
    }
}

/// Attaching a socket to a task adds exactly that membership to the set of memberships:
/// afterwards the membership is held, and every other membership is held as before.
pub proof fn lemma_attach_adds_membership(members: Seq<SocketMembership>, m: SocketMembership)
    ensures
        with_member(members, m).contains(m) || exists|i: int|
            0 <= i < members.len() && member_view(#[trigger] members[i]) == member_view(m),
        forall|x: SocketMembership| #[trigger] with_member(members, m).contains(x) ==> members.contains(x) || x == m,
        forall|x: SocketMembership| members.contains(x) ==> #[trigger] with_member(members, m).contains(x),
{
    if !(exists|i: int| 0 <= i < members.len() && member_view(#[trigger] members[i]) == member_view(m)) {
        let out = members.push(m);
        assert(out[members.len() as int] == m);
        assert forall|x: SocketMembership| #[trigger] out.contains(x) implies members.contains(x) || x == m by {
            let k = choose|k: int| 0 <= k < out.len() && out[k] == x;
            if k < members.len() {
                assert(members[k] == x);
            }
        }
        assert forall|x: SocketMembership| members.contains(x) implies #[trigger] out.contains(x) by {
            let k = choose|k: int| 0 <= k < members.len() && members[k] == x;
            assert(out[k] == x);
        }
    }
}

/// Detaching a socket from a task after attaching it gives what detaching alone gives: the
/// attach is undone, and every membership of another socket, or on another task, stays.
/// When the socket held no membership on the task before, the memberships are those from
/// before the attach.
pub proof fn lemma_attach_then_detach(members: Seq<SocketMembership>, m: SocketMembership)
    ensures
        without_member(with_member(members, m), m.task_id@, socket_key(m.socket)) == without_member(
            members,
            m.task_id@,
            socket_key(m.socket),
        ),
        (forall|i: int|
            0 <= i < members.len() ==> !((#[trigger] members[i]).task_id@ == m.task_id@ && socket_key(members[i].socket)
                == socket_key(m.socket))) ==> without_member(with_member(members, m), m.task_id@, socket_key(m.socket))
            == members,
{
    let keep = not_member_of(m.task_id@, socket_key(m.socket));
    if !(exists|i: int| 0 <= i < members.len() && member_view(#[trigger] members[i]) == member_view(m)) {
        members.lemma_filter_push(m, keep);
    }
    if forall|i: int|
        0 <= i < members.len() ==> !((#[trigger] members[i]).task_id@ == m.task_id@ && socket_key(members[i].socket)
            == socket_key(m.socket)) {
        assert forall|i: int| 0 <= i < members.len() implies keep(#[trigger] members[i]) by {}
        lemma_filter_keeps_all(members, keep);
    }
}

/// A socket that attaches to a task with a secure key and then detaches from it holds no
/// membership on the task afterwards; the memberships of the other sockets on the task, and
/// all memberships on other tasks, are exactly those from before the attach. When the
/// socket held no membership on the task before, the memberships are those from before.
pub proof fn lemma_attach_detach_round_trip(
    members: Seq<SocketMembership>,
    task_id: AppTaskId,
    secure_key: String,
    from: ClientSocketId,
)
    ensures
        ({
            let m = SocketMembership { task_id, secure_key, socket: from };
            let r = without_member(with_member(members, m), task_id@, socket_key(from));
            &&& forall|i: int| 0 <= i < r.len() ==> !((#[trigger] r[i]).task_id@ == task_id@ && socket_key(r[i].socket)
                == socket_key(from))
            &&& forall|x: SocketMembership| #[trigger] r.contains(x) <==> (members.contains(x) && !(x.task_id@ == task_id@
                && socket_key(x.socket) == socket_key(from)))
            &&& (forall|i: int|
                0 <= i < members.len() ==> !((#[trigger] members[i]).task_id@ == task_id@ && socket_key(
                    members[i].socket,
                ) == socket_key(from))) ==> r == members
        }),
{
    let m = SocketMembership { task_id, secure_key, socket: from };
    let keep = not_member_of(task_id@, socket_key(from));
    lemma_attach_then_detach(members, m);
    let r = members.filter(keep);
    assert forall|i: int| 0 <= i < r.len() implies !((#[trigger] r[i]).task_id@ == task_id@ && socket_key(r[i].socket)
        == socket_key(from)) by {
        members.lemma_filter_pred(keep, i);
    }
    assert forall|x: SocketMembership| #[trigger] r.contains(x) <==> (members.contains(x) && !(x.task_id@ == task_id@
        && socket_key(x.socket) == socket_key(from))) by {
        if r.contains(x) {
            members.lemma_filter_contains_rev(keep, x);
            let i = choose|i: int| 0 <= i < r.len() && r[i] == x;
            members.lemma_filter_pred(keep, i);
        }
        if members.contains(x) && keep(x) {
            let k = choose|k: int| 0 <= k < members.len() && members[k] == x;
            members.lemma_filter_contains(keep, k);
        }
    }
}

/// Detaching one socket from a task leaves every membership of the other sockets, and every
/// membership on the other tasks, as it was.
pub proof fn lemma_detach_keeps_others(
    members: Seq<SocketMembership>,
    task: (Seq<char>, Seq<char>),
    socket: (Seq<char>, Seq<char>),
    x: SocketMembership,
)
    requires
        members.contains(x),
        x.task_id@ != task || socket_key(x.socket) != socket,
    ensures
        without_member(members, task, socket).contains(x),
{
    let k = choose|k: int| 0 <= k < members.len() && members[k] == x;
    members.lemma_filter_contains(not_member_of(task, socket), k);
}

/// Every socket that survives the stale-socket cleanup is valid at the time of the cleanup.
pub proof fn lemma_surviving_sockets_are_valid(
    sockets: Seq<SupervisedSocket>,
    now: i64,
    init_timeout: u64,
    drop_timeout: u64,
)
    ensures
        ({
            let kept = sockets.filter(|s: SupervisedSocket| socket_survives(s, now, init_timeout, drop_timeout));
            forall|i: int| 0 <= i < kept.len() ==> socket_valid(#[trigger] kept[i], now, drop_timeout)
        }),
{
    let keep = |s: SupervisedSocket| socket_survives(s, now, init_timeout, drop_timeout);
    let kept = sockets.filter(keep);
    assert forall|i: int| 0 <= i < kept.len() implies socket_valid(#[trigger] kept[i], now, drop_timeout) by {
        sockets.lemma_filter_pred(keep, i);
    }
}

/// A WebSocket is always preferred to a WebRTC socket for a task's packets: when a client
/// has an eligible WebSocket, its best socket is a WebSocket.
pub proof fn lemma_websocket_preferred(sockets: Seq<SupervisedSocket>, j: int, now: i64, drop_timeout: u64)
    requires
        0 <= j < sockets.len(),
        socket_eligible(sockets[j], now, drop_timeout),
        sockets[j].kind == SocketKind::WebSocket,
    ensures
        best_socket_index(sockets, now, drop_timeout) >= 0 ==> sockets[best_socket_index(sockets, now, drop_timeout)].kind
            == SocketKind::WebSocket,
{
    let b = best_socket_index(sockets, now, drop_timeout);
    if b >= 0 {
        assert(is_best_socket(sockets, b, now, drop_timeout));
        assert(socket_score(sockets[b]) <= socket_score(sockets[j]));
    }
}

/// Whether `rec` names an initialized, valid socket of a client that may hear the task's
/// audio.
pub open spec fn may_hear(
    clients: Seq<SupervisedClient>,
    members: Seq<SocketMembership>,
    security: Seq<TaskSecurityEntry>,
    task: (Seq<char>, Seq<char>),
    now: i64,
    drop_timeout: u64,
    rec: (Seq<char>, Seq<char>),
) -> bool {
    exists|ci: int, si: int|
        #![trigger clients[ci].sockets@[si]]
        0 <= ci < clients.len() && 0 <= si < clients[ci].sockets@.len() && client_can(
            members,
            security,
            clients[ci].id@,
            task,
            audio_permission(),
        ) && socket_eligible(clients[ci].sockets@[si], now, drop_timeout) && rec == (
            clients[ci].id@,
            clients[ci].sockets@[si].id@,
        )
}

/// Every socket that gets a task's streaming packet belongs to a client that may hear the
/// task's audio, and is initialized and still valid.
pub proof fn lemma_recipients_may_hear(
    clients: Seq<SupervisedClient>,
    members: Seq<SocketMembership>,
    security: Seq<TaskSecurityEntry>,
    task: (Seq<char>, Seq<char>),
    now: i64,
    drop_timeout: u64,
)
    ensures
        forall|k: int| 0 <= k < packet_recipients(clients, members, security, task, now, drop_timeout).len() ==> may_hear(
            clients,
            members,
            security,
            task,
            now,
            drop_timeout,
            #[trigger] packet_recipients(clients, members, security, task, now, drop_timeout)[k],
        ),
    decreases clients.len(),
{
    if clients.len() > 0 {
        let init = clients.drop_last();
        lemma_recipients_may_hear(init, members, security, task, now, drop_timeout);
        let r = packet_recipients(init, members, security, task, now, drop_timeout);
        let all = packet_recipients(clients, members, security, task, now, drop_timeout);
        let c = clients.last();
        let b = best_socket_index(c.sockets@, now, drop_timeout);
        assert forall|k: int| 0 <= k < all.len() implies may_hear(clients, members, security, task, now, drop_timeout, #[trigger] all[k]) by {
            if k < r.len() {
                assert(all[k] == r[k]);
                assert(may_hear(init, members, security, task, now, drop_timeout, r[k]));
                let (ci, si) = choose|ci: int, si: int|
                    #![trigger init[ci].sockets@[si]]
                    0 <= ci < init.len() && 0 <= si < init[ci].sockets@.len() && client_can(
                        members,
                        security,
                        init[ci].id@,
                        task,
                        audio_permission(),
                    ) && socket_eligible(init[ci].sockets@[si], now, drop_timeout) && r[k] == (
                        init[ci].id@,
                        init[ci].sockets@[si].id@,
                    );
                assert(init[ci] == clients[ci]);
                assert(clients[ci].sockets@[si] == init[ci].sockets@[si]);
            } else {
                let ci = clients.len() - 1;
                assert(b >= 0);
                assert(is_best_socket(c.sockets@, b, now, drop_timeout));
                assert(clients[ci] == c);
                assert(all[k] == (clients[ci].id@, clients[ci].sockets@[b].id@));
                assert(clients[ci].sockets@[b] == c.sockets@[b]);
            }
        }
    }
}

/// Every client that may hear a task's audio and has an eligible socket gets the task's
/// streaming packet, on its best socket: no such client is left out.
pub proof fn lemma_recipients_complete(
    clients: Seq<SupervisedClient>,
    members: Seq<SocketMembership>,
    security: Seq<TaskSecurityEntry>,
    task: (Seq<char>, Seq<char>),
    now: i64,
    drop_timeout: u64,
)
    ensures
        forall|ci: int|
            0 <= ci < clients.len() && client_can(members, security, (#[trigger] clients[ci]).id@, task, audio_permission())
                && best_socket_index(clients[ci].sockets@, now, drop_timeout) >= 0 ==> packet_recipients(
                clients,
                members,
                security,
                task,
                now,
                drop_timeout,
            ).contains((clients[ci].id@, clients[ci].sockets@[best_socket_index(clients[ci].sockets@, now, drop_timeout)].id@)),
    decreases clients.len(),
{
    if clients.len() > 0 {
        let init = clients.drop_last();
        lemma_recipients_complete(init, members, security, task, now, drop_timeout);
        let r = packet_recipients(init, members, security, task, now, drop_timeout);
        let all = packet_recipients(clients, members, security, task, now, drop_timeout);
        assert forall|k: int| 0 <= k < r.len() implies all.contains(#[trigger] r[k]) by {
            assert(all[k] == r[k]);
        }
        assert forall|ci: int|
            0 <= ci < clients.len() && client_can(members, security, (#[trigger] clients[ci]).id@, task, audio_permission())
                && best_socket_index(clients[ci].sockets@, now, drop_timeout) >= 0 implies all.contains(
            (clients[ci].id@, clients[ci].sockets@[best_socket_index(clients[ci].sockets@, now, drop_timeout)].id@),
        ) by {
            let b = best_socket_index(clients[ci].sockets@, now, drop_timeout);
            let e = (clients[ci].id@, clients[ci].sockets@[b].id@);
            if ci < init.len() {
                assert(init[ci] == clients[ci]);
                assert(r.contains(e));
                let k = choose|k: int| 0 <= k < r.len() && r[k] == e;
                assert(all.contains(r[k]));
            } else {
                assert(clients[ci] == clients.last());
                assert(all[r.len() as int] == e);
            }
        }
    }
}

/// Whether `rec` is the best socket of a client that may hear the task's audio.
pub open spec fn best_of_listener(
    clients: Seq<SupervisedClient>,
    members: Seq<SocketMembership>,
    security: Seq<TaskSecurityEntry>,
    task: (Seq<char>, Seq<char>),
    now: i64,
    drop_timeout: u64,
    rec: (Seq<char>, Seq<char>),
) -> bool {
    exists|ci: int|
        0 <= ci < clients.len() && client_can(members, security, (#[trigger] clients[ci]).id@, task, audio_permission())
            && best_socket_index(clients[ci].sockets@, now, drop_timeout) >= 0 && rec == (
            clients[ci].id@,
            clients[ci].sockets@[best_socket_index(clients[ci].sockets@, now, drop_timeout)].id@,
        )
}

/// Every socket that gets a task's streaming packet is the best socket of a client that may
/// hear the task's audio: a packet never goes to another socket of a listening client.
pub proof fn lemma_recipients_are_best_sockets(
    clients: Seq<SupervisedClient>,
    members: Seq<SocketMembership>,
    security: Seq<TaskSecurityEntry>,
    task: (Seq<char>, Seq<char>),
    now: i64,
    drop_timeout: u64,
)
    ensures
        forall|k: int| 0 <= k < packet_recipients(clients, members, security, task, now, drop_timeout).len() ==> best_of_listener(
            clients,
            members,
            security,
            task,
            now,
            drop_timeout,
            #[trigger] packet_recipients(clients, members, security, task, now, drop_timeout)[k],
        ),
    decreases clients.len(),
{
    if clients.len() > 0 {
        let init = clients.drop_last();
        lemma_recipients_are_best_sockets(init, members, security, task, now, drop_timeout);
        let r = packet_recipients(init, members, security, task, now, drop_timeout);
        let all = packet_recipients(clients, members, security, task, now, drop_timeout);
        assert forall|k: int| 0 <= k < all.len() implies best_of_listener(
            clients,
            members,
            security,
            task,
            now,
            drop_timeout,
            #[trigger] all[k],
        ) by {
            if k < r.len() {
                assert(all[k] == r[k]);
                assert(best_of_listener(init, members, security, task, now, drop_timeout, r[k]));
                let ci = choose|ci: int|
                    0 <= ci < init.len() && client_can(members, security, (#[trigger] init[ci]).id@, task, audio_permission())
                        && best_socket_index(init[ci].sockets@, now, drop_timeout) >= 0 && r[k] == (
                        init[ci].id@,
                        init[ci].sockets@[best_socket_index(init[ci].sockets@, now, drop_timeout)].id@,
                    );
                assert(init[ci] == clients[ci]);
            } else {
                let ci = clients.len() - 1;
                assert(clients[ci] == clients.last());
            }
        }
    }
}

} // verus!
