//! The web socket supervisor: registered web sockets, their logins to tasks, and which
//! sockets receive a task's security updates and streaming packets.
use vstd::prelude::*;
use crate::ids::{AppTaskId, distinct_by, lemma_filter_distinct_by, lemma_filter_keeps_all};
use crate::security::{TaskPermissions, TaskSecurity, permissions_for};
use crate::task_map::TaskMap;

verus! {

broadcast use vstd::seq_lib::group_seq_properties;

/// Identifies a web socket connection.
#[derive(Clone, Copy, PartialEq, Eq, Structural, Debug)]
pub struct WebSocketId(pub u64);

/// Hands out the next web socket id from the counter `next`, which wraps around.
pub fn get_next_socket_id(next: &mut u64) -> (r: WebSocketId)
    ensures
        r.0 == *old(next),
        *final(next) == if *old(next) == u64::MAX { 0 } else { (*old(next) + 1) as u64 },
{
    let id = *next;
    *next = next.wrapping_add(1);
    WebSocketId(id)
}

/// A registered web socket and whether its actor is still connected.
#[derive(Clone, Copy, PartialEq, Eq, Structural, Debug)]
pub struct RegisteredWebSocket {
    pub id: WebSocketId,
    pub connected: bool,
}

/// A web socket logged in to a task with a secure key.
#[derive(Debug)]
pub struct WebSocketMembership {
    pub task_id: AppTaskId,
    pub secure_key: String,
    pub web_socket_id: WebSocketId,
}

/// Why a login failed.
#[derive(Clone, Copy, PartialEq, Eq, Structural, Debug)]
pub enum LoginError {
    /// The task has no security, or none for the secure key.
    SecurityNotFound,
}

pub open spec fn is_registered(sockets: Seq<RegisteredWebSocket>, id: WebSocketId) -> bool {
    exists|i: int| 0 <= i < sockets.len() && (#[trigger] sockets[i]).id == id
}

/// The ids of the registered sockets that are logged in to `task`, in login order.
pub open spec fn member_sockets(
    membership: Seq<WebSocketMembership>,
    sockets: Seq<RegisteredWebSocket>,
    task: (Seq<char>, Seq<char>),
) -> Seq<WebSocketId> {
    membership.filter(|m: WebSocketMembership| m.task_id@ == task && is_registered(sockets, m.web_socket_id)).map_values(
        |m: WebSocketMembership| m.web_socket_id,
    )
}

/// Whether a login is another than socket `id`'s login to `task`.
pub open spec fn not_login_of(task: (Seq<char>, Seq<char>), id: WebSocketId) -> spec_fn(WebSocketMembership) -> bool {
    |m: WebSocketMembership| !(m.task_id@ == task && m.web_socket_id == id)
}

pub open spec fn same_membership(a: WebSocketMembership, b: WebSocketMembership) -> bool {
    a.task_id@ == b.task_id@ && a.secure_key@ == b.secure_key@ && a.web_socket_id == b.web_socket_id
}

/// The supervisor of the web sockets of the domain.
#[derive(Debug)]
pub struct SocketsSupervisor {
    pub web_sockets: Vec<RegisteredWebSocket>,
    pub membership: Vec<WebSocketMembership>,
    pub security: TaskMap<TaskSecurity>,
}

/// The key of a registered socket: its id.
pub open spec fn web_socket_key() -> spec_fn(RegisteredWebSocket) -> WebSocketId {
    |w: RegisteredWebSocket| w.id
}

/// The key of a login: the login itself, as plain values.
pub open spec fn login_key() -> spec_fn(WebSocketMembership) -> ((Seq<char>, Seq<char>), Seq<char>, WebSocketId) {
    |m: WebSocketMembership| (m.task_id@, m.secure_key@, m.web_socket_id)
}

impl SocketsSupervisor {
    /// The supervisor's lists are keyed as maps and sets are: no socket is registered twice,
    /// no login is held twice, and the security holds no task twice.
    pub open spec fn wf(&self) -> bool {
        &&& distinct_by(self.web_sockets@, web_socket_key())
        &&& distinct_by(self.membership@, login_key())
        &&& self.security.wf()
    }
}

/// The supervisor as it starts: no sockets, no logins, no task security.
pub fn init() -> (r: SocketsSupervisor)
    ensures
        r.wf(),
        r.web_sockets@.len() == 0,
        r.membership@.len() == 0,
        r.security.entries@.len() == 0,
{
    SocketsSupervisor { web_sockets: Vec::new(), membership: Vec::new(), security: TaskMap::new() }
}

fn contains_socket(sockets: &Vec<RegisteredWebSocket>, id: WebSocketId) -> (r: bool)
    ensures
        r == is_registered(sockets@, id),
{
    let n = sockets.len();
    let mut i: usize = 0;
    while i < n
        invariant
            n == sockets@.len(),
            i <= n,
            forall|j: int| 0 <= j < i ==> (#[trigger] sockets@[j]).id != id,
        decreases n - i,
    {
        if sockets[i].id == id {
            return true;
        }
        i = i + 1;
    }
    false
}

fn contains_id(ids: &Vec<WebSocketId>, id: WebSocketId) -> (r: bool)
    ensures
        r == ids@.contains(id),
{
    let n = ids.len();
    let mut i: usize = 0;
    while i < n
        invariant
            n == ids@.len(),
            i <= n,
            forall|j: int| 0 <= j < i ==> ids@[j] != id,
        decreases n - i,
    {
        if ids[i] == id {
            return true;
        }
        i = i + 1;
    }
    false
}

impl SocketsSupervisor {
    /// Registers a web socket as connected; an earlier registration of the id is replaced.
    pub fn register(&mut self, id: WebSocketId)
        ensures
            final(self).web_sockets@ == old(self).web_sockets@.filter(|w: RegisteredWebSocket| w.id != id).push(
                RegisteredWebSocket { id, connected: true },
            ),
            final(self).membership == old(self).membership,
            final(self).security == old(self).security,
            old(self).wf() ==> final(self).wf(),
    {
        let ghost keep = |w: RegisteredWebSocket| w.id != id;
        let ghost input = self.web_sockets@;
        let mut kept: Vec<RegisteredWebSocket> = Vec::new();
        let n = self.web_sockets.len();
        let mut i: usize = 0;
        while i < n
            invariant
                n == input.len(),
                i <= n,
                self.web_sockets@ == input,
                self.membership == old(self).membership,
                self.security == old(self).security,
                input == old(self).web_sockets@,
                keep == (|w: RegisteredWebSocket| w.id != id),
                kept@ == input.take(i as int).filter(keep),
            decreases n - i,
        {
            proof {
                assert(input.take(i as int + 1) =~= input.take(i as int).push(input[i as int]));
                input.take(i as int).lemma_filter_push(input[i as int], keep);
            }
            if self.web_sockets[i].id != id {
                kept.push(self.web_sockets[i]);
            }
            i = i + 1;
        }
        proof {
            assert(input.take(n as int) =~= input);
            if distinct_by(input, web_socket_key()) {
                lemma_filter_distinct_by(input, keep, web_socket_key());
                let f = input.filter(keep);
                let out = f.push(RegisteredWebSocket { id, connected: true });
                assert forall|a: int, b: int| 0 <= a < out.len() && 0 <= b < out.len() && a != b implies web_socket_key()(
                    #[trigger] out[a],
                ) != web_socket_key()(#[trigger] out[b]) by {
                    if a < f.len() {
                        input.lemma_filter_pred(keep, a);
                        assert(out[a] == f[a]);
                    }
                    if b < f.len() {
                        input.lemma_filter_pred(keep, b);
                        assert(out[b] == f[b]);
                    }
                }
            }
        }
        kept.push(RegisteredWebSocket { id, connected: true });
        self.web_sockets = kept;
    }

    /// Forgets the logins of sockets that are not registered.
    pub fn prune_unlinked_access(&mut self)
        ensures
            final(self).membership@ == old(self).membership@.filter(
                |m: WebSocketMembership| is_registered(old(self).web_sockets@, m.web_socket_id),
            ),
            final(self).web_sockets == old(self).web_sockets,
            final(self).security == old(self).security,
            old(self).wf() ==> final(self).wf(),
    {
        let ghost sockets = self.web_sockets@;
        let ghost keep = |m: WebSocketMembership| is_registered(sockets, m.web_socket_id);
        let mut old_list: Vec<WebSocketMembership> = Vec::new();
        std::mem::swap(&mut old_list, &mut self.membership);
        let ghost input = old_list@;
        for m in it: old_list.into_iter()
            invariant
                it.seq() == input,
                input == old(self).membership@,
                sockets == old(self).web_sockets@,
                self.web_sockets == old(self).web_sockets,
                self.security == old(self).security,
                keep == (|m: WebSocketMembership| is_registered(sockets, m.web_socket_id)),
                self.membership@ == input.take(it.index() as int).filter(keep),
        {
            let ghost k = it.index() as int;
            proof {
                assert(input.take(k + 1) =~= input.take(k).push(m));
                input.take(k).lemma_filter_push(m, keep);
            }
            if contains_socket(&self.web_sockets, m.web_socket_id) {
                self.membership.push(m);
            }
        }
        proof {
            assert(input.take(input.len() as int) =~= input);
            if distinct_by(input, login_key()) {
                lemma_filter_distinct_by(input, keep, login_key());
            }
        }
    }

    /// Drops the sockets whose actor is gone, then the logins of sockets no longer registered.
    pub fn update(&mut self)
        ensures
            final(self).web_sockets@ == old(self).web_sockets@.filter(|w: RegisteredWebSocket| w.connected),
            final(self).membership@ == old(self).membership@.filter(
                |m: WebSocketMembership| is_registered(final(self).web_sockets@, m.web_socket_id),
            ),
            final(self).security == old(self).security,
            old(self).wf() ==> final(self).wf(),
    {
        let ghost keep = |w: RegisteredWebSocket| w.connected;
        let ghost input = self.web_sockets@;
        let mut kept: Vec<RegisteredWebSocket> = Vec::new();
        let n = self.web_sockets.len();
        let mut i: usize = 0;
        while i < n
            invariant
                n == input.len(),
                i <= n,
                self.web_sockets@ == input,
                input == old(self).web_sockets@,
                self.membership == old(self).membership,
                self.security == old(self).security,
                keep == (|w: RegisteredWebSocket| w.connected),
                kept@ == input.take(i as int).filter(keep),
            decreases n - i,
        {
            proof {
                assert(input.take(i as int + 1) =~= input.take(i as int).push(input[i as int]));
                input.take(i as int).lemma_filter_push(input[i as int], keep);
            }
            if self.web_sockets[i].connected {
                kept.push(self.web_sockets[i]);
            }
            i = i + 1;
        }
        proof {
            assert(input.take(n as int) =~= input);
            if distinct_by(input, web_socket_key()) {
                lemma_filter_distinct_by(input, keep, web_socket_key());
            }
        }
        self.web_sockets = kept;
        self.prune_unlinked_access();
    }

    /// Logs a socket in to a task with a secure key and answers the key's permissions on
    /// the task, or an error when the task's security does not know the key.
    pub fn login(&mut self, id: WebSocketId, task_id: AppTaskId, secure_key: String) -> (r: Result<
        TaskPermissions,
        LoginError,
    >)
        ensures
            final(self).web_sockets == old(self).web_sockets,
            final(self).security == old(self).security,
            ({
                let m = WebSocketMembership { task_id, secure_key, web_socket_id: id };
                if exists|i: int| 0 <= i < old(self).membership@.len() && same_membership(
                    #[trigger] old(self).membership@[i],
                    m,
                ) {
                    final(self).membership@ == old(self).membership@
                } else {
                    final(self).membership@ == old(self).membership@.push(m)
                }
            }),
            match old(self).security.spec_get(task_id@) {
                None => r == Err::<TaskPermissions, LoginError>(LoginError::SecurityNotFound),
                Some(sec) => match permissions_for(sec.security@, secure_key@) {
                    None => r == Err::<TaskPermissions, LoginError>(LoginError::SecurityNotFound),
                    Some(p) => r == Ok::<TaskPermissions, LoginError>(p),
                },
            },
            old(self).wf() ==> final(self).wf(),
    {
        let result = match self.security.get(&task_id) {
            None => Err(LoginError::SecurityNotFound),
            Some(sec) => match sec.get(&secure_key) {
                None => Err(LoginError::SecurityNotFound),
                Some(p) => Ok(p),
            },
        };
        let ghost m = WebSocketMembership { task_id, secure_key, web_socket_id: id };
        let n = self.membership.len();
        let mut i: usize = 0;
        let mut found = false;
        while i < n
            invariant
                n == self.membership@.len(),
                i <= n,
                self.membership == old(self).membership,
                m == (WebSocketMembership { task_id, secure_key, web_socket_id: id }),
                found ==> exists|j: int| 0 <= j < n && same_membership(#[trigger] self.membership@[j], m),
                !found ==> forall|j: int| 0 <= j < i ==> !same_membership(#[trigger] self.membership@[j], m),
            decreases n - i,
        {
            if !found && self.membership[i].web_socket_id == id && self.membership[i].task_id.same_as(&task_id)
                && self.membership[i].secure_key == secure_key {
                found = true;
                assert(same_membership(self.membership@[i as int], m));
            }
            i = i + 1;
        }
        if !found {
            let ghost before = self.membership@;
            self.membership.push(WebSocketMembership { task_id, secure_key, web_socket_id: id });
            proof {
                let out = self.membership@;
                if distinct_by(before, login_key()) {
                    assert forall|a: int, b: int| 0 <= a < out.len() && 0 <= b < out.len() && a != b implies login_key()(
                        #[trigger] out[a],
                    ) != login_key()(#[trigger] out[b]) by {
                        if a < before.len() {
                            assert(out[a] == before[a]);
                            assert(!same_membership(before[a], m));
                        }
                        if b < before.len() {
                            assert(out[b] == before[b]);
                            assert(!same_membership(before[b], m));
                        }
                    }
                }
            }
        }
        result
    }

    /// Logs a socket out of a task.
    pub fn logout(&mut self, id: WebSocketId, task_id: &AppTaskId)
        ensures
            final(self).membership@ == old(self).membership@.filter(not_login_of(task_id@, id)),
            final(self).web_sockets == old(self).web_sockets,
            final(self).security == old(self).security,
            old(self).wf() ==> final(self).wf(),
    {
        let ghost keep = not_login_of(task_id@, id);
        let mut old_list: Vec<WebSocketMembership> = Vec::new();
        std::mem::swap(&mut old_list, &mut self.membership);
        let ghost input = old_list@;
        for m in it: old_list.into_iter()
            invariant
                it.seq() == input,
                input == old(self).membership@,
                self.web_sockets == old(self).web_sockets,
                self.security == old(self).security,
                keep == not_login_of(task_id@, id),
                self.membership@ == input.take(it.index() as int).filter(keep),
        {
            let ghost k = it.index() as int;
            proof {
                assert(input.take(k + 1) =~= input.take(k).push(m));
                input.take(k).lemma_filter_push(m, keep);
            }
            if !(m.web_socket_id == id && m.task_id.same_as(task_id)) {
                self.membership.push(m);
            }
        }
        proof {
            assert(input.take(input.len() as int) =~= input);
            if distinct_by(input, login_key()) {
                lemma_filter_distinct_by(input, keep, login_key());
            }
        }
    }

    /// The registered sockets logged in to a task, in login order.
    pub fn task_sockets(&self, task_id: &AppTaskId) -> (r: Vec<WebSocketId>)
        ensures
            r@ == member_sockets(self.membership@, self.web_sockets@, task_id@),
    {
        let ghost sockets = self.web_sockets@;
        let ghost sel = |m: WebSocketMembership| m.task_id@ == task_id@ && is_registered(sockets, m.web_socket_id);
        let ghost idf = |m: WebSocketMembership| m.web_socket_id;
        let ghost input = self.membership@;
        let mut r: Vec<WebSocketId> = Vec::new();
        let n = self.membership.len();
        let mut i: usize = 0;
        while i < n
            invariant
                n == input.len(),
                i <= n,
                input == self.membership@,
                sockets == self.web_sockets@,
                sel == (|m: WebSocketMembership| m.task_id@ == task_id@ && is_registered(sockets, m.web_socket_id)),
                idf == (|m: WebSocketMembership| m.web_socket_id),
                r@ == input.take(i as int).filter(sel).map_values(idf),
            decreases n - i,
        {
            proof {
                assert(input.take(i as int + 1) =~= input.take(i as int).push(input[i as int]));
                input.take(i as int).lemma_filter_push(input[i as int], sel);
                input.take(i as int).filter(sel).lemma_push_map_commute(idf, input[i as int]);
            }
            if self.membership[i].task_id.same_as(task_id) && contains_socket(
                &self.web_sockets,
                self.membership[i].web_socket_id,
            ) {
                r.push(self.membership[i].web_socket_id);
                proof {
                    assert(r@ =~= input.take(i as int + 1).filter(sel).map_values(idf));
                }
            }
            i = i + 1;
        }
        proof {
            assert(input.take(n as int) =~= input);
        }
        r
    }

    /// Records a task's security and answers the registered sockets logged in to the task,
    /// to which the new security is forwarded.
    pub fn notify_task_security(&mut self, task_id: AppTaskId, security: TaskSecurity) -> (r: Vec<WebSocketId>)
        ensures
            final(self).security.spec_get(task_id@) == Some(security),
            forall|t: (Seq<char>, Seq<char>)| t != task_id@ ==> #[trigger] final(self).security.spec_get(t)
                == old(self).security.spec_get(t),
            final(self).web_sockets == old(self).web_sockets,
            final(self).membership == old(self).membership,
            r@ == member_sockets(old(self).membership@, old(self).web_sockets@, task_id@),
            old(self).wf() ==> final(self).wf(),
    {
        let r = self.task_sockets(&task_id);
        self.security.insert(task_id, security);
        r
    }

    /// The sockets a task's streaming packet goes to: the registered sockets logged in to
    /// the task, provided the task's security is known; otherwise none.
    pub fn streaming_packet_recipients(&self, task_id: &AppTaskId) -> (r: Vec<WebSocketId>)
        ensures
            self.security.spec_get(task_id@) is None ==> r@.len() == 0,
            self.security.spec_get(task_id@) is Some ==> r@ == member_sockets(
                self.membership@,
                self.web_sockets@,
                task_id@,
            ),
    {
        match self.security.get(task_id) {
            None => Vec::new(),
            Some(_) => self.task_sockets(task_id),
        }
    }

    /// Forgets a deleted task: its logins are dropped, the sockets that were logged in to it
    /// are unregistered, and then the logins of unregistered sockets are dropped.
    pub fn task_deleted(&mut self, task_id: &AppTaskId)
        ensures
            ({
                let gone = old(self).membership@.filter(|m: WebSocketMembership| m.task_id@ == task_id@).map_values(
                    |m: WebSocketMembership| m.web_socket_id,
                );
                let sockets = old(self).web_sockets@.filter(|w: RegisteredWebSocket| !gone.contains(w.id));
                &&& final(self).web_sockets@ == sockets
                &&& final(self).membership@ == old(self).membership@.filter(
                    |m: WebSocketMembership| m.task_id@ != task_id@,
                ).filter(|m: WebSocketMembership| is_registered(sockets, m.web_socket_id))
            }),
            final(self).security == old(self).security,
            old(self).wf() ==> final(self).wf(),
    {
        let ghost sel = |m: WebSocketMembership| m.task_id@ == task_id@;
        let ghost idf = |m: WebSocketMembership| m.web_socket_id;
        let ghost keep_m = |m: WebSocketMembership| m.task_id@ != task_id@;
        let mut old_list: Vec<WebSocketMembership> = Vec::new();
        std::mem::swap(&mut old_list, &mut self.membership);
        let ghost input = old_list@;
        let mut gone: Vec<WebSocketId> = Vec::new();
        for m in it: old_list.into_iter()
            invariant
                it.seq() == input,
                input == old(self).membership@,
                self.web_sockets == old(self).web_sockets,
                self.security == old(self).security,
                sel == (|m: WebSocketMembership| m.task_id@ == task_id@),
                idf == (|m: WebSocketMembership| m.web_socket_id),
                keep_m == (|m: WebSocketMembership| m.task_id@ != task_id@),
                self.membership@ == input.take(it.index() as int).filter(keep_m),
                gone@ == input.take(it.index() as int).filter(sel).map_values(idf),
        {
            let ghost k = it.index() as int;
            proof {
                assert(input.take(k + 1) =~= input.take(k).push(m));
                input.take(k).lemma_filter_push(m, keep_m);
                input.take(k).lemma_filter_push(m, sel);
                input.take(k).filter(sel).lemma_push_map_commute(idf, m);
            }
            if m.task_id.same_as(task_id) {
                gone.push(m.web_socket_id);
                proof {
                    assert(gone@ =~= input.take(k + 1).filter(sel).map_values(idf));
                }
            } else {
                self.membership.push(m);
            }
        }
        proof {
            assert(input.take(input.len() as int) =~= input);
            if distinct_by(input, login_key()) {
                lemma_filter_distinct_by(input, keep_m, login_key());
            }
        }
        let ghost gone_ids = gone@;
        let ghost keep_w = |w: RegisteredWebSocket| !gone_ids.contains(w.id);
        let ghost ws = self.web_sockets@;
        let mut kept: Vec<RegisteredWebSocket> = Vec::new();
        let n = self.web_sockets.len();
        let mut i: usize = 0;
        while i < n
            invariant
                n == ws.len(),
                i <= n,
                ws == self.web_sockets@,
                ws == old(self).web_sockets@,
                gone_ids == gone@,
                keep_w == (|w: RegisteredWebSocket| !gone_ids.contains(w.id)),
                kept@ == ws.take(i as int).filter(keep_w),
            decreases n - i,
        {
            proof {
                assert(ws.take(i as int + 1) =~= ws.take(i as int).push(ws[i as int]));
                ws.take(i as int).lemma_filter_push(ws[i as int], keep_w);
            }
            if !contains_id(&gone, self.web_sockets[i].id) {
                kept.push(self.web_sockets[i]);
            }
            i = i + 1;
        }
        proof {
            assert(ws.take(n as int) =~= ws);
            if distinct_by(ws, web_socket_key()) {
                lemma_filter_distinct_by(ws, keep_w, web_socket_key());
            }
        }
        self.web_sockets = kept;
        self.prune_unlinked_access();
    }
}

/// The task permissions a web socket actor holds, by the secure key it logged in with.
#[derive(Debug)]
pub struct WebSocketActor {
    pub id: WebSocketId,
    pub security: TaskMap<TaskPermissions>,
    pub secure_key: TaskMap<String>,
    /// Milliseconds since the epoch of the actor's start.
    pub security_updated_at: i64,
}

impl WebSocketActor {
    /// Applies a task's new security: the actor keeps the permissions of its own secure key
    /// for the task, or none when the task no longer knows its key or it has no key there.
    pub fn on_task_security(&mut self, task_id: AppTaskId, security: &TaskSecurity)
        ensures
            final(self).secure_key == old(self).secure_key,
            final(self).id == old(self).id,
            final(self).security_updated_at == old(self).security_updated_at,
            final(self).security.spec_get(task_id@) == match old(self).secure_key.spec_get(task_id@) {
                Some(key) => permissions_for(security.security@, key@),
                None => None,
            },
            forall|t: (Seq<char>, Seq<char>)| t != task_id@ ==> #[trigger] final(self).security.spec_get(t)
                == old(self).security.spec_get(t),
    {
        let held = match self.secure_key.get(&task_id) {
            Some(key) => security.get(key),
            None => None,
        };
        match held {
            Some(p) => {
                self.security.insert(task_id, p);
            },
            None => {
                let _ = self.security.remove(&task_id);
            },
        }
    }

    /// The actor stops when it holds no task permission more than ten whole seconds after
    /// its start.
    pub fn should_stop(&self, now: i64) -> (r: bool)
        ensures
            r == (self.security.entries@.len() == 0 && (if now >= self.security_updated_at {
                now - self.security_updated_at
            } else {
                0
            }) / 1000 > 10),
    {
        let elapsed: i128 = if (now as i128) >= (self.security_updated_at as i128) {
            (now as i128) - (self.security_updated_at as i128)
        } else {
            0
        };
        self.security.entries.len() == 0 && elapsed / 1000 > 10
    }
}

/// Logging a socket out of a task undoes logging it in, when it was not logged in to the
/// task before: the logins are those from before the login.
pub proof fn lemma_logout_undoes_login(ms: Seq<WebSocketMembership>, m: WebSocketMembership)
    requires
        forall|i: int| 0 <= i < ms.len() ==> !((#[trigger] ms[i]).task_id@ == m.task_id@ && ms[i].web_socket_id
            == m.web_socket_id),
    ensures
        ms.push(m).filter(not_login_of(m.task_id@, m.web_socket_id)) == ms,
{
    let keep = not_login_of(m.task_id@, m.web_socket_id);
    assert forall|i: int| 0 <= i < ms.len() implies keep(#[trigger] ms[i]) by {}
    lemma_filter_keeps_all(ms, keep);
    ms.lemma_filter_push(m, keep);
}

} // verus!
