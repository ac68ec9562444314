//! The supervisor of all tasks of a domain: which tasks it keeps, which of them run an
//! actor, on which engine, and when it forgets them.
use vstd::prelude::*;
use crate::ids::{AppTaskId, copy_string, distinct_by, lemma_distinct_by_same_keys, lemma_filter_distinct_by};
use crate::security::TaskSecurity;

verus! {

broadcast use vstd::seq_lib::group_seq_properties;

/// Options of the task supervisor.
#[derive(Clone, Copy, Debug)]
pub struct TaskOpts {
    /// Number of seconds to keep task information in the supervisor before forgetting it
    pub task_grace_seconds: usize,
    /// Send streaming packets to clients as soon as they exceed specified age in milliseconds (even if no audio captured)
    pub max_packet_age_ms: usize,
    /// Send streaming packets to clients as soon as they exceed specified count of compressed audio buffers (even if not old enough)
    pub max_packet_audio_frames: usize,
}

impl Default for TaskOpts {
    fn default() -> (r: Self)
        ensures
            r.task_grace_seconds == 3600,
            r.max_packet_age_ms == 250,
            r.max_packet_audio_frames == 4,
    {
        TaskOpts { task_grace_seconds: 3600, max_packet_age_ms: 250, max_packet_audio_frames: 4 }
    }
}

/// Asks a supervisor to start the actors of the tasks that are due.
pub struct BecomeOnline;

/// Asks the supervisor for a summary of its tasks.
pub struct ListTasks;

/// The time span a task has reserved, in milliseconds since the epoch, `to` exclusive.
#[derive(Clone, Copy, Debug)]
pub struct TaskReservation {
    pub from: i64,
    pub to: i64,
}

impl TaskReservation {
    pub open spec fn spec_contains(&self, now: i64) -> bool {
        self.from <= now && now < self.to
    }

    /// Whether `now` lies within the reservation.
    #[verifier::when_used_as_spec(spec_contains)]
    pub fn contains(&self, now: i64) -> (r: bool)
        ensures
            r == self.spec_contains(now),
    {
        self.from <= now && now < self.to
    }
}

/// The running actor of a task: the engine it was started on and whether its mailbox is
/// still connected.
#[derive(Debug)]
pub struct ActorLink {
    pub engine_id: String,
    pub connected: bool,
}

/// A task as the supervisor knows it.
#[derive(Debug)]
pub struct SupervisedTask {
    pub id: AppTaskId,
    pub domain_id: String,
    pub reservations: TaskReservation,
    pub security: TaskSecurity,
    pub actor: Option<ActorLink>,
}

/// The key of a supervised task: its id.
pub open spec fn task_key() -> spec_fn(SupervisedTask) -> (Seq<char>, Seq<char>) {
    |t: SupervisedTask| t.id@
}

/// The key of a configured task: its id.
pub open spec fn configured_key() -> spec_fn(ConfiguredTask) -> (Seq<char>, Seq<char>) {
    |c: ConfiguredTask| c.id@
}

/// A task as the domain configuration lists it.
#[derive(Debug)]
pub struct ConfiguredTask {
    pub id: AppTaskId,
    pub domain_id: String,
    pub reservations: TaskReservation,
    pub security: TaskSecurity,
}

/// The supervised form of a configured task: it has no actor yet.
pub open spec fn supervised_of(c: ConfiguredTask) -> SupervisedTask {
    SupervisedTask {
        id: c.id,
        domain_id: c.domain_id,
        reservations: c.reservations,
        security: c.security,
        actor: None,
    }
}

/// Whether a task's information has outlived the grace period at `now`.
pub open spec fn expired(t: SupervisedTask, now: i64, grace_seconds: usize) -> bool {
    t.reservations.to < now - grace_seconds * 1000
}

/// Whether a task has an actor whose mailbox is gone.
pub open spec fn has_dead_actor(t: SupervisedTask) -> bool {
    t.actor matches Some(link) && !link.connected
}

/// Whether a task is due to get an actor at `now`.
pub open spec fn is_pending(t: SupervisedTask, now: i64) -> bool {
    t.reservations.spec_contains(now) && t.actor is None
}

/// A task with its dead actor forgotten.
pub open spec fn without_dead_actor(t: SupervisedTask) -> SupervisedTask {
    if has_dead_actor(t) {
        SupervisedTask { actor: None, ..t }
    } else {
        t
    }
}

/// A task with an actor started on `engine_id` if it is pending at `now`.
pub open spec fn activated_at(t: SupervisedTask, now: i64, engine_id: String) -> SupervisedTask {
    if is_pending(t, now) {
        SupervisedTask { actor: Some(ActorLink { engine_id, connected: true }), ..t }
    } else {
        t
    }
}

/// The supervisor of the tasks of one domain.
#[derive(Debug)]
pub struct TasksSupervisor {
    pub task_opts: TaskOpts,
    pub domain_id: String,
    /// The engines of the domain, in configuration order.
    pub engines: Vec<String>,
    pub tasks: Vec<SupervisedTask>,
    pub online: bool,
}

/// What one supervisor tick did.
#[derive(Debug)]
pub struct SupervisorReport {
    pub deactivated: Vec<AppTaskId>,
    pub deleted: Vec<AppTaskId>,
    pub activated: Vec<AppTaskId>,
}

impl TasksSupervisor {
    /// The supervisor's tasks are keyed by id, as in a map: no two share an id.
    pub open spec fn wf(&self) -> bool {
        distinct_by(self.tasks@, task_key())
    }

    /// A supervisor, offline, of the configured tasks (keyed by id) whose domain is not
    /// `domain_id`: the configured task filter keeps a task exactly when its domain differs
    /// from the supervisor's.
    pub fn new(opts: TaskOpts, domain_id: String, tasks: Vec<ConfiguredTask>, engines: Vec<String>) -> (r:
        Self)
        requires
            distinct_by(tasks@, configured_key()),
        ensures
            r.task_opts == opts,
            r.domain_id == domain_id,
            r.engines == engines,
            r.tasks@ == tasks@.filter(|c: ConfiguredTask| c.domain_id@ != domain_id@).map_values(
                |c: ConfiguredTask| supervised_of(c),
            ),
            !r.online,
            r.wf(),
    {
        let ghost own = |c: ConfiguredTask| c.domain_id@ != domain_id@;
        let ghost f = |c: ConfiguredTask| supervised_of(c);
        let ghost input = tasks@;
        let mut kept: Vec<SupervisedTask> = Vec::new();
        for c in it: tasks.into_iter()
            invariant
                it.seq() == input,
                own == (|c: ConfiguredTask| c.domain_id@ != domain_id@),
                f == (|c: ConfiguredTask| supervised_of(c)),
                kept@ == input.take(it.index() as int).filter(own).map_values(f),
        {
            let ghost k = it.index() as int;
            let ghost cc = c;
            proof {
                assert(c == input[k]);
                assert(input.take(k + 1) =~= input.take(k).push(c));
                input.take(k).lemma_filter_push(c, own);
                input.take(k).filter(own).lemma_push_map_commute(f, c);
            }
            if !(c.domain_id == domain_id) {
                kept.push(
                    SupervisedTask {
                        id: c.id,
                        domain_id: c.domain_id,
                        reservations: c.reservations,
                        security: c.security,
                        actor: None,
                    },
                );
                proof {
                    assert(cc.domain_id@ != domain_id@);
                    assert(own(cc));
                    assert(kept@.last() == f(cc));
                    assert(kept@ =~= input.take(k + 1).filter(own).map_values(f));
                }
            } else {
                proof {
                    assert(kept@ =~= input.take(k + 1).filter(own).map_values(f));
                }
            }
        }
        proof {
            assert(input.take(input.len() as int) =~= input);
            lemma_filter_distinct_by(input, own, configured_key());
            lemma_distinct_by_same_keys(input.filter(own), configured_key(), kept@, task_key());
        }
        TasksSupervisor { task_opts: opts, domain_id, engines, tasks: kept, online: false }
    }

    /// The engine a new task actor is started on: the first engine of the domain.
    pub fn allocate_engine(&self) -> (r: Option<String>)
        ensures
            self.engines@.len() == 0 ==> r is None,
            self.engines@.len() > 0 ==> r == Some(self.engines@[0]),
    {
        if self.engines.len() > 0 {
            Some(copy_string(&self.engines[0]))
        } else {
            None
        }
    }

    /// Goes online: from now on update ticks start, stop and forget task actors.
    pub fn become_online(&mut self)
        ensures
            final(self).online,
            final(self).tasks == old(self).tasks,
            final(self).engines == old(self).engines,
            final(self).task_opts == old(self).task_opts,
            final(self).domain_id == old(self).domain_id,
            old(self).wf() ==> final(self).wf(),
    {
        self.online = true;
    }

    /// Forgets the actors whose mailbox is gone; returns the ids of their tasks.
    pub fn drop_inactive_task_actors(&mut self) -> (r: Vec<AppTaskId>)
        requires
            old(self).wf(),
        ensures
            final(self).wf(),
            final(self).tasks@ == old(self).tasks@.map_values(|t: SupervisedTask| without_dead_actor(t)),
            r@ == old(self).tasks@.filter(|t: SupervisedTask| has_dead_actor(t)).map_values(
                |t: SupervisedTask| t.id,
            ),
            final(self).engines == old(self).engines,
            final(self).task_opts == old(self).task_opts,
            final(self).domain_id == old(self).domain_id,
            final(self).online == old(self).online,
    {
        let ghost dead = |t: SupervisedTask| has_dead_actor(t);
        let ghost idf = |t: SupervisedTask| t.id;
        let ghost input = self.tasks@;
        let mut deactivated: Vec<AppTaskId> = Vec::new();
        let n = self.tasks.len();
        let mut i: usize = 0;
        while i < n
            invariant
                n == input.len(),
                i <= n,
                self.tasks@.len() == n,
                self.engines == old(self).engines,
                self.task_opts == old(self).task_opts,
                self.domain_id == old(self).domain_id,
                self.online == old(self).online,
                dead == (|t: SupervisedTask| has_dead_actor(t)),
                idf == (|t: SupervisedTask| t.id),
                forall|j: int| 0 <= j < i ==> #[trigger] self.tasks@[j] == if has_dead_actor(input[j]) {
                    SupervisedTask { actor: None, ..input[j] }
                } else {
                    input[j]
                },
                forall|j: int| i <= j < n ==> #[trigger] self.tasks@[j] == input[j],
                deactivated@ == input.take(i as int).filter(dead).map_values(idf),
            decreases n - i,
        {
            proof {
                assert(input.take(i as int + 1) =~= input.take(i as int).push(input[i as int]));
                input.take(i as int).lemma_filter_push(input[i as int], dead);
                input.take(i as int).filter(dead).lemma_push_map_commute(idf, input[i as int]);
            }
            let is_dead = match &self.tasks[i].actor {
                Some(link) => !link.connected,
                None => false,
            };
            if is_dead {
                let id = self.tasks[i].id.duplicate();
                let mut t = self.tasks.remove(i);
                t.actor = None;
                self.tasks.insert(i, t);
                deactivated.push(id);
                proof {
                    assert(deactivated@ =~= input.take(i as int + 1).filter(dead).map_values(idf));
                }
            } else {
                proof {
                    assert(deactivated@ =~= input.take(i as int + 1).filter(dead).map_values(idf));
                }
            }
            i = i + 1;
        }
        proof {
            assert(input.take(n as int) =~= input);
            assert(self.tasks@ =~= input.map_values(|t: SupervisedTask| without_dead_actor(t)));
            lemma_distinct_by_same_keys(input, task_key(), self.tasks@, task_key());
        }
        deactivated
    }

    /// Forgets the tasks whose reservation ended more than the grace period before `now`
    /// (milliseconds since the epoch); returns their ids.
    pub fn drop_old_tasks(&mut self, now: i64) -> (r: Vec<AppTaskId>)
        requires
            old(self).wf(),
        ensures
            final(self).wf(),
            final(self).tasks@ == old(self).tasks@.filter(
                |t: SupervisedTask| !expired(t, now, old(self).task_opts.task_grace_seconds),
            ),
            r@ == old(self).tasks@.filter(
                |t: SupervisedTask| expired(t, now, old(self).task_opts.task_grace_seconds),
            ).map_values(|t: SupervisedTask| t.id),
            final(self).engines == old(self).engines,
            final(self).task_opts == old(self).task_opts,
            final(self).domain_id == old(self).domain_id,
            final(self).online == old(self).online,
    {
        let grace = self.task_opts.task_grace_seconds;
        let ghost old_expired = |t: SupervisedTask| expired(t, now, grace);
        let ghost keep = |t: SupervisedTask| !expired(t, now, grace);
        let ghost idf = |t: SupervisedTask| t.id;
        let cutoff: i128 = (now as i128) - (grace as i128) * 1000;
        let mut old_tasks: Vec<SupervisedTask> = Vec::new();
        std::mem::swap(&mut old_tasks, &mut self.tasks);
        let ghost input = old_tasks@;
        proof {
            lemma_filter_distinct_by(input, keep, task_key());
        }
        let mut deleted: Vec<AppTaskId> = Vec::new();
        for t in it: old_tasks.into_iter()
            invariant
                it.seq() == input,
                cutoff == now - grace * 1000,
                grace == old(self).task_opts.task_grace_seconds,
                self.engines == old(self).engines,
                self.task_opts == old(self).task_opts,
                self.domain_id == old(self).domain_id,
                self.online == old(self).online,
                old_expired == (|t: SupervisedTask| expired(t, now, grace)),
                keep == (|t: SupervisedTask| !expired(t, now, grace)),
                idf == (|t: SupervisedTask| t.id),
                self.tasks@ == input.take(it.index() as int).filter(keep),
                deleted@ == input.take(it.index() as int).filter(old_expired).map_values(idf),
        {
            let ghost k = it.index() as int;
            let ghost tt = t;
            proof {
                assert(input.take(k + 1) =~= input.take(k).push(t));
                input.take(k).lemma_filter_push(t, keep);
                input.take(k).lemma_filter_push(t, old_expired);
                input.take(k).filter(old_expired).lemma_push_map_commute(idf, t);
            }
            if (t.reservations.to as i128) < cutoff {
                deleted.push(t.id);
                proof {
                    assert(old_expired(tt));
                    assert(deleted@ =~= input.take(k + 1).filter(old_expired).map_values(idf));
                }
            } else {
                self.tasks.push(t);
                proof {
                    assert(keep(tt));
                }
            }
        }
        proof {
            assert(input.take(input.len() as int) =~= input);
        }
        deleted
    }

    /// Starts an actor, on the allocated engine, for every task whose reservation contains
    /// `now` and that has no actor yet; returns the ids of those tasks. Without an engine no
    /// actor is started.
    pub fn create_pending_task_actors(&mut self, now: i64) -> (r: Vec<AppTaskId>)
        requires
            old(self).wf(),
        ensures
            final(self).wf(),
            old(self).engines@.len() == 0 ==> final(self).tasks@ == old(self).tasks@ && r@.len() == 0,
            old(self).engines@.len() > 0 ==> {
                &&& final(self).tasks@ == old(self).tasks@.map_values(
                    |t: SupervisedTask| activated_at(t, now, old(self).engines@[0]),
                )
                &&& r@ == old(self).tasks@.filter(|t: SupervisedTask| is_pending(t, now)).map_values(
                    |t: SupervisedTask| t.id,
                )
            },
            final(self).engines == old(self).engines,
            final(self).task_opts == old(self).task_opts,
            final(self).domain_id == old(self).domain_id,
            final(self).online == old(self).online,
    {
        let engine = self.allocate_engine();
        let mut activated: Vec<AppTaskId> = Vec::new();
        match engine {
            None => activated,
            Some(engine_id) => {
                let ghost pending = |t: SupervisedTask| is_pending(t, now);
                let ghost idf = |t: SupervisedTask| t.id;
                let ghost input = self.tasks@;
                let n = self.tasks.len();
                let mut i: usize = 0;
                while i < n
                    invariant
                        n == input.len(),
                        i <= n,
                        self.tasks@.len() == n,
                        self.engines@.len() > 0,
                        engine_id == self.engines@[0],
                        self.engines == old(self).engines,
                        self.task_opts == old(self).task_opts,
                        self.domain_id == old(self).domain_id,
                        self.online == old(self).online,
                        pending == (|t: SupervisedTask| is_pending(t, now)),
                        idf == (|t: SupervisedTask| t.id),
                        forall|j: int| 0 <= j < i ==> #[trigger] self.tasks@[j] == if is_pending(input[j], now) {
                            SupervisedTask {
                                actor: Some(ActorLink { engine_id: self.engines@[0], connected: true }),
                                ..input[j]
                            }
                        } else {
                            input[j]
                        },
                        forall|j: int| i <= j < n ==> #[trigger] self.tasks@[j] == input[j],
                        activated@ == input.take(i as int).filter(pending).map_values(idf),
                    decreases n - i,
                {
                    proof {
                        assert(input.take(i as int + 1) =~= input.take(i as int).push(input[i as int]));
                        input.take(i as int).lemma_filter_push(input[i as int], pending);
                        input.take(i as int).filter(pending).lemma_push_map_commute(idf, input[i as int]);
                    }
                    if self.tasks[i].reservations.contains(now) && self.tasks[i].actor.is_none() {
                        let id = self.tasks[i].id.duplicate();
                        let mut t = self.tasks.remove(i);
                        t.actor = Some(ActorLink { engine_id: copy_string(&engine_id), connected: true });
                        self.tasks.insert(i, t);
                        activated.push(id);
                        proof {
                            assert(activated@ =~= input.take(i as int + 1).filter(pending).map_values(idf));
                        }
                    } else {
                        proof {
                            assert(activated@ =~= input.take(i as int + 1).filter(pending).map_values(idf));
                        }
                    }
                    i = i + 1;
                }
                proof {
                    assert(input.take(n as int) =~= input);
                    assert(self.tasks@ =~= input.map_values(
                        |t: SupervisedTask| activated_at(t, now, self.engines@[0]),
                    ));
                    lemma_distinct_by_same_keys(input, task_key(), self.tasks@, task_key());
                }
                activated
            },
        }
    }

    /// One supervisor tick: when online, forgets dead actors, then old tasks, then starts
    /// the actors of pending tasks; offline, it does nothing.
    pub fn update(&mut self, now: i64) -> (r: SupervisorReport)
        requires
            old(self).wf(),
        ensures
            final(self).wf(),
            !old(self).online ==> final(self).tasks == old(self).tasks && r.deactivated@.len() == 0
                && r.deleted@.len() == 0 && r.activated@.len() == 0,
            final(self).online == old(self).online,
            final(self).engines == old(self).engines,
            final(self).task_opts == old(self).task_opts,
            old(self).online ==> ({
                let grace = old(self).task_opts.task_grace_seconds;
                let alive = old(self).tasks@.map_values(|t: SupervisedTask| without_dead_actor(t));
                let kept = alive.filter(|t: SupervisedTask| !expired(t, now, grace));
                &&& r.deactivated@ == old(self).tasks@.filter(|t: SupervisedTask| has_dead_actor(t)).map_values(
                    |t: SupervisedTask| t.id,
                )
                &&& r.deleted@ == alive.filter(|t: SupervisedTask| expired(t, now, grace)).map_values(
                    |t: SupervisedTask| t.id,
                )
                &&& old(self).engines@.len() == 0 ==> final(self).tasks@ == kept && r.activated@.len() == 0
                &&& old(self).engines@.len() > 0 ==> {
                    &&& final(self).tasks@ == kept.map_values(
                        |t: SupervisedTask| activated_at(t, now, old(self).engines@[0]),
                    )
                    &&& r.activated@ == kept.filter(|t: SupervisedTask| is_pending(t, now)).map_values(
                        |t: SupervisedTask| t.id,
                    )
                }
            }),
    {
        if self.online {
            let deactivated = self.drop_inactive_task_actors();
            let deleted = self.drop_old_tasks(now);
            let activated = self.create_pending_task_actors(now);
            SupervisorReport { deactivated, deleted, activated }
        } else {
            SupervisorReport { deactivated: Vec::new(), deleted: Vec::new(), activated: Vec::new() }
        }
    }
}

/// Makes the task supervisor go online.
pub fn become_online(supervisor: &mut TasksSupervisor)
    ensures
        old(supervisor).wf() ==> final(supervisor).wf(),
        final(supervisor).online,
        final(supervisor).tasks == old(supervisor).tasks,
        final(supervisor).engines == old(supervisor).engines,
{
    supervisor.become_online();
}


/// Forgetting old tasks splits the tasks in two: every task kept is still within its grace
/// period, every task forgotten is past it, and no task is lost or made up.
pub proof fn lemma_drop_old_tasks_partitions(tasks: Seq<SupervisedTask>, now: i64, grace: usize)
    ensures
        ({
            let kept = tasks.filter(|t: SupervisedTask| !expired(t, now, grace));
            let gone = tasks.filter(|t: SupervisedTask| expired(t, now, grace));
            &&& forall|i: int| 0 <= i < kept.len() ==> !expired(#[trigger] kept[i], now, grace)
            &&& forall|i: int| 0 <= i < gone.len() ==> expired(#[trigger] gone[i], now, grace)
            &&& kept.len() + gone.len() == tasks.len()
        }),
    decreases tasks.len(),
{
    let keep = |t: SupervisedTask| !expired(t, now, grace);
    let drop = |t: SupervisedTask| expired(t, now, grace);
    let kept = tasks.filter(keep);
    let gone = tasks.filter(drop);
    assert forall|i: int| 0 <= i < kept.len() implies !expired(#[trigger] kept[i], now, grace) by {
        tasks.lemma_filter_pred(keep, i);
    }
    assert forall|i: int| 0 <= i < gone.len() implies expired(#[trigger] gone[i], now, grace) by {
        tasks.lemma_filter_pred(drop, i);
    }
    if tasks.len() > 0 {
        lemma_drop_old_tasks_partitions(tasks.drop_last(), now, grace);
        assert(tasks =~= tasks.drop_last().push(tasks.last()));
        tasks.drop_last().lemma_filter_push(tasks.last(), keep);
        tasks.drop_last().lemma_filter_push(tasks.last(), drop);
    } else {
        reveal(Seq::filter);
    }
}

/// After pending actors are started on an engine, no task is pending any more: every task
/// whose reservation contains `now` has an actor.
pub proof fn lemma_no_task_left_pending(tasks: Seq<SupervisedTask>, now: i64, engine_id: String)
    ensures
        ({
            let after = tasks.map_values(|t: SupervisedTask| activated_at(t, now, engine_id));
            forall|i: int| 0 <= i < after.len() ==> !is_pending(#[trigger] after[i], now)
        }),
{
}

/// Forgetting dead actors leaves no dead actor behind and touches nothing but actors.
pub proof fn lemma_no_dead_actor_left(tasks: Seq<SupervisedTask>)
    ensures
        ({
            let after = tasks.map_values(|t: SupervisedTask| without_dead_actor(t));
            forall|i: int| 0 <= i < after.len() ==> {
                &&& !has_dead_actor(#[trigger] after[i])
                &&& after[i].id == tasks[i].id
                &&& after[i].reservations == tasks[i].reservations
            }
        }),
{
}

} // verus!
