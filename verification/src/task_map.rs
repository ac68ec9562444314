//! A map keyed by task id, kept as a list of entries without repeated keys.
use vstd::prelude::*;
use crate::ids::{AppTaskId, distinct_by, lemma_distinct_by_same_keys, lemma_filter_distinct_by};

verus! {

broadcast use vstd::seq_lib::group_seq_properties;

/// One entry of a task map.
#[derive(Debug)]
pub struct TaskEntry<V> {
    pub task_id: AppTaskId,
    pub value: V,
}

/// A map from task ids to values.
#[derive(Debug)]
pub struct TaskMap<V> {
    pub entries: Vec<TaskEntry<V>>,
}

/// The value of the first entry for `task`, if any.
pub open spec fn lookup<V>(entries: Seq<TaskEntry<V>>, task: (Seq<char>, Seq<char>)) -> Option<V>
    decreases entries.len(),
{
    if entries.len() == 0 {
        None
    } else if entries[0].task_id@ == task {
        Some(entries[0].value)
    } else {
        lookup(entries.drop_first(), task)
    }
}

/// Whether an entry is for another task than `task`.
pub open spec fn other_than<V>(task: (Seq<char>, Seq<char>)) -> spec_fn(TaskEntry<V>) -> bool {
    |e: TaskEntry<V>| e.task_id@ != task
}

/// Whether `entries` hold the key `task`.
pub open spec fn has_key<V>(entries: Seq<TaskEntry<V>>, task: (Seq<char>, Seq<char>)) -> bool {
    exists|i: int| 0 <= i < entries.len() && (#[trigger] entries[i]).task_id@ == task
}

proof fn lemma_lookup_none<V>(entries: Seq<TaskEntry<V>>, task: (Seq<char>, Seq<char>))
    ensures
        lookup(entries, task) is None <==> !has_key(entries, task),
    decreases entries.len(),
{
    if entries.len() > 0 {
        let t = entries.drop_first();
        lemma_lookup_none(t, task);
        if has_key(t, task) {
            let i = choose|i: int| 0 <= i < t.len() && (#[trigger] t[i]).task_id@ == task;
            assert(entries[i + 1] == t[i]);
        }
        if has_key(entries, task) && entries[0].task_id@ != task {
            let i = choose|i: int| 0 <= i < entries.len() && (#[trigger] entries[i]).task_id@ == task;
            assert(t[i - 1] == entries[i]);
        }
    }
}

proof fn lemma_lookup_prefix<V>(entries: Seq<TaskEntry<V>>, task: (Seq<char>, Seq<char>), i: int)
    requires
        0 <= i <= entries.len(),
        forall|j: int| 0 <= j < i ==> (#[trigger] entries[j]).task_id@ != task,
    ensures
        lookup(entries, task) == lookup(entries.subrange(i, entries.len() as int), task),
    decreases i,
{
    if i > 0 {
        let t = entries.drop_first();
        assert forall|j: int| 0 <= j < i - 1 implies (#[trigger] t[j]).task_id@ != task by {
            assert(t[j] == entries[j + 1]);
        }
        lemma_lookup_prefix(t, task, i - 1);
        assert(t.subrange(i - 1, t.len() as int) =~= entries.subrange(i, entries.len() as int));
    } else {
        assert(entries.subrange(0, entries.len() as int) =~= entries);
    }
}

proof fn lemma_lookup_update<V>(entries: Seq<TaskEntry<V>>, i: int, e: TaskEntry<V>, other: (Seq<char>, Seq<char>))
    requires
        0 <= i < entries.len(),
        entries[i].task_id@ == e.task_id@,
        forall|j: int| 0 <= j < i ==> (#[trigger] entries[j]).task_id@ != e.task_id@,
    ensures
        lookup(entries.update(i, e), e.task_id@) == Some(e.value),
        other != e.task_id@ ==> lookup(entries.update(i, e), other) == lookup(entries, other),
    decreases i,
{
    let t = entries.drop_first();
    if i > 0 {
        assert(entries.update(i, e).drop_first() =~= t.update(i - 1, e));
        assert forall|j: int| 0 <= j < i - 1 implies (#[trigger] t[j]).task_id@ != e.task_id@ by {
            assert(t[j] == entries[j + 1]);
        }
        lemma_lookup_update(t, i - 1, e, other);
    } else {
        assert(entries.update(i, e).drop_first() =~= t);
    }
}

proof fn lemma_lookup_push<V>(entries: Seq<TaskEntry<V>>, e: TaskEntry<V>, other: (Seq<char>, Seq<char>))
    requires
        lookup(entries, e.task_id@) is None,
    ensures
        lookup(entries.push(e), e.task_id@) == Some(e.value),
        other != e.task_id@ ==> lookup(entries.push(e), other) == lookup(entries, other),
    decreases entries.len(),
{
    if entries.len() > 0 {
        assert(entries.push(e)[0] == entries[0]);
        assert(entries.push(e).drop_first() =~= entries.drop_first().push(e));
        lemma_lookup_push(entries.drop_first(), e, other);
    } else {
        assert(entries.push(e).drop_first() =~= Seq::<TaskEntry<V>>::empty());
    }
}

proof fn lemma_lookup_filter<V>(entries: Seq<TaskEntry<V>>, task: (Seq<char>, Seq<char>), other: (Seq<char>, Seq<char>))
    ensures
        lookup(entries.filter(other_than::<V>(task)), task) is None,
        other != task ==> lookup(entries.filter(other_than::<V>(task)), other) == lookup(entries, other),
    decreases entries.len(),
{
    let keep = other_than::<V>(task);
    if entries.len() == 0 {
        reveal(Seq::filter);
    } else {
        let d = entries.drop_last();
        lemma_lookup_filter(d, task, other);
        assert(entries =~= d.push(entries.last()));
        d.lemma_filter_push(entries.last(), keep);
        let fd = d.filter(keep);
        if keep(entries.last()) {
            lemma_lookup_append_last(fd, entries.last(), task);
            lemma_lookup_append_last(fd, entries.last(), other);
        }
        lemma_lookup_append_last(d, entries.last(), other);
    }
}

proof fn lemma_lookup_append_last<V>(entries: Seq<TaskEntry<V>>, e: TaskEntry<V>, task: (Seq<char>, Seq<char>))
    ensures
        lookup(entries.push(e), task) == if lookup(entries, task) is Some {
            lookup(entries, task)
        } else if e.task_id@ == task {
            Some(e.value)
        } else {
            None
        },
    decreases entries.len(),
{
    if entries.len() > 0 {
        assert(entries.push(e)[0] == entries[0]);
        assert(entries.push(e).drop_first() =~= entries.drop_first().push(e));
        lemma_lookup_append_last(entries.drop_first(), e, task);
    } else {
        assert(entries.push(e).drop_first() =~= Seq::<TaskEntry<V>>::empty());
    }
}

/// The key of an entry: its task.
pub open spec fn entry_key<V>() -> spec_fn(TaskEntry<V>) -> (Seq<char>, Seq<char>) {
    |e: TaskEntry<V>| e.task_id@
}

impl<V> TaskMap<V> {
    /// No two entries are for the same task.
    pub open spec fn wf(&self) -> bool {
        distinct_by(self.entries@, entry_key::<V>())
    }

    pub open spec fn spec_get(&self, task: (Seq<char>, Seq<char>)) -> Option<V> {
        lookup(self.entries@, task)
    }

    /// An empty map.
    pub fn new() -> (r: Self)
        ensures
            r.entries@.len() == 0,
            r.wf(),
            forall|t: (Seq<char>, Seq<char>)| r.spec_get(t) is None,
    {
        TaskMap { entries: Vec::new() }
    }

    fn find(&self, task_id: &AppTaskId) -> (r: Option<usize>)
        ensures
            match r {
                Some(i) => i < self.entries@.len() && self.entries@[i as int].task_id@ == task_id@ && forall|j: int|
                    0 <= j < i ==> (#[trigger] self.entries@[j]).task_id@ != task_id@,
                None => forall|j: int| 0 <= j < self.entries@.len() ==> (#[trigger] self.entries@[j]).task_id@
                    != task_id@,
            },
    {
        let n = self.entries.len();
        let mut i: usize = 0;
        while i < n
            invariant
                n == self.entries@.len(),
                i <= n,
                forall|j: int| 0 <= j < i ==> (#[trigger] self.entries@[j]).task_id@ != task_id@,
            decreases n - i,
        {
            if self.entries[i].task_id.same_as(task_id) {
                return Some(i);
            }
            i = i + 1;
        }
        None
    }

    /// The value for `task_id`, if any.
    pub fn get(&self, task_id: &AppTaskId) -> (r: Option<&V>)
        ensures
            match r {
                Some(v) => self.spec_get(task_id@) == Some(*v),
                None => self.spec_get(task_id@) is None,
            },
    {
        match self.find(task_id) {
            Some(i) => {
                proof {
                    lemma_lookup_prefix(self.entries@, task_id@, i as int);
                }
                Some(&self.entries[i].value)
            },
            None => {
                proof {
                    lemma_lookup_none(self.entries@, task_id@);
                }
                None
            },
        }
    }

    /// Sets the value for `task_id`; the other keys keep their values.
    pub fn insert(&mut self, task_id: AppTaskId, value: V)
        ensures
            final(self).spec_get(task_id@) == Some(value),
            forall|t: (Seq<char>, Seq<char>)| t != task_id@ ==> #[trigger] final(self).spec_get(t) == old(self).spec_get(t),
            old(self).wf() ==> final(self).wf(),
    {
        let ghost e = TaskEntry { task_id, value };
        match self.find(&task_id) {
            Some(i) => {
                let ghost before = self.entries@;
                self.entries.remove(i);
                self.entries.insert(i, TaskEntry { task_id, value });
                proof {
                    assert(self.entries@ =~= before.update(i as int, e));
                    assert forall|t: (Seq<char>, Seq<char>)| t != e.task_id@ implies #[trigger] lookup(self.entries@, t)
                        == lookup(before, t) by {
                        lemma_lookup_update(before, i as int, e, t);
                    }
                    lemma_lookup_update(before, i as int, e, e.task_id@);
                    if distinct_by(before, entry_key::<V>()) {
                        assert forall|j: int| 0 <= j < before.len() implies entry_key::<V>()(#[trigger] before[j])
                            == entry_key::<V>()(self.entries@[j]) by {}
                        lemma_distinct_by_same_keys(before, entry_key::<V>(), self.entries@, entry_key::<V>());
                    }
                }
            },
            None => {
                let ghost before = self.entries@;
                proof {
                    lemma_lookup_none(before, e.task_id@);
                }
                self.entries.push(TaskEntry { task_id, value });
                proof {
                    assert forall|t: (Seq<char>, Seq<char>)| t != e.task_id@ implies #[trigger] lookup(self.entries@, t)
                        == lookup(before, t) by {
                        lemma_lookup_push(before, e, t);
                    }
                    lemma_lookup_push(before, e, e.task_id@);
                    let out = self.entries@;
                    assert forall|a: int, b: int| 0 <= a < out.len() && 0 <= b < out.len() && a != b && distinct_by(
                        before,
                        entry_key::<V>(),
                    ) implies entry_key::<V>()(#[trigger] out[a]) != entry_key::<V>()(#[trigger] out[b]) by {
                        if a < before.len() && b < before.len() {
                            assert(out[a] == before[a] && out[b] == before[b]);
                        } else if a < before.len() {
                            assert(out[a] == before[a]);
                        } else {
                            assert(out[b] == before[b]);
                        }
                    }
                }
            },
        }
    }

    /// Removes the value for `task_id` and returns it; the other keys keep their values.
    pub fn remove(&mut self, task_id: &AppTaskId) -> (r: Option<V>)
        ensures
            r == old(self).spec_get(task_id@),
            final(self).spec_get(task_id@) is None,
            forall|t: (Seq<char>, Seq<char>)| t != task_id@ ==> #[trigger] final(self).spec_get(t) == old(self).spec_get(t),
            old(self).wf() ==> final(self).wf(),
    {
        let ghost keep = other_than::<V>(task_id@);
        let ghost input = self.entries@;
        let mut old_entries: Vec<TaskEntry<V>> = Vec::new();
        std::mem::swap(&mut old_entries, &mut self.entries);
        let mut removed: Option<V> = None;
        for e in it: old_entries.into_iter()
            invariant
                it.seq() == input,
                keep == other_than::<V>(task_id@),
                self.entries@ == input.take(it.index() as int).filter(keep),
                removed == lookup(input.take(it.index() as int), task_id@),
        {
            let ghost k = it.index() as int;
            proof {
                assert(input.take(k + 1) =~= input.take(k).push(e));
                input.take(k).lemma_filter_push(e, keep);
                lemma_lookup_append_last(input.take(k), e, task_id@);
            }
            if e.task_id.same_as(task_id) {
                if removed.is_none() {
                    removed = Some(e.value);
                }
            } else {
                self.entries.push(e);
            }
        }
        proof {
            assert(input.take(input.len() as int) =~= input);
            assert forall|t: (Seq<char>, Seq<char>)| t != task_id@ implies #[trigger] lookup(self.entries@, t) == lookup(
                input,
                t,
            ) by {
                lemma_lookup_filter(input, task_id@, t);
            }
            lemma_lookup_filter(input, task_id@, task_id@);
            if distinct_by(input, entry_key::<V>()) {
                lemma_filter_distinct_by(input, keep, entry_key::<V>());
            }
        }
        removed
    }
}

} // verus!
