//! Identifiers shared by the domain server, the engines and the media service.
use vstd::prelude::*;

verus! {

/// Identifies a play request of a task.
#[derive(Clone, Copy, PartialEq, Eq, Structural, Debug)]
pub struct PlayId(pub u64);

/// Identifies a render request of a task.
#[derive(Clone, Copy, PartialEq, Eq, Structural, Debug)]
pub struct RenderId(pub u64);

/// A task of an application: the application's id and the task's id within it.
#[derive(Debug)]
pub struct AppTaskId {
    pub app_id: String,
    pub task_id: String,
}

impl View for AppTaskId {
    type V = (Seq<char>, Seq<char>);

    open spec fn view(&self) -> (Seq<char>, Seq<char>) {
        (self.app_id@, self.task_id@)
    }
}

impl AppTaskId {
    pub fn new(app_id: String, task_id: String) -> (r: Self)
        ensures
            r@ == (app_id@, task_id@),
    {
        AppTaskId { app_id, task_id }
    }

    /// Whether both ids name the same task.
    pub fn same_as(&self, other: &AppTaskId) -> (r: bool)
        ensures
            r == (self@ == other@),
    {
        self.app_id == other.app_id && self.task_id == other.task_id
    }

    /// A copy of the id.
    pub fn duplicate(&self) -> (r: Self)
        ensures
            r == *self,
    {
        AppTaskId { app_id: self.app_id.clone(), task_id: self.task_id.clone() }
    }
}

/// Copies a string.
pub fn copy_string(s: &String) -> (r: String)
    ensures
        r == *s,
{
    s.clone()
}


/// Index of the first element of `s` that satisfies `p`, or -1 when there is none.
pub open spec fn first_index<A>(s: Seq<A>, p: spec_fn(A) -> bool) -> int
    decreases s.len(),
{
    if s.len() == 0 {
        -1
    } else if p(s[0]) {
        0
    } else {
        let r = first_index(s.drop_first(), p);
        if r < 0 {
            -1
        } else {
            r + 1
        }
    }
}

/// When no element before `i` satisfies `p` and `s[i]` does (or `i` is the length),
/// the first index is `i` (or -1).
pub proof fn lemma_first_index<A>(s: Seq<A>, p: spec_fn(A) -> bool, i: int)
    requires
        0 <= i <= s.len(),
        forall|j: int| 0 <= j < i ==> !p(#[trigger] s[j]),
        i == s.len() || p(s[i]),
    ensures
        first_index(s, p) == if i == s.len() { -1 } else { i },
    decreases i,
{
    if i > 0 {
        let t = s.drop_first();
        assert forall|j: int| 0 <= j < i - 1 implies !p(#[trigger] t[j]) by {
            assert(t[j] == s[j + 1]);
        }
        lemma_first_index(t, p, i - 1);
    }
}

/// The first index, when there is one, points at an element that satisfies `p`, and no
/// element before it does.
pub proof fn lemma_first_index_spec<A>(s: Seq<A>, p: spec_fn(A) -> bool)
    ensures
        -1 <= first_index(s, p) < s.len(),
        first_index(s, p) >= 0 ==> p(s[first_index(s, p)]),
        forall|j: int| 0 <= j < s.len() && (first_index(s, p) < 0 || j < first_index(s, p)) ==> !p(
            #[trigger] s[j],
        ),
    decreases s.len(),
{
    if s.len() > 0 {
        let t = s.drop_first();
        lemma_first_index_spec(t, p);
        assert forall|j: int| 0 <= j < s.len() && (first_index(s, p) < 0 || j < first_index(s, p))
            implies !p(#[trigger] s[j]) by {
            if j > 0 {
                assert(s[j] == t[j - 1]);
            }
        }
    }
}

/// Filtering by a predicate that every element meets keeps the sequence.
pub proof fn lemma_filter_keeps_all<A>(s: Seq<A>, pred: spec_fn(A) -> bool)
    requires
        forall|i: int| 0 <= i < s.len() ==> pred(#[trigger] s[i]),
    ensures
        s.filter(pred) == s,
    decreases s.len(),
{
    if s.len() > 0 {
        let init = s.drop_last();
        lemma_filter_keeps_all(init, pred);
        assert(init.push(s.last()) =~= s);
        init.lemma_filter_push(s.last(), pred);
    } else {
        reveal(Seq::filter);
    }
}


/// Whether no two elements of `s` have the same key.
pub open spec fn distinct_by<A, K>(s: Seq<A>, key: spec_fn(A) -> K) -> bool {
    forall|i: int, j: int|
        #![trigger s[i], s[j]]
        0 <= i < s.len() && 0 <= j < s.len() && i != j ==> key(s[i]) != key(s[j])
}

/// Two sequences of the same length whose elements have the same keys, position by position,
/// are both without repeated keys or both with.
pub proof fn lemma_distinct_by_same_keys<A, B, K>(a: Seq<A>, ka: spec_fn(A) -> K, b: Seq<B>, kb: spec_fn(B) -> K)
    requires
        distinct_by(a, ka),
        a.len() == b.len(),
        forall|i: int| 0 <= i < a.len() ==> ka(#[trigger] a[i]) == kb(b[i]),
    ensures
        distinct_by(b, kb),
{
    assert forall|i: int, j: int| 0 <= i < b.len() && 0 <= j < b.len() && i != j implies kb(#[trigger] b[i]) != kb(
        #[trigger] b[j],
    ) by {
        assert(ka(a[i]) == kb(b[i]));
        assert(ka(a[j]) == kb(b[j]));
    }
}

/// Filtering keeps a sequence free of repeated keys, and keeps only its elements.
pub proof fn lemma_filter_distinct_by<A, K>(s: Seq<A>, pred: spec_fn(A) -> bool, key: spec_fn(A) -> K)
    requires
        distinct_by(s, key),
    ensures
        distinct_by(s.filter(pred), key),
        forall|i: int| 0 <= i < s.filter(pred).len() ==> s.contains(#[trigger] s.filter(pred)[i]),
    decreases s.len(),
{
    if s.len() == 0 {
        reveal(Seq::filter);
    } else {
        let init = s.drop_last();
        let x = s.last();
        assert(init.push(x) =~= s);
        assert forall|i: int, j: int| 0 <= i < init.len() && 0 <= j < init.len() && i != j implies key(
            #[trigger] init[i],
        ) != key(#[trigger] init[j]) by {
            assert(init[i] == s[i] && init[j] == s[j]);
        }
        lemma_filter_distinct_by(init, pred, key);
        init.lemma_filter_push(x, pred);
        let f = init.filter(pred);
        assert forall|i: int| 0 <= i < f.len() implies key(#[trigger] f[i]) != key(x) by {
            assert(init.contains(f[i]));
            let k = choose|k: int| 0 <= k < init.len() && init[k] == f[i];
            assert(s[k] == init[k]);
            assert(s[s.len() - 1] == x);
        }
        if pred(x) {
            let g = f.push(x);
            assert forall|i: int, j: int| 0 <= i < g.len() && 0 <= j < g.len() && i != j implies key(
                #[trigger] g[i],
            ) != key(#[trigger] g[j]) by {
                if i < f.len() && j < f.len() {
                    assert(g[i] == f[i] && g[j] == f[j]);
                } else if i < f.len() {
                    assert(g[i] == f[i]);
                } else {
                    assert(g[j] == f[j]);
                }
            }
            assert forall|i: int| 0 <= i < g.len() implies s.contains(#[trigger] g[i]) by {
                if i < f.len() {
                    assert(g[i] == f[i]);
                    assert(init.contains(f[i]));
                    let k = choose|k: int| 0 <= k < init.len() && init[k] == f[i];
                    assert(s[k] == init[k]);
                } else {
                    assert(s[s.len() - 1] == x);
                }
            }
        } else {
            assert forall|i: int| 0 <= i < f.len() implies s.contains(#[trigger] f[i]) by {
                assert(init.contains(f[i]));
                let k = choose|k: int| 0 <= k < init.len() && init[k] == f[i];
                assert(s[k] == init[k]);
            }
        }
    }
}

} // verus!
