//! Text helpers for REAPER state chunks.
use vstd::prelude::*;

verus! {

broadcast use vstd::seq_lib::group_seq_properties;

/// Unicode `White_Space`: the characters that `str::trim` removes.
pub open spec fn is_whitespace(c: char) -> bool {
    let u = c as u32;
    ||| 0x9 <= u <= 0xd
    ||| u == 0x20
    ||| u == 0x85
    ||| u == 0xa0
    ||| u == 0x1680
    ||| 0x2000 <= u <= 0x200a
    ||| u == 0x2028
    ||| u == 0x2029
    ||| u == 0x202f
    ||| u == 0x205f
    ||| u == 0x3000
}

/// `s` without its leading whitespace.
pub open spec fn trim_start(s: Seq<char>) -> Seq<char>
    decreases s.len(),
{
    if s.len() > 0 && is_whitespace(s[0]) {
        trim_start(s.drop_first())
    } else {
        s
    }
}

/// `s` without its trailing whitespace.
pub open spec fn trim_end(s: Seq<char>) -> Seq<char>
    decreases s.len(),
{
    if s.len() > 0 && is_whitespace(s.last()) {
        trim_end(s.drop_last())
    } else {
        s
    }
}

/// `s` without leading and trailing whitespace.
pub open spec fn trim(s: Seq<char>) -> Seq<char> {
    trim_end(trim_start(s))
}

/// The pieces of `s` between line feeds (there is always at least one piece).
pub open spec fn split_lines(s: Seq<char>) -> Seq<Seq<char>>
    decreases s.len(),
{
    if s.len() == 0 {
        seq![Seq::<char>::empty()]
    } else if s.last() == '\n' {
        split_lines(s.drop_last()).push(Seq::<char>::empty())
    } else {
        let r = split_lines(s.drop_last());
        r.update(r.len() - 1, r.last().push(s.last()))
    }
}

/// The trimmed lines of a chunk.
pub open spec fn trimmed_lines(s: Seq<char>) -> Seq<Seq<char>> {
    split_lines(s).map_values(|l: Seq<char>| trim(l))
}

/// A line that opens a block.
pub open spec fn opens_block(line: Seq<char>) -> bool {
    line.len() > 0 && line[0] == '<'
}

/// A line that closes a block (and does not open one).
pub open spec fn closes_block(line: Seq<char>) -> bool {
    !opens_block(line) && line.len() > 0 && line.last() == '>'
}

/// Nesting depth after the given lines.
pub open spec fn depth_after(lines: Seq<Seq<char>>) -> int
    decreases lines.len(),
{
    if lines.len() == 0 {
        0
    } else {
        let d = depth_after(lines.drop_last());
        if opens_block(lines.last()) {
            d + 1
        } else if closes_block(lines.last()) {
            d - 1
        } else {
            d
        }
    }
}

/// No line closes a block that was never opened.
pub open spec fn well_nested(lines: Seq<Seq<char>>) -> bool
    decreases lines.len(),
{
    lines.len() == 0 || (well_nested(lines.drop_last()) && (closes_block(lines.last())
        ==> depth_after(lines.drop_last()) >= 1))
}

/// `n` tab characters.
pub open spec fn tabs(n: int) -> Seq<char> {
    Seq::new(n as nat, |i: int| '\t')
}

/// The indentation of the last of `lines`.
pub open spec fn indent_of_last(lines: Seq<Seq<char>>) -> int {
    let d = depth_after(lines.drop_last());
    if closes_block(lines.last()) {
        d - 1
    } else {
        d
    }
}

/// The non-empty lines, each indented by its nesting depth.
pub open spec fn indented(lines: Seq<Seq<char>>) -> Seq<Seq<char>>
    decreases lines.len(),
{
    if lines.len() == 0 {
        Seq::empty()
    } else if lines.last().len() == 0 {
        indented(lines.drop_last())
    } else {
        indented(lines.drop_last()).push(tabs(indent_of_last(lines)) + lines.last())
    }
}

/// The lines joined by line feeds.
pub open spec fn join_lines(lines: Seq<Seq<char>>) -> Seq<char>
    decreases lines.len(),
{
    if lines.len() == 0 {
        Seq::empty()
    } else if lines.len() == 1 {
        lines[0]
    } else {
        join_lines(lines.drop_last()) + seq!['\n'] + lines.last()
    }
}

/// What `beautify_chunk` makes of a chunk.
pub open spec fn beautified(chunk: Seq<char>) -> Seq<char> {
    join_lines(indented(trimmed_lines(chunk)))
}

proof fn lemma_trim_start_at(s: Seq<char>, a: int)
    requires
        0 <= a <= s.len(),
        forall|i: int| 0 <= i < a ==> is_whitespace(#[trigger] s[i]),
        a == s.len() || !is_whitespace(s[a]),
    ensures
        trim_start(s) == s.subrange(a, s.len() as int),
    decreases a,
{
    if a == 0 {
        assert(s.subrange(0, s.len() as int) =~= s);
    } else {
        let t = s.drop_first();
        assert forall|i: int| 0 <= i < a - 1 implies is_whitespace(#[trigger] t[i]) by {
            assert(t[i] == s[i + 1]);
        }
        lemma_trim_start_at(t, a - 1);
        assert(t.subrange(a - 1, t.len() as int) =~= s.subrange(a, s.len() as int));
    }
}

proof fn lemma_trim_end_at(s: Seq<char>, b: int)
    requires
        0 <= b <= s.len(),
        forall|i: int| b <= i < s.len() ==> is_whitespace(#[trigger] s[i]),
        b == 0 || !is_whitespace(s[b - 1]),
    ensures
        trim_end(s) == s.subrange(0, b),
    decreases s.len() - b,
{
    if b == s.len() {
        assert(s.subrange(0, b) =~= s);
    } else {
        let t = s.drop_last();
        assert forall|i: int| b <= i < t.len() implies is_whitespace(#[trigger] t[i]) by {
            assert(t[i] == s[i]);
        }
        lemma_trim_end_at(t, b);
        assert(t.subrange(0, b) =~= s.subrange(0, b));
    }
}

proof fn lemma_split_prefix(s: Seq<char>, k: int)
    requires
        0 <= k <= s.len(),
    ensures
        split_lines(s.take(k)).len() <= split_lines(s).len(),
        forall|j: int| 0 <= j < split_lines(s.take(k)).len() - 1
            ==> #[trigger] split_lines(s.take(k))[j] == split_lines(s)[j],
    decreases s.len() - k,
{
    if k == s.len() {
        assert(s.take(k) =~= s);
    } else {
        lemma_split_prefix(s, k + 1);
        assert(s.take(k + 1).drop_last() =~= s.take(k));
        assert(s.take(k + 1).last() == s[k]);
        lemma_split_nonempty(s.take(k));
        let a = split_lines(s.take(k));
        let a1 = split_lines(s.take(k + 1));
        assert forall|j: int| 0 <= j < a.len() - 1 implies #[trigger] a[j] == split_lines(s)[j] by {
            if s[k] == '\n' {
                assert(a1 == a.push(Seq::<char>::empty()));
                assert(a1[j] == a[j]);
            } else {
                assert(a1 == a.update(a.len() - 1, a.last().push(s[k])));
                assert(a1[j] == a[j]);
            }
        }
    }
}

proof fn lemma_split_nonempty(s: Seq<char>)
    ensures
        split_lines(s).len() >= 1,
    decreases s.len(),
{
    if s.len() > 0 {
        lemma_split_nonempty(s.drop_last());
    }
}

proof fn lemma_map_trim_last(b: Seq<Seq<char>>)
    requires
        b.len() >= 1,
    ensures
        b.map_values(|l: Seq<char>| trim(l)) =~= b.drop_last().map_values(|l: Seq<char>| trim(l)).push(
            trim(b.last()),
        ),
{
}

proof fn lemma_well_nested_take(lines: Seq<Seq<char>>, n: int)
    requires
        well_nested(lines),
        0 <= n <= lines.len(),
    ensures
        well_nested(lines.take(n)),
    decreases lines.len() - n,
{
    if n == lines.len() {
        assert(lines.take(n) =~= lines);
    } else {
        lemma_well_nested_take(lines, n + 1);
        assert(lines.take(n + 1).drop_last() =~= lines.take(n));
    }
}

proof fn lemma_depth_bounded(lines: Seq<Seq<char>>)
    requires
        well_nested(lines),
    ensures
        0 <= depth_after(lines) <= lines.len(),
    decreases lines.len(),
{
    if lines.len() > 0 {
        lemma_depth_bounded(lines.drop_last());
    }
}

/// Whether a line holds no line feed.
pub open spec fn no_newline(l: Seq<char>) -> bool {
    forall|i: int| 0 <= i < l.len() ==> #[trigger] l[i] != '\n'
}

proof fn lemma_split_single(l: Seq<char>)
    requires
        no_newline(l),
    ensures
        split_lines(l) == seq![l],
    decreases l.len(),
{
    if l.len() > 0 {
        let init = l.drop_last();
        assert(no_newline(init)) by {
            assert forall|i: int| 0 <= i < init.len() implies #[trigger] init[i] != '\n' by {
                assert(init[i] == l[i]);
            }
        }
        lemma_split_single(init);
        assert(l.last() == l[l.len() - 1]);
        assert(init.push(l.last()) =~= l);
    }
}

proof fn lemma_split_append_line(x: Seq<char>, y: Seq<char>)
    requires
        no_newline(y),
    ensures
        split_lines(x + seq!['\n'] + y) == split_lines(x).push(y),
    decreases y.len(),
{
    if y.len() == 0 {
        assert(x + seq!['\n'] + y =~= x.push('\n'));
        assert(x.push('\n').drop_last() =~= x);
    } else {
        let y0 = y.drop_last();
        assert(no_newline(y0)) by {
            assert forall|i: int| 0 <= i < y0.len() implies #[trigger] y0[i] != '\n' by {
                assert(y0[i] == y[i]);
            }
        }
        lemma_split_append_line(x, y0);
        let z = x + seq!['\n'] + y;
        assert(z.drop_last() =~= x + seq!['\n'] + y0);
        assert(z.last() == y[y.len() - 1]);
        assert(y0.push(y.last()) =~= y);
        assert(split_lines(x).push(y0).update(split_lines(x).len() as int, y) =~= split_lines(x).push(y));
    }
}

proof fn lemma_split_join(ls: Seq<Seq<char>>)
    requires
        ls.len() >= 1,
        forall|k: int| 0 <= k < ls.len() ==> no_newline(#[trigger] ls[k]),
    ensures
        split_lines(join_lines(ls)) == ls,
    decreases ls.len(),
{
    if ls.len() == 1 {
        lemma_split_single(ls[0]);
        assert(seq![ls[0]] =~= ls);
    } else {
        let init = ls.drop_last();
        assert forall|k: int| 0 <= k < init.len() implies no_newline(#[trigger] init[k]) by {
            assert(init[k] == ls[k]);
        }
        lemma_split_join(init);
        assert(no_newline(ls[ls.len() - 1]));
        lemma_split_append_line(join_lines(init), ls.last());
        assert(init.push(ls.last()) =~= ls);
    }
}

proof fn lemma_split_lines_no_newline(s: Seq<char>)
    ensures
        forall|k: int| 0 <= k < split_lines(s).len() ==> no_newline(#[trigger] split_lines(s)[k]),
    decreases s.len(),
{
    if s.len() > 0 {
        let init = s.drop_last();
        lemma_split_lines_no_newline(init);
        lemma_split_nonempty(init);
        let r = split_lines(init);
        if s.last() != '\n' {
            let last = r.last().push(s.last());
            assert(no_newline(r[r.len() - 1]));
            assert(no_newline(last)) by {
                assert forall|i: int| 0 <= i < last.len() implies #[trigger] last[i] != '\n' by {
                    if i < r.last().len() {
                        assert(last[i] == r.last()[i]);
                    }
                }
            }
            assert forall|k: int| 0 <= k < split_lines(s).len() implies no_newline(#[trigger] split_lines(s)[k]) by {
                if k < r.len() - 1 {
                    assert(split_lines(s)[k] == r[k]);
                }
            }
        } else {
            assert forall|k: int| 0 <= k < split_lines(s).len() implies no_newline(#[trigger] split_lines(s)[k]) by {
                if k < r.len() {
                    assert(split_lines(s)[k] == r[k]);
                } else {
                    assert(split_lines(s)[k] == Seq::<char>::empty());
                }
            }
        }
    }
}

proof fn lemma_trim_start_shape(s: Seq<char>)
    ensures
        trim_start(s).len() <= s.len(),
        trim_start(s) == s.subrange(s.len() - trim_start(s).len(), s.len() as int),
        trim_start(s).len() > 0 ==> !is_whitespace(trim_start(s)[0]),
    decreases s.len(),
{
    if s.len() > 0 && is_whitespace(s[0]) {
        let t = s.drop_first();
        lemma_trim_start_shape(t);
        assert(t.subrange(t.len() - trim_start(t).len(), t.len() as int) =~= s.subrange(
            s.len() - trim_start(t).len(),
            s.len() as int,
        ));
    } else {
        assert(s.subrange(0, s.len() as int) =~= s);
    }
}

proof fn lemma_trim_end_shape(s: Seq<char>)
    ensures
        trim_end(s).len() <= s.len(),
        trim_end(s) == s.subrange(0, trim_end(s).len() as int),
        trim_end(s).len() > 0 ==> !is_whitespace(trim_end(s).last()),
    decreases s.len(),
{
    if s.len() > 0 && is_whitespace(s.last()) {
        let t = s.drop_last();
        lemma_trim_end_shape(t);
        assert(t.subrange(0, trim_end(t).len() as int) =~= s.subrange(0, trim_end(t).len() as int));
    } else {
        assert(s.subrange(0, s.len() as int) =~= s);
    }
}

/// A trimmed line that is not empty starts and ends with a character that is not
/// whitespace, and holds no line feed when the line it came from held none.
proof fn lemma_trim_shape(x: Seq<char>)
    ensures
        trim(x).len() > 0 ==> !is_whitespace(trim(x)[0]) && !is_whitespace(trim(x).last()),
        no_newline(x) ==> no_newline(trim(x)),
{
    let t = trim_start(x);
    lemma_trim_start_shape(x);
    lemma_trim_end_shape(t);
    let r = trim_end(t);
    if r.len() > 0 {
        assert(r[0] == t[0]);
    }
    if no_newline(x) {
        assert forall|i: int| 0 <= i < r.len() implies #[trigger] r[i] != '\n' by {
            assert(r[i] == t[i]);
            assert(t[i] == x[x.len() - t.len() + i]);
        }
    }
}

/// Trimming a line that starts with tabs and continues with an already trimmed line gives
/// that line.
proof fn lemma_trim_tabs(d: int, l: Seq<char>)
    requires
        l.len() > 0,
        !is_whitespace(l[0]),
        !is_whitespace(l.last()),
    ensures
        trim(tabs(d) + l) == l,
{
    let t = tabs(d);
    let s = t + l;
    assert forall|i: int| 0 <= i < t.len() implies is_whitespace(#[trigger] s[i]) by {
        assert(s[i] == '\t');
    }
    assert(s[t.len() as int] == l[0]);
    lemma_trim_start_at(s, t.len() as int);
    assert(s.subrange(t.len() as int, s.len() as int) =~= l);
    lemma_trim_end_at(l, l.len() as int);
    assert(l.subrange(0, l.len() as int) =~= l);
}

/// Whether a line is not empty.
pub open spec fn nonempty_line() -> spec_fn(Seq<char>) -> bool {
    |l: Seq<char>| l.len() > 0
}

proof fn lemma_depth_ignores_empty(lines: Seq<Seq<char>>)
    ensures
        depth_after(lines) == depth_after(lines.filter(nonempty_line())),
    decreases lines.len(),
{
    if lines.len() == 0 {
        reveal(Seq::filter);
    } else {
        let init = lines.drop_last();
        lemma_depth_ignores_empty(init);
        assert(init.push(lines.last()) =~= lines);
        init.lemma_filter_push(lines.last(), nonempty_line());
        let f = init.filter(nonempty_line());
        if lines.last().len() > 0 {
            assert(f.push(lines.last()).drop_last() =~= f);
        }
    }
}

proof fn lemma_indented_ignores_empty(lines: Seq<Seq<char>>)
    ensures
        indented(lines) == indented(lines.filter(nonempty_line())),
    decreases lines.len(),
{
    if lines.len() == 0 {
        reveal(Seq::filter);
    } else {
        let init = lines.drop_last();
        lemma_indented_ignores_empty(init);
        lemma_depth_ignores_empty(init);
        assert(init.push(lines.last()) =~= lines);
        init.lemma_filter_push(lines.last(), nonempty_line());
        let f = init.filter(nonempty_line());
        if lines.last().len() > 0 {
            assert(f.push(lines.last()).drop_last() =~= f);
            assert(f.push(lines.last()).last() == lines.last());
        }
    }
}

proof fn lemma_indented_shape(ls: Seq<Seq<char>>)
    requires
        forall|k: int| 0 <= k < ls.len() ==> (#[trigger] ls[k]).len() > 0,
    ensures
        indented(ls).len() == ls.len(),
        forall|k: int| 0 <= k < ls.len() ==> #[trigger] indented(ls)[k] == tabs(indent_of_last(ls.take(k + 1))) + ls[k],
    decreases ls.len(),
{
    if ls.len() > 0 {
        let init = ls.drop_last();
        assert forall|k: int| 0 <= k < init.len() implies (#[trigger] init[k]).len() > 0 by {
            assert(init[k] == ls[k]);
        }
        lemma_indented_shape(init);
        assert(ls.last().len() > 0);
        assert forall|k: int| 0 <= k < ls.len() implies #[trigger] indented(ls)[k] == tabs(indent_of_last(ls.take(k + 1)))
            + ls[k] by {
            if k < init.len() {
                assert(ls.take(k + 1) =~= init.take(k + 1));
                assert(indented(ls)[k] == indented(init)[k]);
            } else {
                assert(ls.take(k + 1) =~= ls);
            }
        }
    }
}

proof fn lemma_well_nested_ignores_empty(lines: Seq<Seq<char>>)
    requires
        well_nested(lines),
    ensures
        well_nested(lines.filter(nonempty_line())),
    decreases lines.len(),
{
    if lines.len() == 0 {
        reveal(Seq::filter);
    } else {
        let init = lines.drop_last();
        lemma_well_nested_ignores_empty(init);
        lemma_depth_ignores_empty(init);
        assert(init.push(lines.last()) =~= lines);
        init.lemma_filter_push(lines.last(), nonempty_line());
        let f = init.filter(nonempty_line());
        if lines.last().len() > 0 {
            assert(f.push(lines.last()).drop_last() =~= f);
            assert(f.push(lines.last()).last() == lines.last());
        }
    }
}

/// Beautifying a beautified chunk changes nothing: the lines come out trimmed, and their
/// indentation depends only on the non-empty trimmed lines, which a second pass finds
/// unchanged. A well-nested chunk beautifies to a well-nested chunk.
pub proof fn lemma_beautify_idempotent(chunk: Seq<char>)
    ensures
        beautified(beautified(chunk)) == beautified(chunk),
        well_nested(trimmed_lines(chunk)) ==> well_nested(trimmed_lines(beautified(chunk))),
{
    let t = trimmed_lines(chunk);
    let n = t.filter(nonempty_line());
    lemma_indented_ignores_empty(t);
    let ind = indented(n);
    let out = join_lines(ind);
    assert(beautified(chunk) == out);
    assert forall|k: int| 0 <= k < n.len() implies (#[trigger] n[k]).len() > 0 by {
        t.lemma_filter_pred(nonempty_line(), k);
    }
    lemma_indented_shape(n);
    if n.len() == 0 {
        assert(ind.len() == 0);
        assert(out =~= Seq::<char>::empty());
        assert(trim_start(Seq::<char>::empty()) =~= Seq::<char>::empty());
        assert(trim(Seq::<char>::empty()) =~= Seq::<char>::empty());
        assert(trimmed_lines(out) =~= seq![Seq::<char>::empty()]);
        assert(seq![Seq::<char>::empty()].drop_last() =~= Seq::<Seq<char>>::empty());
        assert(indented(trimmed_lines(out)) =~= Seq::<Seq<char>>::empty());
        let one = trimmed_lines(out);
        assert(one.drop_last() =~= Seq::<Seq<char>>::empty());
        assert(well_nested(one.drop_last()));
        assert(!closes_block(one.last()));
    } else {
        lemma_split_lines_no_newline(chunk);
        assert forall|k: int| 0 <= k < n.len() implies {
            &&& no_newline(#[trigger] n[k])
            &&& !is_whitespace(n[k][0])
            &&& !is_whitespace(n[k].last())
        } by {
            assert(n.contains(n[k]));
            t.lemma_filter_contains_rev(nonempty_line(), n[k]);
            let j = choose|j: int| 0 <= j < t.len() && t[j] == n[k];
            let line = split_lines(chunk)[j];
            assert(t[j] == trim(line));
            assert(no_newline(line));
            lemma_trim_shape(line);
        }
        assert forall|k: int| 0 <= k < ind.len() implies no_newline(#[trigger] ind[k]) by {
            let d = indent_of_last(n.take(k + 1));
            assert(ind[k] == tabs(d) + n[k]);
            assert forall|i: int| 0 <= i < ind[k].len() implies #[trigger] ind[k][i] != '\n' by {
                if i < tabs(d).len() {
                    assert(ind[k][i] == '\t');
                } else {
                    assert(ind[k][i] == n[k][i - tabs(d).len()]);
                }
            }
        }
        lemma_split_join(ind);
        assert forall|k: int| 0 <= k < ind.len() implies trim(#[trigger] ind[k]) == n[k] by {
            lemma_trim_tabs(indent_of_last(n.take(k + 1)), n[k]);
        }
        assert(trimmed_lines(out) =~= n);
        if well_nested(t) {
            lemma_well_nested_ignores_empty(t);
        }
    }
}

/// `String::push` of std: the string afterwards is the old one followed by `c`.
#[verifier::external_body]
fn push_char(s: &mut String, c: char)
    ensures
        final(s)@ == old(s)@.push(c),
{
    s.push(c);
}

fn is_whitespace_char(c: char) -> (r: bool)
    ensures
        r == is_whitespace(c),
{
    let u = c as u32;
    (0x9 <= u && u <= 0xd) || u == 0x20 || u == 0x85 || u == 0xa0 || u == 0x1680 || (0x2000 <= u && u
        <= 0x200a) || u == 0x2028 || u == 0x2029 || u == 0x202f || u == 0x205f || u == 0x3000
}

fn trim_chars(v: &Vec<char>) -> (r: Vec<char>)
    ensures
        r@ == trim(v@),
{
    let n = v.len();
    let mut a: usize = 0;
    while a < n && is_whitespace_char(v[a])
        invariant
            n == v@.len(),
            a <= n,
            forall|i: int| 0 <= i < a ==> is_whitespace(#[trigger] v@[i]),
        decreases n - a,
    {
        a = a + 1;
    }
    proof {
        lemma_trim_start_at(v@, a as int);
    }
    let ghost t = v@.subrange(a as int, n as int);
    let mut b: usize = n;
    while b > a && is_whitespace_char(v[b - 1])
        invariant
            n == v@.len(),
            a <= b <= n,
            t == v@.subrange(a as int, n as int),
            forall|i: int| b <= i < n ==> is_whitespace(#[trigger] v@[i]),
        decreases b - a,
    {
        b = b - 1;
    }
    proof {
        assert forall|i: int| b - a <= i < t.len() implies is_whitespace(#[trigger] t[i]) by {
            assert(t[i] == v@[i + a]);
        }
        if b > a {
            assert(t[b - a - 1] == v@[b - 1]);
        }
        lemma_trim_end_at(t, b - a);
    }
    let mut r: Vec<char> = Vec::new();
    let mut i: usize = a;
    while i < b
        invariant
            a <= i <= b <= n,
            n == v@.len(),
            r@ == v@.subrange(a as int, i as int),
        decreases b - i,
    {
        r.push(v[i]);
        i = i + 1;
    }
    assert(r@ =~= t.subrange(0, b - a));
    r
}

/// Appends `line`, indented by `indent` tabs, to the output, after a line feed unless
/// the output holds no line yet.
fn emit_line(out: &mut String, first: bool, indent: usize, line: &Vec<char>)
    ensures
        final(out)@ == old(out)@ + (if first { Seq::empty() } else { seq!['\n'] }) + tabs(indent as int) + line@,
{
    let ghost start = out@;
    if !first {
        push_char(out, '\n');
    }
    let ghost base = out@;
    let mut k: usize = 0;
    while k < indent
        invariant
            k <= indent,
            out@ == base + tabs(k as int),
        decreases indent - k,
    {
        push_char(out, '\t');
        assert(tabs(k as int + 1) =~= tabs(k as int).push('\t'));
        k = k + 1;
    }
    let ghost mid = out@;
    let mut j: usize = 0;
    while j < line.len()
        invariant
            j <= line@.len(),
            out@ == mid + line@.take(j as int),
        decreases line@.len() - j,
    {
        push_char(out, line[j]);
        assert(line@.take(j as int + 1) =~= line@.take(j as int).push(line@[j as int]));
        j = j + 1;
    }
    assert(line@.take(line@.len() as int) =~= line@);
    assert(final(out)@ =~= start + (if first { Seq::empty() } else { seq!['\n'] }) + tabs(indent as int) + line@)
        by {
        assert(mid =~= start + (if first { Seq::empty() } else { seq!['\n'] }) + tabs(indent as int));
    }
}

/// Processes one raw line: trims it, indents it by the current depth and updates the depth.
fn process_line(
    out: &mut String,
    tab: &mut usize,
    emitted: &mut bool,
    raw: &Vec<char>,
    Ghost(lines): Ghost<Seq<Seq<char>>>,
)
    requires
        *old(tab) == depth_after(lines),
        *old(emitted) == (indented(lines).len() > 0),
        old(out)@ == join_lines(indented(lines)),
        well_nested(lines.push(trim(raw@))),
        *old(tab) < usize::MAX,
    ensures
        *final(tab) == depth_after(lines.push(trim(raw@))),
        *final(emitted) == (indented(lines.push(trim(raw@))).len() > 0),
        final(out)@ == join_lines(indented(lines.push(trim(raw@)))),
{
    let line = trim_chars(raw);
    let ghost all = lines.push(line@);
    assert(all.drop_last() =~= lines);
    assert(all.last() == line@);
    let this_tab: usize;
    if line.len() > 0 && line[0] == '<' {
        this_tab = *tab;
        *tab = *tab + 1;
    } else if line.len() > 0 && line[line.len() - 1] == '>' {
        *tab = *tab - 1;
        this_tab = *tab;
    } else {
        this_tab = *tab;
    }
    if line.len() > 0 {
        let first = !*emitted;
        emit_line(out, first, this_tab, &line);
        *emitted = true;
        proof {
            let x = tabs(indent_of_last(all)) + line@;
            assert(indented(all) == indented(lines).push(x));
            assert(indented(all).drop_last() =~= indented(lines));
            if first {
                assert(indented(lines).len() == 0);
                assert(join_lines(indented(all)) == x);
            }
        }
    }
}

/// Re-indents a REAPER state chunk: every line is trimmed, empty lines are dropped, and
/// each line is prefixed by one tab per enclosing block (a line starting with `<` opens a
/// block, a line ending with `>` closes one); the lines are joined by line feeds.
pub fn beautify_chunk(chunk: String) -> (r: String)
    requires
        well_nested(trimmed_lines(chunk@)),
    ensures
        r@ == beautified(chunk@),
        well_nested(trimmed_lines(r@)),
        beautified(r@) == r@,
{
    broadcast use vstd::string::axiom_spec_iter;

    let _chars: usize = chunk.as_str().unicode_len();
    proof {
        lemma_beautify_idempotent(chunk@);
    }

    let ghost s = chunk@;
    let ghost all = trimmed_lines(s);
    let mut out = String::new();
    let mut tab: usize = 0;
    let mut emitted = false;
    let mut cur: Vec<char> = Vec::new();
    let ghost mut lines: Seq<Seq<char>> = Seq::empty();
    proof {
        lemma_split_nonempty(s);
        assert(s.take(0) =~= Seq::<char>::empty());
        assert(split_lines(s.take(0)).drop_last().map_values(|l: Seq<char>| trim(l)) =~= lines);
        assert(lines =~= all.take(0));
    }
    for c in it: chunk.chars()
        invariant
            it.seq() == s,
            s == chunk@,
            s.len() <= usize::MAX,
            all == trimmed_lines(s),
            well_nested(all),
            split_lines(s.take(it.index() as int)).drop_last().map_values(|l: Seq<char>| trim(l)) == lines,
            split_lines(s.take(it.index() as int)).last() == cur@,
            lines.len() + cur@.len() <= it.index(),
            lines.len() < all.len(),
            lines == all.take(lines.len() as int),
            tab == depth_after(lines),
            emitted == (indented(lines).len() > 0),
            out@ == join_lines(indented(lines)),
    {
        let ghost k = it.index() as int;
        proof {
            assert(s.take(k + 1).drop_last() =~= s.take(k));
            assert(s.take(k + 1).last() == c);
            lemma_split_nonempty(s.take(k));
            lemma_split_nonempty(s.take(k + 1));
            lemma_split_nonempty(s);
            lemma_well_nested_take(all, lines.len() as int);
        }
        if c == '\n' {
            proof {
                lemma_split_prefix(s, k + 1);
                let a = split_lines(s.take(k + 1));
                let b = split_lines(s.take(k));
                let n = lines.len() + 1;
                assert(a == b.push(Seq::<char>::empty()));
                assert(a.drop_last() =~= b);
                lemma_map_trim_last(b);
                assert(a.drop_last().map_values(|l: Seq<char>| trim(l)) =~= lines.push(trim(cur@)));
                assert(a.len() == n + 1);
                assert(lines.push(trim(cur@)) =~= all.take(n as int)) by {
                    assert forall|j: int| 0 <= j < n implies #[trigger] lines.push(trim(cur@))[j] == all[j] by {
                        assert(a[j] == split_lines(s)[j]);
                        assert(a.drop_last()[j] == a[j]);
                    }
                }
                lemma_well_nested_take(all, n as int);
                lemma_depth_bounded(lines);
            }
            process_line(&mut out, &mut tab, &mut emitted, &cur, Ghost(lines));
            proof {
                lines = lines.push(trim(cur@));
            }
            cur = Vec::new();
        } else {
            cur.push(c);
            proof {
                let a = split_lines(s.take(k));
                assert(split_lines(s.take(k + 1)).drop_last() =~= a.drop_last());
            }
        }
    }
    proof {
        let k = s.len() as int;
        assert(s.take(k) =~= s);
        let a = split_lines(s);
        lemma_split_nonempty(s);
        lemma_map_trim_last(a);
        assert(lines.push(trim(cur@)) =~= all);
        lemma_depth_bounded(lines);
        lemma_well_nested_take(all, lines.len() as int);
        if opens_block(trim(cur@)) {
            assert(cur@.len() > 0);
        }
    }
    if cur.len() > 0 {
        process_line(&mut out, &mut tab, &mut emitted, &cur, Ghost(lines));
    } else {
        proof {
            assert(trim(cur@) =~= Seq::<char>::empty());
            assert(indented(lines.push(trim(cur@))) == indented(lines));
        }
    }
    proof {
        assert(lines.push(trim(cur@)) =~= all);
    }
    out
}

/// Wraps a string in double quotes.
pub fn quote(s: String) -> (r: String)
    ensures
        r@ == seq!['"'] + s@ + seq!['"'],
{
    let mut out = String::new();
    push_char(&mut out, '"');
    for c in it: s.chars()
        invariant
            it.seq() == s@,
            out@ == seq!['"'] + s@.take(it.index() as int),
    {
        assert(s@.take(it.index() as int + 1) =~= s@.take(it.index() as int).push(c));
        push_char(&mut out, c);
    }
    assert(s@.take(s@.len() as int) =~= s@);
    push_char(&mut out, '"');
    out
}

} // verus!
