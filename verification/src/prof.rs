//! A scope-based wall-time profiler that renders flame graphs.
//!
//! Sums of stage timers answer "how much"; only a call-chain profile answers
//! "where".
//!
//! * Scopes nest through a stack per thread, so a scope's identity is its
//!   full path from the thread's root: the folded-stack form that flame-graph
//!   tooling consumes.
//! * Aggregation is by path: every layer folds into one bar.
//! * [`folded`] emits self time per path (inclusive minus direct children), so
//!   the graph does not double-count.
//!
//! Clock readings are nanoseconds and come from the caller.

pub mod counts;

use crate::order::{
    comes_before, text_lt, text_lt_irreflexive, text_lt_total, text_lt_transitive,
};
use crate::prof::counts::{fits, samples_total};
use crate::text::{chars_of, decimal, push_decimal, same_text};
use vstd::prelude::*;
use vstd::utf8::{decode_utf8, valid_utf8};

verus! {

/// What one path has cost.
#[derive(Debug)]
pub struct Total {
    pub path: String,
    /// Inclusive nanoseconds.
    pub ns: u64,
    /// Times entered.
    pub count: u64,
}

/// What one path has cost, by content.
pub struct Cost {
    pub path: Seq<char>,
    pub ns: u64,
    pub count: u64,
}

/// The collected profile: what every path has cost, in the order of the
/// paths.
#[derive(Debug)]
pub struct Profiler {
    pub on: bool,
    pub totals: Vec<Total>,
}

/// The scopes a thread is in, outermost first.
#[derive(Debug)]
pub struct ScopeStack {
    pub names: Vec<String>,
}

/// The content of a list of totals.
pub open spec fn costs(v: Seq<Total>) -> Seq<Cost> {
    v.map(|i: int, t: Total| Cost { path: t.path@, ns: t.ns, count: t.count })
}

/// Are the paths in order, each once?
pub open spec fn by_path(v: Seq<Cost>) -> bool {
    forall|i: int, j: int|
        0 <= i < j < v.len() ==> text_lt((#[trigger] v[i]).path, (#[trigger] v[j]).path)
}

/// The first place from `from` on whose path does not come before `path`.
pub open spec fn slot(v: Seq<Cost>, path: Seq<char>, from: int) -> int
    decreases v.len() - from,
{
    if from < 0 || from >= v.len() {
        from
    } else if text_lt(v[from].path, path) {
        slot(v, path, from + 1)
    } else {
        from
    }
}

/// Has the path been recorded?
pub open spec fn recorded(v: Seq<Cost>, path: Seq<char>) -> bool {
    slot(v, path, 0) < v.len() && v[slot(v, path, 0)].path == path
}

/// The profile with one more span of `ns` under `path`.
pub open spec fn with_span(v: Seq<Cost>, path: Seq<char>, ns: u64) -> Seq<Cost> {
    let i = slot(v, path, 0);
    if recorded(v, path) {
        v.update(
            i,
            Cost { path, ns: (v[i].ns + ns) as u64, count: (v[i].count + 1) as u64 },
        )
    } else {
        v.insert(i, Cost { path, ns, count: 1 })
    }
}

/// Does one more span of `ns` under `path` fit the counters?
pub open spec fn span_fits(v: Seq<Cost>, path: Seq<char>, ns: u64) -> bool {
    recorded(v, path) ==> v[slot(v, path, 0)].ns + ns <= u64::MAX && v[slot(v, path, 0)].count
        < u64::MAX
}

/// The slot of a path: everything before it comes before the path.
proof fn lemma_slot(v: Seq<Cost>, path: Seq<char>, from: int)
    requires
        0 <= from <= v.len(),
    ensures
        from <= slot(v, path, from) <= v.len(),
        forall|i: int| from <= i < slot(v, path, from) ==> text_lt((#[trigger] v[i]).path, path),
        slot(v, path, from) < v.len() ==> !text_lt(v[slot(v, path, from)].path, path),
    decreases v.len() - from,
{
    if from < v.len() && text_lt(v[from].path, path) {
        lemma_slot(v, path, from + 1);
    }
}

/// Recording keeps the paths in order.
proof fn lemma_with_span_ordered(v: Seq<Cost>, path: Seq<char>, ns: u64)
    requires
        by_path(v),
    ensures
        by_path(with_span(v, path, ns)),
{
    let k = slot(v, path, 0);
    lemma_slot(v, path, 0);
    let w = with_span(v, path, ns);
    if !recorded(v, path) {
        if k < v.len() {
            text_lt_total(v[k].path, path);
        }
        assert forall|i: int, j: int| 0 <= i < j < w.len() implies text_lt(
            (#[trigger] w[i]).path,
            (#[trigger] w[j]).path,
        ) by {
            let a = if i < k {
                i
            } else {
                i - 1
            };
            let b = if j < k {
                j
            } else {
                j - 1
            };
            if i == k {
                assert(w[j] == v[b]);
                if b > k {
                    text_lt_transitive(path, v[k].path, v[b].path);
                }
            } else if j == k {
                assert(w[i] == v[i]);
            } else {
                assert(w[i] == v[a] && w[j] == v[b]);
            }
        }
    }
}

impl Profiler {
    /// The paths are in order.
    pub open spec fn wf(self) -> bool {
        by_path(costs(self.totals@))
    }

    /// An empty profile, not collecting.
    pub fn new() -> (r: Self)
        ensures
            r.wf(),
            !r.on,
            r.totals@.len() == 0,
    {
        Profiler { on: false, totals: Vec::new() }
    }

    /// Add a span to a path.
    fn add_span(&mut self, path: &str, ns: u64)
        requires
            old(self).wf(),
            span_fits(costs(old(self).totals@), path@, ns),
        ensures
            final(self).wf(),
            final(self).on == old(self).on,
            costs(final(self).totals@) == with_span(costs(old(self).totals@), path@, ns),
    {
        let ghost before = costs(self.totals@);
        proof {
            lemma_with_span_ordered(before, path@, ns);
            lemma_slot(before, path@, 0);
        }
        let mut i: usize = 0;
        while i < self.totals.len() && comes_before(self.totals[i].path.as_str(), path)
            invariant
                before == costs(self.totals@),
                i <= self.totals@.len(),
                slot(before, path@, 0) == slot(before, path@, i as int),
            decreases self.totals@.len() - i,
        {
            assert(before[i as int].path == self.totals@[i as int].path@);
            i += 1;
        }
        proof {
            if i < self.totals@.len() {
                assert(before[i as int].path == self.totals@[i as int].path@);
            }
            assert(slot(before, path@, 0) == i);
        }
        if i < self.totals.len() && same_text(self.totals[i].path.as_str(), path) {
            let fresh: Total = Total {
                path: path.to_owned(),
                ns: self.totals[i].ns + ns,
                count: self.totals[i].count + 1,
            };
            self.totals.set(i, fresh);
            assert(costs(self.totals@) =~= with_span(before, path@, ns));
        } else {
            self.totals.insert(i, Total { path: path.to_owned(), ns, count: 1 });
            assert(costs(self.totals@) =~= with_span(before, path@, ns));
        }
    }
}

/// Turn collection on or off.
pub fn set_enabled(prof: &mut Profiler, on: bool)
    ensures
        final(prof).on == on,
        final(prof).totals@ == old(prof).totals@,
{
    prof.on = on;
}

/// Is the profiler collecting?
pub fn enabled(prof: &Profiler) -> (r: bool)
    ensures
        r == prof.on,
{
    prof.on
}

/// Drop everything collected so far, so one flame graph describes one
/// generation.
pub fn reset(prof: &mut Profiler)
    ensures
        final(prof).on == old(prof).on,
        final(prof).totals@.len() == 0,
        final(prof).wf(),
{
    prof.totals = Vec::new();
}

/// Record a span directly under `path` (semicolon-separated), without any
/// stack.
pub fn record(prof: &mut Profiler, path: &str, elapsed_ns: u64)
    requires
        old(prof).wf(),
        span_fits(costs(old(prof).totals@), path@, elapsed_ns),
    ensures
        final(prof).wf(),
        final(prof).on == old(prof).on,
        costs(final(prof).totals@) == (if old(prof).on {
            with_span(costs(old(prof).totals@), path@, elapsed_ns)
        } else {
            costs(old(prof).totals@)
        }),
{
    if !enabled(prof) {
        return;
    }
    prof.add_span(path, elapsed_ns);
}

/// A scope being measured. `start` is `None` when profiling was off at
/// creation: then the scope was never pushed and must not be popped. A guard
/// trusts its own record, not the flag.
#[derive(Debug)]
pub struct ScopeGuard {
    pub start: Option<u64>,
}

/// Enter a scope at `now`.
pub fn scope(prof: &Profiler, stack: &mut ScopeStack, name: &str, now: u64) -> (r: ScopeGuard)
    ensures
        prof.on ==> r.start == Some(now) && names(*final(stack)) == names(*old(stack)).push(name@),
        !prof.on ==> r.start is None && names(*final(stack)) == names(*old(stack)),
{
    if !enabled(prof) {
        return ScopeGuard { start: None };
    }
    let ghost before = names(*stack);
    stack.names.push(name.to_owned());
    assert(names(*stack) =~= before.push(name@));
    ScopeGuard { start: Some(now) }
}

/// The names of the scopes.
pub open spec fn names(stack: ScopeStack) -> Seq<Seq<char>> {
    stack.names@.map(|i: int, s: String| s@)
}

/// The names joined by semicolons.
pub open spec fn joined(v: Seq<Seq<char>>) -> Seq<char>
    decreases v.len(),
{
    if v.len() == 0 {
        Seq::empty()
    } else if v.len() == 1 {
        v[0]
    } else {
        joined(v.drop_last()) + ";"@ + v.last()
    }
}

impl ScopeStack {
    /// No scopes.
    pub fn new() -> (r: Self)
        ensures
            names(r).len() == 0,
    {
        ScopeStack { names: Vec::new() }
    }

    /// The path of the innermost scope.
    pub fn path(&self) -> (r: String)
        ensures
            r@ == joined(names(*self)),
    {
        let mut out: String = String::new();
        let mut i: usize = 0;
        proof {
            assert(names(*self).take(0) =~= Seq::<Seq<char>>::empty());
            assert(out@ =~= Seq::<char>::empty());
        }
        while i < self.names.len()
            invariant
                i <= self.names@.len(),
                out@ == joined(names(*self).take(i as int)),
            decreases self.names@.len() - i,
        {
            let ghost next = names(*self).take(i + 1);
            let ghost held = out@;
            if i > 0 {
                out.append(";");
            }
            out.append(self.names[i].as_str());
            proof {
                assert(next.drop_last() =~= names(*self).take(i as int));
                assert(next.last() == self.names@[i as int]@);
                if i == 0 {
                    assert(held =~= Seq::<char>::empty());
                    assert(out@ =~= self.names@[0]@);
                    assert(next[0] == self.names@[0]@);
                }
            }
            i += 1;
        }
        assert(names(*self).take(i as int) =~= names(*self));
        out
    }
}

impl ScopeGuard {
    /// Nanoseconds the scope lasted.
    pub open spec fn lasted(self, now: u64) -> u64 {
        match self.start {
            Some(s) => if now >= s {
                (now - s) as u64
            } else {
                0
            },
            None => 0,
        }
    }

    /// Leave the scope at `now`: record it under the path of the stack, and
    /// pop it. A guard created while profiling was off touches nothing.
    pub fn end(self, prof: &mut Profiler, stack: &mut ScopeStack, now: u64)
        requires
            old(prof).wf(),
            self.start is Some ==> span_fits(
                costs(old(prof).totals@),
                joined(names(*old(stack))),
                self.lasted(now),
            ),
        ensures
            final(prof).wf(),
            final(prof).on == old(prof).on,
            self.start is None ==> costs(final(prof).totals@) == costs(old(prof).totals@) && names(
                *final(stack),
            ) == names(*old(stack)),
            self.start is Some ==> {
                &&& costs(final(prof).totals@) == with_span(
                    costs(old(prof).totals@),
                    joined(names(*old(stack))),
                    self.lasted(now),
                )
                &&& names(*final(stack)) == (if names(*old(stack)).len() == 0 {
                    names(*old(stack))
                } else {
                    names(*old(stack)).drop_last()
                })
            },
    {
        let start: u64 = match self.start {
            Some(s) => s,
            None => {
                return;
            },
        };
        let lasted: u64 = if now >= start {
            now - start
        } else {
            0
        };
        let path: String = stack.path();
        let ghost before = names(*stack);
        match stack.names.pop() {
            Some(_) => {},
            None => {},
        }
        proof {
            if before.len() > 0 {
                assert(names(*stack) =~= before.drop_last());
            } else {
                assert(names(*stack) =~= before);
            }
        }
        prof.add_span(path.as_str(), lasted);
    }
}

/// The last semicolon among the first `n` characters.
pub open spec fn last_cut(s: Seq<char>, n: nat) -> Option<int>
    decreases n,
{
    if n == 0 {
        None
    } else if s[n - 1] == ';' {
        Some(n - 1)
    } else {
        last_cut(s, (n - 1) as nat)
    }
}

/// The path one segment up; `None` for a root.
pub open spec fn parent(path: Seq<char>) -> Option<Seq<char>> {
    match last_cut(path, path.len()) {
        Some(cut) => Some(path.take(cut)),
        None => None,
    }
}

/// Is `child` exactly one segment below `path`?
fn is_child(child: &Vec<char>, path: &Vec<char>) -> (r: bool)
    ensures
        r == (parent(child@) == Some(path@)),
{
    let mut n: usize = child.len();
    while n > 0
        invariant
            n <= child@.len(),
            last_cut(child@, child@.len()) == last_cut(child@, n as nat),
        decreases n,
    {
        if child[n - 1] == ';' {
            let cut: usize = n - 1;
            assert(parent(child@) == Some(child@.take(cut as int)));
            if path.len() != cut {
                assert(child@.take(cut as int).len() != path@.len());
                return false;
            }
            let mut i: usize = 0;
            while i < cut
                invariant
                    i <= cut,
                    cut == path@.len(),
                    cut < child@.len(),
                    parent(child@) == Some(child@.take(cut as int)),
                    forall|k: int| 0 <= k < i ==> child@[k] == path@[k],
                decreases cut - i,
            {
                if child[i] != path[i] {
                    assert(child@.take(cut as int)[i as int] != path@[i as int]);
                    return false;
                }
                i += 1;
            }
            assert(child@.take(cut as int) =~= path@);
            return true;
        }
        n -= 1;
    }
    false
}

/// The inclusive time of the direct children of `path` among the first `n`.
pub open spec fn children_ns(v: Seq<Cost>, path: Seq<char>, n: nat) -> nat
    decreases n,
{
    if n == 0 {
        0
    } else {
        children_ns(v, path, (n - 1) as nat) + (if parent(v[n - 1].path) == Some(path) {
            v[n - 1].ns as nat
        } else {
            0
        })
    }
}

/// Self time of entry `i` in nanoseconds: inclusive minus direct children,
/// never negative.
pub open spec fn self_ns(v: Seq<Cost>, i: int) -> nat {
    let kids = children_ns(v, v[i].path, v.len());
    if v[i].ns >= kids {
        (v[i].ns - kids) as nat
    } else {
        0
    }
}

/// The line of entry `i`: its path, how often it was entered and its self
/// time in microseconds.
pub open spec fn line_of(v: Seq<Cost>, i: int) -> Seq<char> {
    v[i].path + " ("@ + decimal(v[i].count as nat) + "x) "@ + decimal(self_ns(v, i) / 1000)
        + "\n"@
}

/// The lines of the first `n` entries.
pub open spec fn lines_upto(v: Seq<Cost>, n: nat) -> Seq<char>
    decreases n,
{
    if n == 0 {
        Seq::empty()
    } else {
        lines_upto(v, (n - 1) as nat) + line_of(v, n - 1)
    }
}

/// Children's time fits 128 bits.
proof fn lemma_children_bound(v: Seq<Cost>, path: Seq<char>, n: nat)
    ensures
        children_ns(v, path, n) <= n * u64::MAX,
    decreases n,
{
    if n > 0 {
        lemma_children_bound(v, path, (n - 1) as nat);
        assert(n * u64::MAX == (n - 1) * u64::MAX + u64::MAX) by (nonlinear_arith);
    } else {
        assert(0 * u64::MAX == 0) by (nonlinear_arith);
    }
}

/// The collected profile in folded-stack form: one line per path, with self
/// time in microseconds.
pub fn folded(prof: &Profiler) -> (r: String)
    ensures
        r@ == lines_upto(costs(prof.totals@), prof.totals@.len()),
{
    let ghost v = costs(prof.totals@);
    let n: usize = prof.totals.len();
    let mut paths: Vec<Vec<char>> = Vec::new();
    let mut k: usize = 0;
    while k < n
        invariant
            n == prof.totals@.len(),
            k <= n,
            v == costs(prof.totals@),
            paths@.len() == k,
            forall|q: int| 0 <= q < k ==> (#[trigger] paths@[q])@ == v[q].path,
        decreases n - k,
    {
        paths.push(chars_of(prof.totals[k].path.as_str()));
        k += 1;
    }
    let mut out: String = String::new();
    let mut i: usize = 0;
    assert(out@ =~= Seq::<char>::empty());
    while i < n
        invariant
            n == prof.totals@.len(),
            i <= n,
            v == costs(prof.totals@),
            paths@.len() == n,
            forall|q: int| 0 <= q < n ==> (#[trigger] paths@[q])@ == v[q].path,
            out@ == lines_upto(v, i as nat),
        decreases n - i,
    {
        let mut kids: u128 = 0;
        let mut j: usize = 0;
        while j < n
            invariant
                n == prof.totals@.len(),
                i < n,
                j <= n,
                v == costs(prof.totals@),
                paths@.len() == n,
                forall|q: int| 0 <= q < n ==> (#[trigger] paths@[q])@ == v[q].path,
                kids == children_ns(v, v[i as int].path, j as nat),
            decreases n - j,
        {
            proof {
                lemma_children_bound(v, v[i as int].path, j as nat);
                assert(j * u64::MAX + u64::MAX <= u128::MAX) by (nonlinear_arith)
                    requires
                        j < usize::MAX,
                ;
                assert(paths@[i as int]@ == v[i as int].path);
                assert(paths@[j as int]@ == v[j as int].path);
            }
            if is_child(&paths[j], &paths[i]) {
                kids = kids + prof.totals[j].ns as u128;
            }
            j += 1;
        }
        let ns: u64 = prof.totals[i].ns;
        let own: u64 = if ns as u128 >= kids {
            (ns as u128 - kids) as u64
        } else {
            0
        };
        let us: u64 = own / 1000;
        let ghost held = out@;
        out.append(prof.totals[i].path.as_str());
        out.append(" (");
        push_decimal(&mut out, prof.totals[i].count);
        out.append("x) ");
        push_decimal(&mut out, us);
        out.append("\n");
        assert(out@ =~= held + line_of(v, i as int));
        i += 1;
    }
    out
}

/// Inclusive time of the roots among the first `n`.
pub open spec fn roots_ns(v: Seq<Cost>, n: nat) -> nat
    decreases n,
{
    if n == 0 {
        0
    } else {
        roots_ns(v, (n - 1) as nat) + (if parent(v[n - 1].path) is None {
            v[n - 1].ns as nat
        } else {
            0
        })
    }
}

/// Self time of the first `n` entries.
pub open spec fn self_total(v: Seq<Cost>, n: nat) -> nat
    decreases n,
{
    if n == 0 {
        0
    } else {
        self_total(v, (n - 1) as nat) + self_ns(v, n - 1)
    }
}

/// Inclusive time of the first `n` entries.
spec fn inclusive_total(v: Seq<Cost>, n: nat) -> nat
    decreases n,
{
    if n == 0 {
        0
    } else {
        inclusive_total(v, (n - 1) as nat) + v[n - 1].ns as nat
    }
}

/// What the first `m` entries are to the first `n` as children.
spec fn kids_total(v: Seq<Cost>, n: nat, m: nat) -> nat
    decreases n,
{
    if n == 0 {
        0
    } else {
        kids_total(v, (n - 1) as nat, m) + children_ns(v, v[n - 1].path, m)
    }
}

/// Entry `m` is a child of exactly one of the first `n` entries when its
/// parent is among them, and of none otherwise.
proof fn lemma_one_parent(v: Seq<Cost>, n: nat, m: nat)
    requires
        n <= v.len(),
        m < v.len(),
        by_path(v),
    ensures
        kids_total(v, n, m + 1) == kids_total(v, n, m) + (if exists|i: int|
            0 <= i < n && parent(v[m as int].path) == Some((#[trigger] v[i]).path) {
            v[m as int].ns as nat
        } else {
            0
        }),
    decreases n,
{
    if n > 0 {
        let k = (n - 1) as nat;
        lemma_one_parent(v, k, m);
        if parent(v[m as int].path) == Some(v[n - 1].path) {
            assert forall|i: int| 0 <= i < k implies parent(v[m as int].path) != Some(
                (#[trigger] v[i]).path,
            ) by {
                if v[i].path == v[n - 1].path {
                    text_lt_irreflexive(v[i].path);
                }
            }
            assert(0 <= n - 1 < n && parent(v[m as int].path) == Some(v[n - 1].path));
        } else {
            assert((exists|i: int|
                0 <= i < k && parent(v[m as int].path) == Some((#[trigger] v[i]).path)) == (
            exists|i: int|
                0 <= i < n && parent(v[m as int].path) == Some((#[trigger] v[i]).path)));
        }
    }
}

/// Everything but the roots is somebody's child, once.
proof fn lemma_kids_total(v: Seq<Cost>, m: nat)
    requires
        m <= v.len(),
        by_path(v),
        forall|j: int|
            0 <= j < v.len() ==> parent((#[trigger] v[j]).path) is None || exists|i: int|
                0 <= i < v.len() && parent(v[j].path) == Some((#[trigger] v[i]).path),
    ensures
        kids_total(v, v.len(), m) + roots_ns(v, m) == inclusive_total(v, m),
    decreases m,
{
    if m == 0 {
        lemma_no_kids(v, v.len());
    } else {
        let k = (m - 1) as nat;
        lemma_kids_total(v, k);
        lemma_one_parent(v, v.len(), k);
        assert(parent(v[k as int].path) is None || exists|i: int|
            0 <= i < v.len() && parent(v[k as int].path) == Some((#[trigger] v[i]).path));
    }
}

/// No entries are no children.
proof fn lemma_no_kids(v: Seq<Cost>, n: nat)
    ensures
        kids_total(v, n, 0) == 0,
    decreases n,
{
    if n > 0 {
        lemma_no_kids(v, (n - 1) as nat);
    }
}

/// Self times and children add up to inclusive times.
proof fn lemma_self_total(v: Seq<Cost>, n: nat)
    requires
        n <= v.len(),
        forall|i: int|
            0 <= i < v.len() ==> children_ns(v, (#[trigger] v[i]).path, v.len()) <= v[i].ns,
    ensures
        self_total(v, n) + kids_total(v, n, v.len()) == inclusive_total(v, n),
    decreases n,
{
    if n > 0 {
        lemma_self_total(v, (n - 1) as nat);
        assert(children_ns(v, v[n - 1].path, v.len()) <= v[n - 1].ns);
    }
}

/// The graph does not double-count: when every path's parent was recorded
/// and no parent measured less than its children, the self times of all paths
/// add up to the inclusive times of the roots.
pub proof fn self_times_add_up_to_the_roots(v: Seq<Cost>)
    requires
        by_path(v),
        forall|j: int|
            0 <= j < v.len() ==> parent((#[trigger] v[j]).path) is None || exists|i: int|
                0 <= i < v.len() && parent(v[j].path) == Some((#[trigger] v[i]).path),
        forall|i: int|
            0 <= i < v.len() ==> children_ns(v, (#[trigger] v[i]).path, v.len()) <= v[i].ns,
    ensures
        self_total(v, v.len()) == roots_ns(v, v.len()),
{
    lemma_self_total(v, v.len());
    lemma_kids_total(v, v.len());
}

/// Is `svg` a drawing of the folded profile under this title, with counts of
/// this name? Colours are picked at random, so one profile has many drawings.
pub uninterp spec fn is_drawing(
    title: Seq<char>,
    count_name: Seq<char>,
    folded: Seq<char>,
    svg: Seq<u8>,
) -> bool;

/// Calls `inferno::flamegraph::from_lines` with default options but for the
/// title and the name of the counts.
///
/// Claimed: what comes back is a drawing of these lines under this title; it
/// is UTF-8; the one refusal is "No stack counts found", which comes exactly
/// when the lines count no samples. Left out are profiles whose samples do
/// not add up within 64 bits or whose changes cannot be shaded: there the
/// call overflows. What a drawing looks like is left unsaid: its colours are
/// picked at random.
#[verifier::external_body]
fn render(title: &str, count_name: &str, folded: &str) -> (r: Result<Vec<u8>, String>)
    requires
        fits(folded@),
    ensures
        match r {
            Ok(svg) => is_drawing(title@, count_name@, folded@, svg@) && valid_utf8(svg@)
                && samples_total(folded@) > 0,
            Err(e) => e@ == "No stack counts found"@ && samples_total(folded@) == 0,
        },
{
    let mut opts = inferno::flamegraph::Options::default();
    opts.title = title.to_string();
    opts.count_name = count_name.to_string();
    let mut svg: Vec<u8> = Vec::new();
    match inferno::flamegraph::from_lines(&mut opts, folded.lines(), &mut svg) {
        Ok(()) => Ok(svg),
        Err(e) => Err(e.to_string()),
    }
}

/// Calls `String::from_utf8`. Claimed: it succeeds exactly on UTF-8, with the
/// text the bytes encode. How the refusal is worded is left unsaid.
#[verifier::external_body]
fn text_of(bytes: Vec<u8>) -> (r: Result<String, String>)
    ensures
        match r {
            Ok(s) => valid_utf8(bytes@) && s@ == decode_utf8(bytes@),
            Err(_) => !valid_utf8(bytes@),
        },
{
    String::from_utf8(bytes).map_err(|e| e.to_string())
}

/// Render folded lines to a self-contained flame-graph SVG.
pub fn flamegraph_svg(folded: &str) -> (r: Result<String, String>)
    requires
        fits(folded@),
    ensures
        match r {
            Ok(s) => {
                &&& samples_total(folded@) > 0
                &&& exists|svg: Seq<u8>|
                    #[trigger] is_drawing("mummu decode"@, "µs"@, folded@, svg) && s@
                        == decode_utf8(svg)
            },
            Err(e) => {
                &&& samples_total(folded@) == 0
                &&& e@ == "flamegraph render: "@ + "No stack counts found"@
            },
        },
{
    match render("mummu decode", "µs", folded) {
        Err(e) => {
            let mut m: String = String::new();
            m.append("flamegraph render: ");
            m.append(e.as_str());
            Err(m)
        },
        Ok(svg) => match text_of(svg) {
            Ok(s) => Ok(s),
            Err(e) => {
                let mut m: String = String::new();
                m.append("flamegraph svg not utf-8: ");
                m.append(e.as_str());
                Err(m)
            },
        },
    }
}

} // verus!
