use vstd::prelude::*;

use crate::app::{log_ordered, Session};
use crate::time::Duration;

verus! {

/// The statistics of a log of closed sessions, folded one session at a
/// time: each application maps to (total time in nanoseconds, number of
/// sessions).
pub open spec fn usage_of(log: Seq<Session>) -> Map<Seq<char>, (nat, nat)>
    decreases log.len(),
{
    if log.len() == 0 {
        Map::empty()
    } else {
        let prev = usage_of(log.drop_last());
        let s = log.last();
        let before: (nat, nat) = if prev.contains_key(s.app@) {
            prev[s.app@]
        } else {
            (0, 0)
        };
        prev.insert(s.app@, (before.0 + s.duration(), before.1 + 1))
    }
}

/// Sum of the durations of all sessions of a log.
pub open spec fn total_duration(log: Seq<Session>) -> nat
    decreases log.len(),
{
    if log.len() == 0 {
        0
    } else {
        total_duration(log.drop_last()) + log.last().duration()
    }
}

/// Usage of one application over the closed sessions.
#[derive(Debug)]
pub struct AppUsage {
    pub app: String,
    pub total_time: Duration,
    pub session_count: usize,
}

/// Per-application totals over the closed sessions, one entry per
/// application.
#[derive(Debug)]
pub struct Stats {
    pub per_app: Vec<AppUsage>,
}

/// The map that a list of usage entries describes.
pub open spec fn usage_map(entries: Seq<AppUsage>) -> Map<Seq<char>, (nat, nat)>
    decreases entries.len(),
{
    if entries.len() == 0 {
        Map::empty()
    } else {
        let e = entries.last();
        usage_map(entries.drop_last()).insert(
            e.app@,
            (e.total_time.nanos as nat, e.session_count as nat),
        )
    }
}

pub open spec fn distinct_apps(entries: Seq<AppUsage>) -> bool {
    forall|i: int, j: int|
        0 <= i < j < entries.len() ==> #[trigger] entries[i].app@ != #[trigger] entries[j].app@
}

impl View for Stats {
    type V = Map<Seq<char>, (nat, nat)>;

    /// Each application maps to (total time in nanoseconds, number of
    /// closed sessions).
    open spec fn view(&self) -> Map<Seq<char>, (nat, nat)> {
        usage_map(self.per_app@)
    }
}

impl Stats {
    pub open spec fn well_formed(&self) -> bool {
        distinct_apps(self.per_app@)
    }

    pub open spec fn total_at(&self, i: int) -> u64 {
        self.per_app@[i].total_time.nanos
    }

    /// Positions in `per_app` of the `k` applications with the most time
    /// (all of them where there are fewer), most time first: no entry left
    /// out has more time than one picked.
    pub fn top_apps(&self, k: usize) -> (r: Vec<usize>)
        ensures
            r@.len() == if k <= self.per_app@.len() {
                k as int
            } else {
                self.per_app@.len() as int
            },
            forall|i: int| 0 <= i < r@.len() ==> #[trigger] r@[i] < self.per_app@.len(),
            forall|i: int, j: int| 0 <= i < j < r@.len() ==> #[trigger] r@[i] != #[trigger] r@[j],
            forall|i: int, j: int|
                0 <= i < j < r@.len() ==> self.total_at(#[trigger] r@[i] as int) >= self.total_at(
                    #[trigger] r@[j] as int,
                ),
            forall|q: int, i: int|
                #![trigger self.total_at(q), r@[i]]
                0 <= q < self.per_app@.len() && 0 <= i < r@.len() && !r@.contains(q as usize)
                    ==> self.total_at(q) <= self.total_at(r@[i] as int),
    {
        let n = self.per_app.len();
        let want = if k <= n {
            k
        } else {
            n
        };
        let mut rest: Vec<usize> = Vec::new();
        let mut q: usize = 0;
        while q < n
            invariant
                q <= n,
                rest@.len() == q,
                forall|a: int| 0 <= a < q ==> #[trigger] rest@[a] == a as usize,
            decreases n - q,
        {
            rest.push(q);
            q = q + 1;
        }
        let mut r: Vec<usize> = Vec::new();
        assert forall|a: int| #![trigger r@.contains(a as usize)] 0 <= a < n implies rest@.contains(
            a as usize,
        ) by {
            assert(rest@[a] == a as usize);
        }
        while r.len() < want
            invariant
                n == self.per_app@.len(),
                want <= n,
                r@.len() <= want,
                r@.len() + rest@.len() == n,
                forall|i: int| 0 <= i < r@.len() ==> #[trigger] r@[i] < n,
                forall|i: int| 0 <= i < rest@.len() ==> #[trigger] rest@[i] < n,
                forall|i: int| 0 <= i < rest@.len() ==> !r@.contains(#[trigger] rest@[i]),
                forall|i: int, j: int|
                    0 <= i < j < rest@.len() ==> #[trigger] rest@[i] != #[trigger] rest@[j],
                forall|a: int|
                    #![trigger r@.contains(a as usize)]
                    0 <= a < n ==> r@.contains(a as usize) || rest@.contains(a as usize),
                forall|i: int, j: int| 0 <= i < j < r@.len() ==> #[trigger] r@[i] != #[trigger] r@[j],
                forall|i: int, j: int|
                    0 <= i < j < r@.len() ==> self.total_at(#[trigger] r@[i] as int)
                        >= self.total_at(#[trigger] r@[j] as int),
                forall|x: int, i: int|
                    0 <= x < rest@.len() && 0 <= i < r@.len() ==> self.total_at(
                        #[trigger] rest@[x] as int,
                    ) <= self.total_at(#[trigger] r@[i] as int),
            decreases want - r@.len(),
        {
            let mut best: usize = 0;
            let mut p: usize = 1;
            while p < rest.len()
                invariant
                    n == self.per_app@.len(),
                    0 < rest@.len(),
                    forall|i: int| 0 <= i < rest@.len() ==> #[trigger] rest@[i] < n,
                    best < p <= rest@.len(),
                    forall|x: int|
                        0 <= x < p ==> self.total_at(#[trigger] rest@[x] as int) <= self.total_at(
                            rest@[best as int] as int,
                        ),
                decreases rest@.len() - p,
            {
                if self.per_app[rest[p]].total_time.nanos > self.per_app[rest[best]].total_time.nanos {
                    best = p;
                }
                p = p + 1;
            }
            let ghost old_r = r@;
            let ghost old_rest = rest@;
            let chosen = rest.remove(best);
            r.push(chosen);
            proof {
                assert(r@ == old_r.push(chosen));
                assert(rest@ == old_rest.remove(best as int));
                assert forall|i: int, j: int| 0 <= i < j < rest@.len() implies #[trigger] rest@[i]
                    != #[trigger] rest@[j] by {
                    let si = if i < best { i } else { i + 1 };
                    let sj = if j < best { j } else { j + 1 };
                    assert(old_rest[si] == rest@[i] && old_rest[sj] == rest@[j]);
                }
                assert forall|i: int| 0 <= i < rest@.len() implies !r@.contains(#[trigger] rest@[i]) by {
                    let e = rest@[i];
                    let src = if i < best { i } else { i + 1 };
                    assert(old_rest[src] == e);
                    assert(!old_r.contains(e));
                    if r@.contains(e) {
                        let w = choose|w: int| 0 <= w < r@.len() && r@[w] == e;
                        if w < old_r.len() {
                            assert(old_r[w] == e);
                        } else {
                            assert(old_rest[src] == old_rest[best as int]);
                        }
                    }
                }
                assert forall|a: int|
                    #![trigger r@.contains(a as usize)]
                    0 <= a < n implies r@.contains(a as usize) || rest@.contains(a as usize) by {
                    if old_r.contains(a as usize) {
                        let w = choose|w: int| 0 <= w < old_r.len() && old_r[w] == a as usize;
                        assert(r@[w] == a as usize);
                    } else {
                        let w = choose|w: int| 0 <= w < old_rest.len() && old_rest[w] == a as usize;
                        if w == best {
                            assert(r@[old_r.len() as int] == a as usize);
                        } else if w < best {
                            assert(rest@[w] == a as usize);
                        } else {
                            assert(rest@[w - 1] == a as usize);
                        }
                    }
                }
                assert forall|i: int, j: int| 0 <= i < j < r@.len() implies #[trigger] r@[i]
                    != #[trigger] r@[j] by {
                    if j == old_r.len() {
                        assert(!old_r.contains(old_rest[best as int]));
                        assert(old_r[i] == r@[i]);
                    }
                }
                assert forall|i: int, j: int| 0 <= i < j < r@.len() implies self.total_at(
                    #[trigger] r@[i] as int,
                ) >= self.total_at(#[trigger] r@[j] as int) by {
                    if j == old_r.len() {
                        assert(self.total_at(old_rest[best as int] as int) <= self.total_at(
                            old_r[i] as int,
                        ));
                    }
                }
                assert forall|x: int, i: int| 0 <= x < rest@.len() && 0 <= i < r@.len() implies self.total_at(
                    #[trigger] rest@[x] as int,
                ) <= self.total_at(#[trigger] r@[i] as int) by {
                    let src = if x < best { x } else { x + 1 };
                    assert(old_rest[src] == rest@[x]);
                    if i < old_r.len() {
                        assert(self.total_at(old_rest[src] as int) <= self.total_at(old_r[i] as int));
                    }
                }
            }
        }
        proof {
            assert forall|x: int, i: int|
                #![trigger self.total_at(x), r@[i]]
                0 <= x < n && 0 <= i < r@.len() && !r@.contains(x as usize) implies self.total_at(x)
                <= self.total_at(r@[i] as int) by {
                let w = choose|w: int| 0 <= w < rest@.len() && rest@[w] == x as usize;
                assert(self.total_at(rest@[w] as int) <= self.total_at(r@[i] as int));
            }
        }
        r
    }
}


pub(crate) proof fn lemma_usage_map_lookup(entries: Seq<AppUsage>, j: int)
    requires
        distinct_apps(entries),
        0 <= j < entries.len(),
    ensures
        usage_map(entries).contains_key(entries[j].app@),
        usage_map(entries)[entries[j].app@] == (
            entries[j].total_time.nanos as nat,
            entries[j].session_count as nat,
        ),
    decreases entries.len(),
{
    if j < entries.len() - 1 {
        let prefix = entries.drop_last();
        assert(prefix[j] == entries[j]);
        assert(entries[j].app@ != entries[entries.len() - 1].app@);
        lemma_usage_map_lookup(prefix, j);
    }
}

pub(crate) proof fn lemma_usage_map_absent(entries: Seq<AppUsage>, k: Seq<char>)
    requires
        forall|i: int| 0 <= i < entries.len() ==> entries[i].app@ != k,
    ensures
        !usage_map(entries).contains_key(k),
    decreases entries.len(),
{
    if entries.len() > 0 {
        let prefix = entries.drop_last();
        assert forall|i: int| 0 <= i < prefix.len() implies prefix[i].app@ != k by {
            assert(prefix[i] == entries[i]);
        }
        lemma_usage_map_absent(prefix, k);
    }
}

pub(crate) proof fn lemma_usage_map_update(entries: Seq<AppUsage>, j: int, x: AppUsage)
    requires
        distinct_apps(entries),
        0 <= j < entries.len(),
        x.app@ == entries[j].app@,
    ensures
        usage_map(entries.update(j, x)) == usage_map(entries).insert(
            x.app@,
            (x.total_time.nanos as nat, x.session_count as nat),
        ),
    decreases entries.len(),
{
    let updated = entries.update(j, x);
    let v = (x.total_time.nanos as nat, x.session_count as nat);
    if j == entries.len() - 1 {
        assert(updated.drop_last() =~= entries.drop_last());
        assert(usage_map(updated) =~= usage_map(entries).insert(x.app@, v));
    } else {
        let prefix = entries.drop_last();
        assert(updated.drop_last() =~= prefix.update(j, x));
        assert(distinct_apps(prefix)) by {
            assert forall|a: int, b: int| 0 <= a < b < prefix.len() implies prefix[a].app@
                != prefix[b].app@ by {
                assert(prefix[a] == entries[a] && prefix[b] == entries[b]);
            }
        }
        assert(prefix[j] == entries[j]);
        lemma_usage_map_update(prefix, j, x);
        let last = entries.last();
        assert(updated.last() == last);
        assert(last.app@ != x.app@);
        assert(usage_map(updated) =~= usage_map(entries).insert(x.app@, v));
    }
}

pub(crate) proof fn lemma_usage_bounded(log: Seq<Session>)
    ensures
        forall|k: Seq<char>| #[trigger]
            usage_of(log).contains_key(k) ==> {
                &&& usage_of(log)[k].0 <= total_duration(log)
                &&& usage_of(log)[k].1 <= log.len()
            },
    decreases log.len(),
{
    if log.len() > 0 {
        let prefix = log.drop_last();
        lemma_usage_bounded(prefix);
        let s = log.last();
        assert(total_duration(log) == total_duration(prefix) + s.duration());
        assert forall|k: Seq<char>| #[trigger] usage_of(log).contains_key(k) implies {
            &&& usage_of(log)[k].0 <= total_duration(log)
            &&& usage_of(log)[k].1 <= log.len()
        } by {
            if k != s.app@ {
                assert(usage_of(prefix).contains_key(k));
            } else if usage_of(prefix).contains_key(k) {
                assert(usage_of(prefix)[k].0 <= total_duration(prefix));
            }
        }
    }
}

pub(crate) proof fn lemma_total_within_span(log: Seq<Session>)
    requires
        log_ordered(log),
        log.len() > 0,
    ensures
        total_duration(log) + log[0].start_at.nanos <= log.last().end_at.nanos,
    decreases log.len(),
{
    if log.len() > 1 {
        let prefix = log.drop_last();
        assert(log_ordered(prefix)) by {
            assert forall|i: int| 0 <= i < prefix.len() implies #[trigger] prefix[i].well_formed() by {
                assert(prefix[i] == log[i]);
            }
            assert forall|i: int, j: int| 0 <= i < j < prefix.len() implies #[trigger] prefix[i].end_at.nanos
                <= #[trigger] prefix[j].start_at.nanos by {
                assert(prefix[i] == log[i] && prefix[j] == log[j]);
            }
        }
        lemma_total_within_span(prefix);
        assert(total_duration(log) == total_duration(prefix) + log.last().duration());
        assert(prefix[0] == log[0]);
        assert(prefix.last() == log[log.len() - 2]);
        assert(log[log.len() - 2].end_at.nanos <= log[log.len() - 1].start_at.nanos);
        assert(log[log.len() - 1].well_formed());
    } else {
        assert(log.drop_last().len() == 0);
        assert(total_duration(log) == total_duration(log.drop_last()) + log.last().duration());
        assert(log[0].well_formed());
    }
}

proof fn lemma_usage_same_suffix(a: Seq<Session>, b: Seq<Session>, c: Seq<Session>)
    requires
        usage_of(a) == usage_of(b),
    ensures
        usage_of(a + c) == usage_of(b + c),
    decreases c.len(),
{
    if c.len() > 0 {
        let front = c.drop_last();
        lemma_usage_same_suffix(a, b, front);
        assert((a + c).drop_last() =~= a + front);
        assert((b + c).drop_last() =~= b + front);
        assert((a + c).last() == c.last());
        assert((b + c).last() == c.last());
    }
}

/// The statistics do not depend on the order of the log: swapping two
/// neighbouring sessions leaves every total and count as it was (and so,
/// step by step, does any reordering).
pub proof fn lemma_usage_ignores_order(log: Seq<Session>, i: int)
    requires
        0 <= i,
        i + 1 < log.len(),
    ensures
        usage_of(log.update(i, log[i + 1]).update(i + 1, log[i])) == usage_of(log),
{
    let swapped = log.update(i, log[i + 1]).update(i + 1, log[i]);
    let p = log.take(i);
    let x = log[i];
    let y = log[i + 1];
    let rest = log.skip(i + 2);
    let xy = p.push(x).push(y);
    let yx = p.push(y).push(x);
    assert(xy.drop_last() =~= p.push(x));
    assert(yx.drop_last() =~= p.push(y));
    assert(p.push(x).drop_last() =~= p);
    assert(p.push(y).drop_last() =~= p);
    let base = usage_of(p);
    let bx: (nat, nat) = if base.contains_key(x.app@) {
        base[x.app@]
    } else {
        (0, 0)
    };
    let by: (nat, nat) = if base.contains_key(y.app@) {
        base[y.app@]
    } else {
        (0, 0)
    };
    let ux = usage_of(p.push(x));
    let uy = usage_of(p.push(y));
    assert(ux == base.insert(x.app@, (bx.0 + x.duration(), bx.1 + 1)));
    assert(uy == base.insert(y.app@, (by.0 + y.duration(), by.1 + 1)));
    if x.app@ == y.app@ {
        let both = (bx.0 + x.duration() + y.duration(), bx.1 + 2);
        assert(usage_of(xy) =~= base.insert(x.app@, both));
        assert(usage_of(yx) =~= base.insert(x.app@, both));
    } else {
        assert(usage_of(xy) =~= base.insert(x.app@, (bx.0 + x.duration(), bx.1 + 1)).insert(
            y.app@,
            (by.0 + y.duration(), by.1 + 1),
        ));
        assert(usage_of(yx) =~= base.insert(y.app@, (by.0 + y.duration(), by.1 + 1)).insert(
            x.app@,
            (bx.0 + x.duration(), bx.1 + 1),
        ));
    }
    assert(usage_of(xy) =~= usage_of(yx));
    lemma_usage_same_suffix(yx, xy, rest);
    assert(swapped =~= yx + rest);
    assert(log =~= xy + rest);
}

} // verus!
