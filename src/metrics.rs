//! Labelled gauges whose label tuples can be set with a time to live. Each
//! such set schedules one removal of its label tuple; a removal is never
//! cancelled and takes whatever value the tuple holds when it fires.

use vstd::prelude::*;

verus! {

/// A label tuple as values: one character sequence per label.
pub type Labels = Seq<Seq<char>>;

pub open spec fn label_view(l: Seq<String>) -> Labels {
    l.map_values(|s: String| s@)
}

/// The state of a labelled gauge: the value of each set label tuple, and the
/// scheduled removals in the order they were scheduled, each with the time
/// (in milliseconds) at which it fires.
pub struct GaugeState {
    pub series: Map<Labels, u64>,
    pub expiries: Seq<(Labels, u64)>,
}

/// The series after every removal of `expiries` that is due at `now` fired.
pub open spec fn fire(series: Map<Labels, u64>, expiries: Seq<(Labels, u64)>, now: u64) -> Map<
    Labels,
    u64,
>
    decreases expiries.len(),
{
    if expiries.len() == 0 {
        series
    } else {
        let m = fire(series, expiries.drop_last(), now);
        if expiries.last().1 <= now {
            m.remove(expiries.last().0)
        } else {
            m
        }
    }
}

/// The removals of `expiries` that are not yet due at `now`, in order.
pub open spec fn not_due(expiries: Seq<(Labels, u64)>, now: u64) -> Seq<(Labels, u64)>
    decreases expiries.len(),
{
    if expiries.len() == 0 {
        Seq::empty()
    } else if expiries.last().1 <= now {
        not_due(expiries.drop_last(), now)
    } else {
        not_due(expiries.drop_last(), now).push(expiries.last())
    }
}

pub open spec fn spec_get(g: GaugeState, l: Labels) -> Option<u64> {
    if g.series.contains_key(l) {
        Some(g.series[l])
    } else {
        None
    }
}

pub open spec fn spec_set(g: GaugeState, l: Labels, v: u64) -> GaugeState {
    GaugeState { series: g.series.insert(l, v), expiries: g.expiries }
}

pub open spec fn spec_remove(g: GaugeState, l: Labels) -> GaugeState {
    GaugeState { series: g.series.remove(l), expiries: g.expiries }
}

pub open spec fn spec_set_with_ttl(g: GaugeState, l: Labels, v: u64, now: u64, ttl: u64) -> GaugeState {
    GaugeState { series: g.series.insert(l, v), expiries: g.expiries.push((l, (now + ttl) as u64)) }
}

pub open spec fn spec_advance(g: GaugeState, now: u64) -> GaugeState {
    GaugeState { series: fire(g.series, g.expiries, now), expiries: not_due(g.expiries, now) }
}

pub open spec fn no_expiry_for(expiries: Seq<(Labels, u64)>, l: Labels) -> bool {
    forall|i: int| 0 <= i < expiries.len() ==> (#[trigger] expiries[i]).0 != l
}

pub proof fn lemma_fire_untouched(series: Map<Labels, u64>, expiries: Seq<(Labels, u64)>, now: u64, l: Labels)
    requires
        no_expiry_for(expiries, l),
    ensures
        fire(series, expiries, now).contains_key(l) == series.contains_key(l),
        series.contains_key(l) ==> fire(series, expiries, now)[l] == series[l],
    decreases expiries.len(),
{
    if expiries.len() > 0 {
        assert(expiries.last() == expiries[expiries.len() - 1]);
        assert forall|i: int| 0 <= i < expiries.drop_last().len() implies (
        #[trigger] expiries.drop_last()[i]).0 != l by {
            assert(expiries.drop_last()[i] == expiries[i]);
        }
        lemma_fire_untouched(series, expiries.drop_last(), now, l);
    }
}

proof fn lemma_fire_removes(series: Map<Labels, u64>, expiries: Seq<(Labels, u64)>, now: u64, i: int)
    requires
        0 <= i < expiries.len(),
        expiries[i].1 <= now,
    ensures
        !fire(series, expiries, now).contains_key(expiries[i].0),
    decreases expiries.len(),
{
    if i < expiries.len() - 1 {
        assert(expiries.drop_last()[i] == expiries[i]);
        lemma_fire_removes(series, expiries.drop_last(), now, i);
    }
}

proof fn lemma_not_due_keeps_absence(expiries: Seq<(Labels, u64)>, now: u64, l: Labels)
    requires
        no_expiry_for(expiries, l),
    ensures
        no_expiry_for(not_due(expiries, now), l),
    decreases expiries.len(),
{
    if expiries.len() > 0 {
        assert(expiries.last() == expiries[expiries.len() - 1]);
        assert forall|i: int| 0 <= i < expiries.drop_last().len() implies (
        #[trigger] expiries.drop_last()[i]).0 != l by {
            assert(expiries.drop_last()[i] == expiries[i]);
        }
        lemma_not_due_keeps_absence(expiries.drop_last(), now, l);
    }
}

/// A label tuple set with a time to live reads back its value until the time
/// to live has elapsed, and reads as absent from then on.
pub proof fn lemma_ttl_set_then_query(g: GaugeState, l: Labels, v: u64, now: u64, ttl: u64, t: u64)
    requires
        no_expiry_for(g.expiries, l),
        now + ttl <= u64::MAX,
    ensures
        t < now + ttl ==> spec_get(spec_advance(spec_set_with_ttl(g, l, v, now, ttl), t), l) == Some(v),
        t >= now + ttl ==> spec_get(spec_advance(spec_set_with_ttl(g, l, v, now, ttl), t), l) is None,
{
    let g1 = spec_set_with_ttl(g, l, v, now, ttl);
    assert(g1.expiries.drop_last() =~= g.expiries);
    lemma_fire_untouched(g1.series, g.expiries, t, l);
}

/// Setting a label tuple again before its first removal fires does not
/// postpone that removal: when it fires it takes the newer value. It leaves
/// every other label tuple that had no removal scheduled as it was.
pub proof fn lemma_ttl_reset_last_write(
    g: GaugeState,
    l: Labels,
    v1: u64,
    t0: u64,
    v2: u64,
    t1: u64,
    ttl: u64,
    other: Labels,
)
    requires
        no_expiry_for(g.expiries, l),
        no_expiry_for(g.expiries, other),
        other != l,
        t0 <= t1 < t0 + ttl,
        t1 + ttl <= u64::MAX,
    ensures
        ({
            let g1 = spec_set_with_ttl(g, l, v1, t0, ttl);
            let g2 = spec_set_with_ttl(spec_advance(g1, t1), l, v2, t1, ttl);
            let fired = spec_advance(g2, (t0 + ttl) as u64);
            &&& spec_get(spec_advance(g2, t1), l) == Some(v2)
            &&& spec_get(fired, l) is None
            &&& spec_get(fired, other) == spec_get(g, other)
        }),
{
    let due = (t0 + ttl) as u64;
    let g1 = spec_set_with_ttl(g, l, v1, t0, ttl);
    let a1 = spec_advance(g1, t1);
    let g2 = spec_set_with_ttl(a1, l, v2, t1, ttl);
    assert(g1.expiries.drop_last() =~= g.expiries);
    assert(g1.expiries.last() == (l, due));
    // the first removal is still pending after advancing to t1
    assert(a1.expiries == not_due(g.expiries, t1).push((l, due)));
    let k = a1.expiries.len() - 1;
    assert(g2.expiries[k] == (l, due));
    lemma_fire_removes(g2.series, g2.expiries, due, k);
    // reading back at t1: both removals of l are still pending
    let d2 = g2.expiries.drop_last();
    assert(d2 =~= a1.expiries);
    assert(d2.drop_last() =~= not_due(g.expiries, t1));
    assert(d2.last() == (l, due));
    lemma_not_due_keeps_absence(g.expiries, t1, l);
    lemma_fire_untouched(g2.series, not_due(g.expiries, t1), t1, l);
    assert(fire(g2.series, g2.expiries, t1) == fire(g2.series, d2, t1));
    assert(fire(g2.series, d2, t1) == fire(g2.series, d2.drop_last(), t1));
    // the other label tuple
    assert(no_expiry_for(g1.expiries, other)) by {
        assert forall|i: int| 0 <= i < g1.expiries.len() implies (#[trigger] g1.expiries[i]).0
            != other by {
            if i < g1.expiries.len() - 1 {
                assert(g1.expiries[i] == g.expiries[i]);
            }
        }
    }
    lemma_fire_untouched(g1.series, g1.expiries, t1, other);
    lemma_not_due_keeps_absence(g1.expiries, t1, other);
    assert(no_expiry_for(g2.expiries, other)) by {
        assert forall|i: int| 0 <= i < g2.expiries.len() implies (#[trigger] g2.expiries[i]).0
            != other by {
            if i < g2.expiries.len() - 1 {
                assert(g2.expiries[i] == a1.expiries[i]);
            }
        }
    }
    lemma_fire_untouched(g2.series, g2.expiries, due, other);
}

/// The label tuples of the removals of `expiries` that are due at `now`,
/// in order.
pub open spec fn due_labels(expiries: Seq<(Labels, u64)>, now: u64) -> Seq<Labels>
    decreases expiries.len(),
{
    if expiries.len() == 0 {
        Seq::empty()
    } else if expiries.last().1 <= now {
        due_labels(expiries.drop_last(), now).push(expiries.last().0)
    } else {
        due_labels(expiries.drop_last(), now)
    }
}

struct Series {
    labels: Vec<String>,
    value: u64,
}

struct Expiry {
    labels: Vec<String>,
    due_ms: u64,
}

spec fn series_map(s: Seq<Series>) -> Map<Labels, u64>
    decreases s.len(),
{
    if s.len() == 0 {
        Map::empty()
    } else {
        series_map(s.drop_last()).insert(label_view(s.last().labels@), s.last().value)
    }
}

spec fn expiry_view(e: Seq<Expiry>) -> Seq<(Labels, u64)> {
    e.map_values(|x: Expiry| (label_view(x.labels@), x.due_ms))
}

spec fn unique_labels(s: Seq<Series>) -> bool {
    forall|i: int, j: int|
        0 <= i < j < s.len() ==> label_view((#[trigger] s[i]).labels@) != label_view(
            (#[trigger] s[j]).labels@,
        )
}

proof fn lemma_series_lookup(s: Seq<Series>, l: Labels)
    requires
        unique_labels(s),
    ensures
        series_map(s).contains_key(l) <==> exists|i: int|
            0 <= i < s.len() && label_view((#[trigger] s[i]).labels@) == l,
        forall|i: int|
            0 <= i < s.len() && label_view((#[trigger] s[i]).labels@) == l ==> series_map(s)[l]
                == s[i].value,
    decreases s.len(),
{
    if s.len() > 0 {
        let d = s.drop_last();
        assert forall|i: int, j: int| 0 <= i < j < d.len() implies label_view(
            (#[trigger] d[i]).labels@,
        ) != label_view((#[trigger] d[j]).labels@) by {
            assert(d[i] == s[i] && d[j] == s[j]);
        }
        lemma_series_lookup(d, l);
        assert(s.last() == s[s.len() - 1]);
        if series_map(s).contains_key(l) {
            if label_view(s.last().labels@) != l {
                let i = choose|i: int| 0 <= i < d.len() && label_view((#[trigger] d[i]).labels@) == l;
                assert(s[i] == d[i]);
            }
        }
        assert forall|i: int|
            0 <= i < s.len() && label_view((#[trigger] s[i]).labels@) == l implies series_map(
            s,
        )[l] == s[i].value by {
            if i < s.len() - 1 {
                assert(s[i] == d[i]);
            }
        }
        if exists|i: int| 0 <= i < s.len() && label_view((#[trigger] s[i]).labels@) == l {
            let i = choose|i: int| 0 <= i < s.len() && label_view((#[trigger] s[i]).labels@) == l;
            if i < s.len() - 1 {
                assert(s[i] == d[i]);
            }
        }
    }
}

proof fn lemma_series_update(s: Seq<Series>, i: int, x: Series)
    requires
        unique_labels(s),
        0 <= i < s.len(),
        label_view(x.labels@) == label_view(s[i].labels@),
    ensures
        series_map(s.update(i, x)) == series_map(s).insert(label_view(x.labels@), x.value),
        unique_labels(s.update(i, x)),
    decreases s.len(),
{
    let u = s.update(i, x);
    let l = label_view(x.labels@);
    assert forall|a: int, b: int| 0 <= a < b < u.len() implies label_view(
        (#[trigger] u[a]).labels@,
    ) != label_view((#[trigger] u[b]).labels@) by {
        assert(label_view(u[a].labels@) == label_view(s[a].labels@));
        assert(label_view(u[b].labels@) == label_view(s[b].labels@));
    }
    let d = s.drop_last();
    assert forall|a: int, b: int| 0 <= a < b < d.len() implies label_view(
        (#[trigger] d[a]).labels@,
    ) != label_view((#[trigger] d[b]).labels@) by {
        assert(d[a] == s[a] && d[b] == s[b]);
    }
    if i == s.len() - 1 {
        assert(u.drop_last() =~= d);
        assert(series_map(s) == series_map(d).insert(l, s.last().value));
        assert(series_map(u) =~= series_map(s).insert(l, x.value));
    } else {
        assert(u.drop_last() =~= d.update(i, x));
        lemma_series_update(d, i, x);
        assert(u.last() == s.last());
        assert(label_view(s.last().labels@) != l) by {
            assert(s.last() == s[s.len() - 1]);
        }
        assert(series_map(u) =~= series_map(s).insert(l, x.value));
    }
}

proof fn lemma_series_remove(s: Seq<Series>, i: int)
    requires
        unique_labels(s),
        0 <= i < s.len(),
    ensures
        series_map(s.remove(i)) == series_map(s).remove(label_view(s[i].labels@)),
        unique_labels(s.remove(i)),
    decreases s.len(),
{
    let r = s.remove(i);
    let l = label_view(s[i].labels@);
    assert forall|a: int, b: int| 0 <= a < b < r.len() implies label_view(
        (#[trigger] r[a]).labels@,
    ) != label_view((#[trigger] r[b]).labels@) by {
        let sa = if a < i { a } else { a + 1 };
        let sb = if b < i { b } else { b + 1 };
        assert(r[a] == s[sa] && r[b] == s[sb]);
    }
    let d = s.drop_last();
    assert forall|a: int, b: int| 0 <= a < b < d.len() implies label_view(
        (#[trigger] d[a]).labels@,
    ) != label_view((#[trigger] d[b]).labels@) by {
        assert(d[a] == s[a] && d[b] == s[b]);
    }
    if i == s.len() - 1 {
        assert(r =~= d);
        lemma_series_lookup(d, l);
        assert forall|j: int| 0 <= j < d.len() implies label_view((#[trigger] d[j]).labels@)
            != l by {
            assert(d[j] == s[j]);
        }
        assert(series_map(r) =~= series_map(s).remove(l));
    } else {
        assert(r.drop_last() =~= d.remove(i));
        assert(d[i] == s[i]);
        lemma_series_remove(d, i);
        assert(r.last() == s.last());
        assert(label_view(s.last().labels@) != l) by {
            assert(s.last() == s[s.len() - 1]);
        }
        assert(series_map(r) =~= series_map(s).remove(l));
    }
}

fn labels_equal(a: &Vec<String>, b: &Vec<String>) -> (r: bool)
    ensures
        r == (label_view(a@) == label_view(b@)),
{
    if a.len() != b.len() {
        proof {
            assert(label_view(a@).len() != label_view(b@).len());
        }
        return false;
    }
    let mut i: usize = 0;
    while i < a.len()
        invariant
            i <= a@.len() == b@.len(),
            forall|k: int| 0 <= k < i ==> (#[trigger] a@[k])@ == b@[k]@,
        decreases a@.len() - i,
    {
        if a[i] != b[i] {
            proof {
                assert(label_view(a@)[i as int] != label_view(b@)[i as int]);
            }
            return false;
        }
        i += 1;
    }
    assert(label_view(a@) =~= label_view(b@));
    true
}

fn copy_labels(l: &Vec<String>) -> (r: Vec<String>)
    ensures
        label_view(r@) == label_view(l@),
{
    let mut out: Vec<String> = Vec::new();
    let mut i: usize = 0;
    while i < l.len()
        invariant
            i <= l@.len(),
            out@.len() == i,
            forall|k: int| 0 <= k < i ==> (#[trigger] out@[k])@ == l@[k]@,
        decreases l@.len() - i,
    {
        out.push(l[i].clone());
        i += 1;
    }
    assert(label_view(out@) =~= label_view(l@));
    out
}

/// A labelled gauge of millisecond timestamps with removals scheduled by
/// time to live. Time is whatever clock the caller passes in.
pub struct TtlGauge {
    series: Vec<Series>,
    expiries: Vec<Expiry>,
}

impl View for TtlGauge {
    type V = GaugeState;

    closed spec fn view(&self) -> GaugeState {
        GaugeState { series: series_map(self.series@), expiries: expiry_view(self.expiries@) }
    }
}

impl TtlGauge {
    /// Each label tuple has at most one value.
    pub closed spec fn wf(&self) -> bool {
        unique_labels(self.series@)
    }

    pub fn new() -> (r: TtlGauge)
        ensures
            r.wf(),
            r@.series == Map::<Labels, u64>::empty(),
            r@.expiries == Seq::<(Labels, u64)>::empty(),
    {
        let r = TtlGauge { series: Vec::new(), expiries: Vec::new() };
        assert(r@.expiries =~= Seq::<(Labels, u64)>::empty());
        r
    }

    fn find(&self, labels: &Vec<String>) -> (r: Option<usize>)
        ensures
            r matches Some(i) ==> i < self.series@.len() && label_view(self.series@[i as int].labels@)
                == label_view(labels@),
            r is None ==> forall|i: int|
                0 <= i < self.series@.len() ==> label_view((#[trigger] self.series@[i]).labels@)
                    != label_view(labels@),
    {
        let mut i: usize = 0;
        while i < self.series.len()
            invariant
                i <= self.series@.len(),
                forall|k: int|
                    0 <= k < i ==> label_view((#[trigger] self.series@[k]).labels@) != label_view(
                        labels@,
                    ),
            decreases self.series@.len() - i,
        {
            if labels_equal(&self.series[i].labels, labels) {
                return Some(i);
            }
            i += 1;
        }
        None
    }

    /// The value of a label tuple, `None` when it is not set.
    pub fn get(&self, labels: &Vec<String>) -> (r: Option<u64>)
        requires
            self.wf(),
        ensures
            r == spec_get(self@, label_view(labels@)),
    {
        proof {
            lemma_series_lookup(self.series@, label_view(labels@));
        }
        match self.find(labels) {
            Some(i) => Some(self.series[i].value),
            None => None,
        }
    }

    /// Sets a label tuple, replacing its value if it had one.
    pub fn set(&mut self, labels: Vec<String>, value: u64)
        requires
            old(self).wf(),
        ensures
            final(self).wf(),
            final(self)@ == spec_set(old(self)@, label_view(labels@), value),
    {
        proof {
            lemma_series_lookup(self.series@, label_view(labels@));
        }
        match self.find(&labels) {
            Some(i) => {
                let ghost before = self.series@;
                let x = Series { labels, value };
                self.series.set(i, x);
                proof {
                    lemma_series_update(before, i as int, x);
                }
            },
            None => {
                let ghost before = self.series@;
                self.series.push(Series { labels, value });
                proof {
                    assert(self.series@.drop_last() =~= before);
                    assert forall|a: int, b: int| 0 <= a < b < self.series@.len() implies label_view(
                        (#[trigger] self.series@[a]).labels@,
                    ) != label_view((#[trigger] self.series@[b]).labels@) by {
                        assert(self.series@[a] == before[a]);
                        if b < before.len() {
                            assert(self.series@[b] == before[b]);
                        }
                    }
                }
            },
        }
    }

    /// Removes a label tuple; removing one that is not set changes nothing.
    pub fn remove(&mut self, labels: &Vec<String>)
        requires
            old(self).wf(),
        ensures
            final(self).wf(),
            final(self)@ == spec_remove(old(self)@, label_view(labels@)),
    {
        proof {
            lemma_series_lookup(self.series@, label_view(labels@));
        }
        match self.find(labels) {
            Some(i) => {
                let ghost before = self.series@;
                self.series.remove(i);
                proof {
                    lemma_series_remove(before, i as int);
                }
            },
            None => {
                assert(series_map(self.series@).remove(label_view(labels@)) =~= series_map(
                    self.series@,
                ));
            },
        }
    }

    /// Sets a label tuple and schedules its removal `ttl_ms` after `now_ms`.
    pub fn set_with_ttl(&mut self, labels: Vec<String>, value: u64, now_ms: u64, ttl_ms: u64)
        requires
            old(self).wf(),
            now_ms + ttl_ms <= u64::MAX,
        ensures
            final(self).wf(),
            final(self)@ == spec_set_with_ttl(old(self)@, label_view(labels@), value, now_ms, ttl_ms),
    {
        let kept = copy_labels(&labels);
        self.set(labels, value);
        let ghost before = self.expiries@;
        self.expiries.push(Expiry { labels: kept, due_ms: now_ms + ttl_ms });
        assert(expiry_view(self.expiries@) =~= expiry_view(before).push(
            (label_view(kept@), (now_ms + ttl_ms) as u64),
        ));
    }

    /// Fires every scheduled removal that is due at `now_ms`, in the order
    /// they were scheduled, and returns the label tuples they removed.
    pub fn advance(&mut self, now_ms: u64) -> (removed: Vec<Vec<String>>)
        requires
            old(self).wf(),
        ensures
            final(self).wf(),
            final(self)@ == spec_advance(old(self)@, now_ms),
            removed@.map_values(|l: Vec<String>| label_view(l@)) == due_labels(
                old(self)@.expiries,
                now_ms,
            ),
    {
        let ghost ex0 = expiry_view(self.expiries@);
        let mut pending: Vec<Expiry> = Vec::new();
        std::mem::swap(&mut pending, &mut self.expiries);
        let mut kept: Vec<Expiry> = Vec::new();
        let mut removed: Vec<Vec<String>> = Vec::new();
        let mut i: usize = 0;
        assert(ex0.take(0) =~= Seq::<(Labels, u64)>::empty());
        while i < pending.len()
            invariant
                i <= pending@.len(),
                expiry_view(pending@) == ex0,
                unique_labels(self.series@),
                series_map(self.series@) == fire(old(self)@.series, ex0.take(i as int), now_ms),
                expiry_view(kept@) == not_due(ex0.take(i as int), now_ms),
                removed@.map_values(|l: Vec<String>| label_view(l@)) == due_labels(
                    ex0.take(i as int),
                    now_ms,
                ),
            decreases pending@.len() - i,
        {
            let ghost prefix = ex0.take(i as int);
            assert(ex0.take(i + 1).drop_last() =~= prefix);
            assert(ex0.take(i + 1).last() == ex0[i as int]);
            let e = &pending[i];
            if e.due_ms <= now_ms {
                let ghost before = removed@;
                self.remove(&e.labels);
                removed.push(copy_labels(&e.labels));
                assert(removed@.map_values(|l: Vec<String>| label_view(l@)) =~= before.map_values(
                    |l: Vec<String>| label_view(l@),
                ).push(label_view(e.labels@)));
            } else {
                let ghost before = kept@;
                kept.push(Expiry { labels: copy_labels(&e.labels), due_ms: e.due_ms });
                assert(expiry_view(kept@) =~= expiry_view(before).push(ex0[i as int]));
            }
            i += 1;
        }
        assert(ex0.take(i as int) =~= ex0);
        self.expiries = kept;
        removed
    }
}

} // verus!
