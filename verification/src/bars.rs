//! OHLCV price bars and their stable ordering by timestamp.

use vstd::prelude::*;

verus! {

/// One OHLCV bar of a ticker on a timeframe. The prices and the volume are
/// the decimal text they were read from.
#[derive(Debug, PartialEq, Eq)]
pub struct Bar {
    pub ts: i64,
    pub ticker: String,
    pub tf: String,
    pub open: String,
    pub high: String,
    pub low: String,
    pub close: String,
    pub volume: String,
}

/// The contents of a [`Bar`].
pub struct BarView {
    pub ts: i64,
    pub ticker: Seq<char>,
    pub tf: Seq<char>,
    pub open: Seq<char>,
    pub high: Seq<char>,
    pub low: Seq<char>,
    pub close: Seq<char>,
    pub volume: Seq<char>,
}

impl View for Bar {
    type V = BarView;

    open spec fn view(&self) -> BarView {
        BarView {
            ts: self.ts,
            ticker: self.ticker@,
            tf: self.tf@,
            open: self.open@,
            high: self.high@,
            low: self.low@,
            close: self.close@,
            volume: self.volume@,
        }
    }
}

/// The contents of a sequence of bars.
pub open spec fn bars_view(s: Seq<Bar>) -> Seq<BarView> {
    s.map_values(|b: Bar| b@)
}

/// Timestamps never decrease along `s`.
pub open spec fn ts_sorted(s: Seq<BarView>) -> bool {
    forall|i: int, j: int| 0 <= i < j < s.len() ==> s[i].ts <= s[j].ts
}

/// The bars of `s` stamped `t`, in their order in `s`.
pub open spec fn with_ts(s: Seq<BarView>, t: i64) -> Seq<BarView>
    decreases s.len(),
{
    if s.len() == 0 {
        Seq::empty()
    } else if s.last().ts == t {
        with_ts(s.drop_last(), t).push(s.last())
    } else {
        with_ts(s.drop_last(), t)
    }
}

/// `out` is `inp` stably sorted by timestamp: ordered by timestamp, and for
/// every timestamp the bars that carry it in the order they had in `inp`.
/// One sequence alone meets this for a given `inp`.
pub open spec fn is_stable_ts_sort(out: Seq<BarView>, inp: Seq<BarView>) -> bool {
    ts_sorted(out) && forall|t: i64| #[trigger] with_ts(out, t) == with_ts(inp, t)
}

/// Selecting by timestamp distributes over concatenation.
pub proof fn lemma_with_ts_add(a: Seq<BarView>, b: Seq<BarView>, t: i64)
    ensures
        with_ts(a + b, t) == with_ts(a, t) + with_ts(b, t),
    decreases b.len(),
{
    if b.len() == 0 {
        assert(a + b =~= a);
        assert(with_ts(a, t) + with_ts(b, t) =~= with_ts(a, t));
    } else {
        lemma_with_ts_add(a, b.drop_last(), t);
        assert((a + b).drop_last() =~= a + b.drop_last());
        assert((a + b).last() == b.last());
        if b.last().ts == t {
            assert(with_ts(a, t) + with_ts(b.drop_last(), t).push(b.last()) =~= (with_ts(a, t)
                + with_ts(b.drop_last(), t)).push(b.last()));
        }
    }
}

/// No bar of `a` is stamped `t`.
pub proof fn lemma_with_ts_none(a: Seq<BarView>, t: i64)
    requires
        forall|i: int| 0 <= i < a.len() ==> #[trigger] a[i].ts != t,
    ensures
        with_ts(a, t) == Seq::<BarView>::empty(),
    decreases a.len(),
{
    if a.len() > 0 {
        lemma_with_ts_none(a.drop_last(), t);
    }
}

/// Selecting by timestamp in a one-bar sequence.
proof fn lemma_with_ts_single(x: BarView, t: i64)
    ensures
        with_ts(seq![x], t) == (if x.ts == t { seq![x] } else { Seq::<BarView>::empty() }),
{
    let s = seq![x];
    assert(s.drop_last() =~= Seq::<BarView>::empty());
    assert(with_ts(Seq::<BarView>::empty(), t) == Seq::<BarView>::empty());
    assert(Seq::<BarView>::empty().push(x) =~= seq![x]);
    assert(s.last() == x);
    assert(with_ts(s, t) == (if x.ts == t { with_ts(s.drop_last(), t).push(x) } else { with_ts(s.drop_last(), t) }));
}

/// The stable ordering of `inp` is unique.
pub proof fn lemma_stable_sort_unique(o1: Seq<BarView>, o2: Seq<BarView>, inp: Seq<BarView>)
    requires
        is_stable_ts_sort(o1, inp),
        is_stable_ts_sort(o2, inp),
    ensures
        o1 == o2,
    decreases o1.len() + o2.len(),
{
    if o1.len() == 0 || o2.len() == 0 {
        if o1.len() > 0 {
            let t = o1.last().ts;
            assert(with_ts(o1, t).len() > 0);
            assert(with_ts(o2, t) =~= Seq::<BarView>::empty());
        } else if o2.len() > 0 {
            let t = o2.last().ts;
            assert(with_ts(o2, t).len() > 0);
            assert(with_ts(o1, t) =~= Seq::<BarView>::empty());
        } else {
            assert(o1 =~= o2);
        }
    } else {
        // the last bars of both carry the greatest timestamp, and are the last
        // bar of `inp` with that timestamp
        let (x1, x2) = (o1.last(), o2.last());
        assert(with_ts(o1, x1.ts).len() > 0);
        assert(with_ts(o2, x2.ts).len() > 0);
        assert(with_ts(inp, x1.ts) == with_ts(o1, x1.ts));
        assert(with_ts(inp, x2.ts) == with_ts(o2, x2.ts));
        lemma_last_is_max(o1, inp, x2.ts);
        lemma_last_is_max(o2, inp, x1.ts);
        assert(x1.ts == x2.ts);
        let t = x1.ts;
        assert(with_ts(o1, t).last() == x1);
        assert(with_ts(o2, t).last() == x2);
        let (p1, p2) = (o1.drop_last(), o2.drop_last());
        let smaller = with_ts(inp, t).drop_last();
        // removing them leaves stable orderings of one and the same sequence
        assert forall|u: i64| #[trigger] with_ts(p1, u) == with_ts(p2, u) by {
            if u == t {
                assert(with_ts(o1, t).drop_last() =~= with_ts(p1, t));
                assert(with_ts(o2, t).drop_last() =~= with_ts(p2, t));
            } else {
                assert(with_ts(o1, u) == with_ts(p1, u));
                assert(with_ts(o2, u) == with_ts(p2, u));
                assert(with_ts(o1, u) == with_ts(inp, u));
                assert(with_ts(o2, u) == with_ts(inp, u));
            }
        }
        assert(is_stable_ts_sort(p2, p1));
        assert(is_stable_ts_sort(p1, p1));
        lemma_stable_sort_unique(p1, p2, p1);
        assert(o1 =~= p1.push(x1));
        assert(o2 =~= p2.push(x2));
    }
}

/// In a stable ordering, every bar of the input is stamped no later than the
/// last bar of the ordering.
proof fn lemma_last_is_max(o: Seq<BarView>, inp: Seq<BarView>, t: i64)
    requires
        is_stable_ts_sort(o, inp),
        o.len() > 0,
        with_ts(inp, t).len() > 0,
    ensures
        t <= o.last().ts,
{
    if t > o.last().ts {
        assert forall|i: int| 0 <= i < o.len() implies #[trigger] o[i].ts != t by {
            assert(o[i].ts <= o[o.len() - 1].ts);
        }
        lemma_with_ts_none(o, t);
        assert(with_ts(o, t) == with_ts(inp, t));
    }
}

/// The first position of `out` whose bar is stamped at or after `ts`.
fn insertion_point(out: &Vec<Bar>, ts: i64) -> (p: usize)
    requires
        ts_sorted(bars_view(out@)),
    ensures
        p <= out.len(),
        forall|i: int| 0 <= i < p ==> #[trigger] out@[i].ts < ts,
        forall|i: int| p <= i < out.len() ==> #[trigger] out@[i].ts >= ts,
{
    let mut p: usize = 0;
    while p < out.len() && out[p].ts < ts
        invariant
            p <= out.len(),
            forall|i: int| 0 <= i < p ==> #[trigger] out@[i].ts < ts,
        decreases out.len() - p,
    {
        p = p + 1;
    }
    proof {
        assert forall|i: int| p <= i < out.len() implies #[trigger] out@[i].ts >= ts by {
            assert(bars_view(out@)[p as int].ts <= bars_view(out@)[i].ts);
        }
    }
    p
}

/// Sorts bars by timestamp, keeping the order of bars that share one, as
/// `sort_by_key(|bar| bar.ts)` does.
pub fn sort_bars_by_ts(v: Vec<Bar>) -> (r: Vec<Bar>)
    ensures
        is_stable_ts_sort(bars_view(r@), bars_view(v@)),
{
    let ghost orig = bars_view(v@);
    let mut v = v;
    let mut out: Vec<Bar> = Vec::new();
    proof {
        assert(orig.skip(orig.len() as int) =~= Seq::<BarView>::empty());
        assert(bars_view(out@) =~= Seq::<BarView>::empty());
    }
    while v.len() > 0
        invariant
            v.len() <= orig.len(),
            bars_view(v@) == orig.take(v.len() as int),
            is_stable_ts_sort(bars_view(out@), orig.skip(v.len() as int)),
        decreases v.len(),
    {
        let ghost old_v = v@;
        let ghost old_out = bars_view(out@);
        let ghost suffix = orig.skip(v.len() as int);
        let x = v.pop().unwrap();
        let ghost xv = x@;
        let p = insertion_point(&out, x.ts);
        out.insert(p, x);
        proof {
            assert(bars_view(v@) =~= orig.take(v.len() as int)) by {
                assert(v@ =~= old_v.drop_last());
            }
            assert(xv == orig[v.len() as int]) by {
                assert(bars_view(old_v)[v.len() as int] == xv);
            }
            let new_suffix = orig.skip(v.len() as int);
            assert(new_suffix =~= seq![xv] + suffix);
            let nv = bars_view(out@);
            let pre = old_out.take(p as int);
            let post = old_out.skip(p as int);
            assert(old_out =~= pre + post);
            assert(nv =~= pre + seq![xv] + post);
            // ordered
            assert forall|i: int, j: int| 0 <= i < j < nv.len() implies nv[i].ts <= nv[j].ts by {
                if j < p {
                    assert(nv[i] == old_out[i] && nv[j] == old_out[j]);
                } else if j == p {
                    assert(nv[i] == old_out[i]);
                } else if i < p {
                    assert(nv[i] == old_out[i] && nv[j] == old_out[j - 1]);
                } else if i == p {
                    assert(nv[j] == old_out[j - 1]);
                } else {
                    assert(nv[i] == old_out[i - 1] && nv[j] == old_out[j - 1]);
                }
            }
            // the same bars for each timestamp
            assert forall|t: i64| #[trigger] with_ts(nv, t) == with_ts(new_suffix, t) by {
                lemma_with_ts_add(pre + seq![xv], post, t);
                lemma_with_ts_add(pre, seq![xv], t);
                lemma_with_ts_add(pre, post, t);
                lemma_with_ts_add(seq![xv], suffix, t);
                lemma_with_ts_single(xv, t);
                assert(with_ts(old_out, t) == with_ts(suffix, t));
                if xv.ts == t {
                    assert forall|i: int| 0 <= i < pre.len() implies #[trigger] pre[i].ts != t by {
                        assert(pre[i] == old_out[i]);
                    }
                    lemma_with_ts_none(pre, t);
                    assert(with_ts(pre, t) + with_ts(post, t) =~= with_ts(post, t));
                    assert(with_ts(pre, t) + seq![xv] =~= seq![xv]);
                } else {
                    assert(with_ts(pre, t) + Seq::<BarView>::empty() =~= with_ts(pre, t));
                    assert(Seq::<BarView>::empty() + with_ts(suffix, t) =~= with_ts(suffix, t));
                }
            }
        }
    }
    proof {
        assert(orig.skip(0) =~= orig);
    }
    out
}

/// A timestamp is newer than the newest stored one, if any is stored.
pub open spec fn newer(ts: i64, last_ts: Option<i64>) -> bool {
    last_ts matches Some(latest) ==> ts > latest
}

/// The bars of `s` are all of `ticker` on `tf`, and newer than `last_ts`.
pub open spec fn fresh_for(s: Seq<BarView>, ticker: Seq<char>, tf: Seq<char>, last_ts: Option<i64>) -> bool {
    forall|i: int|
        0 <= i < s.len() ==> {
            &&& (#[trigger] s[i]).ticker == ticker
            &&& s[i].tf == tf
            &&& (last_ts matches Some(latest) ==> s[i].ts > latest)
        }
}

/// Every bar that selecting by timestamp keeps is a bar of the sequence.
proof fn lemma_with_ts_members(s: Seq<BarView>, t: i64, k: int)
    requires
        0 <= k < with_ts(s, t).len(),
    ensures
        exists|j: int| 0 <= j < s.len() && s[j] == with_ts(s, t)[k],
    decreases s.len(),
{
    if s.last().ts == t && k == with_ts(s, t).len() - 1 {
        assert(s[s.len() - 1] == with_ts(s, t)[k]);
    } else {
        lemma_with_ts_members(s.drop_last(), t, k);
        let j = choose|j: int| 0 <= j < s.drop_last().len() && s.drop_last()[j] == with_ts(s.drop_last(), t)[k];
        assert(s[j] == with_ts(s, t)[k]);
    }
}

/// Selecting by its own timestamp keeps a bar.
proof fn lemma_with_ts_keeps(s: Seq<BarView>, i: int)
    requires
        0 <= i < s.len(),
    ensures
        exists|k: int| 0 <= k < with_ts(s, s[i].ts).len() && with_ts(s, s[i].ts)[k] == s[i],
    decreases s.len(),
{
    let t = s[i].ts;
    if i == s.len() - 1 {
        assert(with_ts(s, t)[with_ts(s, t).len() - 1] == s[i]);
    } else {
        lemma_with_ts_keeps(s.drop_last(), i);
        let k = choose|k: int| 0 <= k < with_ts(s.drop_last(), t).len() && with_ts(s.drop_last(), t)[k] == s.drop_last()[i];
        assert(with_ts(s, t)[k] == s[i]);
    }
}

/// A stable ordering holds only bars of its input.
pub proof fn lemma_sort_members(out: Seq<BarView>, inp: Seq<BarView>, i: int)
    requires
        is_stable_ts_sort(out, inp),
        0 <= i < out.len(),
    ensures
        exists|j: int| 0 <= j < inp.len() && inp[j] == out[i],
{
    let t = out[i].ts;
    lemma_with_ts_keeps(out, i);
    let k = choose|k: int| 0 <= k < with_ts(out, t).len() && with_ts(out, t)[k] == out[i];
    assert(with_ts(out, t) == with_ts(inp, t));
    lemma_with_ts_members(inp, t, k);
}

/// A stable ordering holds every bar of its input.
pub proof fn lemma_sort_contains(out: Seq<BarView>, inp: Seq<BarView>, j: int)
    requires
        is_stable_ts_sort(out, inp),
        0 <= j < inp.len(),
    ensures
        exists|i: int| 0 <= i < out.len() && out[i] == inp[j],
{
    let t = inp[j].ts;
    lemma_with_ts_keeps(inp, j);
    let k = choose|k: int| 0 <= k < with_ts(inp, t).len() && with_ts(inp, t)[k] == inp[j];
    assert(with_ts(out, t) == with_ts(inp, t));
    lemma_with_ts_members(out, t, k);
}

/// Ordering keeps the bars of a ticker and timeframe newer than `last_ts` so.
pub proof fn lemma_sort_fresh(out: Seq<BarView>, inp: Seq<BarView>, ticker: Seq<char>, tf: Seq<char>, last_ts: Option<i64>)
    requires
        is_stable_ts_sort(out, inp),
        fresh_for(inp, ticker, tf, last_ts),
    ensures
        fresh_for(out, ticker, tf, last_ts),
{
    assert forall|i: int| 0 <= i < out.len() implies {
        &&& (#[trigger] out[i]).ticker == ticker
        &&& out[i].tf == tf
        &&& (last_ts matches Some(latest) ==> out[i].ts > latest)
    } by {
        lemma_sort_members(out, inp, i);
        let j = choose|j: int| 0 <= j < inp.len() && inp[j] == out[i];
        assert(inp[j].ticker == ticker);
    }
}

} // verus!
