//! The library's global laws, stated over the registry and renderer
//! models and proved from the operations' contracts.
use vstd::prelude::*;

use crate::registry::EntryV;
use crate::registry::MetricV;
use crate::registry::counter_val;
use crate::registry::gauge_bits;
use crate::registry::hist_samples;
use crate::registry::is_counter;
use crate::registry::is_gauge;
use crate::registry::is_histogram;
use crate::registry::lemma_update_metric;
use crate::registry::sat_add;
use crate::registry::spec_increment;
use crate::registry::spec_observe;
use crate::registry::spec_set_gauge;
use crate::registry::wf_entries;
use crate::render::spec_render;
use crate::render::spec_render_from;

verus! {

/// The sum of a sequence of deltas.
pub open spec fn sum_of(ds: Seq<u64>) -> int
    decreases ds.len(),
{
    if ds.len() == 0 {
        0
    } else {
        ds[0] + sum_of(ds.skip(1))
    }
}

pub proof fn lemma_sum_nonneg(ds: Seq<u64>)
    ensures
        sum_of(ds) >= 0,
    decreases ds.len(),
{
    if ds.len() > 0 {
        lemma_sum_nonneg(ds.skip(1));
    }
}

/// The registry state after the increments `ds`, in order, on the counter
/// `name`.
pub open spec fn apply_increments(s: Seq<EntryV>, name: Seq<u8>, ds: Seq<u64>) -> Seq<EntryV>
    decreases ds.len(),
{
    if ds.len() == 0 {
        s
    } else {
        apply_increments(spec_increment(s, name, ds[0]), name, ds.skip(1))
    }
}

/// No increment is lost: after any sequence of increments on one counter,
/// in any order the writers' calls were serialized in, the counter holds
/// its starting value plus the sum of all deltas, and no other metric has
/// moved.  (Where the sum would pass the top of `u64` the counter
/// saturates instead, so that case is left out here.)
pub proof fn lemma_counter_sums(s: Seq<EntryV>, name: Seq<u8>, ds: Seq<u64>)
    requires
        wf_entries(s),
        is_counter(s, name),
        counter_val(s, name) + sum_of(ds) <= u64::MAX,
    ensures
        wf_entries(apply_increments(s, name, ds)),
        is_counter(apply_increments(s, name, ds), name),
        counter_val(apply_increments(s, name, ds), name) == counter_val(s, name) + sum_of(ds),
        forall|o: Seq<u8>|
            o != name ==> #[trigger] crate::registry::value_of(apply_increments(s, name, ds), o)
                == crate::registry::value_of(s, o),
    decreases ds.len(),
{
    if ds.len() > 0 {
        lemma_sum_nonneg(ds.skip(1));
        let v1 = sat_add(counter_val(s, name), ds[0]);
        lemma_update_metric(s, name, MetricV::Counter { value: v1 });
        let s1 = spec_increment(s, name, ds[0]);
        lemma_counter_sums(s1, name, ds.skip(1));
    }
}

/// The registry state after the gauge writes `ws`, in order, on `name`.
pub open spec fn apply_gauge_sets(s: Seq<EntryV>, name: Seq<u8>, ws: Seq<u64>) -> Seq<EntryV>
    decreases ws.len(),
{
    if ws.len() == 0 {
        s
    } else {
        apply_gauge_sets(spec_set_gauge(s, name, ws[0]), name, ws.skip(1))
    }
}

/// No torn gauge: after any sequence of writes on one gauge, the stored
/// pattern is the last write — in particular it is exactly one of the
/// written patterns, never a mixture — and no other metric has moved.
pub proof fn lemma_gauge_last_write_wins(s: Seq<EntryV>, name: Seq<u8>, ws: Seq<u64>)
    requires
        wf_entries(s),
        is_gauge(s, name),
        ws.len() > 0,
    ensures
        wf_entries(apply_gauge_sets(s, name, ws)),
        is_gauge(apply_gauge_sets(s, name, ws), name),
        gauge_bits(apply_gauge_sets(s, name, ws), name) == ws.last(),
        ws.contains(gauge_bits(apply_gauge_sets(s, name, ws), name)),
        forall|o: Seq<u8>|
            o != name ==> #[trigger] crate::registry::value_of(apply_gauge_sets(s, name, ws), o)
                == crate::registry::value_of(s, o),
    decreases ws.len(),
{
    lemma_update_metric(s, name, MetricV::Gauge { bits: ws[0] });
    let s1 = spec_set_gauge(s, name, ws[0]);
    if ws.len() == 1 {
        assert(ws.skip(1).len() == 0);
        assert(apply_gauge_sets(s1, name, ws.skip(1)) == s1);
        assert(ws.contains(ws.last())) by {
            assert(ws[ws.len() - 1] == ws.last());
        }
    } else {
        lemma_gauge_last_write_wins(s1, name, ws.skip(1));
        assert(ws.skip(1).last() == ws.last());
        assert(ws.skip(1).contains(ws.last()) ==> ws.contains(ws.last())) by {
            if ws.skip(1).contains(ws.last()) {
                let k = choose|k: int| 0 <= k < ws.skip(1).len() && ws.skip(1)[k] == ws.last();
                assert(ws[k + 1] == ws.last());
            }
        }
    }
}

/// The registry state after the observations `vs`, in order, on the
/// histogram `name`.
pub open spec fn apply_observes(s: Seq<EntryV>, name: Seq<u8>, vs: Seq<u64>) -> Seq<EntryV>
    decreases vs.len(),
{
    if vs.len() == 0 {
        s
    } else {
        apply_observes(spec_observe(s, name, vs[0]), name, vs.skip(1))
    }
}

/// No observation is lost: after any sequence of observations on one
/// histogram its recorded samples are the old samples followed by exactly
/// the observed values in order — so its count has grown by exactly the
/// number of calls — and no other metric has moved.
pub proof fn lemma_histogram_counts(s: Seq<EntryV>, name: Seq<u8>, vs: Seq<u64>)
    requires
        wf_entries(s),
        is_histogram(s, name),
    ensures
        wf_entries(apply_observes(s, name, vs)),
        is_histogram(apply_observes(s, name, vs), name),
        hist_samples(apply_observes(s, name, vs), name) == hist_samples(s, name) + vs,
        hist_samples(apply_observes(s, name, vs), name).len() == hist_samples(s, name).len()
            + vs.len(),
        forall|o: Seq<u8>|
            o != name ==> #[trigger] crate::registry::value_of(apply_observes(s, name, vs), o)
                == crate::registry::value_of(s, o),
    decreases vs.len(),
{
    if vs.len() == 0 {
        assert(hist_samples(s, name) + vs =~= hist_samples(s, name));
    } else {
        let pushed = hist_samples(s, name).push(vs[0]);
        lemma_update_metric(s, name, MetricV::Histogram { samples: pushed });
        let s1 = spec_observe(s, name, vs[0]);
        lemma_histogram_counts(s1, name, vs.skip(1));
        assert(pushed + vs.skip(1) =~= hist_samples(s, name) + vs);
    }
}

/// Rendered metrics come out sorted by name: in a well-formed snapshot
/// every earlier metric's name is lexicographically below every later
/// one's, and the renderer emits the metrics' line groups in exactly
/// that position order.
pub proof fn lemma_rendered_names_ascend(s: Seq<EntryV>)
    requires
        wf_entries(s),
    ensures
        forall|k: int, l: int|
            0 <= k < l < s.len() ==> crate::names::lex_lt(
                (#[trigger] s[k].name),
                (#[trigger] s[l].name),
            ),
{
    assert forall|k: int, l: int| 0 <= k < l < s.len() implies crate::names::lex_lt(
        (#[trigger] s[k].name),
        (#[trigger] s[l].name),
    ) by {
        crate::registry::lemma_sorted_lt(s, k, l);
    }
}

/// Rendering is idempotent: a snapshot and texts determine the output
/// bytes exactly, so two renders with no intervening change are
/// byte-identical.
pub proof fn lemma_render_idempotent(
    s: Seq<EntryV>,
    texts: Seq<Seq<u8>>,
    r1: Seq<u8>,
    r2: Seq<u8>,
)
    requires
        r1 == spec_render(s, texts),
        r2 == spec_render(s, texts),
    ensures
        r1 == r2,
{
}

/// An empty registry renders to an empty body.
pub proof fn lemma_render_empty(texts: Seq<Seq<u8>>)
    ensures
        spec_render(Seq::<EntryV>::empty(), texts) == Seq::<u8>::empty(),
{
    assert(spec_render_from(Seq::<EntryV>::empty(), texts, 0, 0) =~= Seq::<u8>::empty());
}

} // verus!
