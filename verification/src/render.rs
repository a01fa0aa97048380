//! Snapshots and their deterministic text rendering.
//!
//! A snapshot is an immutable copy of every metric at one instant; the
//! renderer turns it into the line-oriented exposition text, one
//! `<name> <value>\n` line per scalar metric and a `_count`/`_sum` pair
//! per histogram, in name-sorted order.  Values carried as 64-bit
//! patterns (gauges and histogram sums) are printed from caller-supplied
//! texts, one per such slot, so the renderer itself is an exact function
//! of the snapshot and those texts.
use vstd::prelude::*;

use crate::registry::Entry;
use crate::registry::EntryV;
use crate::registry::Metric;
use crate::registry::MetricV;
use crate::registry::Registry;
use crate::registry::clone_bytes;
use crate::registry::wf_entries;

verus! {

/// The decimal digits of `n`, most significant first.
pub open spec fn spec_dec(n: nat) -> Seq<u8>
    decreases n,
{
    if n < 10 {
        seq![(48 + n) as u8]
    } else {
        spec_dec(n / 10).push((48 + n % 10) as u8)
    }
}

/// Decimal texts hold ASCII digits only — never whitespace — so every
/// rendered line keeps the two-token `<name> <value>` shape.
pub proof fn lemma_spec_dec_digits(n: nat)
    ensures
        spec_dec(n).len() > 0,
        forall|i: int| 0 <= i < spec_dec(n).len() ==> 48 <= (#[trigger] spec_dec(n)[i]) <= 57,
    decreases n,
{
    if n >= 10 {
        lemma_spec_dec_digits(n / 10);
    }
}

/// One exposition line: `<name> <text>\n`.
pub open spec fn spec_line(name: Seq<u8>, text: Seq<u8>) -> Seq<u8> {
    name + seq![32u8] + text + seq![10u8]
}

/// The `_count` suffix of a histogram's count line.
pub open spec fn count_suffix() -> Seq<u8> {
    seq![95u8, 99u8, 111u8, 117u8, 110u8, 116u8]
}

/// The `_sum` suffix of a histogram's sum line.
pub open spec fn sum_suffix() -> Seq<u8> {
    seq![95u8, 115u8, 117u8, 109u8]
}

/// How many caller-supplied value texts the entries from `i` on consume:
/// one per gauge and one per histogram.
pub open spec fn float_slot_count_from(s: Seq<EntryV>, i: int) -> int
    decreases s.len() - i,
{
    if i < 0 || i >= s.len() {
        0
    } else {
        (match s[i].metric {
            MetricV::Counter { .. } => 0int,
            _ => 1int,
        }) + float_slot_count_from(s, i + 1)
    }
}

/// How many caller-supplied value texts a snapshot consumes.
pub open spec fn float_slot_count(s: Seq<EntryV>) -> int {
    float_slot_count_from(s, 0)
}

pub proof fn lemma_float_slot_count_nonneg(s: Seq<EntryV>, i: int)
    ensures
        float_slot_count_from(s, i) >= 0,
    decreases s.len() - i,
{
    if 0 <= i < s.len() {
        lemma_float_slot_count_nonneg(s, i + 1);
    }
}

/// There are as many slots as texts the renderer consumes.
pub proof fn lemma_float_slots_len(s: Seq<EntryV>, i: int)
    ensures
        spec_float_slots_from(s, i).len() == float_slot_count_from(s, i),
    decreases s.len() - i,
{
    if 0 <= i < s.len() {
        lemma_float_slots_len(s, i + 1);
    }
}

/// The rendered text of the entries from `i` on, consuming texts from
/// slot `t` on.
pub open spec fn spec_render_from(s: Seq<EntryV>, texts: Seq<Seq<u8>>, i: int, t: int) -> Seq<u8>
    decreases s.len() - i,
{
    if i < 0 || i >= s.len() {
        Seq::empty()
    } else {
        match s[i].metric {
            MetricV::Counter { value } => spec_line(s[i].name, spec_dec(value as nat))
                + spec_render_from(s, texts, i + 1, t),
            MetricV::Gauge { .. } => spec_line(s[i].name, texts[t]) + spec_render_from(
                s,
                texts,
                i + 1,
                t + 1,
            ),
            MetricV::Histogram { samples } => spec_line(
                s[i].name + count_suffix(),
                spec_dec(samples.len()),
            ) + spec_line(s[i].name + sum_suffix(), texts[t]) + spec_render_from(
                s,
                texts,
                i + 1,
                t + 1,
            ),
        }
    }
}

/// The rendered text of a whole snapshot.
pub open spec fn spec_render(s: Seq<EntryV>, texts: Seq<Seq<u8>>) -> Seq<u8> {
    spec_render_from(s, texts, 0, 0)
}

/// The views of a table of value texts.
pub open spec fn texts_view(ts: Seq<Vec<u8>>) -> Seq<Seq<u8>> {
    Seq::new(ts.len(), |i: int| ts[i]@)
}

/// One value whose numeric text the caller supplies: a gauge's stored
/// pattern, or the samples whose sum a histogram's sum line shows.
pub enum FloatSlot {
    Gauge { bits: u64 },
    Samples { samples: Vec<u64> },
}

/// The mathematical value of one such slot.
pub enum FloatSlotV {
    Gauge { bits: u64 },
    Samples { samples: Seq<u64> },
}

impl View for FloatSlot {
    type V = FloatSlotV;

    open spec fn view(&self) -> FloatSlotV {
        match self {
            FloatSlot::Gauge { bits } => FloatSlotV::Gauge { bits: *bits },
            FloatSlot::Samples { samples } => FloatSlotV::Samples { samples: samples@ },
        }
    }
}

/// The slots of the entries from `i` on, in order.
pub open spec fn spec_float_slots_from(s: Seq<EntryV>, i: int) -> Seq<FloatSlotV>
    decreases s.len() - i,
{
    if i < 0 || i >= s.len() {
        Seq::empty()
    } else {
        (match s[i].metric {
            MetricV::Counter { .. } => Seq::empty(),
            MetricV::Gauge { bits } => seq![FloatSlotV::Gauge { bits }],
            MetricV::Histogram { samples } => seq![FloatSlotV::Samples { samples }],
        }) + spec_float_slots_from(s, i + 1)
    }
}

/// The slots of a whole snapshot, in order.
pub open spec fn spec_float_slots(s: Seq<EntryV>) -> Seq<FloatSlotV> {
    spec_float_slots_from(s, 0)
}

/// The decimal text of `n`.
pub fn u64_to_dec(n: u64) -> (r: Vec<u8>)
    ensures
        r@ == spec_dec(n as nat),
    decreases n,
{
    if n < 10 {
        let mut v: Vec<u8> = Vec::new();
        v.push(48 + (n as u8));
        proof {
            assert(v@ =~= spec_dec(n as nat));
        }
        v
    } else {
        let mut v = u64_to_dec(n / 10);
        v.push(48 + ((n % 10) as u8));
        proof {
            assert((n as nat) / 10 == (n / 10) as nat);
            assert((n as nat) % 10 == (n % 10) as nat);
        }
        v
    }
}

/// Appends one exposition line to `out`.
fn emit_line(out: &mut Vec<u8>, name: &Vec<u8>, text: &Vec<u8>)
    ensures
        final(out)@ == old(out)@ + spec_line(name@, text@),
{
    out.extend_from_slice(name.as_slice());
    out.push(32);
    out.extend_from_slice(text.as_slice());
    out.push(10);
    proof {
        assert(out@ =~= old(out)@ + spec_line(name@, text@));
    }
}

/// A clone of a sample list.
fn clone_samples(a: &Vec<u64>) -> (r: Vec<u64>)
    ensures
        r@ == a@,
{
    let mut r: Vec<u64> = Vec::new();
    let mut i: usize = 0;
    while i < a.len()
        invariant
            i <= a@.len(),
            r@ == a@.subrange(0, i as int),
        decreases a@.len() - i,
    {
        r.push(a[i]);
        proof {
            assert(r@ =~= a@.subrange(0, i + 1));
        }
        i += 1;
    }
    proof {
        assert(r@ =~= a@);
    }
    r
}

/// An immutable, fully materialized copy of every metric at one instant;
/// never changed after it is taken.
pub struct Snapshot {
    entries: Vec<Entry>,
}

impl View for Snapshot {
    type V = Seq<EntryV>;

    closed spec fn view(&self) -> Seq<EntryV> {
        Seq::new(self.entries@.len(), |i: int| self.entries@[i]@)
    }
}

impl Registry {
    /// A consistent copy of every current metric value; later mutations
    /// of the registry leave it untouched.
    pub fn snapshot(&self) -> (s: Snapshot)
        requires
            self.wf(),
        ensures
            s@ == self@,
            wf_entries(s@),
    {
        let items = self.entries_ref();
        let mut entries: Vec<Entry> = Vec::new();
        let mut i: usize = 0;
        while i < items.len()
            invariant
                i <= items@.len(),
                entries@.len() == i,
                forall|k: int| 0 <= k < i ==> (#[trigger] entries@[k]@) == items@[k]@,
            decreases items@.len() - i,
        {
            let e = &items[i];
            let metric = match &e.metric {
                Metric::Counter { value } => Metric::Counter { value: *value },
                Metric::Gauge { bits } => Metric::Gauge { bits: *bits },
                Metric::Histogram { samples } => Metric::Histogram {
                    samples: clone_samples(samples),
                },
            };
            entries.push(Entry { name: clone_bytes(&e.name), metric });
            i += 1;
        }
        let s = Snapshot { entries };
        proof {
            assert(s@ =~= self@);
        }
        s
    }
}

impl Snapshot {
    /// The number of value texts `render` expects.
    pub fn float_slot_len(&self) -> (r: usize)
        ensures
            r == float_slot_count(self@),
    {
        proof {
            lemma_float_slot_count_nonneg(self@, 0);
        }
        let mut r: usize = 0;
        let mut i: usize = 0;
        while i < self.entries.len()
            invariant
                i <= self.entries@.len(),
                self@.len() == self.entries@.len(),
                r == float_slot_count(self@) - float_slot_count_from(self@, i as int),
                r <= i,
            decreases self.entries@.len() - i,
        {
            match &self.entries[i].metric {
                Metric::Counter { .. } => {},
                _ => {
                    r += 1;
                },
            }
            proof {
                lemma_float_slot_count_nonneg(self@, i + 1);
            }
            i += 1;
        }
        r
    }

    /// The values whose texts the caller supplies, in the order `render`
    /// consumes them: each gauge's stored pattern, each histogram's
    /// samples.
    pub fn float_slots(&self) -> (r: Vec<FloatSlot>)
        ensures
            r@.len() == spec_float_slots(self@).len(),
            r@.len() == float_slot_count(self@),
            forall|k: int| 0 <= k < r@.len() ==> (#[trigger] r@[k]@) == spec_float_slots(self@)[k],
    {
        proof {
            lemma_float_slots_len(self@, 0);
        }
        let mut r: Vec<FloatSlot> = Vec::new();
        let mut i: usize = 0;
        let ghost whole = spec_float_slots(self@);
        while i < self.entries.len()
            invariant
                i <= self.entries@.len(),
                self@.len() == self.entries@.len(),
                whole == spec_float_slots(self@),
                texts_slots_eq(r@, whole, spec_float_slots_from(self@, i as int)),
            decreases self.entries@.len() - i,
        {
            let ghost prev = r@;
            let ghost rest = spec_float_slots_from(self@, i as int);
            let ghost next = spec_float_slots_from(self@, i + 1);
            match &self.entries[i].metric {
                Metric::Counter { .. } => {
                    proof {
                        assert(rest == next);
                    }
                },
                Metric::Gauge { bits } => {
                    r.push(FloatSlot::Gauge { bits: *bits });
                    proof {
                        assert(slots_view(r@) =~= slots_view(prev).push(r@[r@.len() - 1]@));
                        assert(slots_view(r@) + next =~= slots_view(prev) + rest);
                    }
                },
                Metric::Histogram { samples } => {
                    r.push(FloatSlot::Samples { samples: clone_samples(samples) });
                    proof {
                        assert(slots_view(r@) =~= slots_view(prev).push(r@[r@.len() - 1]@));
                        assert(slots_view(r@) + next =~= slots_view(prev) + rest);
                    }
                },
            }
            i += 1;
        }
        proof {
            assert(spec_float_slots_from(self@, self@.len() as int) =~= Seq::<FloatSlotV>::empty());
            assert(slots_view(r@) =~= whole);
            assert(forall|k: int| 0 <= k < r@.len() ==> (#[trigger] r@[k]@) == slots_view(r@)[k]);
        }
        r
    }
}

impl Snapshot {
    /// The exposition text of this snapshot: one `<name> <value>` line per
    /// counter and gauge and a `<name>_count` / `<name>_sum` pair per
    /// histogram, newline-terminated, in the snapshot's name-sorted order;
    /// `texts` supplies the numeric text of each gauge and histogram-sum
    /// value, in `float_slots` order.  An empty snapshot renders to an
    /// empty body.  Rendering reads the snapshot only: rendering twice
    /// with the same texts gives byte-identical output.
    pub fn render(&self, texts: &Vec<Vec<u8>>) -> (r: Vec<u8>)
        requires
            texts@.len() == float_slot_count(self@),
        ensures
            r@ == spec_render(self@, texts_view(texts@)),
    {
        let ghost tv = texts_view(texts@);
        let mut out: Vec<u8> = Vec::new();
        let mut i: usize = 0;
        let mut t: usize = 0;
        proof {
            assert(out@ + spec_render_from(self@, tv, 0, 0) =~= spec_render(self@, tv));
        }
        while i < self.entries.len()
            invariant
                i <= self.entries@.len(),
                self@.len() == self.entries@.len(),
                tv == texts_view(texts@),
                tv.len() == float_slot_count(self@),
                t + float_slot_count_from(self@, i as int) == tv.len(),
                out@ + spec_render_from(self@, tv, i as int, t as int) == spec_render(self@, tv),
            decreases self.entries@.len() - i,
        {
            let ghost out0 = out@;
            let ghost rest = spec_render_from(self@, tv, i as int, t as int);
            let e = &self.entries[i];
            match &e.metric {
                Metric::Counter { value } => {
                    let d = u64_to_dec(*value);
                    emit_line(&mut out, &e.name, &d);
                    proof {
                        let line = spec_line(self@[i as int].name, spec_dec(*value as nat));
                        assert(rest == line + spec_render_from(self@, tv, i + 1, t as int));
                        assert(out@ + spec_render_from(self@, tv, i + 1, t as int) =~= out0
                            + rest);
                    }
                },
                Metric::Gauge { .. } => {
                    proof {
                        lemma_float_slot_count_nonneg(self@, i + 1);
                    }
                    emit_line(&mut out, &e.name, &texts[t]);
                    proof {
                        let line = spec_line(self@[i as int].name, tv[t as int]);
                        assert(rest == line + spec_render_from(self@, tv, i + 1, t + 1));
                        assert(out@ + spec_render_from(self@, tv, i + 1, t + 1) =~= out0 + rest);
                    }
                    proof {
                        assert(t < texts@.len());
                        assert(texts@.len() == texts.len());
                    }
                    t += 1;
                },
                Metric::Histogram { samples } => {
                    proof {
                        lemma_float_slot_count_nonneg(self@, i + 1);
                    }
                    let mut cname = clone_bytes(&e.name);
                    cname.push(95);
                    cname.push(99);
                    cname.push(111);
                    cname.push(117);
                    cname.push(110);
                    cname.push(116);
                    let c = u64_to_dec(samples.len() as u64);
                    emit_line(&mut out, &cname, &c);
                    let mut sname = clone_bytes(&e.name);
                    sname.push(95);
                    sname.push(115);
                    sname.push(117);
                    sname.push(109);
                    emit_line(&mut out, &sname, &texts[t]);
                    proof {
                        assert(cname@ =~= self@[i as int].name + count_suffix());
                        assert(sname@ =~= self@[i as int].name + sum_suffix());
                        let line1 = spec_line(
                            self@[i as int].name + count_suffix(),
                            spec_dec(samples@.len()),
                        );
                        let line2 = spec_line(self@[i as int].name + sum_suffix(), tv[t as int]);
                        assert(rest == line1 + line2 + spec_render_from(self@, tv, i + 1, t + 1));
                        assert(out@ + spec_render_from(self@, tv, i + 1, t + 1) =~= out0 + rest);
                    }
                    proof {
                        assert(t < texts@.len());
                        assert(texts@.len() == texts.len());
                    }
                    t += 1;
                },
            }
            i += 1;
        }
        proof {
            assert(spec_render_from(self@, tv, self@.len() as int, t as int) =~= Seq::<u8>::empty());
            assert(out@ =~= spec_render(self@, tv));
        }
        out
    }
}

/// The views of a slot list.
pub open spec fn slots_view(ts: Seq<FloatSlot>) -> Seq<FloatSlotV> {
    Seq::new(ts.len(), |i: int| ts[i]@)
}

/// The built prefix plus the slots still to come make the whole.
pub open spec fn texts_slots_eq(
    built: Seq<FloatSlot>,
    whole: Seq<FloatSlotV>,
    rest: Seq<FloatSlotV>,
) -> bool {
    slots_view(built) + rest == whole
}

} // verus!
