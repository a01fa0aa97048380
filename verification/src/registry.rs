//! The metric registry: the sole owner of all live metric state.
//!
//! Metrics are stored sorted by name, with each name bound to exactly one
//! metric kind for its lifetime.  Counters hold a `u64`; gauges and
//! histogram samples hold 64-bit patterns that the registry stores and
//! returns without interpreting, so a stored value is always exactly one
//! of the written values, never a torn mixture.
use vstd::prelude::*;

use crate::RecordError;
use crate::names::bytes_eq;
use crate::names::bytes_lt;
use crate::names::lemma_lex_lt_connected;
use crate::names::lemma_lex_lt_irrefl;
use crate::names::lemma_lex_lt_trans;
use crate::names::lex_lt;
use crate::names::valid_name;

verus! {

/// The mathematical value of one metric.
pub enum MetricV {
    Counter { value: u64 },
    Gauge { bits: u64 },
    Histogram { samples: Seq<u64> },
}

/// The mathematical value of one registry entry: a name bound to a metric.
pub struct EntryV {
    pub name: Seq<u8>,
    pub metric: MetricV,
}

/// One stored metric.
pub enum Metric {
    Counter { value: u64 },
    Gauge { bits: u64 },
    Histogram { samples: Vec<u64> },
}

/// One stored registry entry.
pub struct Entry {
    pub name: Vec<u8>,
    pub metric: Metric,
}

impl View for Metric {
    type V = MetricV;

    open spec fn view(&self) -> MetricV {
        match self {
            Metric::Counter { value } => MetricV::Counter { value: *value },
            Metric::Gauge { bits } => MetricV::Gauge { bits: *bits },
            Metric::Histogram { samples } => MetricV::Histogram { samples: samples@ },
        }
    }
}

impl View for Entry {
    type V = EntryV;

    open spec fn view(&self) -> EntryV {
        EntryV { name: self.name@, metric: self.metric@ }
    }
}

/// The entries are strictly sorted by name.
pub open spec fn sorted_names(s: Seq<EntryV>) -> bool {
    forall|k: int| 0 <= k < s.len() - 1 ==> lex_lt(s[k].name, #[trigger] s[k + 1].name)
}

/// A well-formed registry state: sorted by name, every name valid.
pub open spec fn wf_entries(s: Seq<EntryV>) -> bool {
    sorted_names(s) && forall|k: int| 0 <= k < s.len() ==> valid_name(#[trigger] s[k].name)
}

/// The metric bound to `name` from position `i` on, if any.
pub open spec fn value_of_from(s: Seq<EntryV>, name: Seq<u8>, i: int) -> Option<MetricV>
    decreases s.len() - i,
{
    if i < 0 || i >= s.len() {
        None
    } else if s[i].name == name {
        Some(s[i].metric)
    } else {
        value_of_from(s, name, i + 1)
    }
}

/// The metric bound to `name`, if any.
pub open spec fn value_of(s: Seq<EntryV>, name: Seq<u8>) -> Option<MetricV> {
    value_of_from(s, name, 0)
}

pub open spec fn is_counter(s: Seq<EntryV>, name: Seq<u8>) -> bool {
    match value_of(s, name) {
        Some(MetricV::Counter { .. }) => true,
        _ => false,
    }
}

pub open spec fn counter_val(s: Seq<EntryV>, name: Seq<u8>) -> u64 {
    match value_of(s, name) {
        Some(MetricV::Counter { value }) => value,
        _ => 0,
    }
}

pub open spec fn is_gauge(s: Seq<EntryV>, name: Seq<u8>) -> bool {
    match value_of(s, name) {
        Some(MetricV::Gauge { .. }) => true,
        _ => false,
    }
}

pub open spec fn gauge_bits(s: Seq<EntryV>, name: Seq<u8>) -> u64 {
    match value_of(s, name) {
        Some(MetricV::Gauge { bits }) => bits,
        _ => 0,
    }
}

pub open spec fn is_histogram(s: Seq<EntryV>, name: Seq<u8>) -> bool {
    match value_of(s, name) {
        Some(MetricV::Histogram { .. }) => true,
        _ => false,
    }
}

pub open spec fn hist_samples(s: Seq<EntryV>, name: Seq<u8>) -> Seq<u64> {
    match value_of(s, name) {
        Some(MetricV::Histogram { samples }) => samples,
        _ => Seq::empty(),
    }
}

/// Saturating 64-bit addition.
pub open spec fn sat_add(a: u64, b: u64) -> u64 {
    if a + b > u64::MAX {
        u64::MAX
    } else {
        (a + b) as u64
    }
}

/// The state with the metric bound to `name` replaced by `m`; every other
/// entry, and every name, is unchanged.
pub open spec fn update_metric(s: Seq<EntryV>, name: Seq<u8>, m: MetricV) -> Seq<EntryV> {
    Seq::new(
        s.len(),
        |k: int|
            if s[k].name == name {
                EntryV { name: s[k].name, metric: m }
            } else {
                s[k]
            },
    )
}

/// The effect of one `increment` of `delta` on the counter `name`.
pub open spec fn spec_increment(s: Seq<EntryV>, name: Seq<u8>, delta: u64) -> Seq<EntryV> {
    update_metric(s, name, MetricV::Counter { value: sat_add(counter_val(s, name), delta) })
}

/// The effect of one `set_gauge` of `bits` on the gauge `name`.
pub open spec fn spec_set_gauge(s: Seq<EntryV>, name: Seq<u8>, bits: u64) -> Seq<EntryV> {
    update_metric(s, name, MetricV::Gauge { bits })
}

/// The effect of one `observe` of `sample` on the histogram `name`.
pub open spec fn spec_observe(s: Seq<EntryV>, name: Seq<u8>, sample: u64) -> Seq<EntryV> {
    update_metric(
        s,
        name,
        MetricV::Histogram { samples: hist_samples(s, name).push(sample) },
    )
}

/// Insertion into a name-sorted state, before the first larger name.
pub open spec fn insert_sorted(s: Seq<EntryV>, e: EntryV) -> Seq<EntryV>
    decreases s.len(),
{
    if s.len() == 0 {
        seq![e]
    } else if lex_lt(e.name, s[0].name) {
        seq![e] + s
    } else {
        seq![s[0]] + insert_sorted(s.skip(1), e)
    }
}

pub proof fn lemma_sorted_lt(s: Seq<EntryV>, k: int, l: int)
    requires
        sorted_names(s),
        0 <= k < l < s.len(),
    ensures
        lex_lt(s[k].name, s[l].name),
    decreases l - k,
{
    if l == k + 1 {
    } else {
        lemma_sorted_lt(s, k, l - 1);
        assert(lex_lt(s[l - 1].name, s[l - 1 + 1].name));
        lemma_lex_lt_trans(s[k].name, s[l - 1].name, s[l].name);
    }
}

/// In a sorted state all names are distinct.
pub proof fn lemma_unique_names(s: Seq<EntryV>)
    requires
        sorted_names(s),
    ensures
        forall|k: int, l: int|
            0 <= k < s.len() && 0 <= l < s.len() && k != l ==> (#[trigger] s[k].name)
                != (#[trigger] s[l].name),
{
    assert forall|k: int, l: int|
        0 <= k < s.len() && 0 <= l < s.len() && k != l implies (#[trigger] s[k].name)
        != (#[trigger] s[l].name) by {
        if k < l {
            lemma_sorted_lt(s, k, l);
            lemma_lex_lt_irrefl(s[k].name);
        } else {
            lemma_sorted_lt(s, l, k);
            lemma_lex_lt_irrefl(s[k].name);
        }
    }
}

pub proof fn lemma_value_of_from_none(s: Seq<EntryV>, name: Seq<u8>, i: int)
    requires
        0 <= i,
        value_of_from(s, name, i) is None,
    ensures
        forall|k: int| i <= k < s.len() ==> (#[trigger] s[k].name) != name,
    decreases s.len() - i,
{
    if 0 <= i < s.len() {
        lemma_value_of_from_none(s, name, i + 1);
    }
}

/// An absent name occurs nowhere in the state.
pub proof fn lemma_value_of_none(s: Seq<EntryV>, name: Seq<u8>)
    requires
        value_of(s, name) is None,
    ensures
        forall|k: int| 0 <= k < s.len() ==> (#[trigger] s[k].name) != name,
{
    lemma_value_of_from_none(s, name, 0);
}

pub proof fn lemma_value_of_from_at(s: Seq<EntryV>, name: Seq<u8>, i: int, j: int)
    requires
        0 <= i <= j < s.len(),
        s[j].name == name,
        forall|k: int| i <= k < j ==> (#[trigger] s[k].name) != name,
    ensures
        value_of_from(s, name, i) == Some(s[j].metric),
    decreases j - i,
{
    if i < j {
        lemma_value_of_from_at(s, name, i + 1, j);
    }
}

/// Looking a name up finds the entry that holds it.
pub proof fn lemma_value_of_at(s: Seq<EntryV>, name: Seq<u8>, j: int)
    requires
        sorted_names(s),
        0 <= j < s.len(),
        s[j].name == name,
    ensures
        value_of(s, name) == Some(s[j].metric),
{
    lemma_unique_names(s);
    lemma_value_of_from_at(s, name, 0, j);
}

/// Replacing the metric under one name is invisible to every other name,
/// binds `m` under `name` if `name` was bound at all, and keeps the state
/// well formed.
pub proof fn lemma_update_metric(s: Seq<EntryV>, name: Seq<u8>, m: MetricV)
    requires
        wf_entries(s),
    ensures
        wf_entries(update_metric(s, name, m)),
        value_of(update_metric(s, name, m), name) == match value_of(s, name) {
            Some(_) => Some(m),
            None => None::<MetricV>,
        },
        forall|o: Seq<u8>| o != name ==> value_of(update_metric(s, name, m), o) == value_of(s, o),
{
    let u = update_metric(s, name, m);
    assert(forall|k: int| 0 <= k < s.len() ==> (#[trigger] u[k].name) == s[k].name);
    match value_of(s, name) {
        Some(_) => {
            lemma_value_of_from_some_index(s, name, 0);
            let j = choose|j: int|
                0 <= j < s.len() && s[j].name == name && value_of(s, name) == Some(s[j].metric);
            lemma_value_of_at(u, name, j);
        },
        None => {
            lemma_value_of_none(s, name);
            lemma_value_of_from_none_all(u, name, 0);
        },
    }
    assert forall|o: Seq<u8>| o != name implies value_of(u, o) == value_of(s, o) by {
        lemma_value_of_update_other(s, name, m, o, 0);
    }
}

/// If a name is bound, some entry holds it.
pub proof fn lemma_value_of_from_some_index(s: Seq<EntryV>, name: Seq<u8>, i: int)
    requires
        0 <= i,
        value_of_from(s, name, i) is Some,
    ensures
        exists|j: int|
            0 <= j < s.len() && (#[trigger] s[j].name) == name && value_of_from(s, name, i)
                == Some(s[j].metric),
    decreases s.len() - i,
{
    if i < s.len() {
        if s[i].name == name {
        } else {
            lemma_value_of_from_some_index(s, name, i + 1);
        }
    }
}

pub proof fn lemma_value_of_from_none_all(s: Seq<EntryV>, name: Seq<u8>, i: int)
    requires
        0 <= i,
        forall|k: int| 0 <= k < s.len() ==> (#[trigger] s[k].name) != name,
    ensures
        value_of_from(s, name, i) is None,
    decreases s.len() - i,
{
    if i < s.len() {
        lemma_value_of_from_none_all(s, name, i + 1);
    }
}

proof fn lemma_value_of_update_other(
    s: Seq<EntryV>,
    name: Seq<u8>,
    m: MetricV,
    o: Seq<u8>,
    i: int,
)
    requires
        0 <= i,
        o != name,
    ensures
        value_of_from(update_metric(s, name, m), o, i) == value_of_from(s, o, i),
    decreases s.len() - i,
{
    if i < s.len() {
        lemma_value_of_update_other(s, name, m, o, i + 1);
    }
}

/// The positional form of `insert_sorted`: inserting before the first
/// larger name splits the state around position `j`.
pub proof fn lemma_insert_sorted_at(s: Seq<EntryV>, e: EntryV, j: int)
    requires
        0 <= j <= s.len(),
        forall|k: int| 0 <= k < j ==> !lex_lt(e.name, (#[trigger] s[k].name)),
        j < s.len() ==> lex_lt(e.name, s[j].name),
    ensures
        insert_sorted(s, e) == s.subrange(0, j) + seq![e] + s.subrange(j, s.len() as int),
    decreases j,
{
    if j == 0 {
        if s.len() == 0 {
            assert(insert_sorted(s, e) =~= s.subrange(0, 0) + seq![e] + s.subrange(0, 0));
        } else {
            assert(insert_sorted(s, e) =~= s.subrange(0, 0) + seq![e] + s.subrange(0, s.len() as int));
        }
    } else {
        let t = s.skip(1);
        assert(forall|k: int| 0 <= k < j - 1 ==> (#[trigger] t[k].name) == s[k + 1].name);
        lemma_insert_sorted_at(t, e, j - 1);
        assert(insert_sorted(s, e) =~= s.subrange(0, j) + seq![e] + s.subrange(j, s.len() as int)) by {
            assert(insert_sorted(s, e) == seq![s[0]] + insert_sorted(t, e));
            assert(insert_sorted(t, e) == t.subrange(0, j - 1) + seq![e] + t.subrange(
                j - 1,
                t.len() as int,
            ));
            assert(forall|k: int| 0 <= k < t.len() ==> (#[trigger] t[k]) == s[k + 1]);
        }
    }
}

/// Inserting an absent, valid name keeps the state well formed, binds the
/// new entry, and leaves every other binding as it was.
pub proof fn lemma_insert_sorted(s: Seq<EntryV>, e: EntryV, j: int)
    requires
        wf_entries(s),
        valid_name(e.name),
        value_of(s, e.name) is None,
        0 <= j <= s.len(),
        forall|k: int| 0 <= k < j ==> !lex_lt(e.name, (#[trigger] s[k].name)),
        j < s.len() ==> lex_lt(e.name, s[j].name),
    ensures
        wf_entries(insert_sorted(s, e)),
        value_of(insert_sorted(s, e), e.name) == Some(e.metric),
        forall|o: Seq<u8>| o != e.name ==> value_of(insert_sorted(s, e), o) == value_of(s, o),
{
    lemma_value_of_none(s, e.name);
    lemma_insert_sorted_at(s, e, j);
    let u = insert_sorted(s, e);
    assert(u.len() == s.len() + 1);
    assert(forall|k: int| 0 <= k < j ==> (#[trigger] u[k]) == s[k]);
    assert(u[j] == e);
    assert(forall|k: int| j < k < u.len() ==> (#[trigger] u[k]) == s[k - 1]);
    // sortedness: inside the old parts it is inherited; at the two seams it
    // follows from the position of j and connectedness of the order.
    assert forall|k: int| 0 <= k < u.len() - 1 implies lex_lt(u[k].name, #[trigger] u[k + 1].name) by {
        if k + 1 < j {
            assert(lex_lt(s[k].name, s[k + 1].name));
        } else if k + 1 == j {
            // s[j-1] before e: names differ and e is not below s[j-1].
            assert(s[j - 1].name != e.name);
            lemma_lex_lt_connected(s[j - 1].name, e.name);
        } else if k == j {
            assert(lex_lt(e.name, s[j].name));
        } else {
            assert(lex_lt(s[k - 1].name, s[k - 1 + 1].name));
        }
    }
    lemma_value_of_at(u, e.name, j);
    assert forall|o: Seq<u8>| o != e.name implies value_of(u, o) == value_of(s, o) by {
        if value_of(s, o) is Some {
            lemma_value_of_from_some_index(s, o, 0);
            let l = choose|l: int|
                0 <= l < s.len() && s[l].name == o && value_of(s, o) == Some(s[l].metric);
            lemma_unique_names(s);
            if l < j {
                lemma_value_of_at(u, o, l);
            } else {
                lemma_value_of_at(u, o, l + 1);
            }
        } else {
            lemma_value_of_none(s, o);
            lemma_value_of_from_none_all(u, o, 0);
        }
    }
}

/// A handle to a registered counter: the name it was registered under.
pub struct CounterHandle {
    name: Vec<u8>,
}

/// A handle to a registered gauge.
pub struct GaugeHandle {
    name: Vec<u8>,
}

/// A handle to a registered histogram.
pub struct HistogramHandle {
    name: Vec<u8>,
}

impl View for CounterHandle {
    type V = Seq<u8>;

    closed spec fn view(&self) -> Seq<u8> {
        self.name@
    }
}

impl View for GaugeHandle {
    type V = Seq<u8>;

    closed spec fn view(&self) -> Seq<u8> {
        self.name@
    }
}

impl View for HistogramHandle {
    type V = Seq<u8>;

    closed spec fn view(&self) -> Seq<u8> {
        self.name@
    }
}

/// A copy of a byte string.
pub fn clone_bytes(a: &Vec<u8>) -> (r: Vec<u8>)
    ensures
        r@ == a@,
{
    let mut r: Vec<u8> = Vec::new();
    let mut i: usize = 0;
    while i < a.len()
        invariant
            i <= a@.len(),
            r@ == a@.subrange(0, i as int),
        decreases a@.len() - i,
    {
        r.push(a[i]);
        proof {
            assert(r@ =~= a@.subrange(0, i + 1));
        }
        i += 1;
    }
    proof {
        assert(r@ =~= a@);
    }
    r
}

/// The registry: every live metric, stored sorted by name.
pub struct Registry {
    items: Vec<Entry>,
}

impl View for Registry {
    type V = Seq<EntryV>;

    closed spec fn view(&self) -> Seq<EntryV> {
        Seq::new(self.items@.len(), |i: int| self.items@[i]@)
    }
}

impl Registry {
    /// The registry is well formed: sorted by name, names valid.
    pub open spec fn wf(&self) -> bool {
        wf_entries(self@)
    }

    /// A registry with no metrics.
    pub fn new() -> (r: Registry)
        ensures
            r.wf(),
            r@ == Seq::<EntryV>::empty(),
    {
        let r = Registry { items: Vec::new() };
        proof {
            assert(r@ =~= Seq::<EntryV>::empty());
        }
        r
    }

    /// A read-only borrow of the stored entries, for taking snapshots.
    pub(crate) fn entries_ref(&self) -> (r: &Vec<Entry>)
        ensures
            r@.len() == self@.len(),
            forall|k: int| 0 <= k < r@.len() ==> (#[trigger] r@[k]@) == self@[k],
    {
        &self.items
    }

    /// The position of `name`, if it is registered.
    fn find(&self, name: &Vec<u8>) -> (r: Option<usize>)
        ensures
            match r {
                Some(i) => i < self@.len() && self@[i as int].name == name@ && value_of(
                    self@,
                    name@,
                ) == Some(self@[i as int].metric),
                None => value_of(self@, name@) is None,
            },
    {
        let mut i: usize = 0;
        while i < self.items.len()
            invariant
                i <= self.items@.len(),
                self@.len() == self.items@.len(),
                value_of(self@, name@) == value_of_from(self@, name@, i as int),
            decreases self.items@.len() - i,
        {
            if bytes_eq(&self.items[i].name, name) {
                return Some(i);
            }
            i += 1;
        }
        None
    }

    /// The position at which an absent name belongs in the sorted order.
    fn insert_pos(&self, name: &Vec<u8>) -> (j: usize)
        requires
            self.wf(),
            value_of(self@, name@) is None,
        ensures
            j <= self@.len(),
            forall|k: int| 0 <= k < j ==> !lex_lt(name@, (#[trigger] self@[k].name)),
            j < self@.len() ==> lex_lt(name@, self@[j as int].name),
    {
        proof {
            lemma_value_of_none(self@, name@);
        }
        let mut j: usize = 0;
        while j < self.items.len()
            invariant
                j <= self.items@.len(),
                self@.len() == self.items@.len(),
                value_of(self@, name@) is None,
                forall|k: int| 0 <= k < j ==> !lex_lt(name@, (#[trigger] self@[k].name)),
            decreases self.items@.len() - j,
        {
            if bytes_lt(name, &self.items[j].name) {
                return j;
            }
            proof {
                lemma_value_of_none(self@, name@);
                assert(self@[j as int].name != name@);
            }
            j += 1;
        }
        j
    }

    /// Registers `name` as a counter, or returns the handle of the counter
    /// already registered under it; a name bound to another kind is a
    /// registration conflict and the registry is left untouched.
    pub fn get_or_create_counter(&mut self, name: Vec<u8>) -> (r: Result<
        CounterHandle,
        RecordError,
    >)
        requires
            old(self).wf(),
            valid_name(name@),
        ensures
            final(self).wf(),
            match value_of(old(self)@, name@) {
                None => r is Ok && final(self)@ == insert_sorted(
                    old(self)@,
                    EntryV { name: name@, metric: MetricV::Counter { value: 0 } },
                ),
                Some(MetricV::Counter { .. }) => r is Ok && final(self)@ == old(self)@,
                Some(_) => r == Err::<CounterHandle, RecordError>(
                    RecordError::RegistrationConflict,
                ) && final(self)@ == old(self)@,
            },
            r matches Ok(h) ==> h@ == name@ && is_counter(final(self)@, name@),
    {
        match self.find(&name) {
            Some(i) => {
                match &self.items[i].metric {
                    Metric::Counter { .. } => Ok(CounterHandle { name }),
                    _ => Err(RecordError::RegistrationConflict),
                }
            },
            None => {
                let j = self.insert_pos(&name);
                let entry = Entry {
                    name: clone_bytes(&name),
                    metric: Metric::Counter { value: 0 },
                };
                let ghost old_view = self@;
                let ghost ev = EntryV { name: name@, metric: MetricV::Counter { value: 0 } };
                self.items.insert(j, entry);
                proof {
                    lemma_insert_sorted_at(old_view, ev, j as int);
                    assert(self@ =~= insert_sorted(old_view, ev));
                    lemma_insert_sorted(old_view, ev, j as int);
                }
                Ok(CounterHandle { name })
            },
        }
    }

    /// Registers `name` as a gauge, or returns the handle of the existing
    /// gauge; a name bound to another kind is a registration conflict.
    pub fn get_or_create_gauge(&mut self, name: Vec<u8>) -> (r: Result<GaugeHandle, RecordError>)
        requires
            old(self).wf(),
            valid_name(name@),
        ensures
            final(self).wf(),
            match value_of(old(self)@, name@) {
                None => r is Ok && final(self)@ == insert_sorted(
                    old(self)@,
                    EntryV { name: name@, metric: MetricV::Gauge { bits: 0 } },
                ),
                Some(MetricV::Gauge { .. }) => r is Ok && final(self)@ == old(self)@,
                Some(_) => r == Err::<GaugeHandle, RecordError>(RecordError::RegistrationConflict)
                    && final(self)@ == old(self)@,
            },
            r matches Ok(h) ==> h@ == name@ && is_gauge(final(self)@, name@),
    {
        match self.find(&name) {
            Some(i) => {
                match &self.items[i].metric {
                    Metric::Gauge { .. } => Ok(GaugeHandle { name }),
                    _ => Err(RecordError::RegistrationConflict),
                }
            },
            None => {
                let j = self.insert_pos(&name);
                let entry = Entry { name: clone_bytes(&name), metric: Metric::Gauge { bits: 0 } };
                let ghost old_view = self@;
                let ghost ev = EntryV { name: name@, metric: MetricV::Gauge { bits: 0 } };
                self.items.insert(j, entry);
                proof {
                    lemma_insert_sorted_at(old_view, ev, j as int);
                    assert(self@ =~= insert_sorted(old_view, ev));
                    lemma_insert_sorted(old_view, ev, j as int);
                }
                Ok(GaugeHandle { name })
            },
        }
    }

    /// Registers `name` as a histogram, or returns the handle of the
    /// existing histogram; a name bound to another kind is a conflict.
    pub fn get_or_create_histogram(&mut self, name: Vec<u8>) -> (r: Result<
        HistogramHandle,
        RecordError,
    >)
        requires
            old(self).wf(),
            valid_name(name@),
        ensures
            final(self).wf(),
            match value_of(old(self)@, name@) {
                None => r is Ok && final(self)@ == insert_sorted(
                    old(self)@,
                    EntryV { name: name@, metric: MetricV::Histogram { samples: Seq::empty() } },
                ),
                Some(MetricV::Histogram { .. }) => r is Ok && final(self)@ == old(self)@,
                Some(_) => r == Err::<HistogramHandle, RecordError>(
                    RecordError::RegistrationConflict,
                ) && final(self)@ == old(self)@,
            },
            r matches Ok(h) ==> h@ == name@ && is_histogram(final(self)@, name@),
    {
        match self.find(&name) {
            Some(i) => {
                match &self.items[i].metric {
                    Metric::Histogram { .. } => Ok(HistogramHandle { name }),
                    _ => Err(RecordError::RegistrationConflict),
                }
            },
            None => {
                let j = self.insert_pos(&name);
                let entry = Entry {
                    name: clone_bytes(&name),
                    metric: Metric::Histogram { samples: Vec::new() },
                };
                let ghost old_view = self@;
                let ghost ev = EntryV {
                    name: name@,
                    metric: MetricV::Histogram { samples: Seq::empty() },
                };
                self.items.insert(j, entry);
                proof {
                    lemma_insert_sorted_at(old_view, ev, j as int);
                    assert(self@ =~= insert_sorted(old_view, ev));
                    lemma_insert_sorted(old_view, ev, j as int);
                }
                Ok(HistogramHandle { name })
            },
        }
    }

    /// Adds `delta` to the counter, saturating at the top of `u64`; no
    /// other metric changes.
    pub fn increment(&mut self, h: &CounterHandle, delta: u64)
        requires
            old(self).wf(),
            is_counter(old(self)@, h@),
        ensures
            final(self).wf(),
            final(self)@ == spec_increment(old(self)@, h@, delta),
    {
        let i = match self.find(&h.name) {
            Some(i) => i,
            None => {
                proof {
                    assert(false);
                }
                0
            },
        };
        let cur: u64 = match &self.items[i].metric {
            Metric::Counter { value } => *value,
            _ => {
                proof {
                    assert(false);
                }
                0
            },
        };
        let ghost old_view = self@;
        self.items[i].metric = Metric::Counter { value: cur.saturating_add(delta) };
        proof {
            lemma_unique_names(old_view);
            assert(self@ =~= spec_increment(old_view, h@, delta));
            lemma_update_metric(old_view, h@, MetricV::Counter { value: sat_add(cur, delta) });
        }
    }

    /// Stores the written bit pattern in the gauge: last writer wins, and
    /// the stored value is always exactly one written value.
    pub fn set_gauge(&mut self, h: &GaugeHandle, bits: u64)
        requires
            old(self).wf(),
            is_gauge(old(self)@, h@),
        ensures
            final(self).wf(),
            final(self)@ == spec_set_gauge(old(self)@, h@, bits),
    {
        let i = match self.find(&h.name) {
            Some(i) => i,
            None => {
                proof {
                    assert(false);
                }
                0
            },
        };
        let ghost old_view = self@;
        self.items[i].metric = Metric::Gauge { bits };
        proof {
            lemma_unique_names(old_view);
            assert(self@ =~= spec_set_gauge(old_view, h@, bits));
            lemma_update_metric(old_view, h@, MetricV::Gauge { bits });
        }
    }

    /// The current value of the counter `name`, if one is registered.
    pub fn counter_value(&self, name: &Vec<u8>) -> (r: Option<u64>)
        ensures
            r == (match value_of(self@, name@) {
                Some(MetricV::Counter { value }) => Some(value),
                _ => None::<u64>,
            }),
    {
        match self.find(name) {
            Some(i) => match &self.items[i].metric {
                Metric::Counter { value } => Some(*value),
                _ => None,
            },
            None => None,
        }
    }

    /// The pattern currently stored in the gauge `name`, if one is
    /// registered.
    pub fn gauge_value(&self, name: &Vec<u8>) -> (r: Option<u64>)
        ensures
            r == (match value_of(self@, name@) {
                Some(MetricV::Gauge { bits }) => Some(bits),
                _ => None::<u64>,
            }),
    {
        match self.find(name) {
            Some(i) => match &self.items[i].metric {
                Metric::Gauge { bits } => Some(*bits),
                _ => None,
            },
            None => None,
        }
    }

    /// How many samples the histogram `name` has recorded, if one is
    /// registered.
    pub fn histogram_count(&self, name: &Vec<u8>) -> (r: Option<usize>)
        ensures
            r == (match value_of(self@, name@) {
                Some(MetricV::Histogram { samples }) => Some(samples.len() as usize),
                _ => None::<usize>,
            }),
    {
        match self.find(name) {
            Some(i) => match &self.items[i].metric {
                Metric::Histogram { samples } => Some(samples.len()),
                _ => None,
            },
            None => None,
        }
    }

    /// Appends one observed sample to the histogram: the count grows by
    /// one and the recorded samples are kept in order.
    pub fn observe(&mut self, h: &HistogramHandle, sample: u64)
        requires
            old(self).wf(),
            is_histogram(old(self)@, h@),
        ensures
            final(self).wf(),
            final(self)@ == spec_observe(old(self)@, h@, sample),
    {
        let i = match self.find(&h.name) {
            Some(i) => i,
            None => {
                proof {
                    assert(false);
                }
                0
            },
        };
        let ghost old_view = self@;
        match &mut self.items[i].metric {
            Metric::Histogram { samples } => {
                samples.push(sample);
            },
            _ => {
                proof {
                    assert(false);
                }
            },
        }
        proof {
            lemma_unique_names(old_view);
            assert(self@ =~= spec_observe(old_view, h@, sample));
            lemma_update_metric(
                old_view,
                h@,
                MetricV::Histogram { samples: hist_samples(old_view, h@).push(sample) },
            );
        }
    }
}

} // verus!
