//! The recording facade: name-based entry points that resolve or create
//! the registry handle and then delegate, holding no state of their own.
use vstd::prelude::*;

use crate::RecordError;
use crate::names::valid_name;
use crate::registry::EntryV;
use crate::registry::MetricV;
use crate::registry::Registry;
use crate::registry::hist_samples;
use crate::registry::insert_sorted;
use crate::registry::is_counter;
use crate::registry::is_gauge;
use crate::registry::is_histogram;
use crate::registry::spec_increment;
use crate::registry::spec_observe;
use crate::registry::spec_set_gauge;
use crate::registry::value_of;

verus! {

/// The registry state after `name` is registered as a counter: unchanged
/// if the name is already bound, else with a fresh zero counter.
pub open spec fn spec_register_counter(s: Seq<EntryV>, name: Seq<u8>) -> Seq<EntryV> {
    if value_of(s, name) is None {
        insert_sorted(s, EntryV { name, metric: MetricV::Counter { value: 0 } })
    } else {
        s
    }
}

/// The registry state after `name` is registered as a gauge.
pub open spec fn spec_register_gauge(s: Seq<EntryV>, name: Seq<u8>) -> Seq<EntryV> {
    if value_of(s, name) is None {
        insert_sorted(s, EntryV { name, metric: MetricV::Gauge { bits: 0 } })
    } else {
        s
    }
}

/// The registry state after `name` is registered as a histogram.
pub open spec fn spec_register_histogram(s: Seq<EntryV>, name: Seq<u8>) -> Seq<EntryV> {
    if value_of(s, name) is None {
        insert_sorted(s, EntryV { name, metric: MetricV::Histogram { samples: Seq::empty() } })
    } else {
        s
    }
}

/// Records `delta` on the counter `name`, creating the counter at zero if
/// the name is new; a name bound to another kind is rejected and the
/// registry is left exactly as it was.
pub fn increment(reg: &mut Registry, name: Vec<u8>, delta: u64) -> (r: Result<(), RecordError>)
    requires
        old(reg).wf(),
        valid_name(name@),
    ensures
        final(reg).wf(),
        r is Err <==> (match value_of(old(reg)@, name@) {
            Some(m) => !(m is Counter),
            None => false,
        }),
        r is Err ==> r == Err::<(), RecordError>(RecordError::RegistrationConflict) && final(reg)@
            == old(reg)@,
        r is Ok ==> final(reg)@ == spec_increment(
            spec_register_counter(old(reg)@, name@),
            name@,
            delta,
        ),
{
    match reg.get_or_create_counter(name) {
        Ok(h) => {
            reg.increment(&h, delta);
            Ok(())
        },
        Err(e) => Err(e),
    }
}

/// Records an absolute gauge value (a 64-bit pattern) under `name`,
/// creating the gauge if the name is new; a name bound to another kind is
/// rejected and the registry is left exactly as it was.
pub fn set_gauge(reg: &mut Registry, name: Vec<u8>, bits: u64) -> (r: Result<(), RecordError>)
    requires
        old(reg).wf(),
        valid_name(name@),
    ensures
        final(reg).wf(),
        r is Err <==> (match value_of(old(reg)@, name@) {
            Some(m) => !(m is Gauge),
            None => false,
        }),
        r is Err ==> r == Err::<(), RecordError>(RecordError::RegistrationConflict) && final(reg)@
            == old(reg)@,
        r is Ok ==> final(reg)@ == spec_set_gauge(
            spec_register_gauge(old(reg)@, name@),
            name@,
            bits,
        ),
{
    match reg.get_or_create_gauge(name) {
        Ok(h) => {
            reg.set_gauge(&h, bits);
            Ok(())
        },
        Err(e) => Err(e),
    }
}

/// Records one observed sample (a 64-bit pattern) on the histogram
/// `name`, creating the histogram if the name is new; a name bound to
/// another kind is rejected and the registry is left exactly as it was.
pub fn observe(reg: &mut Registry, name: Vec<u8>, sample: u64) -> (r: Result<(), RecordError>)
    requires
        old(reg).wf(),
        valid_name(name@),
    ensures
        final(reg).wf(),
        r is Err <==> (match value_of(old(reg)@, name@) {
            Some(m) => !(m is Histogram),
            None => false,
        }),
        r is Err ==> r == Err::<(), RecordError>(RecordError::RegistrationConflict) && final(reg)@
            == old(reg)@,
        r is Ok ==> final(reg)@ == spec_observe(
            spec_register_histogram(old(reg)@, name@),
            name@,
            sample,
        ),
{
    match reg.get_or_create_histogram(name) {
        Ok(h) => {
            reg.observe(&h, sample);
            Ok(())
        },
        Err(e) => Err(e),
    }
}

} // verus!
