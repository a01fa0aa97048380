use metrics_registry::RecordError;
use metrics_registry::recorder::{increment, observe, set_gauge};
use metrics_registry::registry::Registry;
use metrics_registry::render::FloatSlot;

fn name(s: &str) -> Vec<u8> {
    s.as_bytes().to_vec()
}

/// Formats the numeric text of every gauge and histogram-sum value of a
/// snapshot, in the order the renderer consumes them.
fn value_texts(slots: &[FloatSlot]) -> Vec<Vec<u8>> {
    let mut texts = Vec::new();
    for slot in slots {
        let v: f64 = match slot {
            FloatSlot::Gauge { bits } => f64::from_bits(*bits),
            FloatSlot::Samples { samples } => samples.iter().map(|b| f64::from_bits(*b)).sum(),
        };
        texts.push(format!("{}", v).into_bytes());
    }
    texts
}

fn body(reg: &Registry) -> String {
    let snap = reg.snapshot();
    let texts = value_texts(&snap.float_slots());
    String::from_utf8(snap.render(&texts)).unwrap()
}

#[test]
fn counter_increments_all_counted() {
    let mut reg = Registry::new();
    // Three producers, five increments of one each, interleaved.
    for _round in 0..5 {
        for _producer in 0..3 {
            increment(&mut reg, name("requests_total"), 1).unwrap();
        }
    }
    assert_eq!(body(&reg), "requests_total 15\n");
}

#[test]
fn counter_value_is_sum_of_deltas() {
    let mut reg = Registry::new();
    for delta in [3u64, 0, 7, 11] {
        increment(&mut reg, name("ops"), delta).unwrap();
    }
    assert_eq!(reg.counter_value(&name("ops")), Some(21));
}

#[test]
fn counter_saturates_at_max() {
    let mut reg = Registry::new();
    increment(&mut reg, name("big"), u64::MAX).unwrap();
    increment(&mut reg, name("big"), 5).unwrap();
    assert_eq!(reg.counter_value(&name("big")), Some(u64::MAX));
    assert_eq!(body(&reg), format!("big {}\n", u64::MAX));
}

#[test]
fn gauge_last_write_wins() {
    let mut reg = Registry::new();
    set_gauge(&mut reg, name("queue_depth"), 42.0f64.to_bits()).unwrap();
    set_gauge(&mut reg, name("queue_depth"), 7.0f64.to_bits()).unwrap();
    assert_eq!(body(&reg), "queue_depth 7\n");
}

#[test]
fn gauge_stores_exact_written_pattern() {
    let mut reg = Registry::new();
    set_gauge(&mut reg, name("temperature"), (-2.5f64).to_bits()).unwrap();
    assert_eq!(reg.gauge_value(&name("temperature")), Some((-2.5f64).to_bits()));
    assert_eq!(body(&reg), "temperature -2.5\n");
}

#[test]
fn histogram_count_and_sum() {
    let mut reg = Registry::new();
    observe(&mut reg, name("latency_ms"), 10.0f64.to_bits()).unwrap();
    observe(&mut reg, name("latency_ms"), 20.0f64.to_bits()).unwrap();
    let text = body(&reg);
    assert!(text.contains("latency_ms_count 2"));
    assert!(text.contains("latency_ms_sum 30"));
    assert_eq!(text, "latency_ms_count 2\nlatency_ms_sum 30\n");
    assert_eq!(reg.histogram_count(&name("latency_ms")), Some(2));
}

#[test]
fn histogram_count_equals_observe_calls() {
    let mut reg = Registry::new();
    for i in 0..100u64 {
        observe(&mut reg, name("lat"), (i as f64).to_bits()).unwrap();
    }
    assert_eq!(reg.histogram_count(&name("lat")), Some(100));
}

#[test]
fn registration_conflict_rejected_and_state_untouched() {
    let mut reg = Registry::new();
    increment(&mut reg, name("x"), 3).unwrap();
    let before = body(&reg);
    // Recording "x" as a gauge must fail and change nothing.
    assert_eq!(
        set_gauge(&mut reg, name("x"), 5.0f64.to_bits()),
        Err(RecordError::RegistrationConflict)
    );
    assert_eq!(reg.counter_value(&name("x")), Some(3));
    assert_eq!(body(&reg), before);
    // The same under the histogram facade.
    assert_eq!(
        observe(&mut reg, name("x"), 1.0f64.to_bits()),
        Err(RecordError::RegistrationConflict)
    );
    assert_eq!(body(&reg), before);
}

#[test]
fn conflict_in_every_direction() {
    let mut reg = Registry::new();
    set_gauge(&mut reg, name("g"), 1.0f64.to_bits()).unwrap();
    observe(&mut reg, name("h"), 1.0f64.to_bits()).unwrap();
    assert_eq!(increment(&mut reg, name("g"), 1), Err(RecordError::RegistrationConflict));
    assert_eq!(increment(&mut reg, name("h"), 1), Err(RecordError::RegistrationConflict));
    assert_eq!(
        observe(&mut reg, name("g"), 1.0f64.to_bits()),
        Err(RecordError::RegistrationConflict)
    );
    assert_eq!(
        set_gauge(&mut reg, name("h"), 1.0f64.to_bits()),
        Err(RecordError::RegistrationConflict)
    );
}

#[test]
fn empty_registry_renders_empty_body() {
    let reg = Registry::new();
    assert_eq!(body(&reg), "");
}

#[test]
fn rendering_twice_is_byte_identical() {
    let mut reg = Registry::new();
    increment(&mut reg, name("c"), 2).unwrap();
    set_gauge(&mut reg, name("g"), 1.5f64.to_bits()).unwrap();
    observe(&mut reg, name("h"), 4.0f64.to_bits()).unwrap();
    let snap = reg.snapshot();
    let texts = value_texts(&snap.float_slots());
    let first = snap.render(&texts);
    let second = snap.render(&texts);
    assert_eq!(first, second);
    assert_eq!(body(&reg), body(&reg));
}

#[test]
fn output_sorted_by_metric_name() {
    let mut reg = Registry::new();
    increment(&mut reg, name("zeta"), 1).unwrap();
    increment(&mut reg, name("alpha"), 2).unwrap();
    increment(&mut reg, name("mid"), 3).unwrap();
    assert_eq!(body(&reg), "alpha 2\nmid 3\nzeta 1\n");
}

#[test]
fn mixed_kinds_render_in_name_order() {
    let mut reg = Registry::new();
    observe(&mut reg, name("blat"), 2.0f64.to_bits()).unwrap();
    increment(&mut reg, name("creq"), 9).unwrap();
    set_gauge(&mut reg, name("adepth"), 3.0f64.to_bits()).unwrap();
    assert_eq!(body(&reg), "adepth 3\nblat_count 1\nblat_sum 2\ncreq 9\n");
}

#[test]
fn decimal_formatting_is_exact() {
    let mut reg = Registry::new();
    increment(&mut reg, name("zero"), 0).unwrap();
    increment(&mut reg, name("one"), 1).unwrap();
    increment(&mut reg, name("wide"), 18446744073709551615).unwrap();
    assert_eq!(body(&reg), "one 1\nwide 18446744073709551615\nzero 0\n");
}

#[test]
fn handles_are_idempotent_and_reusable() {
    let mut reg = Registry::new();
    let h1 = reg.get_or_create_counter(name("hits")).unwrap();
    let h2 = reg.get_or_create_counter(name("hits")).unwrap();
    reg.increment(&h1, 4);
    reg.increment(&h2, 6);
    assert_eq!(reg.counter_value(&name("hits")), Some(10));

    let g = reg.get_or_create_gauge(name("load")).unwrap();
    reg.set_gauge(&g, 0.5f64.to_bits());
    assert_eq!(reg.gauge_value(&name("load")), Some(0.5f64.to_bits()));

    let hh = reg.get_or_create_histogram(name("size")).unwrap();
    reg.observe(&hh, 1.0f64.to_bits());
    reg.observe(&hh, 2.5f64.to_bits());
    assert_eq!(reg.histogram_count(&name("size")), Some(2));
    assert!(reg.get_or_create_gauge(name("hits")).is_err());
}

#[test]
fn snapshot_is_unaffected_by_later_writes() {
    let mut reg = Registry::new();
    increment(&mut reg, name("n"), 1).unwrap();
    let snap = reg.snapshot();
    increment(&mut reg, name("n"), 41).unwrap();
    let texts = value_texts(&snap.float_slots());
    assert_eq!(String::from_utf8(snap.render(&texts)).unwrap(), "n 1\n");
    assert_eq!(body(&reg), "n 42\n");
}

#[test]
fn float_slots_follow_name_order() {
    let mut reg = Registry::new();
    set_gauge(&mut reg, name("b"), 2.0f64.to_bits()).unwrap();
    set_gauge(&mut reg, name("a"), 1.0f64.to_bits()).unwrap();
    let snap = reg.snapshot();
    let slots = snap.float_slots();
    assert_eq!(slots.len(), 2);
    match &slots[0] {
        FloatSlot::Gauge { bits } => assert_eq!(*bits, 1.0f64.to_bits()),
        _ => panic!("expected a gauge slot"),
    }
    match &slots[1] {
        FloatSlot::Gauge { bits } => assert_eq!(*bits, 2.0f64.to_bits()),
        _ => panic!("expected a gauge slot"),
    }
}
