//! Scenario generation and the timing harness.

use unifac_mixture::mixture::RawSubstance;
use unifac_mixture::scenario::{
    generate_scenarios, BenchInputDoc, ScenarioError, BASE_ROWS, SCENARIO_TARGET,
};
use unifac_mixture::timing::{format_record, TimingHarness, REPEAT};

fn base_doc() -> BenchInputDoc {
    let substances = vec![
        RawSubstance {
            name: String::from("ethanole"),
            fraction: String::from("0.5"),
            groups: vec![String::from("1:2"), String::from("2:1"), String::from("14:1")],
        },
        RawSubstance {
            name: String::from("benzene"),
            fraction: String::from("0.5"),
            groups: vec![String::from("9:6")],
        },
    ];
    let mut difftemp: Vec<String> = Vec::new();
    let mut fractions: Vec<Vec<String>> = Vec::new();
    for r in 0..BASE_ROWS {
        difftemp.push(format!("{}.5", r));
        fractions.push(vec![format!("{}.0", r), format!("{}.1", r)]);
    }
    BenchInputDoc {
        temperature: String::from("298"),
        substances,
        difftemp,
        fractions,
    }
}

#[test]
fn yields_exactly_target_scenarios() {
    let doc = base_doc();
    let scenarios = generate_scenarios(&doc).unwrap();
    assert_eq!(scenarios.len(), SCENARIO_TARGET);
    assert_eq!(SCENARIO_TARGET, 10000);
    assert_eq!(BASE_ROWS, 1000);
}

#[test]
fn scenario_uses_its_base_row() {
    let doc = base_doc();
    let scenarios = generate_scenarios(&doc).unwrap();
    let sc = &scenarios[1234];
    assert_eq!(sc.temperature_delta, "234.5");
    assert_eq!(sc.substances.len(), 2);
    assert_eq!(sc.substances[0].name, "ethanole");
    assert_eq!(sc.substances[0].fraction, "234.0");
    assert_eq!(sc.substances[1].name, "benzene");
    assert_eq!(sc.substances[1].fraction, "234.1");
    assert_eq!(sc.substances[0].groups.len(), 3);
    assert_eq!(sc.substances[1].groups.len(), 1);
    assert_eq!(sc.substances[1].groups[0].id, 9);
    let last = &scenarios[9999];
    assert_eq!(last.temperature_delta, "999.5");
    assert_eq!(last.substances[0].fraction, "999.0");
}

#[test]
fn cyclic_reuse_of_base_rows() {
    let doc = base_doc();
    let scenarios = generate_scenarios(&doc).unwrap();
    for i in [0usize, 999, 1000, 2345, 9999] {
        let sc = &scenarios[i];
        let sb = &scenarios[i % 1000];
        assert_eq!(sc.temperature_delta, sb.temperature_delta);
        assert_eq!(sc.substances.len(), sb.substances.len());
        for (a, b) in sc.substances.iter().zip(sb.substances.iter()) {
            assert_eq!(a.fraction, b.fraction);
            assert_eq!(a.name, b.name);
        }
    }
}

#[test]
fn malformed_delta_names_its_row() {
    let mut doc = base_doc();
    doc.difftemp[500] = String::from("abc");
    match generate_scenarios(&doc) {
        Err(ScenarioError::Input(e)) => assert_eq!(e.row, 500),
        _ => panic!("expected an input error"),
    }
}

#[test]
fn short_fraction_row_names_its_row() {
    let mut doc = base_doc();
    doc.fractions[3] = vec![String::from("0.5")];
    match generate_scenarios(&doc) {
        Err(ScenarioError::Input(e)) => assert_eq!(e.row, 3),
        _ => panic!("expected an input error"),
    }
}

#[test]
fn bad_group_token_beats_row_errors() {
    let mut doc = base_doc();
    doc.difftemp[0] = String::from("abc");
    doc.substances[1].groups[0] = String::from("9;6");
    match generate_scenarios(&doc) {
        Err(ScenarioError::Group(e)) => assert_eq!(e.substance, "benzene"),
        _ => panic!("expected a group error"),
    }
}

#[test]
fn record_line_format() {
    assert_eq!(format_record(0, 5), "0, 5\n");
    assert_eq!(format_record(42, 17039), "42, 17039\n");
}

#[test]
fn three_records() {
    let mut h = TimingHarness::new();
    assert_eq!(h.batch_count(), 0);
    assert_eq!(h.record_batch(5), "0, 5\n");
    assert_eq!(h.record_batch(7), "1, 7\n");
    assert_eq!(h.record_batch(6), "2, 6\n");
    assert_eq!(h.batch_count(), 3);
    assert_eq!(h.render_report(), "0, 5\n1, 7\n2, 6\n");
}

#[test]
fn full_run_emits_repeat_records() {
    let mut h = TimingHarness::new();
    for k in 0..REPEAT {
        assert!(!h.is_complete());
        let line = h.record_batch(k as u128);
        assert_eq!(line, format!("{}, {}\n", k, k));
    }
    assert!(h.is_complete());
    assert_eq!(h.batch_count(), 1000);
    let report = h.render_report();
    let lines: Vec<&str> = report.lines().collect();
    assert_eq!(lines.len(), 1000);
    let mut prev: i64 = -1;
    for line in lines {
        let idx: i64 = line.split(',').next().unwrap().trim().parse().unwrap();
        assert!(idx > prev);
        prev = idx;
    }
}
