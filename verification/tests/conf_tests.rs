use memstress::boost_conf;
use memstress::boost_conf::{parse_ratio, ConfError, Ratio};
use memstress::filler::{config_files_already_there, make_file_paths};
use memstress::kmalloc_conf;

#[test]
fn ratio_parses_two_fields() {
    assert_eq!(parse_ratio("3/4"), Ok(Ratio { numerator: 3, denominator: 4 }));
    assert_eq!(parse_ratio("0/1"), Ok(Ratio { numerator: 0, denominator: 1 }));
}

#[test]
fn ratio_rejects_wrong_shapes() {
    assert_eq!(parse_ratio("3"), Err(ConfError::BadFormat));
    assert_eq!(parse_ratio("1/2/3"), Err(ConfError::BadFormat));
    assert_eq!(parse_ratio(""), Err(ConfError::BadFormat));
    assert_eq!(parse_ratio("a/4"), Err(ConfError::BadNumber));
    assert_eq!(parse_ratio("1/b"), Err(ConfError::BadNumber));
}

#[test]
fn boost_params_parse_and_render() {
    let p = boost_conf::Params::from_str("1 5 100 200 300 1 2").expect("parse failed");
    assert!(p.enabled);
    assert_eq!(p.run_interval, 5);
    assert_eq!(p.min_increase_interval_ns, 100);
    assert_eq!(p.min_decrease_interval_ns, 200);
    assert_eq!(p.boost_step, 300);
    assert_eq!(p.low_ratio, Ratio { numerator: 1, denominator: 2 });
    assert_eq!(p.to_str(), "1 5 100 200 300 1 2");

    let off = boost_conf::Params::from_str("0 5 100 200 300 1 2").expect("parse failed");
    assert!(!off.enabled);
    assert_eq!(off.to_str(), "0 5 100 200 300 1 2");
}

#[test]
fn boost_params_round_trip() {
    let line = "1 7 111 222 333 9 10";
    let p = boost_conf::Params::from_str(line).expect("parse failed");
    assert_eq!(
        boost_conf::Params::from_str(&p.to_str()).expect("round trip failed"),
        p
    );
}

#[test]
fn boost_params_reject_bad_lines() {
    assert_eq!(
        boost_conf::Params::from_str("1 2 3 4 5 6"),
        Err(ConfError::BadFormat)
    );
    assert_eq!(
        boost_conf::Params::from_str("1 2 3 4 5 6 7 8"),
        Err(ConfError::BadFormat)
    );
    assert_eq!(
        boost_conf::Params::from_str("1 2 3 4 x 6 7"),
        Err(ConfError::BadNumber)
    );
    // The enabled flag and run interval are single-byte fields.
    assert_eq!(
        boost_conf::Params::from_str("1 256 3 4 5 6 7"),
        Err(ConfError::BadNumber)
    );
}

#[test]
fn boost_params_apply_overrides() {
    let mut p = boost_conf::Params::from_str("0 5 100 200 300 1 2").unwrap();
    p.apply(&boost_conf::ParamsUpdate {
        on: true,
        off: false,
        run_interval: Some(9),
        min_increase_interval_ns: None,
        min_decrease_interval_ns: Some(999),
        boost_step: None,
        low_ratio: Some(Ratio { numerator: 3, denominator: 7 }),
    });
    assert!(p.enabled);
    assert_eq!(p.run_interval, 9);
    assert_eq!(p.min_increase_interval_ns, 100);
    assert_eq!(p.min_decrease_interval_ns, 999);
    assert_eq!(p.boost_step, 300);
    assert_eq!(p.low_ratio, Ratio { numerator: 3, denominator: 7 });

    // Neither switch given: the flag stays.
    let before = p;
    p.apply(&boost_conf::ParamsUpdate {
        on: false,
        off: false,
        run_interval: None,
        min_increase_interval_ns: None,
        min_decrease_interval_ns: None,
        boost_step: None,
        low_ratio: None,
    });
    assert_eq!(p, before);
}

#[test]
fn kmalloc_params_parse_and_render() {
    let p = kmalloc_conf::Params::from_str("3 1000000 4096 8192 5000000000 250")
        .expect("parse failed");
    assert_eq!(p.iterations, 3);
    assert_eq!(p.max_allocation, 1_000_000);
    assert_eq!(p.min_allocation_size, 4096);
    assert_eq!(p.max_allocation_size, 8192);
    // The file keeps nanoseconds; the tool works in milliseconds.
    assert_eq!(p.max_iteration_time_ms, 5000);
    assert_eq!(p.hold_time_ms, 250);
    assert_eq!(p.to_str(), "3 1000000 4096 8192 5000000000 250");
}

#[test]
fn kmalloc_params_reject_bad_lines() {
    assert_eq!(
        kmalloc_conf::Params::from_str("1 2 3 4 5"),
        Err(ConfError::BadFormat)
    );
    assert_eq!(
        kmalloc_conf::Params::from_str("x 2 3 4 5 6"),
        Err(ConfError::BadNumber)
    );
}

#[test]
fn kmalloc_params_apply_orders() {
    let mut p = kmalloc_conf::Params::from_str("3 1000000 4096 8192 5000000000 250").unwrap();
    p.apply(&kmalloc_conf::ParamsUpdate {
        iterations: Some(10),
        max_iteration_time_ms: None,
        max_allocation: None,
        hold_time_ms: Some(1),
        min_allocation_size_order: Some(1),
        max_allocation_size_order: Some(3),
    });
    assert_eq!(p.iterations, 10);
    assert_eq!(p.max_iteration_time_ms, 5000);
    assert_eq!(p.hold_time_ms, 1);
    // Order n maps to 2^(12 + n) bytes.
    assert_eq!(p.min_allocation_size, 8192);
    assert_eq!(p.max_allocation_size, 32768);
}

#[test]
fn filler_paths_are_numbered() {
    let paths = make_file_paths(3, "mfiller");
    assert_eq!(paths, vec!["mfiller/filler_0", "mfiller/filler_1", "mfiller/filler_2"]);
    assert_eq!(make_file_paths(0, "mfiller").len(), 0);
}

#[test]
fn files_already_there_counts_exact_sizes() {
    let sizes = vec![Some(100u128), Some(100), Some(100)];
    assert!(config_files_already_there(3, 100, &sizes));
    // A missing file breaks the reuse condition.
    let sizes = vec![Some(100u128), None, Some(100)];
    assert!(!config_files_already_there(3, 100, &sizes));
    // A file of the wrong size does too.
    let sizes = vec![Some(100u128), Some(99), Some(100)];
    assert!(!config_files_already_there(3, 100, &sizes));
    // The count must match exactly.
    let sizes = vec![Some(100u128), Some(100)];
    assert!(!config_files_already_there(3, 100, &sizes));
    assert!(config_files_already_there(0, 100, &vec![]));
}
