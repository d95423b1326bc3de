use rooftop_rainfall::settings::{candidate_order, resolve, Probe};

type Params = (f64, f64, f64);

const BUILT_IN: Params = (232.3, 0.95, 0.3);
const ADJACENT: Params = (150.0, 0.9, 0.5);
const HOME: Params = (80.0, 0.8, 1.0);

#[test]
fn no_candidates_keeps_defaults() {
    let r = resolve(BUILT_IN, &vec![]);
    assert_eq!(r.params, BUILT_IN);
    assert_eq!(r.source, None);
}

#[test]
fn missing_files_keep_defaults() {
    let r = resolve(BUILT_IN, &vec![Probe::Unreadable, Probe::Unreadable]);
    assert_eq!(r.params, BUILT_IN);
    assert_eq!(r.source, None);
}

#[test]
fn adjacent_file_used_without_home_file() {
    let r = resolve(BUILT_IN, &vec![Probe::Loaded(ADJACENT), Probe::Unreadable]);
    assert_eq!(r.params, ADJACENT);
    assert_eq!(r.source, Some(0));
}

#[test]
fn adjacent_file_used_without_home_directory() {
    let r = resolve(BUILT_IN, &vec![Probe::Loaded(ADJACENT)]);
    assert_eq!(r.params, ADJACENT);
    assert_eq!(r.source, Some(0));
}

#[test]
fn home_file_alone_is_used() {
    let r = resolve(BUILT_IN, &vec![Probe::Unreadable, Probe::Loaded(HOME)]);
    assert_eq!(r.params, HOME);
    assert_eq!(r.source, Some(1));
}

#[test]
fn home_file_overrides_adjacent_file() {
    let r = resolve(BUILT_IN, &vec![Probe::Loaded(ADJACENT), Probe::Loaded(HOME)]);
    assert_eq!(r.params, HOME);
    assert_eq!(r.source, Some(1));
}

#[test]
fn malformed_adjacent_file_stops_search() {
    let r = resolve(BUILT_IN, &vec![Probe::Malformed, Probe::Loaded(HOME)]);
    assert_eq!(r.params, BUILT_IN);
    assert_eq!(r.source, None);
}

#[test]
fn malformed_home_file_keeps_adjacent_file() {
    let r = resolve(BUILT_IN, &vec![Probe::Loaded(ADJACENT), Probe::Malformed]);
    assert_eq!(r.params, ADJACENT);
    assert_eq!(r.source, Some(0));
}

#[test]
fn malformed_home_file_alone_keeps_defaults() {
    let r = resolve(BUILT_IN, &vec![Probe::Unreadable, Probe::Malformed]);
    assert_eq!(r.params, BUILT_IN);
    assert_eq!(r.source, None);
}

#[test]
fn last_loaded_before_malformed_wins() {
    let probes = vec![
        Probe::Loaded(ADJACENT),
        Probe::Unreadable,
        Probe::Loaded(HOME),
        Probe::Malformed,
        Probe::Loaded(BUILT_IN),
    ];
    let r = resolve((0.0, 0.0, 0.0), &probes);
    assert_eq!(r.params, HOME);
    assert_eq!(r.source, Some(2));
}

#[test]
fn candidates_put_home_last() {
    assert_eq!(candidate_order(Some("exe"), Some("home")), vec!["exe", "home"]);
}

#[test]
fn candidates_without_home_directory() {
    assert_eq!(candidate_order(Some(1u8), None), vec![1u8]);
    assert_eq!(candidate_order(None, Some(2u8)), vec![2u8]);
    assert_eq!(candidate_order::<u8>(None, None), Vec::<u8>::new());
}
