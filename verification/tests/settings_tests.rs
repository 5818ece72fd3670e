use everything_adapter::settings::Settings;

#[test]
fn sort_code_name_ascending_is_one() {
    let s = Settings::new(50, 0, 0);
    assert_eq!(s.sort_code(), 1);
}

#[test]
fn sort_code_date_run_descending_is_twenty_six() {
    let s = Settings::new(50, 12, 1);
    assert_eq!(s.sort_code(), 26);
}

#[test]
fn sort_code_extension_ascending_is_seven() {
    let s = Settings::new(50, 3, 0);
    assert_eq!(s.sort_code(), 7);
}

#[test]
fn sort_code_name_descending_is_two() {
    let s = Settings::new(250, 0, 1);
    assert_eq!(s.sort_code(), 2);
}

#[test]
fn backend_cap_is_four_times_max_results() {
    let s = Settings::new(50, 0, 0);
    assert_eq!(s.backend_cap(), 200);
}

#[test]
fn backend_cap_at_schema_bounds() {
    assert_eq!(Settings::new(1, 0, 0).backend_cap(), 4);
    assert_eq!(Settings::new(250, 0, 0).backend_cap(), 1000);
}

#[test]
fn default_settings() {
    let s = Settings::default();
    assert_eq!(s.max_results, 50);
    assert_eq!(s.sort_by, 0);
    assert_eq!(s.sort_order, 0);
}

#[test]
fn from_values_takes_in_bounds_values() {
    let s = Settings::from_values(Some(200), Some(12), Some(1));
    assert_eq!(s.max_results, 200);
    assert_eq!(s.sort_by, 12);
    assert_eq!(s.sort_order, 1);
}

#[test]
fn from_values_defaults_absent_values() {
    let s = Settings::from_values(None, None, None);
    assert_eq!(s.max_results, 50);
    assert_eq!(s.sort_by, 0);
    assert_eq!(s.sort_order, 0);
}

#[test]
fn from_values_defaults_out_of_bounds_values() {
    let s = Settings::from_values(Some(0), Some(13), Some(-1));
    assert_eq!(s.max_results, 50);
    assert_eq!(s.sort_by, 0);
    assert_eq!(s.sort_order, 0);
    let t = Settings::from_values(Some(251), Some(-5), Some(2));
    assert_eq!(t.max_results, 50);
    assert_eq!(t.sort_by, 0);
    assert_eq!(t.sort_order, 0);
}

#[test]
fn result_cap_matches_max_results() {
    let s = Settings::new(7, 2, 1);
    assert_eq!(s.result_cap(), 7);
}
