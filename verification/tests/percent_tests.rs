use alas_launcher::percent::find_percentage;

#[test]
fn test_find_percentage() {
    assert_eq!(Some(8), find_percentage("8%"));
    assert_eq!(Some(25), find_percentage("loading 25%..."));
    assert_eq!(Some(100), find_percentage("100%..."));
    assert_eq!(None, find_percentage("%1"));
}

#[test]
fn percentage_rounds_halves_up() {
    assert_eq!(Some(43), find_percentage("42.5%"));
    assert_eq!(Some(42), find_percentage("42.4%"));
    assert_eq!(Some(1), find_percentage(".5%"));
    assert_eq!(Some(0), find_percentage(".49%"));
}

#[test]
fn percentage_clamps_to_100() {
    assert_eq!(Some(100), find_percentage("200%"));
    assert_eq!(Some(100), find_percentage("99999999999999999999999%"));
}

#[test]
fn percentage_takes_trailing_run_before_first_percent() {
    assert_eq!(Some(10), find_percentage("Receiving objects: 10% (1/10)"));
    assert_eq!(Some(3), find_percentage("step 2 of 5: 3% done"));
    // Only the run directly before the first '%' counts.
    assert_eq!(Some(7), find_percentage("7% then 90%"));
}

#[test]
fn percentage_absent_or_malformed() {
    assert_eq!(None, find_percentage(""));
    assert_eq!(None, find_percentage("no progress here"));
    assert_eq!(None, find_percentage("x%"));
    assert_eq!(None, find_percentage(".%"));
    assert_eq!(None, find_percentage("1.2.3%"));
}

#[test]
fn percentage_accepts_trailing_point() {
    assert_eq!(Some(5), find_percentage("5.%"));
}

#[test]
fn percentage_without_percent_sign_reads_line_end() {
    // With no '%' the whole line is searched for a trailing number.
    assert_eq!(Some(100), find_percentage("100"));
    assert_eq!(None, find_percentage("done"));
}
