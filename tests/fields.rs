use phonecells::{
    decimal_from_capture, extract_display_size, extract_os, extract_weight, extract_year,
    normalize_sim_info, normalize_text, split_fields, year_from_capture, Cell,
};

#[test]
fn year_first_bounded_token() {
    assert_eq!(extract_year("Released 2012, EOL 2015"), Some(2012));
    assert_eq!(Cell::extract_year("Released 2012, EOL 2015"), Some(2012));
}

#[test]
fn year_five_digit_run_is_absent() {
    assert_eq!(extract_year("20123"), None);
}

#[test]
fn year_absent_cases() {
    assert_eq!(extract_year(""), None);
    assert_eq!(extract_year("-"), None);
    assert_eq!(extract_year("Not announced yet"), None);
    assert_eq!(extract_year("2014. Released 2014"), Some(2014));
}

#[test]
fn year_from_capture_reads_ascii_digits() {
    assert_eq!(year_from_capture(Some("1999".to_string())), Some(1999));
    assert_eq!(year_from_capture(Some("0042".to_string())), Some(42));
    assert_eq!(year_from_capture(Some("19x9".to_string())), None);
    assert_eq!(year_from_capture(Some("199".to_string())), None);
    assert_eq!(year_from_capture(Some("\u{0661}\u{0669}\u{0669}\u{0669}".to_string())), None);
    assert_eq!(year_from_capture(None), None);
}

#[test]
fn year_in_non_ascii_digits_is_absent() {
    assert_eq!(extract_year("\u{0661}\u{0669}\u{0669}\u{0669}"), None);
}

#[test]
fn weight_first_match_only() {
    let w = extract_weight("135 g (SIM1) / 130 g (SIM2)");
    assert_eq!(w, Some("135".to_string()));
    assert_eq!(w.unwrap().parse::<f64>().unwrap(), 135.0);
    assert_eq!(Cell::extract_weight("135 g (SIM1) / 130 g (SIM2)"), Some("135".to_string()));
}

#[test]
fn weight_absent_cases() {
    assert_eq!(extract_weight("135g"), None);
    assert_eq!(extract_weight("-"), None);
    assert_eq!(extract_weight(""), None);
    assert_eq!(extract_weight("5.5 oz"), None);
}

#[test]
fn weight_after_decimal_takes_the_fraction_digits() {
    assert_eq!(extract_weight("12.5 g"), Some("5".to_string()));
}

#[test]
fn weight_leading_zeros_are_dropped() {
    assert_eq!(extract_weight("0135 g"), Some("135".to_string()));
    assert_eq!(extract_weight("000 g"), Some("0".to_string()));
}

#[test]
fn display_size_decimal() {
    let s = extract_display_size("5.2 inches, 1080x1920 pixels");
    assert_eq!(s, Some("5.2".to_string()));
    assert_eq!(s.unwrap().parse::<f64>().unwrap(), 5.2);
    assert_eq!(Cell::extract_display_size("5.2 inches, 1080x1920 pixels"), Some("5.2".to_string()));
}

#[test]
fn display_size_integer_and_absent() {
    assert_eq!(extract_display_size("6 inches"), Some("6".to_string()));
    assert_eq!(extract_display_size("5.2 inch"), None);
    assert_eq!(extract_display_size(""), None);
}

#[test]
fn display_size_trailing_zeros_are_dropped() {
    assert_eq!(extract_display_size("5.20 inches"), Some("5.2".to_string()));
    assert_eq!(extract_display_size("6.0 inches"), Some("6".to_string()));
}

#[test]
fn decimal_from_capture_forms() {
    assert_eq!(decimal_from_capture(Some("007.500".to_string())), Some("7.5".to_string()));
    assert_eq!(decimal_from_capture(Some("0.0".to_string())), Some("0".to_string()));
    assert_eq!(decimal_from_capture(Some("12".to_string())), Some("12".to_string()));
    assert_eq!(decimal_from_capture(Some(".5".to_string())), None);
    assert_eq!(decimal_from_capture(Some("5.".to_string())), None);
    assert_eq!(decimal_from_capture(Some("1.2.3".to_string())), None);
    assert_eq!(decimal_from_capture(Some("".to_string())), None);
    assert_eq!(decimal_from_capture(None), None);
}

#[test]
fn sim_info_no_is_absent() {
    assert_eq!(normalize_sim_info("No"), None);
    assert_eq!(normalize_sim_info("Mini-SIM"), Some("Mini-SIM".to_string()));
    assert_eq!(normalize_sim_info("-"), None);
    assert_eq!(normalize_sim_info(""), None);
    assert_eq!(normalize_sim_info("no"), Some("no".to_string()));
}

#[test]
fn text_placeholders() {
    assert_eq!(normalize_text(""), None);
    assert_eq!(normalize_text("-"), None);
    assert_eq!(normalize_text("--"), Some("--".to_string()));
    assert_eq!(normalize_text(" Samsung "), Some(" Samsung ".to_string()));
}

#[test]
fn os_before_first_comma() {
    assert_eq!(extract_os("Android 4.4, up to 6.0"), Some("Android 4.4".to_string()));
    assert_eq!(extract_os("iOS 9"), Some("iOS 9".to_string()));
    assert_eq!(extract_os("-"), Some("-".to_string()));
    assert_eq!(extract_os(""), None);
    assert_eq!(extract_os(",x"), None);
    assert_eq!(Cell::extract_os("Android 4.4, up to 6.0"), Some("Android 4.4".to_string()));
}

#[test]
fn split_cuts_at_every_comma() {
    assert_eq!(split_fields("a,,b"), vec!["a".to_string(), "".to_string(), "b".to_string()]);
    assert_eq!(split_fields(""), vec!["".to_string()]);
    assert_eq!(split_fields(","), vec!["".to_string(), "".to_string()]);
}
