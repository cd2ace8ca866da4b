use phonecells::{
    insert_if_new, load_lines, same_opt_text, split_fields, Cell, LoadError, FIELD_COUNT,
};

const LINE_A: &str =
    "Samsung,Galaxy S5,2014. Released 2014,Available,142 x 72.5 x 8.1 mm,145 g,Nano-SIM,Super AMOLED,5.1 inches,1080 x 1920 pixels,Accelerometer,Android 4.4";
const LINE_B: &str =
    "Apple,iPhone 6,2014. Released 2014,Available,138.1 x 67 x 6.9 mm,129 g,Nano-SIM,LED-backlit IPS LCD,4.7 inches,750 x 1334 pixels,Accelerometer,iOS 8";

fn row(line: &str) -> Cell {
    Cell::from_csv_row(&split_fields(line))
}

fn some(lines: &[&str]) -> Vec<Option<String>> {
    lines.iter().map(|l| Some(l.to_string())).collect()
}

#[test]
fn row_is_normalized_field_by_field() {
    let c = row("Nokia,-,Released 2010,,-,120 g,No,TFT,2.4 inches,-,-,Symbian");
    assert_eq!(c.oem, Some("Nokia".to_string()));
    assert_eq!(c.model, None);
    assert_eq!(c.launch_announced, Some(2010));
    assert_eq!(c.launch_status, None);
    assert_eq!(c.body_dimensions, None);
    assert_eq!(c.body_weight, Some("120".to_string()));
    assert_eq!(c.body_sim, None);
    assert_eq!(c.display_type, Some("TFT".to_string()));
    assert_eq!(c.display_size, Some("2.4".to_string()));
    assert_eq!(c.display_resolution, None);
    assert_eq!(c.features_sensors, None);
    assert_eq!(c.platform_os, Some("Symbian".to_string()));
}

#[test]
fn presence_of_weight_matters() {
    let a = row(LINE_A);
    let mut b = a.clone();
    b.body_weight = None;
    assert_eq!(a.body_weight.as_deref().map(|w| w.parse::<f64>().unwrap()), Some(145.0));
    assert_ne!(a, b);
    assert!(!a.same_as(&b));
    assert!(a.same_as(&a.clone()));
}

#[test]
fn equal_weights_in_other_spelling_are_equal() {
    let a = row(LINE_A);
    let b = row(&LINE_A.replace("145 g", "0145 g"));
    assert_eq!(a, b);
}

#[test]
fn optional_texts_compare_by_presence_and_content() {
    assert!(same_opt_text(&None, &None));
    assert!(!same_opt_text(&Some("a".to_string()), &None));
    assert!(!same_opt_text(&Some("a".to_string()), &Some("b".to_string())));
    assert!(same_opt_text(&Some("a".to_string()), &Some("a".to_string())));
}

#[test]
fn insert_only_new_records() {
    let mut cells = Vec::new();
    assert!(insert_if_new(&mut cells, row(LINE_A)));
    assert!(!insert_if_new(&mut cells, row(LINE_A)));
    assert!(insert_if_new(&mut cells, row(LINE_B)));
    assert_eq!(cells.len(), 2);
}

#[test]
fn repeated_row_loads_once() {
    let cells = load_lines(&some(&[LINE_A, LINE_A, LINE_A, LINE_A])).unwrap();
    assert_eq!(cells, vec![row(LINE_A)]);
}

#[test]
fn distinct_rows_are_both_kept() {
    let cells = load_lines(&some(&[LINE_A, LINE_B])).unwrap();
    assert_eq!(cells, vec![row(LINE_A), row(LINE_B)]);
}

#[test]
fn first_and_third_line_identical() {
    let cells = load_lines(&some(&[LINE_A, LINE_B, LINE_A])).unwrap();
    assert_eq!(cells.len(), 2);
    assert_eq!(cells[0], row(LINE_A));
    assert_eq!(cells[1], row(LINE_B));
}

#[test]
fn eleven_fields_is_malformed() {
    let short = "Samsung,Galaxy S5,2014,Available,142 x 72.5 x 8.1 mm,145 g,Nano-SIM,Super AMOLED,5.1 inches,1080 x 1920 pixels,Android 4.4";
    assert_eq!(split_fields(short).len(), FIELD_COUNT - 1);
    assert_eq!(
        load_lines(&some(&[LINE_A, short])),
        Err(LoadError::MalformedRow { line: 1, fields: 11 })
    );
}

#[test]
fn thirteen_fields_is_malformed() {
    let long = format!("{},extra", LINE_A);
    assert_eq!(
        load_lines(&vec![Some(long)]),
        Err(LoadError::MalformedRow { line: 0, fields: 13 })
    );
}

#[test]
fn unreadable_lines_are_skipped() {
    let lines = vec![None, Some(LINE_A.to_string()), None, Some(LINE_B.to_string())];
    let cells = load_lines(&lines).unwrap();
    assert_eq!(cells, vec![row(LINE_A), row(LINE_B)]);
}

#[test]
fn empty_input_loads_nothing() {
    assert_eq!(load_lines(&Vec::new()), Ok(Vec::new()));
}
