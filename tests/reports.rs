use phonecells::{
    announced_and_released_diff_year, most_launched_year, single_feature_sensors, split_fields,
    Cell,
};

fn row(line: &str) -> Cell {
    Cell::from_csv_row(&split_fields(line))
}

fn phone(oem: &str, year: &str, status: &str, sensors: &str) -> Cell {
    row(&format!("{},M,{},{},-,100 g,-,-,5 inches,-,{},Android", oem, year, status, sensors))
}

#[test]
fn counts_single_sensor_records() {
    let cells = vec![
        phone("A", "2014", "-", "Accelerometer"),
        phone("B", "2014", "-", "-"),
        phone("C", "2014", "-", ""),
        phone("D", "2015", "-", "Compass"),
    ];
    assert_eq!(single_feature_sensors(&cells), 2);
    assert_eq!(single_feature_sensors(&Vec::new()), 0);
}

#[test]
fn peak_year_counts_after_floor() {
    let cells = vec![
        phone("A", "1998", "-", "-"),
        phone("B", "1998", "-", "-"),
        phone("C", "1998", "-", "-"),
        phone("D", "2015", "-", "-"),
        phone("E", "2014", "-", "-"),
        phone("F", "2015", "-", "-"),
    ];
    assert_eq!(most_launched_year(&cells), Some((2015, 2)));
}

#[test]
fn peak_year_tie_takes_earliest() {
    let cells = vec![phone("A", "2016", "-", "-"), phone("B", "2003", "-", "-")];
    assert_eq!(most_launched_year(&cells), Some((2003, 1)));
}

#[test]
fn peak_year_absent_without_launches() {
    let cells = vec![phone("A", "1999", "-", "-"), phone("B", "-", "-", "-")];
    assert_eq!(most_launched_year(&cells), None);
}

#[test]
fn mismatched_release_years_in_order() {
    let cells = vec![
        phone("A", "2013", "Released 2014", "-"),
        phone("B", "2014", "Released 2014", "-"),
        phone("C", "2012", "Discontinued", "-"),
        phone("D", "2015", "Available. Released 2016", "-"),
    ];
    let m = announced_and_released_diff_year(&cells);
    assert_eq!(m.len(), 2);
    assert_eq!((m[0].oem.as_str(), m[0].model.as_str(), m[0].announced, m[0].released), ("A", "M", 2013, 2014));
    assert_eq!((m[1].oem.as_str(), m[1].announced, m[1].released), ("D", 2015, 2016));
}
