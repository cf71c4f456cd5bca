use power_editor::codec::{parse_power_file, render_power_file, strip_sentinel};
use power_editor::power::Power;
use power_editor::schema::{kind_at, FieldKind, COLUMN_COUNT, COLUMN_HEADER, SENTINEL};
use power_editor::store::{PowerStore, NOT_LOADED};

fn sample_cell(i: usize, name: &str) -> String {
    match kind_at(i) {
        FieldKind::Text => {
            if i == 0 {
                name.to_string()
            } else {
                String::new()
            }
        }
        FieldKind::Integer => format!("{}", i),
        FieldKind::Number => "1.5".to_string(),
        FieldKind::Flag => "true".to_string(),
    }
}

fn sample_line(name: &str) -> String {
    let cells: Vec<String> = (0..COLUMN_COUNT).map(|i| sample_cell(i, name)).collect();
    cells.join(",")
}

fn first_number_column() -> usize {
    (0..COLUMN_COUNT).find(|&i| kind_at(i) == FieldKind::Number).unwrap()
}

fn bad_number_line(name: &str) -> String {
    let bad = first_number_column();
    let cells: Vec<String> = (0..COLUMN_COUNT)
        .map(|i| if i == bad { "fast".to_string() } else { sample_cell(i, name) })
        .collect();
    cells.join(",")
}

fn rows_of(list: &[Power]) -> Vec<Vec<String>> {
    list.iter().map(|p| p.to_row()).collect()
}

fn file_with(lines: &[String], sentinel: bool) -> String {
    let mut text = String::new();
    if sentinel {
        text.push_str(SENTINEL);
        text.push('\n');
    }
    text.push_str(COLUMN_HEADER);
    text.push('\n');
    for l in lines {
        text.push_str(l);
        text.push('\n');
    }
    text
}

#[test]
fn loads_every_well_formed_row_in_order() {
    let text = file_with(&[sample_line("Jab"), sample_line("Kick")], true);
    let (list, _) = parse_power_file(&text);
    assert_eq!(list.len(), 2);
    assert_eq!(list[0].to_row()[0], "Jab");
    assert_eq!(list[1].to_row()[0], "Kick");
    assert_eq!(list[0].to_row()[1], "1");
}

#[test]
fn non_numeric_number_cell_skips_that_row() {
    let text = file_with(&[sample_line("A"), bad_number_line("B"), sample_line("C")], true);
    let (list, skipped) = parse_power_file(&text);
    assert_eq!(list.len(), 2);
    assert_eq!(skipped, 1);
    assert_eq!(list[0].to_row()[0], "A");
    assert_eq!(list[1].to_row()[0], "C");
}

#[test]
fn row_with_wrong_field_count_is_skipped() {
    let text = file_with(&[sample_line("A"), "B,1,2".to_string(), sample_line("C")], false);
    let (list, skipped) = parse_power_file(&text);
    assert_eq!(skipped, 1);
    assert_eq!(list.len(), 2);
    assert_eq!(list[1].to_row()[0], "C");
}

#[test]
fn sentinel_line_does_not_change_the_records() {
    let lines = [sample_line("A"), sample_line("B")];
    let (with, _) = parse_power_file(&file_with(&lines, true));
    let (without, _) = parse_power_file(&file_with(&lines, false));
    assert_eq!(rows_of(&with), rows_of(&without));
    assert_eq!(with.len(), 2);
}

#[test]
fn strip_sentinel_cases() {
    assert_eq!(strip_sentinel("powerTypes\nPowerName\n"), "PowerName\n");
    assert_eq!(strip_sentinel("powerTypes\r\nPowerName"), "PowerName");
    assert_eq!(strip_sentinel("powerTypes"), "");
    assert_eq!(strip_sentinel("powerTypesX\nPowerName"), "powerTypesX\nPowerName");
    assert_eq!(strip_sentinel("PowerName\n"), "PowerName\n");
    assert_eq!(strip_sentinel(""), "");
}

#[test]
fn save_then_load_gives_the_same_records() {
    let text = file_with(
        &[sample_line("\"A, with comma\""), sample_line("\"B \"\"quoted\"\"\"")],
        false,
    );
    let (list, _) = parse_power_file(&text);
    assert_eq!(list.len(), 2);
    let saved = render_power_file(&list).unwrap();
    let (again, skipped) = parse_power_file(&saved);
    assert_eq!(skipped, 0);
    assert_eq!(rows_of(&list), rows_of(&again));
    assert_eq!(again[0].to_row()[0], "A, with comma");
    assert_eq!(again[1].to_row()[0], "B \"quoted\"");
}

#[test]
fn saved_file_starts_with_both_header_lines() {
    let (list, _) = parse_power_file(&file_with(&[sample_line("A")], true));
    let saved = render_power_file(&list).unwrap();
    let mut lines = saved.lines();
    assert_eq!(lines.next(), Some("powerTypes"));
    assert_eq!(lines.next(), Some(COLUMN_HEADER));
    let row = lines.next().unwrap();
    assert!(row.starts_with("A,1,2,,,5,"));
    assert_eq!(lines.next(), None);
}

#[test]
fn saving_an_empty_list_writes_only_the_headers() {
    let saved = render_power_file(&Vec::new()).unwrap();
    assert_eq!(saved, format!("powerTypes\n{}\n", COLUMN_HEADER));
}

#[test]
fn empty_cells_take_defaults_and_save_canonically() {
    let blank: Vec<String> = (0..COLUMN_COUNT).map(|_| String::new()).collect();
    let mut text = file_with(&[], false);
    text.push_str(&blank.join(","));
    text.push('\n');
    let (list, _) = parse_power_file(&text);
    assert_eq!(list.len(), 1);
    let row = list[0].to_row();
    assert_eq!(row[0], "");
    assert_eq!(row[1], "0");
    assert_eq!(row[first_number_column()], "0");
    let flag = (0..COLUMN_COUNT).find(|&i| kind_at(i) == FieldKind::Flag).unwrap();
    assert_eq!(row[flag], "false");
}

#[test]
fn power_list_before_any_load_is_not_loaded_error() {
    let store = PowerStore::new();
    match store.get_power_list() {
        Err(e) => assert_eq!(e, NOT_LOADED),
        Ok(_) => panic!("expected the not-loaded error"),
    }
}

#[test]
fn load_replaces_the_held_list() {
    let mut store = PowerStore::new();
    let first = store.load_powers_from_text(&file_with(&[sample_line("A")], true));
    assert_eq!(first.len(), 1);
    let held = store.get_power_list().unwrap();
    assert_eq!(rows_of(&held), rows_of(&first));
    let second = store.load_powers_from_text(&file_with(&[], true));
    assert_eq!(second.len(), 0);
    assert_eq!(store.get_power_list().unwrap().len(), 0);
}

#[test]
fn record_values_follow_the_column_kinds() {
    let (list, _) = parse_power_file(&file_with(&[sample_line("A")], true));
    let values = list[0].values();
    assert_eq!(values.len(), COLUMN_COUNT);
    assert!(matches!(values[1], power_editor::power::Value::Integer(1)));
    assert!(matches!(values[12], power_editor::power::Value::Flag(true)));
}
