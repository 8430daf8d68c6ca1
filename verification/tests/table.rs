use roll::execute_roll;

/// The cell texts of every table line that carries content (header, dice
/// rows, total row), in order; border and separator lines carry none.
fn content_rows(output: &str) -> Vec<Vec<String>> {
    output
        .lines()
        .filter(|l| l.chars().any(|c| c.is_ascii_alphanumeric()))
        .map(|l| {
            l.split('|')
                .map(|c| c.trim().to_string())
                .filter(|c| !c.is_empty())
                .collect()
        })
        .collect()
}

#[test]
fn test_single_die() {
    let output = execute_roll(&["1d20".to_string()]).unwrap();
    assert!(output.contains("d20"));
    assert!(output.contains("Die")); // Header
    assert!(output.contains("Roll")); // Header
}

#[test]
fn test_multiple_dice() {
    let output = execute_roll(&["2d6".to_string(), "1d10".to_string()]).unwrap();
    assert!(output.contains("d6"));
    assert!(output.contains("d10"));
    assert!(output.contains("Total"));
}

#[test]
fn test_advantage_roll_execution() {
    let output = execute_roll(&["1d20a".to_string()]).unwrap();
    assert!(output.contains("d20a"));
    assert!(output.contains("Total"));
}

#[test]
fn test_invalid_arg() {
    let err = execute_roll(&["invalid".to_string()]).unwrap_err();
    assert!(err.message().contains("Failed to parse dice expression"));
}

#[test]
fn test_partial_valid_arg() {
    let err = execute_roll(&["1d20extra".to_string()]).unwrap_err();
    assert!(err.message().contains("Invalid dice format"));
}

#[test]
fn test_zero_sides() {
    let err = execute_roll(&["2d0".to_string()]).unwrap_err();
    assert!(err.message().contains("Dice cannot have 0 sides"));
}

#[test]
fn table_lists_each_die_and_the_exact_total() {
    let output = execute_roll(&["2d6".to_string(), "1d10".to_string()]).unwrap();
    let rows = content_rows(&output);
    assert_eq!(rows.len(), 5); // header, three dice, total
    assert_eq!(rows[0], vec!["Die", "Roll"]);
    assert_eq!(rows[1][0], "d6");
    assert_eq!(rows[2][0], "d6");
    assert_eq!(rows[3][0], "d10");
    let mut sum: u64 = 0;
    for row in &rows[1..4] {
        let value: u64 = row[1].parse().unwrap();
        sum += value;
    }
    assert_eq!(rows[4][0], "Total");
    assert_eq!(rows[4][1].parse::<u64>().unwrap(), sum);
}

#[test]
fn advantage_row_shows_kept_and_dropped() {
    let output = execute_roll(&["1d6a".to_string()]).unwrap();
    let rows = content_rows(&output);
    assert_eq!(rows[1][0], "d6a");
    let cell = &rows[1][1];
    let (kept, rest) = cell.split_once(" (").unwrap();
    let dropped = rest.strip_suffix(')').unwrap();
    let kept: u32 = kept.parse().unwrap();
    let dropped: u32 = dropped.parse().unwrap();
    assert!((1..=6).contains(&kept));
    assert!((1..=6).contains(&dropped));
    assert!(dropped <= kept);
}

#[test]
fn fail_fast_reports_first_bad_expression() {
    let err = execute_roll(&["1d6".to_string(), "2d0".to_string(), "junk".to_string()])
        .unwrap_err();
    assert_eq!(err.message(), "Error: Dice cannot have 0 sides.");
}

#[test]
fn no_expressions_give_an_empty_table() {
    let output = execute_roll(&[]).unwrap();
    let rows = content_rows(&output);
    assert_eq!(rows.len(), 2); // header and total
    assert_eq!(rows[1], vec!["Total", "0"]);
}
