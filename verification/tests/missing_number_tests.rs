//! Tests of the missing-number sequence builder: gap structure, blank
//! widths, feasibility, and infeasibility.

use arith_sheets::{GenError, MissingNumberOpts};

fn opts(step: i16, line_width: u16, gaps_per_line: u16, miss_max_per_gap: u16) -> MissingNumberOpts {
    MissingNumberOpts {
        count: 10,
        miss_max_per_gap,
        gaps_per_line,
        step,
        start_as_multiple_step: false,
        line_width,
        number_min_inclusive: 0,
        number_max_inclusive: 100,
        output_docx_font_size: 36,
    }
}

/// Checks one rendered line: tokens are digit runs or underscore runs,
/// consecutive visible numbers differ by `step`, underscore widths match
/// the digit width of the value they conceal, and the gap structure is
/// as configured.
fn check_line(line: &str, step: i64, gaps_per_line: usize, miss_max_per_gap: usize) {
    let tokens: Vec<&str> = line.split(' ').collect();
    assert!(!tokens.is_empty());
    let mut first_visible: Option<(usize, i64)> = None;
    for (i, t) in tokens.iter().enumerate() {
        assert!(
            t.chars().all(|c| c.is_ascii_digit()) || t.chars().all(|c| c == '_'),
            "mixed token {:?} in {:?}",
            t,
            line
        );
        assert!(!t.is_empty(), "empty token in {:?}", line);
        if t.chars().all(|c| c.is_ascii_digit()) && first_visible.is_none() {
            first_visible = Some((i, t.parse::<i64>().unwrap()));
        }
    }
    let (anchor_idx, anchor_val) = first_visible.expect("a line with no visible number");
    let value_at = |i: usize| anchor_val + step * (i as i64 - anchor_idx as i64);
    let mut gap_runs = 0usize;
    let mut current_run = 0usize;
    let mut hidden_total = 0usize;
    for (i, t) in tokens.iter().enumerate() {
        let expected = value_at(i);
        assert!(expected >= 0, "negative reconstructed value in {:?}", line);
        if t.starts_with('_') {
            assert_eq!(
                t.len(),
                expected.to_string().len(),
                "blank width mismatch at token {} of {:?}",
                i,
                line
            );
            hidden_total += 1;
            current_run += 1;
            if current_run == 1 {
                gap_runs += 1;
            }
            assert!(current_run <= miss_max_per_gap, "gap too long in {:?}", line);
        } else {
            assert_eq!(t.parse::<i64>().unwrap(), expected, "stride broken in {:?}", line);
            current_run = 0;
        }
    }
    assert_eq!(gap_runs, gaps_per_line, "wrong gap count in {:?}", line);
    // The run is at least as long as the minimum count for its gaps.
    assert!(tokens.len() >= hidden_total + gap_runs - 1);
}

#[test]
fn test_missing_number_line_structure() {
    let o = opts(5, 20, 2, 3);
    for _ in 0..300 {
        let line = o.gen_single_missing_numbers().unwrap();
        check_line(&line, 5, 2, 3);
    }
}

#[test]
fn test_missing_number_descending() {
    let o = opts(-3, 25, 2, 2);
    for _ in 0..300 {
        let line = o.gen_single_missing_numbers().unwrap();
        check_line(&line, -3, 2, 2);
    }
}

#[test]
fn test_missing_number_start_multiple_of_step() {
    let mut o = opts(5, 30, 1, 2);
    o.start_as_multiple_step = true;
    for _ in 0..300 {
        let line = o.gen_single_missing_numbers().unwrap();
        let tokens: Vec<&str> = line.split(' ').collect();
        // Reconstruct the start from the first visible number.
        let (i, v) = tokens
            .iter()
            .enumerate()
            .find(|(_, t)| t.chars().all(|c| c.is_ascii_digit()))
            .map(|(i, t)| (i as i64, t.parse::<i64>().unwrap()))
            .unwrap();
        let start = v - 5 * i;
        assert_eq!(start % 5, 0, "start {} not a multiple of the stride in {:?}", start, line);
    }
}

#[test]
fn test_missing_number_infeasible_line_width() {
    // Three characters cannot hold the minimum run for two gaps.
    let o = opts(5, 3, 2, 3);
    assert_eq!(o.gen_single_missing_numbers().err(), Some(GenError::Infeasible));
}

#[test]
fn test_missing_number_lines_count() {
    let mut o = opts(1, 37, 2, 3);
    o.count = 4;
    let lines = o.gen_missing_number_lines().unwrap();
    assert_eq!(lines.len(), 4);
    for line in &lines {
        check_line(line, 1, 2, 3);
    }
}

#[test]
fn test_gen_numbers_run_fits_budget() {
    let o = opts(1, 20, 1, 1);
    for _ in 0..100 {
        let mut numbers: Vec<u16> = Vec::new();
        o.gen_numbers(&mut numbers, 2).unwrap();
        assert!(!numbers.is_empty());
        for w in numbers.windows(2) {
            assert_eq!(w[1] as i32, w[0] as i32 + 1);
        }
        let width: usize =
            numbers.iter().map(|n| n.to_string().len()).sum::<usize>() + numbers.len() - 1;
        assert!(width <= 20, "run {:?} wider than budget", numbers);
    }
}
