//! Tests of the expression generator: constraint satisfaction of the
//! sampled pairs, rendering shape, parsing, and layout.

use arith_sheets::add_minus::{
    gen_add, gen_arithmetic_expr, gen_arithmetic_to_docx, gen_arithmetic_to_docx_by_pattern1,
    gen_arithmetic_to_docx_by_pattern2, gen_operands, Op,
};
use arith_sheets::layout::layout_lines;
use arith_sheets::pattern::{parse_args, parse_operand_pattern};
use arith_sheets::{AddMinusOpts, GenError, OperandPattern};

fn opts(pattern: &str, category: &str, min: u16, max: u16, rmin: i16, rmax: i16) -> AddMinusOpts {
    AddMinusOpts {
        count: 40,
        column_per_page: 2,
        number_min_inclusive: min,
        number_max_inclusive: max,
        result_min_inclusive: rmin,
        category: category.to_string(),
        output_docx_font_size: 56,
        operand_pattern: pattern.to_string(),
        result_max_inclusive: rmax,
    }
}

#[test]
fn test_gen_add() {
    let args = AddMinusOpts {
        count: 40,
        column_per_page: 2,
        number_min_inclusive: 0,
        number_max_inclusive: 10,
        result_min_inclusive: 0,
        category: "+".to_string(),
        output_docx_font_size: 56,
        operand_pattern: "*,*".to_string(),
        result_max_inclusive: 99,
    };
    let s = gen_add(&parse_args(&args).unwrap()).unwrap();
    println!("{:?}", s);
}

#[test]
fn test_two_operand_pairs_respect_constraints() {
    let pa = parse_args(&opts("*,*", "+", 0, 10, 0, 99)).unwrap();
    for _ in 0..10000 {
        let (l, r) = gen_operands(&pa, Op::Add).unwrap();
        assert!(l <= 10 && r <= 10);
        let sum = l as i32 + r as i32;
        assert!((0..=99).contains(&sum));
    }
    let pa = parse_args(&opts("5*,3*", "+", 1, 100, 0, 200)).unwrap();
    for _ in 0..10000 {
        let (l, r) = gen_operands(&pa, Op::Add).unwrap();
        assert!(l % 5 == 0 && r % 3 == 0);
        assert!((1..=100).contains(&l) && (1..=100).contains(&r));
        let sum = l as i32 + r as i32;
        assert!((0..=200).contains(&sum));
    }
    let pa = parse_args(&opts("*,*", "_", 5, 9, -4, 4)).unwrap();
    for _ in 0..10000 {
        let (l, r) = gen_operands(&pa, Op::Minus).unwrap();
        assert!((5..=9).contains(&l) && (5..=9).contains(&r));
        let diff = l as i32 - r as i32;
        assert!((-4..=4).contains(&diff));
    }
}

#[test]
fn test_fixed_result_sums_to_target() {
    let pa = parse_args(&opts("=10", "+", 0, 10, 0, 99)).unwrap();
    for _ in 0..10000 {
        let (l, r) = gen_operands(&pa, Op::Add).unwrap();
        assert_eq!(l + r, 10);
        assert!(l <= 10 && r <= 10);
    }
}

#[test]
fn test_one_operand_and_constant_patterns() {
    let pa = parse_args(&opts("4*", "+", 0, 20, 0, 99)).unwrap();
    for _ in 0..1000 {
        let (l, r) = gen_operands(&pa, Op::Add).unwrap();
        assert_eq!(l, r);
        assert!(l % 4 == 0 && l <= 20);
    }
    let pa = parse_args(&opts("7,2~4", "+", 0, 10, 0, 99)).unwrap();
    for _ in 0..1000 {
        let (l, r) = gen_operands(&pa, Op::Add).unwrap();
        assert_eq!(l, 7);
        assert!((2..=4).contains(&r));
    }
}

fn assert_expr_shape(s: &str) {
    let b: Vec<char> = s.chars().collect();
    let mut i = 0;
    while i < b.len() && b[i] == ' ' {
        i += 1;
    }
    let d0 = i;
    while i < b.len() && b[i].is_ascii_digit() {
        i += 1;
    }
    assert!(i > d0, "no left operand digits in {:?}", s);
    assert_eq!(b[i], ' ', "no space before operator in {:?}", s);
    i += 1;
    assert!(b[i] == '+' || b[i] == '-', "no operator in {:?}", s);
    i += 1;
    while i < b.len() && b[i] == ' ' {
        i += 1;
    }
    let d1 = i;
    while i < b.len() && b[i].is_ascii_digit() {
        i += 1;
    }
    assert!(i > d1, "no right operand digits in {:?}", s);
    assert_eq!(b[i], '=', "no equals sign in {:?}", s);
    assert_eq!(i + 1, b.len(), "text after equals sign in {:?}", s);
}

#[test]
fn test_rendered_expression_shape() {
    // With single-digit bounds every operand fills its column, so the
    // rendering has no padding before the equals sign.
    let pa = parse_args(&opts("*,*", "x", 0, 9, -9, 18)).unwrap();
    for _ in 0..1000 {
        let s = gen_arithmetic_expr(&pa).unwrap();
        assert_expr_shape(&s);
    }
}

#[test]
fn test_pattern_syntax_errors() {
    assert_eq!(parse_operand_pattern("abc"), Err(GenError::PatternSyntax));
    assert_eq!(parse_operand_pattern(""), Err(GenError::PatternSyntax));
    assert_eq!(parse_operand_pattern("9~2"), Err(GenError::PatternSyntax));
    assert_eq!(parse_operand_pattern("0*"), Err(GenError::PatternSyntax));
    assert_eq!(parse_operand_pattern("70000"), Err(GenError::PatternSyntax));
    assert_eq!(parse_operand_pattern("*"), Ok(OperandPattern::Wildcard));
    assert_eq!(parse_operand_pattern("5*"), Ok(OperandPattern::MultipleOf(5)));
    assert_eq!(parse_operand_pattern("3~9"), Ok(OperandPattern::ConstantRange(3, 9)));
    assert_eq!(parse_operand_pattern("3-9"), Ok(OperandPattern::ConstantRange(3, 9)));
    assert_eq!(parse_operand_pattern("7"), Ok(OperandPattern::Constant(7)));
}

#[test]
fn test_fixed_result_mixed_category_rejected() {
    let args = opts("=10", "x", 0, 10, 0, 99);
    assert_eq!(parse_args(&args).err(), Some(GenError::PatternSyntax));
}

#[test]
fn test_layout_groups_items() {
    let items = vec!["a".to_string(), "b".to_string(), "c".to_string()];
    let lines = layout_lines(&items, 2, "|");
    assert_eq!(lines, vec!["a|b".to_string(), "c".to_string()]);
    let lines = layout_lines(&items, 3, ", ");
    assert_eq!(lines, vec!["a, b, c".to_string()]);
}

#[test]
fn test_gen_arithmetic_lines_count() {
    let mut args = opts("*,*", "+", 0, 9, 0, 18);
    args.count = 5;
    args.column_per_page = 2;
    let lines = gen_arithmetic_to_docx(&args).unwrap();
    assert_eq!(lines.len(), 3);
    assert_eq!(lines[0].matches('=').count(), 2);
    assert_eq!(lines[1].matches('=').count(), 2);
    assert_eq!(lines[2].matches('=').count(), 1);
    for line in &lines {
        for item in line.split("      ") {
            assert_expr_shape(item);
        }
    }
}

#[test]
fn test_pattern2_items_come_from_table() {
    let allowed: Vec<(u16, u16)> = vec![
        (18, 9),
        (17, 9),
        (17, 8),
        (16, 9),
        (16, 8),
        (16, 7),
        (15, 9),
        (15, 8),
        (15, 7),
        (15, 6),
        (10, 9),
        (10, 8),
        (10, 7),
        (10, 6),
        (10, 5),
        (10, 4),
        (10, 3),
        (10, 2),
        (10, 1),
        (8, 7),
        (8, 6),
        (8, 5),
        (8, 4),
        (8, 3),
        (8, 2),
        (8, 1),
    ];
    let mut args = opts("*,*", "_", 0, 20, 0, 99);
    args.count = 30;
    args.column_per_page = 3;
    let lines = gen_arithmetic_to_docx_by_pattern2(&args);
    let mut total = 0;
    for line in &lines {
        for item in line.split("      ") {
            let body = item.trim();
            let (lhs, rest) = body.split_once('-').unwrap();
            let l: u16 = lhs.trim().parse().unwrap();
            let r: u16 = rest.trim().trim_end_matches('=').trim().parse().unwrap();
            assert!(allowed.contains(&(l, r)), "pair ({}, {}) not in table", l, r);
            total += 1;
        }
    }
    assert_eq!(total, 30);
}

#[test]
fn test_pattern1_items_come_from_table() {
    let base: Vec<(u16, u16)> = vec![
        (9, 7),
        (8, 8),
        (9, 6),
        (8, 7),
        (9, 5),
        (8, 6),
        (7, 7),
        (9, 4),
        (8, 5),
        (7, 6),
        (9, 3),
        (8, 4),
        (7, 5),
        (6, 6),
        (9, 2),
        (8, 3),
        (7, 4),
        (6, 5),
        (9, 1),
        (8, 2),
        (7, 3),
        (6, 4),
        (5, 5),
        (8, 1),
        (7, 2),
        (6, 3),
        (5, 4),
        (7, 1),
        (6, 2),
        (5, 3),
        (4, 4),
        (6, 1),
        (5, 2),
        (4, 3),
        (4, 2),
        (9, 8),
        (5, 1),
        (3, 3),
        (4, 1),
        (3, 2),
        (9, 9),
    ];
    let mut args = opts("*,*", "+", 0, 20, 0, 99);
    args.count = 30;
    args.column_per_page = 3;
    let lines = gen_arithmetic_to_docx_by_pattern1(&args);
    let mut total = 0;
    for line in &lines {
        for item in line.split("      ") {
            let body = item.trim();
            let (lhs, rest) = body.split_once('+').unwrap();
            let l: u16 = lhs.trim().parse().unwrap();
            let r: u16 = rest.trim().trim_end_matches('=').trim().parse().unwrap();
            assert!(
                base.contains(&(l, r)) || base.contains(&(r, l)),
                "pair ({}, {}) not in table",
                l,
                r
            );
            total += 1;
        }
    }
    assert_eq!(total, 30);
}

#[test]
fn test_gen_operands_infeasible() {
    // No left operand in [0, 3] leaves a complement in bounds for 10.
    let pa = parse_args(&opts("=10", "+", 0, 3, 0, 99)).unwrap();
    assert_eq!(gen_operands(&pa, Op::Add).err(), Some(GenError::Infeasible));
    // No pair of values from [5, 9] sums into [100, 200].
    let pa = parse_args(&opts("*,*", "+", 5, 9, 100, 200)).unwrap();
    assert_eq!(gen_operands(&pa, Op::Add).err(), Some(GenError::Infeasible));
}

#[test]
fn test_pattern2_full_pass_is_permutation() {
    // With exactly one pass requested, the items are a permutation of
    // the whole table: no pair repeats, none is missing.
    let mut args = opts("*,*", "_", 0, 20, 0, 99);
    args.count = 26;
    args.column_per_page = 1;
    for _ in 0..20 {
        let lines = gen_arithmetic_to_docx_by_pattern2(&args);
        let mut seen: Vec<(u16, u16)> = Vec::new();
        for line in &lines {
            for item in line.split("      ") {
                let body = item.trim();
                let (lhs, rest) = body.split_once('-').unwrap();
                let l: u16 = lhs.trim().parse().unwrap();
                let r: u16 = rest.trim().trim_end_matches('=').trim().parse().unwrap();
                seen.push((l, r));
            }
        }
        assert_eq!(seen.len(), 26);
        seen.sort();
        let mut table: Vec<(u16, u16)> = vec![
            (18, 9),
            (17, 9),
            (17, 8),
            (16, 9),
            (16, 8),
            (16, 7),
            (15, 9),
            (15, 8),
            (15, 7),
            (15, 6),
            (10, 9),
            (10, 8),
            (10, 7),
            (10, 6),
            (10, 5),
            (10, 4),
            (10, 3),
            (10, 2),
            (10, 1),
            (8, 7),
            (8, 6),
            (8, 5),
            (8, 4),
            (8, 3),
            (8, 2),
            (8, 1),
        ];
        table.sort();
        assert_eq!(seen, table);
    }
}

#[test]
fn test_pattern1_full_pass_group_frequencies() {
    // One full pass holds exactly each sum group's frequency of
    // distinct pairs, in either operand order.
    let mut args = opts("*,*", "+", 0, 20, 0, 99);
    args.count = 26;
    args.column_per_page = 1;
    for _ in 0..20 {
        let lines = gen_arithmetic_to_docx_by_pattern1(&args);
        let mut normalized: Vec<(u16, u16)> = Vec::new();
        for line in &lines {
            for item in line.split("      ") {
                let body = item.trim();
                let (lhs, rest) = body.split_once('+').unwrap();
                let l: u16 = lhs.trim().parse().unwrap();
                let r: u16 = rest.trim().trim_end_matches('=').trim().parse().unwrap();
                normalized.push((l.max(r), l.min(r)));
            }
        }
        assert_eq!(normalized.len(), 26);
        // No pair is drawn twice within a pass.
        let mut dedup = normalized.clone();
        dedup.sort();
        dedup.dedup();
        assert_eq!(dedup.len(), 26, "a pair repeated within one pass: {:?}", normalized);
        // Each group contributes exactly its frequency of pairs.
        let groups: Vec<(Vec<(u16, u16)>, usize)> = vec![
            (vec![(9, 7), (8, 8)], 2),
            (vec![(9, 6), (8, 7)], 2),
            (vec![(9, 5), (8, 6), (7, 7)], 3),
            (vec![(9, 4), (8, 5), (7, 6)], 3),
            (vec![(9, 3), (8, 4), (7, 5), (6, 6)], 4),
            (vec![(9, 2), (8, 3), (7, 4), (6, 5)], 4),
            (vec![(9, 1), (8, 2), (7, 3), (6, 4), (5, 5)], 1),
            (vec![(8, 1), (7, 2), (6, 3), (5, 4)], 2),
            (vec![(7, 1), (6, 2), (5, 3), (4, 4)], 2),
            (vec![(6, 1), (5, 2), (4, 3), (4, 2), (9, 8)], 2),
            (vec![(5, 1), (3, 3), (4, 1), (3, 2), (9, 9)], 1),
        ];
        for (g, freq) in &groups {
            let n = normalized.iter().filter(|p| g.contains(p)).count();
            assert_eq!(n, *freq, "group {:?} drew {} pairs", g, n);
        }
    }
}
