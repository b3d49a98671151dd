use ddl_lint::{
    check_duplicate_col_names, check_table_name_is_not_short, parse_table, run_lints, Col, Table,
};

const CONGRATS: &str = "Congrats! Your table looks fine";

#[test]
fn test_happy_path_two_columns() {
    let (_, table) = parse_table("CREATE TABLE table (my_date Date, my_string String)").unwrap();
    assert_eq!(run_lints(&table), vec![CONGRATS.to_string()]);
}

#[test]
fn test_short_table_name() {
    let (_, table) = parse_table("CREATE TABLE t (a Date)").unwrap();
    assert_eq!(
        check_table_name_is_not_short(&table),
        Some("Your table name 't' is too short. We recommend at least 5 characters.".to_string())
    );
    let out = run_lints(&table);
    assert_eq!(
        out,
        vec![
            "encountered error:\n\nYour table name 't' is too short. We recommend at least 5 characters."
                .to_string()
        ]
    );
    assert!(!out.iter().any(|line| line == CONGRATS));
}

#[test]
fn test_duplicate_columns() {
    let (_, table) = parse_table("CREATE TABLE mytable (x Date, x String)").unwrap();
    assert_eq!(
        check_duplicate_col_names(&table),
        Some("Duplicated column x was encountered 2 times.\n".to_string())
    );
    let out = run_lints(&table);
    assert_eq!(
        out,
        vec!["encountered error:\n\nDuplicated column x was encountered 2 times.\n".to_string()]
    );
    assert!(!out.iter().any(|line| line == CONGRATS));
}

#[test]
fn test_both_rules_fire() {
    let (_, table) = parse_table("CREATE TABLE t (x Date, x String)").unwrap();
    let out = run_lints(&table);
    assert_eq!(
        out,
        vec![
            "encountered error:\n\nDuplicated column x was encountered 2 times.\n".to_string(),
            "encountered error:\n\nYour table name 't' is too short. We recommend at least 5 characters."
                .to_string(),
        ]
    );
    assert!(!out.iter().any(|line| line == CONGRATS));
}

#[test]
fn test_case_insensitive_keyword_lints_clean() {
    let (_, table) = parse_table("create table longname (c String)").unwrap();
    assert_eq!(run_lints(&table), vec![CONGRATS.to_string()]);
}

#[test]
fn test_empty_column_list_lints_clean() {
    let (_, table) = parse_table("CREATE TABLE mytab ()").unwrap();
    assert_eq!(check_duplicate_col_names(&table), None);
    assert_eq!(run_lints(&table), vec![CONGRATS.to_string()]);
}

#[test]
fn test_name_of_exactly_five_bytes_is_fine() {
    let (_, table) = parse_table("CREATE TABLE abcde (a Date)").unwrap();
    assert_eq!(check_table_name_is_not_short(&table), None);
}

#[test]
fn test_name_of_four_bytes_is_short() {
    let (_, table) = parse_table("CREATE TABLE abcd (a Date)").unwrap();
    assert_eq!(
        check_table_name_is_not_short(&table),
        Some(
            "Your table name 'abcd' is too short. We recommend at least 5 characters.".to_string()
        )
    );
}

#[test]
fn test_triple_occurrence_count() {
    let (_, table) = parse_table("CREATE TABLE mytable (x Date, y String, x String, x Date)")
        .unwrap();
    assert_eq!(
        check_duplicate_col_names(&table),
        Some("Duplicated column x was encountered 3 times.\n".to_string())
    );
}

#[test]
fn test_duplicate_lines_follow_first_occurrence_order() {
    let (_, table) = parse_table("CREATE TABLE mytable (b Date, a Date, b String, a String)")
        .unwrap();
    assert_eq!(
        check_duplicate_col_names(&table),
        Some(
            "Duplicated column b was encountered 2 times.\nDuplicated column a was encountered 2 times.\n"
                .to_string()
        )
    );
}

#[test]
fn test_two_digit_occurrence_count() {
    let mut columns = Vec::new();
    for _ in 0..12 {
        columns.push(Col {
            name: "x".to_string(),
            col_type: "Date".to_string(),
        });
    }
    let table = Table {
        name: "mytable".to_string(),
        columns,
        if_not_exists: false,
    };
    assert_eq!(
        check_duplicate_col_names(&table),
        Some("Duplicated column x was encountered 12 times.\n".to_string())
    );
}

#[test]
fn test_rules_are_pure() {
    let (_, table) = parse_table("CREATE TABLE t (x Date, x String)").unwrap();
    assert_eq!(
        check_duplicate_col_names(&table),
        check_duplicate_col_names(&table)
    );
    assert_eq!(
        check_table_name_is_not_short(&table),
        check_table_name_is_not_short(&table)
    );
}
