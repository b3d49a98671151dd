use ddl_lint::{parse_col, parse_table, Col, Table};

#[test]
fn test_parse_col() {
    assert_eq!(
        parse_col("name Date"),
        Ok((
            "",
            Col {
                name: "name".to_string(),
                col_type: "Date".to_string()
            }
        ))
    )
}

#[test]
fn test_parse_table() {
    assert_eq!(
        parse_table("CREATE TABLE table (my_date Date, my_string String)"),
        Ok((
            "",
            Table {
                name: "table".to_string(),
                columns: vec![
                    Col {
                        name: "my_date".to_string(),
                        col_type: "Date".to_string(),
                    },
                    Col {
                        name: "my_string".to_string(),
                        col_type: "String".to_string(),
                    },
                ],
                if_not_exists: false
            }
        ))
    )
}

#[test]
fn test_parse_table_keyword_case_insensitive() {
    let lower = parse_table("create table longname (c String)").unwrap();
    let upper = parse_table("CREATE TABLE longname (c String)").unwrap();
    assert_eq!(lower, upper);
    assert_eq!(lower.1.name, "longname");
}

#[test]
fn test_parse_table_zero_columns() {
    let (rest, table) = parse_table("CREATE TABLE mytab ()").unwrap();
    assert_eq!(rest, "");
    assert_eq!(table.name, "mytab");
    assert!(table.columns.is_empty());
    assert!(!table.if_not_exists);
}

#[test]
fn test_parse_table_if_not_exists_sets_flag() {
    // The grammar does not require whitespace after the optional keyword;
    // the identifier starts right where the keyword ends.
    let (rest, table) = parse_table("CREATE TABLE IF NOT EXISTSusers (a Date)").unwrap();
    assert_eq!(rest, "");
    assert!(table.if_not_exists);
    assert_eq!(table.name, "users");
}

#[test]
fn test_parse_table_if_not_exists_with_space_is_rejected() {
    // With a space after the keyword the table name identifier is empty.
    assert!(parse_table("CREATE TABLE IF NOT EXISTS users (a Date)").is_err());
}

#[test]
fn test_parse_table_keeps_trailing_input() {
    let (rest, table) = parse_table("CREATE TABLE mytab (a Date) extra").unwrap();
    assert_eq!(rest, " extra");
    assert_eq!(table.name, "mytab");
}

#[test]
fn test_parse_table_duplicate_columns_are_accepted() {
    let (rest, table) = parse_table("CREATE TABLE mytable (x Date, x String)").unwrap();
    assert_eq!(rest, "");
    assert_eq!(table.columns.len(), 2);
    assert_eq!(table.columns[0].name, "x");
    assert_eq!(table.columns[1].name, "x");
}

#[test]
fn test_parse_col_accepts_mixed_whitespace() {
    let (rest, col) = parse_col("a \t\r\n Date").unwrap();
    assert_eq!(rest, "");
    assert_eq!(col.name, "a");
    assert_eq!(col.col_type, "Date");
}

#[test]
fn test_parse_col_rejects_unknown_type() {
    assert!(parse_col("a Int").is_err());
}

#[test]
fn test_parse_col_type_is_case_sensitive() {
    assert!(parse_col("a date").is_err());
}

#[test]
fn test_parse_col_rejects_empty_identifier() {
    assert!(parse_col(" Date").is_err());
}

#[test]
fn test_parse_col_rejects_missing_whitespace() {
    assert!(parse_col("aDate").is_err());
}

#[test]
fn test_parse_table_rejects_missing_parens() {
    assert!(parse_table("CREATE TABLE mytab a Date").is_err());
}

#[test]
fn test_parse_table_rejects_bare_comma_separator() {
    // The separator is the two-character sequence ", "; a bare comma
    // leaves the list unfinished.
    assert!(parse_table("CREATE TABLE mytab (a Date,b String)").is_err());
}

#[test]
fn test_parse_table_rejects_wrong_keyword() {
    assert!(parse_table("CREATE VIEW mytab (a Date)").is_err());
}

#[test]
fn test_parse_table_rejects_name_touching_paren() {
    // The table name runs up to the next space, so a name touching the
    // opening parenthesis fails to parse.
    assert!(parse_table("CREATE TABLE mytab(a Date)").is_err());
}
