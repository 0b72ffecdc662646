use rtend::picker::parse_selected_entity_id;
use rtend::store::{AliasRow, EntityRow, RelationRow, RelationSnippetRow, SnippetRow, Store};
use rtend::text::{contains_substring, join_with_semicolons, str_lt_exec, u32_to_dec_string};
use rtend::utils::{parse_yes_no, trim_trailing_newline};

#[test]
fn decimal_rendering_matches_expected_text() {
    assert_eq!(u32_to_dec_string(0), "0");
    assert_eq!(u32_to_dec_string(7), "7");
    assert_eq!(u32_to_dec_string(42), "42");
    assert_eq!(u32_to_dec_string(99999), "99999");
    assert_eq!(u32_to_dec_string(4294967295), "4294967295");
}

#[test]
fn substring_search_is_exact_on_characters() {
    assert!(contains_substring("John Doe", "ohn"));
    assert!(!contains_substring("John Doe", "OHN"));
    assert!(contains_substring("abc", ""));
    assert!(contains_substring("", ""));
    assert!(!contains_substring("", "a"));
    assert!(contains_substring("aaab", "ab"));
    assert!(!contains_substring("ab", "abc"));
}

#[test]
fn name_order_is_lexicographic_by_code_point() {
    assert!(str_lt_exec("Al", "Alice"));
    assert!(!str_lt_exec("Alice", "Al"));
    assert!(str_lt_exec("Bravo", "alpha"));
    assert!(!str_lt_exec("same", "same"));
    assert!(str_lt_exec("", "a"));
}

#[test]
fn joining_names_uses_semicolon_separators() {
    let empty: Vec<String> = Vec::new();
    assert_eq!(join_with_semicolons(&empty), "");
    let one = vec![String::from("solo")];
    assert_eq!(join_with_semicolons(&one), "solo");
    let three = vec![String::from("a"), String::from("b"), String::from("c")];
    assert_eq!(join_with_semicolons(&three), "a; b; c");
}

#[test]
fn trailing_newlines_are_trimmed() {
    let mut s = String::from("note text\r\n");
    let r = trim_trailing_newline(&mut s);
    assert_eq!(r, "note text");
    assert_eq!(s, "note text");
    let mut t = String::from("inner\nkept\n\n\r");
    assert_eq!(trim_trailing_newline(&mut t), "inner\nkept");
    let mut u = String::from("\n\n");
    assert_eq!(trim_trailing_newline(&mut u), "");
    let mut v = String::from("plain");
    assert_eq!(trim_trailing_newline(&mut v), "plain");
}

#[test]
fn yes_no_answers_are_classified_exactly() {
    for yes in ["y", "Y", "yes", "YES", "Yes"] {
        assert_eq!(parse_yes_no(yes), Some(true));
    }
    for no in ["n", "N", "no", "NO", "No"] {
        assert_eq!(parse_yes_no(no), Some(false));
    }
    for other in ["", "maybe", "yES", "Nope", "y "] {
        assert_eq!(parse_yes_no(other), None);
    }
}

#[test]
fn selected_lines_parse_their_leading_id() {
    assert_eq!(parse_selected_entity_id(" 123  Alice"), Some(123));
    assert_eq!(parse_selected_entity_id("42"), Some(42));
    assert_eq!(parse_selected_entity_id("\t 7 rest"), Some(7));
    assert_eq!(parse_selected_entity_id("abc"), None);
    assert_eq!(parse_selected_entity_id(""), None);
    assert_eq!(parse_selected_entity_id("   "), None);
    assert_eq!(parse_selected_entity_id(" x1"), None);
    // only the first five digits of a longer run are read
    assert_eq!(parse_selected_entity_id("1234567"), Some(12345));
    assert_eq!(parse_selected_entity_id(" 99999 "), Some(99999));
}

#[test]
fn candidate_lines_round_trip_through_the_parser() {
    let mut s = Store::new();
    let a = s.add_entity("Alice", 1);
    let b = s.add_entity("Bob", 2);
    s.insert_alias(b, "Bobby", 3).unwrap();
    let lines = s.picker_candidate_lines();
    assert_eq!(lines.len(), 2);
    // each line is the full tier-one row: id, alias list, alias count,
    // snippet count, created timestamp
    assert_eq!(lines[0], " 1  Alice  1  0  1");
    assert_eq!(lines[1], " 2  Bob; Bobby  2  0  2");
    assert_eq!(parse_selected_entity_id(&lines[0]), Some(a));
    assert_eq!(parse_selected_entity_id(&lines[1]), Some(b));
}

#[test]
fn from_rows_accepts_well_shaped_tables() {
    let entities = vec![
        EntityRow { id: 1, created: 10 },
        EntityRow { id: 3, created: 11 },
    ];
    let aliases = vec![AliasRow {
        id: 2,
        entity_id: 1,
        name: String::from("Alice"),
        created: 10,
        updated: 10,
    }];
    let snippets: Vec<SnippetRow> = Vec::new();
    let relations: Vec<RelationRow> = Vec::new();
    let relation_snippets: Vec<RelationSnippetRow> = Vec::new();
    let s = Store::from_rows(
        entities,
        aliases,
        snippets,
        relations,
        relation_snippets,
        4,
        3,
        1,
        1,
        1,
    );
    let s = s.expect("well-shaped tables belong in a store");
    assert_eq!(s.entities.len(), 2);
    assert_eq!(s.latest_entity_id(), Some(3));
}

#[test]
fn from_rows_refuses_broken_shapes() {
    // id not below the next free id
    let entities = vec![EntityRow { id: 5, created: 10 }];
    assert!(
        Store::from_rows(entities, Vec::new(), Vec::new(), Vec::new(), Vec::new(), 5, 1, 1, 1, 1)
            .is_none()
    );
    // ids out of order
    let entities = vec![
        EntityRow { id: 2, created: 10 },
        EntityRow { id: 1, created: 11 },
    ];
    assert!(
        Store::from_rows(entities, Vec::new(), Vec::new(), Vec::new(), Vec::new(), 9, 1, 1, 1, 1)
            .is_none()
    );
    // a zero id
    let entities = vec![EntityRow { id: 0, created: 10 }];
    assert!(
        Store::from_rows(entities, Vec::new(), Vec::new(), Vec::new(), Vec::new(), 9, 1, 1, 1, 1)
            .is_none()
    );
}
