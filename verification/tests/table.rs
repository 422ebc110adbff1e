use shortlink::{containment_pattern, first_match, Error, Link, LinkTable, NewLink};

fn link(id: &str, url: &str) -> Link {
    Link::new(id.to_string(), url.to_string())
}

fn table_of(rows: &[(&str, &str)]) -> LinkTable {
    let mut table = LinkTable::new();
    for (id, url) in rows {
        assert_eq!(table.create(NewLink::new(id, url)), Ok(link(id, url)));
    }
    table
}

#[test]
fn new_table_is_empty() {
    let table = LinkTable::new();
    assert_eq!(table.len(), 0);
    assert!(!table.contains("ab12c"));
    assert_eq!(table.get("ab12c"), Err(Error::NotFound("ab12c".to_string())));
}

#[test]
fn table_create_then_get() {
    let mut table = LinkTable::new();
    let stored = table.create(NewLink::new("ab12c", "https://example.com/path"));
    assert_eq!(stored, Ok(link("ab12c", "https://example.com/path")));
    assert_eq!(table.len(), 1);
    assert!(table.contains("ab12c"));
    assert_eq!(table.get("ab12c"), Ok(link("ab12c", "https://example.com/path")));
}

#[test]
fn table_create_conflict_keeps_the_first_link() {
    let mut table = table_of(&[("ab12c", "https://example.com/first")]);
    let again = table.create(NewLink::new("ab12c", "https://example.com/second"));
    assert_eq!(again, Err(Error::Conflict));
    assert_eq!(table.len(), 1);
    assert_eq!(table.get("ab12c"), Ok(link("ab12c", "https://example.com/first")));
}

#[test]
fn table_ids_are_case_sensitive() {
    let mut table = table_of(&[("ab12c", "https://example.com/lower")]);
    assert_eq!(
        table.create(NewLink::new("AB12C", "https://example.com/upper")),
        Ok(link("AB12C", "https://example.com/upper"))
    );
    assert_eq!(table.len(), 2);
    assert_eq!(table.get("AB12C"), Ok(link("AB12C", "https://example.com/upper")));
    assert_eq!(table.get("ab12c"), Ok(link("ab12c", "https://example.com/lower")));
    assert_eq!(table.get("aB12c"), Err(Error::NotFound("aB12c".to_string())));
}

#[test]
fn table_get_is_repeatable() {
    let table = table_of(&[("ab12c", "https://example.com/a"), ("xy_-9", "https://example.com/b")]);
    for _ in 0..3 {
        assert_eq!(table.get("xy_-9"), Ok(link("xy_-9", "https://example.com/b")));
        assert_eq!(table.get("nope0"), Err(Error::NotFound("nope0".to_string())));
    }
    assert_eq!(table.len(), 2);
}

fn five_links() -> LinkTable {
    table_of(&[
        ("ab12c", "https://example.com/1"),
        ("xab1y", "https://example.com/2"),
        ("zzzzz", "https://example.com/3"),
        ("12cab", "https://example.com/4"),
        ("a-b12", "https://example.com/5"),
    ])
}

#[test]
fn table_delete_removes_ids_that_hold_the_fragment() {
    let mut table = five_links();
    assert_eq!(table.delete(&containment_pattern("ab1")), 2);
    assert_eq!(table.len(), 3);
    assert!(!table.contains("ab12c"));
    assert!(!table.contains("xab1y"));
    assert_eq!(table.get("zzzzz"), Ok(link("zzzzz", "https://example.com/3")));
    assert_eq!(table.get("12cab"), Ok(link("12cab", "https://example.com/4")));
    assert_eq!(table.get("a-b12"), Ok(link("a-b12", "https://example.com/5")));
}

#[test]
fn table_delete_without_a_match_changes_nothing() {
    let mut table = five_links();
    assert_eq!(table.delete(&containment_pattern("q")), 0);
    assert_eq!(table.delete(&containment_pattern("ab12cd")), 0);
    assert_eq!(table.delete("ab1"), 0);
    assert_eq!(table.delete(""), 0);
    assert_eq!(table.delete("____"), 0);
    assert_eq!(table.len(), 5);
    assert!(table.contains("ab12c"));
    assert!(table.contains("zzzzz"));
}

#[test]
fn table_delete_by_exact_id() {
    let mut table = five_links();
    assert_eq!(table.delete("zzzzz"), 1);
    assert_eq!(table.len(), 4);
    assert_eq!(table.get("zzzzz"), Err(Error::NotFound("zzzzz".to_string())));
    assert!(table.contains("ab12c"));
}

#[test]
fn table_delete_by_prefix_and_suffix() {
    let mut table = five_links();
    assert_eq!(table.delete("a%"), 2);
    assert!(!table.contains("ab12c"));
    assert!(!table.contains("a-b12"));
    assert_eq!(table.delete("%y"), 1);
    assert!(!table.contains("xab1y"));
    assert_eq!(table.len(), 2);
}

#[test]
fn table_delete_underscore_stands_for_any_character() {
    let mut table = five_links();
    assert_eq!(table.delete(&containment_pattern("b_2")), 2);
    assert!(!table.contains("ab12c"));
    assert!(!table.contains("a-b12"));
    assert!(table.contains("xab1y"));
    assert_eq!(table.len(), 3);
}

#[test]
fn table_delete_escaped_underscore_is_literal() {
    let mut table = table_of(&[("a_b12", "https://example.com/1"), ("a-b12", "https://example.com/2")]);
    assert_eq!(table.delete(&containment_pattern("a\\_b")), 1);
    assert!(!table.contains("a_b12"));
    assert!(table.contains("a-b12"));
}

#[test]
fn table_delete_empty_fragment_empties_the_table() {
    let mut table = five_links();
    assert_eq!(table.delete(&containment_pattern("")), 5);
    assert_eq!(table.len(), 0);
    assert_eq!(table.delete(&containment_pattern("")), 0);
}

#[test]
fn table_delete_five_underscores_match_every_generated_id() {
    let mut table = five_links();
    assert_eq!(table.delete("_____"), 5);
    assert_eq!(table.len(), 0);
}

#[test]
fn table_deleted_id_is_free_again() {
    let mut table = table_of(&[("ab12c", "https://example.com/1")]);
    assert_eq!(table.delete("ab12c"), 1);
    assert_eq!(table.get("ab12c"), Err(Error::NotFound("ab12c".to_string())));
    assert_eq!(
        table.create(NewLink::new("ab12c", "https://example.com/2")),
        Ok(link("ab12c", "https://example.com/2"))
    );
}

#[test]
fn first_match_takes_the_first_row() {
    assert_eq!(first_match("ab12c", vec![]), Err(Error::NotFound("ab12c".to_string())));
    assert_eq!(
        first_match("ab12c", vec![link("ab12c", "https://example.com/1")]),
        Ok(link("ab12c", "https://example.com/1"))
    );
    assert_eq!(
        first_match(
            "ab12c",
            vec![link("ab12c", "https://example.com/1"), link("ab12c", "https://example.com/2")]
        ),
        Ok(link("ab12c", "https://example.com/1"))
    );
}

#[test]
fn link_conversions_keep_both_texts() {
    let stored = link("ab12c", "https://example.com/1");
    let as_new = stored.as_new();
    assert_eq!(as_new, NewLink::new("ab12c", "https://example.com/1"));
    assert_eq!(as_new.id, "ab12c");
    assert_eq!(as_new.url, "https://example.com/1");
    assert_eq!(as_new.to_link(), stored);
    assert_eq!(stored.clone(), stored);
}
