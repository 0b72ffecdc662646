use rtend::item::DetailKind;
use rtend::list::EntityListing;
use rtend::store::Store;

#[test]
fn tier_one_counts_match_the_tables() {
    let mut s = Store::new();
    let a = s.add_entity("Alice", 1);
    s.insert_alias(a, "Al", 2).unwrap();
    s.insert_snippet(a, "one", 3).unwrap();
    s.insert_snippet(a, "two", 4).unwrap();
    s.insert_snippet(a, "three", 5).unwrap();
    let b = s.add_entity("Bob", 6);

    let rows = s.list_entity_long(a);
    assert_eq!(rows.len(), 1);
    assert_eq!(rows[0].id, a);
    assert_eq!(rows[0].alias_count, 2);
    assert_eq!(rows[0].snippet_count, 3);
    assert_eq!(rows[0].alias_list, "Alice; Al");
    assert_eq!(rows[0].created, 1);

    let all = s.list_verbose();
    assert_eq!(all.len(), 2);
    assert_eq!(all[1].id, b);
    assert_eq!(all[1].alias_count, 1);
    assert_eq!(all[1].snippet_count, 0);
    assert_eq!(all[1].alias_list, "Bob");
}

#[test]
fn tier_one_alias_list_stops_at_four_names() {
    let mut s = Store::new();
    let a = s.add_entity("n1", 1);
    s.insert_alias(a, "n2", 2).unwrap();
    s.insert_alias(a, "n3", 3).unwrap();
    s.insert_alias(a, "n4", 4).unwrap();
    s.insert_alias(a, "n5", 5).unwrap();
    let rows = s.list_entity_long(a);
    assert_eq!(rows[0].alias_list, "n1; n2; n3; n4");
    assert_eq!(rows[0].alias_count, 5);
}

#[test]
fn tier_zero_shows_id_and_creation() {
    let mut s = Store::new();
    let a = s.add_entity("Alice", 77);
    let rows = s.list_entity_plain(a);
    assert_eq!(rows.len(), 1);
    assert_eq!(rows[0].id, a);
    assert_eq!(rows[0].created, 77);
    assert_eq!(s.list_entity_plain(42).len(), 0);
}

#[test]
fn alias_find_is_case_sensitive_and_matches_anywhere() {
    let mut s = Store::new();
    let a = s.add_entity("John Doe", 1);
    let hits = s.find_alias("ohn");
    assert_eq!(hits.len(), 1);
    assert_eq!(hits[0].name, "John Doe");
    assert_eq!(hits[0].entity_id, a);
    assert_eq!(s.find_alias("OHN").len(), 0);
    assert_eq!(s.find_alias("Doe").len(), 1);
    assert_eq!(s.find_alias("xyz").len(), 0);
}

#[test]
fn alias_find_orders_by_name() {
    let mut s = Store::new();
    let a = s.add_entity("Charlie", 1);
    s.insert_alias(a, "alpha", 2).unwrap();
    s.insert_alias(a, "Bravo", 3).unwrap();
    let hits = s.find_alias("a");
    // every name contains a lowercase "a"; output is ordered by name,
    // with capital letters before lowercase ones
    assert_eq!(hits.len(), 3);
    assert_eq!(hits[0].name, "Bravo");
    assert_eq!(hits[1].name, "Charlie");
    assert_eq!(hits[2].name, "alpha");
}

#[test]
fn verbose_alias_find_lists_the_other_names() {
    let mut s = Store::new();
    let a = s.add_entity("Alice", 1);
    s.insert_alias(a, "Al", 2).unwrap();
    let hits = s.find_alias_verbose("Al");
    assert_eq!(hits.len(), 2);
    assert_eq!(hits[0].name, "Al");
    assert_eq!(hits[0].entity_id, a);
    assert_eq!(hits[0].other_alias, "Alice");
    assert_eq!(hits[1].name, "Alice");
    assert_eq!(hits[1].entity_id, a);
    assert_eq!(hits[1].other_alias, "Al");
}

#[test]
fn relation_find_matches_either_endpoint() {
    let mut s = Store::new();
    let a = s.add_entity("Alice", 1);
    let b = s.add_entity("Bob", 2);
    let c = s.add_entity("Carol", 3);
    let r1 = s.insert_relation(a, b, 4).unwrap();
    let r2 = s.insert_relation(c, a, 5).unwrap();
    s.insert_relation(b, c, 6).unwrap();
    let hits = s.find_relation(a);
    assert_eq!(hits.len(), 2);
    assert_eq!(hits[0].id, r1);
    assert_eq!(hits[1].id, r2);
    let verbose = s.find_relation_verbose(a);
    assert_eq!(verbose.len(), 2);
    assert_eq!(verbose[0].alias_list_a, "Alice");
    assert_eq!(verbose[0].alias_list_b, "Bob");
    assert_eq!(verbose[1].alias_list_a, "Carol");
    assert_eq!(verbose[1].alias_list_b, "Alice");
}

#[test]
fn snippet_find_is_case_sensitive_substring() {
    let mut s = Store::new();
    let a = s.add_entity("Alice", 1);
    let b = s.add_entity("Bob", 2);
    s.insert_snippet(a, "met at conference", 3).unwrap();
    s.insert_snippet(b, "Conference room", 4).unwrap();
    let hits = s.find_snippet("conference");
    assert_eq!(hits.len(), 1);
    assert_eq!(hits[0].entity_id, a);
    assert_eq!(hits[0].data, "met at conference");
    let rel = s.insert_relation(a, b, 5).unwrap();
    s.insert_relation_snippet(rel, "same conference", 6).unwrap();
    let rs_hits = s.find_relation_snippet("conference");
    assert_eq!(rs_hits.len(), 1);
    assert_eq!(rs_hits[0].relation_id, rel);
}

#[test]
fn empty_search_text_matches_every_row() {
    let mut s = Store::new();
    let a = s.add_entity("Alice", 1);
    s.insert_snippet(a, "note", 2).unwrap();
    assert_eq!(s.find_alias("").len(), 1);
    assert_eq!(s.find_snippet("").len(), 1);
}

#[test]
fn detail_log_collects_the_whole_neighbourhood() {
    let mut s = Store::new();
    let a = s.add_entity("Alice", 1);
    let b = s.add_entity("Bob", 2);
    let rel = s.insert_relation(a, b, 3).unwrap();
    s.insert_relation_snippet(rel, "met at conference", 4).unwrap();
    s.insert_snippet(a, "likes tea", 5).unwrap();

    let log = s.list_entity_detail(a);
    assert_eq!(log.len(), 5);
    assert_eq!(log[0].data_type, DetailKind::Alias);
    assert_eq!(log[0].data, "Alice");
    assert_eq!(log[1].data_type, DetailKind::Entity);
    assert_eq!(log[1].data, "1");
    assert_eq!(log[1].last_modified, 1);
    assert_eq!(log[2].data_type, DetailKind::Relation);
    assert_eq!(log[2].data, "1 | 2");
    assert_eq!(log[3].data_type, DetailKind::RelationSnippet);
    assert_eq!(log[3].data, "met at conference");
    assert_eq!(log[4].data_type, DetailKind::Snippet);
    assert_eq!(log[4].data, "likes tea");

    // the same relation rows appear from the other endpoint too
    let log_b = s.list_entity_detail(b);
    assert_eq!(log_b.len(), 4);
    assert_eq!(log_b[1].data, "2");
    assert_eq!(log_b[2].data, "1 | 2");
    assert_eq!(log_b[3].data, "met at conference");
}

#[test]
fn detail_log_of_unknown_entity_is_empty() {
    let mut s = Store::new();
    s.add_entity("Alice", 1);
    assert_eq!(s.list_entity_detail(42).len(), 0);
}

#[test]
fn listing_tiers_select_by_verbosity() {
    let mut s = Store::new();
    let a = s.add_entity("Alice", 1);
    match s.list_entity(a, 0) {
        EntityListing::Plain(rows) => assert_eq!(rows.len(), 1),
        _ => panic!("expected the plain tier"),
    }
    match s.list_entity(a, 1) {
        EntityListing::Long(rows) => assert_eq!(rows[0].alias_list, "Alice"),
        _ => panic!("expected the summary tier"),
    }
    match s.list_entity(a, 2) {
        EntityListing::Detail(rows) => assert_eq!(rows.len(), 2),
        _ => panic!("expected the detail tier"),
    }
}

#[test]
fn per_owner_listings_filter_and_order() {
    let mut s = Store::new();
    let a = s.add_entity("zeta", 1);
    s.insert_alias(a, "alpha", 2).unwrap();
    let b = s.add_entity("Bob", 3);
    s.insert_snippet(a, "one", 4).unwrap();
    s.insert_snippet(b, "two", 5).unwrap();

    let aliases = s.list_alias(a);
    assert_eq!(aliases.len(), 2);
    // ordered by name, not by insertion
    assert_eq!(aliases[0].name, "alpha");
    assert_eq!(aliases[1].name, "zeta");

    let snippets = s.list_snippet(a);
    assert_eq!(snippets.len(), 1);
    assert_eq!(snippets[0].data, "one");

    let rel = s.insert_relation(a, b, 6).unwrap();
    s.insert_relation_snippet(rel, "edge", 7).unwrap();
    let rels = s.list_relation(rel);
    assert_eq!(rels.len(), 1);
    assert_eq!(rels[0].entity_id_a, a);
    assert_eq!(s.list_relation(42).len(), 0);
    let rel_long = s.list_relation_verbose(rel);
    assert_eq!(rel_long[0].alias_list_a, "zeta; alpha");
    assert_eq!(rel_long[0].alias_list_b, "Bob");
    let rss = s.list_relation_snippet(rel);
    assert_eq!(rss.len(), 1);
    assert_eq!(rss[0].data, "edge");
}

#[test]
fn stats_count_every_table() {
    let mut s = Store::new();
    let a = s.add_entity("Alice", 1);
    let b = s.add_entity("Bob", 2);
    s.insert_snippet(a, "note", 3).unwrap();
    let rel = s.insert_relation(a, b, 4).unwrap();
    s.insert_relation_snippet(rel, "edge", 5).unwrap();
    let stats = s.list_stats();
    assert_eq!(stats.len(), 5);
    assert_eq!(stats[0].stat_type, "Entities");
    assert_eq!(stats[0].count, 2);
    assert_eq!(stats[1].stat_type, "Aliases");
    assert_eq!(stats[1].count, 2);
    assert_eq!(stats[2].stat_type, "Snippets");
    assert_eq!(stats[2].count, 1);
    assert_eq!(stats[3].stat_type, "Relations");
    assert_eq!(stats[3].count, 1);
    assert_eq!(stats[4].stat_type, "Relation Snippets");
    assert_eq!(stats[4].count, 1);
}

#[test]
fn empty_store_lists_nothing() {
    let s = Store::new();
    assert_eq!(s.list_verbose().len(), 0);
    assert_eq!(s.find_alias("x").len(), 0);
    assert_eq!(s.list_stats()[0].count, 0);
}
