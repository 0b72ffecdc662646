use rtend::delete::DeleteOutcome as Outcome;
use rtend::edit::EditOutcome;
use rtend::store::{Store, StoreError};

#[test]
fn add_entity_assigns_first_id_and_alias() {
    let mut s = Store::new();
    let id = s.add_entity("Alice", 100);
    assert_eq!(id, 1);
    assert_eq!(s.entities.len(), 1);
    assert_eq!(s.entities[0].id, 1);
    assert_eq!(s.entities[0].created, 100);
    assert_eq!(s.aliases.len(), 1);
    assert_eq!(s.aliases[0].id, 1);
    assert_eq!(s.aliases[0].entity_id, 1);
    assert_eq!(s.aliases[0].name, "Alice");
    assert_eq!(s.aliases[0].created, 100);
    assert_eq!(s.aliases[0].updated, 100);
}

#[test]
fn inserts_attach_to_existing_owner() {
    let mut s = Store::new();
    let a = s.add_entity("Alice", 1);
    let b = s.add_entity("Bob", 2);
    let alias_id = s.insert_alias(a, "Al", 3).unwrap();
    assert_eq!(alias_id, 3);
    assert_eq!(s.aliases[2].entity_id, a);
    let snippet_id = s.insert_snippet(b, "likes tea", 4).unwrap();
    assert_eq!(snippet_id, 1);
    assert_eq!(s.snippets[0].entity_id, b);
    let rel_id = s.insert_relation(a, b, 5).unwrap();
    assert_eq!(rel_id, 1);
    assert_eq!(s.relations[0].entity_id_a, a);
    assert_eq!(s.relations[0].entity_id_b, b);
    let rs_id = s.insert_relation_snippet(rel_id, "met at work", 6).unwrap();
    assert_eq!(rs_id, 1);
    assert_eq!(s.relation_snippets[0].relation_id, rel_id);
}

#[test]
fn inserts_with_missing_owner_are_refused() {
    let mut s = Store::new();
    let a = s.add_entity("Alice", 1);
    assert_eq!(s.insert_alias(99, "ghost", 2), Err(StoreError::MissingOwner));
    assert_eq!(s.insert_snippet(99, "ghost", 2), Err(StoreError::MissingOwner));
    assert_eq!(s.insert_relation(a, 99, 2), Err(StoreError::MissingOwner));
    assert_eq!(s.insert_relation(99, a, 2), Err(StoreError::MissingOwner));
    assert_eq!(s.insert_relation_snippet(7, "ghost", 2), Err(StoreError::MissingOwner));
    assert_eq!(s.aliases.len(), 1);
    assert_eq!(s.snippets.len(), 0);
    assert_eq!(s.relations.len(), 0);
    assert_eq!(s.relation_snippets.len(), 0);
}

#[test]
fn self_relation_is_allowed() {
    let mut s = Store::new();
    let a = s.add_entity("Alice", 1);
    let rel = s.insert_relation(a, a, 2).unwrap();
    assert_eq!(rel, 1);
    assert_eq!(s.relations[0].entity_id_a, a);
    assert_eq!(s.relations[0].entity_id_b, a);
}

#[test]
fn latest_ids_track_assignment() {
    let mut s = Store::new();
    assert_eq!(s.latest_entity_id(), None);
    assert_eq!(s.latest_relation_id(), None);
    let a = s.add_entity("Alice", 1);
    let b = s.add_entity("Bob", 2);
    assert_eq!(s.latest_entity_id(), Some(b));
    let r1 = s.insert_relation(a, b, 3).unwrap();
    let r2 = s.insert_relation(b, a, 4).unwrap();
    assert_eq!(s.latest_relation_id(), Some(r2));
    s.delete_relation(r2);
    assert_eq!(s.latest_relation_id(), Some(r1));
    s.delete_entity(b);
    // the counter remembers the last assigned id even after deletion
    assert_eq!(s.latest_entity_id(), Some(b));
}

#[test]
fn plain_delete_of_absent_id_changes_nothing() {
    let mut s = Store::new();
    let a = s.add_entity("Alice", 1);
    s.insert_snippet(a, "note", 2).unwrap();
    let e0 = s.entities.len();
    let a0 = s.aliases.len();
    let n0 = s.snippets.len();
    let r0 = s.relations.len();
    let q0 = s.relation_snippets.len();
    assert_eq!(s.delete_entity(42), Outcome::NotFound);
    assert_eq!(s.delete_alias(42), Outcome::NotFound);
    assert_eq!(s.delete_snippet(42), Outcome::NotFound);
    assert_eq!(s.delete_relation(42), Outcome::NotFound);
    assert_eq!(s.delete_relation_snippet(42), Outcome::NotFound);
    assert_eq!(s.entities.len(), e0);
    assert_eq!(s.aliases.len(), a0);
    assert_eq!(s.snippets.len(), n0);
    assert_eq!(s.relations.len(), r0);
    assert_eq!(s.relation_snippets.len(), q0);
}

#[test]
fn plain_delete_removes_one_row() {
    let mut s = Store::new();
    let a = s.add_entity("Alice", 1);
    let snip = s.insert_snippet(a, "note", 2).unwrap();
    assert_eq!(s.delete_snippet(snip), Outcome::Deleted);
    assert_eq!(s.snippets.len(), 0);
    // aliases and the entity are untouched by a plain delete
    assert_eq!(s.delete_entity(a), Outcome::Deleted);
    assert_eq!(s.entities.len(), 0);
    assert_eq!(s.aliases.len(), 1);
}

#[test]
fn force_delete_entity_cascades_and_repeats_as_noop() {
    let mut s = Store::new();
    let a = s.add_entity("Alice", 1);
    let b = s.add_entity("Bob", 2);
    s.insert_alias(a, "Al", 3).unwrap();
    s.insert_snippet(a, "likes tea", 4).unwrap();
    s.insert_snippet(b, "likes coffee", 5).unwrap();
    let rel_ab = s.insert_relation(a, b, 6).unwrap();
    let rel_bb = s.insert_relation(b, b, 7).unwrap();
    s.insert_relation_snippet(rel_ab, "met at work", 8).unwrap();
    s.insert_relation_snippet(rel_bb, "self note", 9).unwrap();

    let report = s.force_delete_entity(a);
    assert_eq!(report.relation_snippets_deleted, 1);
    assert_eq!(report.relations_deleted, 1);
    assert_eq!(report.snippets_deleted, 1);
    assert_eq!(report.aliases_deleted, 2);
    assert_eq!(report.entity, Outcome::Deleted);

    // nothing referencing the entity remains; everything else survives
    assert_eq!(s.entities.len(), 1);
    assert_eq!(s.entities[0].id, b);
    assert!(s.aliases.iter().all(|x| x.entity_id != a));
    assert!(s.snippets.iter().all(|x| x.entity_id != a));
    assert!(s.relations.iter().all(|x| x.entity_id_a != a && x.entity_id_b != a));
    assert_eq!(s.relations.len(), 1);
    assert_eq!(s.relation_snippets.len(), 1);
    assert_eq!(s.relation_snippets[0].relation_id, rel_bb);

    // the second run finds nothing at any step
    let again = s.force_delete_entity(a);
    assert_eq!(again.relation_snippets_deleted, 0);
    assert_eq!(again.relations_deleted, 0);
    assert_eq!(again.snippets_deleted, 0);
    assert_eq!(again.aliases_deleted, 0);
    assert_eq!(again.entity, Outcome::NotFound);
    assert_eq!(s.entities.len(), 1);
    assert_eq!(s.relations.len(), 1);
    assert_eq!(s.relation_snippets.len(), 1);
}

#[test]
fn force_delete_relation_takes_its_snippets() {
    let mut s = Store::new();
    let a = s.add_entity("Alice", 1);
    let b = s.add_entity("Bob", 2);
    let rel = s.insert_relation(a, b, 3).unwrap();
    s.insert_relation_snippet(rel, "met at work", 4).unwrap();
    s.insert_relation_snippet(rel, "met again", 5).unwrap();
    let report = s.force_delete_relation(rel);
    assert_eq!(report.relation_snippets_deleted, 2);
    assert_eq!(report.relation, Outcome::Deleted);
    assert_eq!(s.relations.len(), 0);
    assert_eq!(s.relation_snippets.len(), 0);
}

#[test]
fn plain_relation_delete_leaves_orphaned_snippets() {
    let mut s = Store::new();
    let a = s.add_entity("Alice", 1);
    let b = s.add_entity("Bob", 2);
    let rel = s.insert_relation(a, b, 3).unwrap();
    s.insert_relation_snippet(rel, "met at conference", 4).unwrap();
    assert_eq!(s.delete_relation(rel), Outcome::Deleted);
    assert_eq!(s.relations.len(), 0);
    // no cascade happened: the relation snippet stays as an orphan
    assert_eq!(s.relation_snippets.len(), 1);
    assert_eq!(s.relation_snippets[0].relation_id, rel);
    assert_eq!(s.relation_snippets[0].data, "met at conference");
}

#[test]
fn empty_edit_cancels_without_writing() {
    let mut s = Store::new();
    let a = s.add_entity("Alice", 1);
    let snip = s.insert_snippet(a, "original", 2).unwrap();
    assert_eq!(s.edit_alias(1, "", 9), EditOutcome::Cancelled);
    assert_eq!(s.edit_snippet(snip, "", 9), EditOutcome::Cancelled);
    assert_eq!(s.aliases[0].name, "Alice");
    assert_eq!(s.aliases[0].updated, 1);
    assert_eq!(s.snippets[0].data, "original");
    assert_eq!(s.snippets[0].updated, 2);
}

#[test]
fn nonempty_edit_rewrites_exactly_the_target_row() {
    let mut s = Store::new();
    let a = s.add_entity("Alice", 1);
    s.insert_alias(a, "Al", 2).unwrap();
    let s1 = s.insert_snippet(a, "first", 3).unwrap();
    let s2 = s.insert_snippet(a, "second", 4).unwrap();
    let rel = s.insert_relation(a, a, 5).unwrap();
    let rs = s.insert_relation_snippet(rel, "edge note", 6).unwrap();

    assert_eq!(s.edit_snippet(s1, "rewritten", 50), EditOutcome::Updated);
    assert_eq!(s.snippets[0].data, "rewritten");
    assert_eq!(s.snippets[0].updated, 50);
    assert_eq!(s.snippets[0].created, 3);
    // the sibling snippet and every other table are untouched
    assert_eq!(s.snippets[1].id, s2);
    assert_eq!(s.snippets[1].data, "second");
    assert_eq!(s.snippets[1].updated, 4);
    assert_eq!(s.aliases[0].name, "Alice");
    assert_eq!(s.relation_snippets[0].data, "edge note");

    assert_eq!(s.edit_alias(2, "Ally", 60), EditOutcome::Updated);
    assert_eq!(s.aliases[1].name, "Ally");
    assert_eq!(s.aliases[1].updated, 60);
    assert_eq!(s.aliases[0].name, "Alice");
    assert_eq!(s.aliases[0].updated, 1);

    assert_eq!(s.edit_relation_snippet(rs, "edge rewritten", 70), EditOutcome::Updated);
    assert_eq!(s.relation_snippets[0].data, "edge rewritten");
    assert_eq!(s.relation_snippets[0].updated, 70);
}

#[test]
fn edit_of_absent_id_reports_not_found() {
    let mut s = Store::new();
    s.add_entity("Alice", 1);
    assert_eq!(s.edit_alias(42, "new", 9), EditOutcome::NotFound);
    assert_eq!(s.edit_snippet(42, "new", 9), EditOutcome::NotFound);
    assert_eq!(s.edit_relation_snippet(42, "new", 9), EditOutcome::NotFound);
    assert_eq!(s.aliases[0].name, "Alice");
}

#[test]
fn text_reads_hand_back_current_content() {
    let mut s = Store::new();
    let a = s.add_entity("Alice", 1);
    let snip = s.insert_snippet(a, "note", 2).unwrap();
    let rel = s.insert_relation(a, a, 3).unwrap();
    let rs = s.insert_relation_snippet(rel, "edge", 4).unwrap();
    assert_eq!(s.alias_text(1).as_deref(), Some("Alice"));
    assert_eq!(s.snippet_text(snip).as_deref(), Some("note"));
    assert_eq!(s.relation_snippet_text(rs).as_deref(), Some("edge"));
    assert_eq!(s.alias_text(42), None);
    assert_eq!(s.snippet_text(42), None);
    assert_eq!(s.relation_snippet_text(42), None);
}
