use cantix::catalog::{Catalog, CatalogError, Entity};
use cantix::search::EntityIndex;

fn sample_entities() -> Vec<Entity> {
    vec![
        Entity { id: 1, display_name: "Anti-Mage".to_string() },
        Entity { id: 2, display_name: "Axe".to_string() },
        Entity { id: 3, display_name: "Medusa".to_string() },
        Entity { id: 4, display_name: "Crystal Maiden".to_string() },
    ]
}

#[test]
fn exact_name_is_top_result() {
    let index = match EntityIndex::build(sample_entities()) {
        Ok(ix) => ix,
        Err(_) => panic!("unique ids must be accepted"),
    };
    let hits = index.search("Anti-Mage");
    assert!(!hits.is_empty());
    assert_eq!(hits[0].id, 1);
    assert_eq!(hits[0].display_name, "Anti-Mage");

    let hits = index.search("Axe");
    assert!(!hits.is_empty());
    assert_eq!(hits[0].id, 2);

    let hits = index.search("Medusa");
    assert!(!hits.is_empty());
    assert_eq!(hits[0].id, 3);
}

#[test]
fn partial_and_case_insensitive_queries_find_anti_mage() {
    let index = match EntityIndex::build(sample_entities()) {
        Ok(ix) => ix,
        Err(_) => panic!("unique ids must be accepted"),
    };
    let hits = index.search("anti");
    assert!(!hits.is_empty());
    assert_eq!(hits[0].id, 1);

    let hits = index.search("ANTI-MAGE");
    assert!(!hits.is_empty());
    assert_eq!(hits[0].id, 1);
}

#[test]
fn unknown_name_returns_empty_not_fault() {
    let index = match EntityIndex::build(sample_entities()) {
        Ok(ix) => ix,
        Err(_) => panic!("unique ids must be accepted"),
    };
    let hits = index.search("zzzznotaname");
    assert!(hits.is_empty());
}

#[test]
fn duplicate_id_is_rejected() {
    let entities = vec![
        Entity { id: 1, display_name: "Anti-Mage".to_string() },
        Entity { id: 2, display_name: "Axe".to_string() },
        Entity { id: 1, display_name: "Medusa".to_string() },
    ];
    match EntityIndex::build(entities) {
        Ok(_) => panic!("a repeated id must be rejected"),
        Err(e) => assert_eq!(e, CatalogError::DuplicateId(1)),
    }
}

#[test]
fn catalog_lookup_of_stale_id_is_typed_miss() {
    let catalog = match Catalog::new(sample_entities()) {
        Ok(c) => c,
        Err(_) => panic!("unique ids must be accepted"),
    };
    assert!(catalog.name_of(200).is_none());
    assert_eq!(catalog.name_of(3).map(|s| s.as_str()), Some("Medusa"));
}
