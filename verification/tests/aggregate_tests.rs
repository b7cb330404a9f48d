use cantix::catalog::{Catalog, Entity};
use cantix::matchup::{ranked_list, rank, Hero, HeroQuery, MatchUp, OtherHero, RankDirection, RenderError};

fn row(id: u8, bp: u32) -> OtherHero {
    OtherHero { hero_id2: id, wins_average_bp: bp }
}

#[test]
fn descending_top_five_excludes_the_lowest() {
    // Shares 0.40, 0.55, 0.50, 0.10, 0.60, 0.30 as basis points.
    let rows = vec![
        row(1, 4000),
        row(2, 5500),
        row(3, 5000),
        row(4, 1000),
        row(5, 6000),
        row(6, 3000),
    ];
    let top = rank(RankDirection::Descending, &rows, 5);
    let got: Vec<(u8, u32)> = top.iter().map(|r| (r.hero_id2, r.wins_average_bp)).collect();
    assert_eq!(got, vec![(5, 6000), (2, 5500), (3, 5000), (1, 4000), (6, 3000)]);
}

#[test]
fn ascending_takes_the_weakest_first() {
    let rows = vec![row(1, 4000), row(2, 5500), row(3, 5000), row(4, 1000)];
    let bottom = rank(RankDirection::Ascending, &rows, 2);
    let got: Vec<u8> = bottom.iter().map(|r| r.hero_id2).collect();
    assert_eq!(got, vec![4, 1]);
}

#[test]
fn ties_keep_their_original_order() {
    let rows = vec![row(7, 5000), row(8, 5000), row(9, 5000), row(10, 6000)];
    let top = rank(RankDirection::Descending, &rows, 4);
    let got: Vec<u8> = top.iter().map(|r| r.hero_id2).collect();
    assert_eq!(got, vec![10, 7, 8, 9]);
}

#[test]
fn short_lists_are_a_normal_case() {
    let rows = vec![row(1, 4000), row(2, 5500)];
    let top = rank(RankDirection::Descending, &rows, 5);
    assert_eq!(top.len(), 2);
    let empty: Vec<OtherHero> = Vec::new();
    assert!(rank(RankDirection::Descending, &empty, 5).is_empty());
}

fn sample_catalog() -> Catalog {
    let entities = vec![
        Entity { id: 1, display_name: "Anti-Mage".to_string() },
        Entity { id: 2, display_name: "Axe".to_string() },
        Entity { id: 3, display_name: "Medusa".to_string() },
    ];
    match Catalog::new(entities) {
        Ok(c) => c,
        Err(_) => panic!("unique ids must be accepted"),
    }
}

#[test]
fn ranked_list_renders_names_in_rank_order() {
    let catalog = sample_catalog();
    let rows = vec![row(1, 4000), row(2, 5500), row(3, 5000)];
    let list = match ranked_list("Best with".to_string(), RankDirection::Descending, &rows, 5, &catalog) {
        Ok(l) => l,
        Err(_) => panic!("every id is in the catalog"),
    };
    assert_eq!(list.label, "Best with");
    let got: Vec<(String, u32)> = list
        .entries
        .iter()
        .map(|e| (e.display_name.clone(), e.wins_average_bp))
        .collect();
    assert_eq!(
        got,
        vec![
            ("Axe".to_string(), 5500),
            ("Medusa".to_string(), 5000),
            ("Anti-Mage".to_string(), 4000),
        ]
    );
}

#[test]
fn matchup_payload_ranks_both_sides() {
    let payload = HeroQuery {
        hero_stats: MatchUp {
            match_up: vec![Hero {
                with: vec![row(1, 4000), row(2, 5500)],
                vs: vec![row(3, 5000), row(2, 4500)],
            }],
        },
    };
    let hero = &payload.hero_stats.match_up[0];
    let best_with = rank(RankDirection::Descending, &hero.with, 5);
    assert_eq!(best_with[0].hero_id2, 2);
    let worst_against = rank(RankDirection::Ascending, &hero.vs, 5);
    assert_eq!(worst_against[0].hero_id2, 2);
}

#[test]
fn ranked_list_reports_the_first_stale_id() {
    let catalog = sample_catalog();
    let rows = vec![row(1, 4000), row(99, 9000), row(3, 5000)];
    match ranked_list("Best with".to_string(), RankDirection::Descending, &rows, 5, &catalog) {
        Ok(_) => panic!("a stale id must be a typed miss"),
        Err(e) => assert_eq!(e, RenderError::UnknownId(99)),
    }
}
