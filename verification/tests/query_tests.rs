use cantix::constanthero::HeroData;
use cantix::query::{interpret_outcome, QueryClient, QueryError, QueryOutcome};
use cantix::resolver::{finish_resolve, resolve_id, ResolutionError};
use cantix::search::EntityIndex;
use cantix::catalog::Entity;
use cantix::winrate::{DataGL, HeroStats, HeroWinCount};

#[test]
fn http_error_status_is_a_typed_query_error() {
    let outcome: QueryOutcome<u32> = QueryOutcome::Status(500);
    assert_eq!(interpret_outcome(outcome), Err(QueryError::Status(500)));
}

#[test]
fn every_failure_path_is_typed() {
    let transport: QueryOutcome<u32> = QueryOutcome::Transport;
    assert_eq!(interpret_outcome(transport), Err(QueryError::Transport));
    let decode: QueryOutcome<u32> = QueryOutcome::Decode;
    assert_eq!(interpret_outcome(decode), Err(QueryError::Decode));
    let payload: QueryOutcome<u32> = QueryOutcome::Payload(7);
    assert_eq!(interpret_outcome(payload), Ok(7));
}

#[test]
fn prepare_binds_id_and_builds_bearer_line() {
    let client = QueryClient::new(
        "https://api.stratz.com/graphql".to_string(),
        "test-token".to_string(),
    );
    let request = client.prepare("query myQuery($id: Short)".to_string(), 42);
    assert_eq!(request.endpoint, "https://api.stratz.com/graphql");
    assert_eq!(request.authorization, "Bearer test-token");
    assert_eq!(request.query_template, "query myQuery($id: Short)");
    assert_eq!(request.variable_id, 42);
}

#[test]
fn finish_resolve_pairs_payload_with_id() {
    let payload = DataGL {
        hero_stats: HeroStats { win_week: vec![HeroWinCount { win_count: 1, match_count: 2 }] },
    };
    match finish_resolve(9, QueryOutcome::Payload(payload)) {
        Ok((data, id)) => {
            assert_eq!(id, 9);
            assert_eq!(data.hero_stats.win_week.len(), 1);
            assert_eq!(data.hero_stats.win_week[0].win_count, 1);
        },
        Err(_) => panic!("a payload outcome must succeed"),
    }
}

#[test]
fn finish_resolve_tags_failures_with_the_id() {
    let outcome: QueryOutcome<u32> = QueryOutcome::Status(500);
    assert_eq!(
        finish_resolve(9, outcome),
        Err(ResolutionError::Query { id: 9, error: QueryError::Status(500) })
    );
}

#[test]
fn resolver_fails_fast_on_unknown_names() {
    let entities = vec![
        Entity { id: 1, display_name: "Anti-Mage".to_string() },
        Entity { id: 2, display_name: "Axe".to_string() },
    ];
    let index = match EntityIndex::build(entities) {
        Ok(ix) => ix,
        Err(_) => panic!("unique ids must be accepted"),
    };
    assert_eq!(resolve_id(&index, "anti"), Ok(1));
    assert_eq!(resolve_id(&index, "zzzznotaname"), Err(ResolutionError::EntityNotFound));
}

#[test]
fn derived_stats_follow_the_formulas() {
    let stats = HeroData {
        attack_type: "Melee".to_string(),
        starting_armor_milli: -1300,
        starting_damage_min_milli: 29000,
        starting_damage_max_milli: 33000,
        attack_rate_milli: 1400,
        attack_range_milli: 150000,
        primary_attribute: "agi".to_string(),
        strength_base: 23,
        strength_gain_milli: 1600,
        intelligence_base: 12,
        intelligence_gain_milli: 1800,
        agility_base: 24,
        agility_gain_milli: 2800,
        hp_regen_milli: 250,
        mp_regen_milli: 900,
        move_speed_milli: 310000,
        move_turn_rate_milli: 600,
    };
    assert_eq!(stats.base_health(), 120 + 22 * 23);
    assert_eq!(stats.base_mana(), 75 + 12 * 12);
}
