//! The client bootstrap plan.

use entity_sync::client_setup::{connect_to_db, register_callbacks, subscribe_to_tables};

#[test]
fn connection_settings_are_fixed() {
    let cfg = connect_to_db(Some("saved-token".to_string()));
    assert_eq!(cfg.host, "https://astro-mouse.org");
    assert_eq!(cfg.db_name, "fps-base");
    assert_eq!(cfg.token.as_deref(), Some("saved-token"));

    let fresh = connect_to_db(None);
    assert!(fresh.token.is_none());
}

#[test]
fn subscriptions_cover_the_core_tables() {
    let queries = subscribe_to_tables();
    assert_eq!(
        queries,
        vec![
            "SELECT * FROM entity",
            "SELECT * FROM entity_position",
            "SELECT * FROM entity_rotation",
            "SELECT * FROM entity_chunk",
            "SELECT * FROM player_account",
        ],
    );
}

#[test]
fn watched_views_are_fixed() {
    assert_eq!(register_callbacks(), vec!["nearby_entity_chunks"]);
}
