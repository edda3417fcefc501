use nodeindex::database::{DbUpdate, EnemyRow, LocationRow, MobileRow, ResourceRow, Router};
use nodeindex::dict::Dict;
use nodeindex::index::{DataState, Pos};
use nodeindex::state::AppState;

fn empty_update() -> DbUpdate {
    DbUpdate {
        location_inserts: vec![],
        resource_inserts: vec![],
        resource_deletes: vec![],
        enemy_inserts: vec![],
        enemy_deletes: vec![],
        mobile_inserts: vec![],
    }
}

fn resource_insert(update: &mut DbUpdate, cat: i32, entity: u64, x: i32, z: i32) {
    update.location_inserts.push(LocationRow { entity_id: entity, x, z });
    update.resource_inserts.push(ResourceRow { entity_id: entity, resource_id: cat });
}

fn fresh_state() -> (Router, AppState) {
    let state = AppState::new(&vec![1, 2], &vec![50]);
    (Router::new(), state)
}

#[test]
fn dict_insert_get_remove() {
    let mut d: Dict<Pos> = Dict::new();
    assert_eq!(d.len(), 0);
    d.insert(7, Pos { x: 1, z: 2 });
    d.insert(9, Pos { x: 3, z: 4 });
    assert_eq!(d.len(), 2);
    assert!(d.contains_key(7));
    assert_eq!(d.get(7), Some(Pos { x: 1, z: 2 }));
    d.insert(7, Pos { x: 5, z: 6 });
    assert_eq!(d.len(), 2);
    assert_eq!(d.get(7), Some(Pos { x: 5, z: 6 }));
    d.remove(7);
    assert_eq!(d.get(7), None);
    assert_eq!(d.to_pairs(), vec![(9, Pos { x: 3, z: 4 })]);
    d.clear();
    assert_eq!(d.len(), 0);
}

#[test]
fn scenario_insert_pair_fills_one_category() {
    // Membership-insert(E1, R1) and location-insert(E1, 10, 20) in one
    // batch: R1 holds E1 at (10, 20), R2 stays empty.
    let (mut router, mut state) = fresh_state();
    let mut u = empty_update();
    resource_insert(&mut u, 1, 100, 10, 20);
    router.consume(&mut state, &u);
    assert_eq!(
        state.resource_snapshot(1),
        Some(vec![(100, Pos { x: 10, z: 20 })])
    );
    assert_eq!(state.resource_snapshot(2), Some(vec![]));
}

#[test]
fn scenario_membership_delete_empties_category() {
    let (mut router, mut state) = fresh_state();
    let mut u = empty_update();
    resource_insert(&mut u, 1, 100, 10, 20);
    router.consume(&mut state, &u);

    let mut u2 = empty_update();
    u2.resource_deletes.push(ResourceRow { entity_id: 100, resource_id: 1 });
    router.consume(&mut state, &u2);
    assert_eq!(state.resource_snapshot(1), Some(vec![]));
}

#[test]
fn insert_then_later_delete_removes_entity() {
    // An insert in one batch followed by a delete in a later batch: the
    // snapshot no longer contains the entity.
    let (mut router, mut state) = fresh_state();
    let mut u = empty_update();
    resource_insert(&mut u, 1, 100, 10, 20);
    resource_insert(&mut u, 1, 101, 30, 40);
    router.consume(&mut state, &u);

    let mut u2 = empty_update();
    u2.resource_deletes.push(ResourceRow { entity_id: 100, resource_id: 1 });
    router.consume(&mut state, &u2);
    let snap = state.resource_snapshot(1).unwrap();
    assert_eq!(snap, vec![(101, Pos { x: 30, z: 40 })]);
}

#[test]
fn delete_and_insert_in_one_batch_keeps_insert() {
    // The same batch deletes and inserts entity E: deletes are applied
    // before inserts, so E survives with the inserted position.
    let (mut router, mut state) = fresh_state();
    let mut u = empty_update();
    resource_insert(&mut u, 1, 100, 10, 20);
    router.consume(&mut state, &u);

    let mut u2 = empty_update();
    u2.resource_deletes.push(ResourceRow { entity_id: 100, resource_id: 1 });
    resource_insert(&mut u2, 1, 100, 11, 21);
    router.consume(&mut state, &u2);
    assert_eq!(
        state.resource_snapshot(1),
        Some(vec![(100, Pos { x: 11, z: 21 })])
    );
}

#[test]
fn redelivered_insert_is_idempotent() {
    // Re-delivering an already-applied location insert for an unchanged
    // entity and position leaves the snapshot unchanged.
    let (mut router, mut state) = fresh_state();
    let mut u = empty_update();
    resource_insert(&mut u, 1, 100, 10, 20);
    router.consume(&mut state, &u);
    let before = state.resource_snapshot(1);

    let mut again = empty_update();
    resource_insert(&mut again, 1, 100, 10, 20);
    router.consume(&mut state, &again);
    assert_eq!(state.resource_snapshot(1), before);
}

#[test]
fn disconnect_marks_every_category_stale() {
    let (mut router, mut state) = fresh_state();
    let mut u = empty_update();
    resource_insert(&mut u, 1, 100, 10, 20);
    router.consume(&mut state, &u);
    assert_eq!(state.resource_state(1), Some(DataState::ACTIVE));

    state.mark_all_stale();
    assert_eq!(state.resource_state(1), Some(DataState::STALE));
    assert_eq!(state.resource_state(2), Some(DataState::STALE));
    assert_eq!(state.enemy_state(50), Some(DataState::STALE));
    // Contents are kept until the next batch touches the category.
    assert_eq!(
        state.resource_snapshot(1),
        Some(vec![(100, Pos { x: 10, z: 20 })])
    );
}

#[test]
fn scenario_stale_category_cleared_by_first_batch_after_reconnect() {
    // Connection drops, the feed reconnects and re-announces only E2:
    // E1, not re-announced, must not survive.
    let (mut router, mut state) = fresh_state();
    let mut u = empty_update();
    resource_insert(&mut u, 1, 100, 10, 20);
    router.consume(&mut state, &u);

    state.mark_all_stale();

    let mut u2 = empty_update();
    resource_insert(&mut u2, 1, 200, 33, 44);
    router.consume(&mut state, &u2);
    assert_eq!(
        state.resource_snapshot(1),
        Some(vec![(200, Pos { x: 33, z: 44 })])
    );
    assert_eq!(state.resource_state(1), Some(DataState::ACTIVE));
    // An untouched category stays stale, contents kept.
    assert_eq!(state.resource_state(2), Some(DataState::STALE));
}

#[test]
fn stale_category_cleared_even_by_a_bare_delete() {
    let (mut router, mut state) = fresh_state();
    let mut u = empty_update();
    resource_insert(&mut u, 1, 100, 10, 20);
    router.consume(&mut state, &u);
    state.mark_all_stale();

    let mut u2 = empty_update();
    u2.resource_deletes.push(ResourceRow { entity_id: 555, resource_id: 1 });
    router.consume(&mut state, &u2);
    assert_eq!(state.resource_snapshot(1), Some(vec![]));
    assert_eq!(state.resource_state(1), Some(DataState::ACTIVE));
}

#[test]
fn unknown_category_events_are_dropped() {
    let (mut router, mut state) = fresh_state();
    let mut u = empty_update();
    resource_insert(&mut u, 77, 100, 10, 20);
    u.resource_deletes.push(ResourceRow { entity_id: 9, resource_id: 88 });
    router.consume(&mut state, &u);
    assert_eq!(state.resource_snapshot(1), Some(vec![]));
    assert_eq!(state.resource_snapshot(2), Some(vec![]));
    assert_eq!(state.resource_snapshot(77), None);
}

#[test]
fn enemy_positions_route_through_membership() {
    let (mut router, mut state) = fresh_state();
    let mut u = empty_update();
    u.enemy_inserts.push(EnemyRow { entity_id: 900, enemy_type: 50 });
    u.mobile_inserts.push(MobileRow { entity_id: 900, location_x: 7, location_z: 8 });
    router.consume(&mut state, &u);
    assert_eq!(
        state.enemy_snapshot(50),
        Some(vec![(900, Pos { x: 7, z: 8 })])
    );
}

#[test]
fn enemy_moves_update_position_across_batches() {
    // Membership persists across batches: a later location row keyed by
    // entity alone still finds its category.
    let (mut router, mut state) = fresh_state();
    let mut u = empty_update();
    u.enemy_inserts.push(EnemyRow { entity_id: 900, enemy_type: 50 });
    u.mobile_inserts.push(MobileRow { entity_id: 900, location_x: 7, location_z: 8 });
    router.consume(&mut state, &u);

    let mut u2 = empty_update();
    u2.mobile_inserts.push(MobileRow { entity_id: 900, location_x: 9, location_z: 10 });
    router.consume(&mut state, &u2);
    assert_eq!(
        state.enemy_snapshot(50),
        Some(vec![(900, Pos { x: 9, z: 10 })])
    );
}

#[test]
fn enemy_despawn_removes_entity_and_membership() {
    let (mut router, mut state) = fresh_state();
    let mut u = empty_update();
    u.enemy_inserts.push(EnemyRow { entity_id: 900, enemy_type: 50 });
    u.mobile_inserts.push(MobileRow { entity_id: 900, location_x: 7, location_z: 8 });
    router.consume(&mut state, &u);

    let mut u2 = empty_update();
    u2.enemy_deletes.push(EnemyRow { entity_id: 900, enemy_type: 50 });
    router.consume(&mut state, &u2);
    assert_eq!(state.enemy_snapshot(50), Some(vec![]));
}

#[test]
fn last_location_insert_wins_within_batch() {
    let (mut router, mut state) = fresh_state();
    let mut u = empty_update();
    u.location_inserts.push(LocationRow { entity_id: 100, x: 1, z: 1 });
    u.location_inserts.push(LocationRow { entity_id: 100, x: 2, z: 2 });
    u.resource_inserts.push(ResourceRow { entity_id: 100, resource_id: 1 });
    router.consume(&mut state, &u);
    assert_eq!(
        state.resource_snapshot(1),
        Some(vec![(100, Pos { x: 2, z: 2 })])
    );
}

#[test]
fn table_lists_configured_ids_in_order() {
    let state = AppState::new(&vec![5, 3, 5, 8], &vec![]);
    // A repeated identifier configures one category.
    assert_eq!(state.resource.ids(), vec![5, 3, 8]);
    assert!(state.resource.contains(3));
    assert!(!state.resource.contains(4));
    assert_eq!(state.enemy.ids(), Vec::<i32>::new());
}
