use trait_bounds::events::{damage_totals, EntityId, GameEvent};

#[test]
fn aggregate_damage_from_borrowed_items() {
    let evs = vec![
        GameEvent::Spawn(EntityId(1)),
        GameEvent::Damage { target: EntityId(1), amount: 10 },
        GameEvent::Damage { target: EntityId(2), amount: 5 },
        GameEvent::Damage { target: EntityId(1), amount: 7 },
    ];
    let map = damage_totals(&evs); // iterator of &GameEvent items via Borrow
    assert_eq!(map.get(&EntityId(1)).copied(), Some(17));
    assert_eq!(map.get(&EntityId(2)).copied(), Some(5));
}

#[test]
fn heal_and_spawn_are_not_damage() {
    let evs = vec![
        GameEvent::Spawn(EntityId(3)),
        GameEvent::Heal { target: EntityId(3), amount: 9 },
        GameEvent::Damage { target: EntityId(4), amount: 0 },
    ];
    let map = damage_totals(&evs);
    assert_eq!(map.get(&EntityId(3)), None);
    assert_eq!(map.get(&EntityId(4)).copied(), Some(0));
    assert_eq!(map.len(), 1);
}

#[test]
fn no_events_no_totals() {
    let map = damage_totals(&[]);
    assert_eq!(map.len(), 0);
}

#[test]
fn totals_saturate_at_u32_max() {
    let evs = vec![
        GameEvent::Damage { target: EntityId(1), amount: u32::MAX - 1 },
        GameEvent::Damage { target: EntityId(1), amount: 5 },
    ];
    let map = damage_totals(&evs);
    assert_eq!(map.get(&EntityId(1)).copied(), Some(u32::MAX));
}

#[test]
fn target_names_the_subject() {
    assert_eq!(GameEvent::Spawn(EntityId(2)).target(), EntityId(2));
    assert_eq!(GameEvent::Heal { target: EntityId(5), amount: 1 }.target(), EntityId(5));
}
