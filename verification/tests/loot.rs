use dataport::error::{GameError, ValidationFault};
use dataport::loot::{roll, DropGrant, Enemy, EnemyDrop, DRAW_LIMIT};

fn enemy(id: u128) -> Enemy {
    Enemy { id, name: String::from("slime"), description: String::new() }
}

fn drop_of(enemy_id: u128, item_id: u128, min_roll: i16, min: i16, max: i16) -> EnemyDrop {
    EnemyDrop { enemy_id, item_id, min_roll, min, max }
}

#[test]
fn draw_below_floor_yields_nothing() {
    let d = drop_of(1, 7, 5000, 2, 5);
    assert_eq!(d.roll(4999, 0), Ok(None));
    assert_eq!(d.roll(0, 123), Ok(None));
}

#[test]
fn draw_at_floor_yields_quantity_in_range() {
    let d = drop_of(1, 7, 5000, 2, 5);
    for sample in 0..40u32 {
        let q = d.roll(5000, sample).unwrap().unwrap();
        assert!(2 <= q && q <= 5);
    }
}

#[test]
fn quantity_is_min_plus_sample_modulo_span() {
    let d = drop_of(1, 7, 5000, 2, 5);
    assert_eq!(d.roll(5000, 0), Ok(Some(2)));
    assert_eq!(d.roll(5000, 1), Ok(Some(3)));
    assert_eq!(d.roll(5000, 3), Ok(Some(5)));
    assert_eq!(d.roll(5000, 4), Ok(Some(2)));
    assert_eq!(d.roll(9999, 7), Ok(Some(5)));
    assert_eq!(d.roll(9999, u32::MAX), Ok(Some(5)));
    let fixed = drop_of(1, 7, 0, 3, 3);
    assert_eq!(fixed.roll(0, 99), Ok(Some(3)));
    let wide = drop_of(1, 7, 0, 1, i16::MAX);
    assert_eq!(wide.roll(0, 32766), Ok(Some(i16::MAX)));
    assert_eq!(wide.roll(0, 32767), Ok(Some(1)));
}

#[test]
fn each_quantity_is_picked_once_per_span() {
    let d = drop_of(1, 7, 0, 2, 5);
    let mut counts = [0u32; 6];
    for sample in 8..12u32 {
        let q = d.roll(10, sample).unwrap().unwrap();
        counts[q as usize] += 1;
    }
    assert_eq!(counts, [0, 0, 1, 1, 1, 1]);
}

#[test]
fn misconfigured_drop_is_refused() {
    let bad = Err(GameError::ValidationError(ValidationFault::BadAmount));
    assert_eq!(drop_of(1, 7, 0, 0, 5).roll(10, 0), bad);
    assert_eq!(drop_of(1, 7, 0, 5, 4).roll(10, 0), bad);
    assert_eq!(drop_of(1, 7, 9000, -1, 4).roll(10, 0), bad);
}

#[test]
fn drops_are_decided_independently() {
    let drops = vec![
        drop_of(1, 70, 0, 1, 1),
        drop_of(1, 71, 5000, 2, 5),
        drop_of(2, 72, 0, 1, 1),
        drop_of(1, 73, 9999, 10, 20),
    ];
    let samples = vec![0, 6, 0, 25];
    assert_eq!(
        roll(&enemy(1), &drops, 4999, &samples).unwrap(),
        vec![DropGrant { item_id: 70, amount: 1 }]
    );
    assert_eq!(
        roll(&enemy(1), &drops, 5000, &samples).unwrap(),
        vec![DropGrant { item_id: 70, amount: 1 }, DropGrant { item_id: 71, amount: 4 }]
    );
    assert_eq!(
        roll(&enemy(1), &drops, 9999, &samples).unwrap(),
        vec![
            DropGrant { item_id: 70, amount: 1 },
            DropGrant { item_id: 71, amount: 4 },
            DropGrant { item_id: 73, amount: 13 },
        ]
    );
    assert_eq!(
        roll(&enemy(2), &drops, 0, &samples).unwrap(),
        vec![DropGrant { item_id: 72, amount: 1 }]
    );
    assert_eq!(roll(&enemy(3), &drops, 9999, &samples).unwrap(), vec![]);
}

#[test]
fn roll_can_yield_nothing() {
    let drops = vec![drop_of(1, 70, 100, 1, 1), drop_of(1, 71, 5000, 2, 5)];
    assert_eq!(roll(&enemy(1), &drops, 99, &vec![0, 0]).unwrap(), vec![]);
    assert_eq!(roll(&enemy(1), &vec![], 99, &vec![]).unwrap(), vec![]);
}

#[test]
fn roll_refuses_draw_outside_range() {
    let drops = vec![drop_of(1, 70, 0, 1, 1)];
    let out = Some(GameError::ValidationError(ValidationFault::OutOfRange));
    assert_eq!(roll(&enemy(1), &drops, -1, &vec![0]).err(), out);
    assert_eq!(roll(&enemy(1), &drops, DRAW_LIMIT, &vec![0]).err(), out);
    assert!(roll(&enemy(1), &drops, DRAW_LIMIT - 1, &vec![0]).is_ok());
    assert!(roll(&enemy(1), &drops, 0, &vec![0]).is_ok());
}

#[test]
fn roll_needs_one_sample_per_drop() {
    let drops = vec![drop_of(1, 70, 0, 1, 1)];
    let inconsistent = Some(GameError::ValidationError(ValidationFault::Inconsistent));
    assert_eq!(roll(&enemy(1), &drops, 5, &vec![]).err(), inconsistent);
    assert_eq!(roll(&enemy(1), &drops, 5, &vec![1, 2]).err(), inconsistent);
}

#[test]
fn roll_refuses_misconfigured_drop_of_the_enemy_only() {
    let drops = vec![drop_of(1, 70, 0, 1, 1), drop_of(2, 71, 0, 5, 4)];
    assert_eq!(
        roll(&enemy(1), &drops, 5, &vec![0, 0]).unwrap(),
        vec![DropGrant { item_id: 70, amount: 1 }]
    );
    assert_eq!(
        roll(&enemy(2), &drops, 5, &vec![0, 0]).err(),
        Some(GameError::ValidationError(ValidationFault::BadAmount))
    );
}
