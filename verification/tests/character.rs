use dataport::character::{Character, Placement};
use dataport::error::{GameError, ValidationFault};
use dataport::spatial::{AxisValue, Location};

fn at(x: i128, y: i128, z: i128) -> Location {
    Location::parse(
        AxisValue { mantissa: x, scale: 0 },
        AxisValue { mantissa: y, scale: 0 },
        AxisValue { mantissa: z, scale: 0 },
    )
    .unwrap()
}

fn bad_amount() -> GameError {
    GameError::ValidationError(ValidationFault::BadAmount)
}

fn fresh() -> Character {
    Character::new(1, String::from("Tai"), 2, 3, at(1, 2, 3), 99, 1_700_000_000)
}

#[test]
fn new_character_starts_in_the_world_with_nothing() {
    let c = fresh();
    assert_eq!(c.id(), 1);
    assert_eq!(c.name(), "Tai");
    assert_eq!(c.digidollar(), 0);
    assert_eq!(c.game_server_id(), 2);
    assert_eq!(c.area_id(), 3);
    assert_eq!(c.location(), at(1, 2, 3));
    assert_eq!(c.instance_id(), None);
    assert_eq!(c.instance_location(), None);
    assert_eq!(c.keycloak_user_id(), 99);
    assert_eq!(c.creation_date(), 1_700_000_000);
    assert_eq!(c.playtime(), 0);
    assert_eq!(c.placement(), Placement::World(at(1, 2, 3)));
    assert!(c.is_owned_by(99));
    assert!(!c.is_owned_by(98));
}

#[test]
fn stored_row_with_instance_is_read_back() {
    let c = Character::from_row(1, String::from("Tai"), 40, 2, 3, at(1, 2, 3), Some(8), Some(at(4, 5, 6)), 99, 7, 3600)
        .ok()
        .unwrap();
    assert_eq!(c.digidollar(), 40);
    assert_eq!(c.instance_id(), Some(8));
    assert_eq!(c.instance_location(), Some(at(4, 5, 6)));
    assert_eq!(c.placement(), Placement::Instanced(at(4, 5, 6), 8));
    assert_eq!(c.location(), at(1, 2, 3));
    assert_eq!(c.playtime(), 3600);
}

#[test]
fn stored_row_needs_instance_and_place_together() {
    let inconsistent = Some(GameError::ValidationError(ValidationFault::Inconsistent));
    let r = Character::from_row(1, String::new(), 0, 2, 3, at(1, 2, 3), Some(8), None, 99, 7, 0);
    assert_eq!(r.err(), inconsistent);
    let r = Character::from_row(1, String::new(), 0, 2, 3, at(1, 2, 3), None, Some(at(1, 1, 1)), 99, 7, 0);
    assert_eq!(r.err(), inconsistent);
}

#[test]
fn stored_row_needs_non_negative_counters() {
    let r = Character::from_row(1, String::new(), -1, 2, 3, at(1, 2, 3), None, None, 99, 7, 0);
    assert_eq!(r.err(), Some(bad_amount()));
    let r = Character::from_row(1, String::new(), 0, 2, 3, at(1, 2, 3), None, None, 99, 7, -1);
    assert_eq!(r.err(), Some(bad_amount()));
}

#[test]
fn balance_is_credited_and_debited() {
    let mut c = fresh();
    assert_eq!(c.credit(120), Ok(()));
    assert_eq!(c.debit(20), Ok(()));
    assert_eq!(c.digidollar(), 100);
    assert_eq!(c.debit(101), Err(GameError::InsufficientFunds));
    assert_eq!(c.debit(-1), Err(bad_amount()));
    assert_eq!(c.credit(-1), Err(bad_amount()));
    assert_eq!(c.credit(i32::MAX), Err(bad_amount()));
    assert_eq!(c.digidollar(), 100);
    assert_eq!(c.credit(i32::MAX - 100), Ok(()));
    assert_eq!(c.digidollar(), i32::MAX);
    assert_eq!(c.debit(i32::MAX), Ok(()));
    assert_eq!(c.digidollar(), 0);
}

#[test]
fn playtime_only_grows() {
    let mut c = fresh();
    assert_eq!(c.record_playtime(60), Ok(()));
    assert_eq!(c.record_playtime(0), Ok(()));
    assert_eq!(c.playtime(), 60);
    assert_eq!(c.record_playtime(-1), Err(bad_amount()));
    assert_eq!(c.record_playtime(i64::MAX), Err(bad_amount()));
    assert_eq!(c.playtime(), 60);
}

#[test]
fn moving_changes_the_space_the_character_is_in() {
    let mut c = fresh();
    c.move_to(at(7, 7, 7));
    assert_eq!(c.location(), at(7, 7, 7));
    assert_eq!(c.instance_location(), None);
    let mut inside = Character::from_row(1, String::new(), 0, 2, 3, at(1, 2, 3), Some(8), Some(at(4, 5, 6)), 99, 7, 0)
        .ok()
        .unwrap();
    inside.move_to(at(9, 9, 9));
    assert_eq!(inside.location(), at(1, 2, 3));
    assert_eq!(inside.instance_location(), Some(at(9, 9, 9)));
    assert_eq!(inside.instance_id(), Some(8));
    inside.leave_instance();
    assert_eq!(inside.instance_id(), None);
    assert_eq!(inside.instance_location(), None);
    assert_eq!(inside.location(), at(1, 2, 3));
}
