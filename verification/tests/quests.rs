use dataport::character::Character;
use dataport::error::{GameError, ValidationFault};
use dataport::inventory::{Inventory, InventoryItem, Item};
use dataport::loot::Enemy;
use dataport::progression::{Advance, InstanceLog, Tracker};
use dataport::quest::{
    class_does_fit, gate_is_open, CharacterClass, Class, ClassType, Evidence, ObjectiveItemType,
    ObjectiveKind, Quest, QuestCharacterRelation, QuestLine, QuestLog, QuestObjective,
    QuestRequirement, QuestState, QuestType,
};
use dataport::spatial::{AxisValue, Location};

const HERO: u128 = 11;
const QUEST_A: u128 = 1001;
const QUEST_B: u128 = 1002;
const QUEST_Q: u128 = 1003;
const NPC_ELDER: u128 = 501;
const WOLF: u128 = 601;
const HERB: u128 = 701;
const BADGE: u128 = 702;

fn origin() -> Location {
    let zero = AxisValue { mantissa: 0, scale: 0 };
    Location::parse(zero, zero, zero).unwrap()
}

fn ranged() -> Class {
    Class { id: 4, name: String::from("Archer"), description: String::new(), class_type: ClassType::Ranged }
}

fn tracker_with(level: i16, balance: i32, experience: i32, slots: i16) -> Tracker {
    let character =
        Character::from_row(HERO, String::from("Tai"), balance, 1, 1, origin(), None, None, 77, 0, 0)
            .ok()
            .unwrap();
    let standing = CharacterClass { character_id: HERO, class_id: 4, level, experience };
    Tracker::new(character, standing, Inventory::new(HERO, slots), QuestLog::new(HERO), InstanceLog::new(HERO))
        .ok()
        .unwrap()
}

fn tracker(level: i16) -> Tracker {
    tracker_with(level, 0, 0, 4)
}

fn quest(id: u128, disjunction: bool) -> Quest {
    Quest {
        id,
        level_requirement: 5,
        class_requirement: None,
        class_type_requirement: ClassType::Ranged,
        requirement_disjunction: disjunction,
        quest_type: QuestType::Normal,
        digidollar_reward: None,
        experience_reward: None,
        unlocks_class: None,
    }
}

fn objective(order: i16) -> QuestObjective {
    QuestObjective {
        id: 9000 + order as u128,
        description: String::new(),
        dialogue: None,
        amount: None,
        order_in_quest: order,
        npc: None,
        item: None,
        item_type: None,
        enemy: None,
        instance: None,
    }
}

fn visit(order: i16, npc: u128) -> QuestObjective {
    let mut o = objective(order);
    o.npc = Some(npc);
    o
}

fn defeat(order: i16, enemy: u128, amount: Option<i16>) -> QuestObjective {
    let mut o = objective(order);
    o.enemy = Some(Enemy { id: enemy, name: String::from("wolf"), description: String::new() });
    o.amount = amount;
    o
}

fn exchange(order: i16, item: u128, action: ObjectiveItemType, amount: i16) -> QuestObjective {
    let mut o = objective(order);
    o.item = Some(item);
    o.item_type = Some(action);
    o.amount = Some(amount);
    o
}

fn line(quest: Quest, objectives: Vec<QuestObjective>) -> QuestLine {
    QuestLine::new(quest, objectives).ok().unwrap()
}

fn edge(requirement: u128, unlocks: u128) -> QuestRequirement {
    QuestRequirement { requirement, unlocks }
}

fn item(id: u128, key: bool) -> Item {
    Item { id, name: String::new(), description: String::new(), sellable: !key, is_key_item: key }
}

fn relation(quest_id: u128, progression: i16, sub: Option<i16>, state: QuestState) -> QuestCharacterRelation {
    QuestCharacterRelation { character_id: HERO, quest_id, progression, sub_progression: sub, state }
}

fn log_with(cleared: &[u128]) -> QuestLog {
    let mut log = QuestLog::new(HERO);
    for q in cleared {
        log.record(relation(*q, 1, None, QuestState::Cleared)).unwrap();
    }
    log
}

/// Accepts the quest and walks it to its end by visiting the elder.
fn clear_by_visits(t: &mut Tracker, l: &QuestLine, steps: usize) {
    t.accept(&ranged(), l, &vec![]).unwrap();
    for _ in 0..steps {
        t.advance_objective(l, Evidence::NpcVisited(NPC_ELDER), None).unwrap();
    }
}

#[test]
fn quest_line_needs_ordered_objectives() {
    assert_eq!(QuestLine::new(quest(QUEST_Q, false), vec![]).err(), Some(GameError::NotFound));
    let inconsistent = Some(GameError::ValidationError(ValidationFault::Inconsistent));
    let twice = vec![visit(1, NPC_ELDER), visit(1, NPC_ELDER)];
    assert_eq!(QuestLine::new(quest(QUEST_Q, false), twice).err(), inconsistent);
    let backwards = vec![visit(2, NPC_ELDER), visit(1, NPC_ELDER)];
    assert_eq!(QuestLine::new(quest(QUEST_Q, false), backwards).err(), inconsistent);
    let l = line(quest(QUEST_Q, false), vec![visit(3, NPC_ELDER), visit(5, NPC_ELDER), visit(9, NPC_ELDER)]);
    assert_eq!(l.first_order(), 3);
    assert_eq!(l.last_order(), 9);
    assert_eq!(l.objective_count(), 3);
    assert_eq!(l.find_order(5), Some(1));
    assert_eq!(l.find_order(4), None);
    assert_eq!(l.quest().id, QUEST_Q);
    assert_eq!(l.objective(2).order_in_quest, 9);
}

#[test]
fn objective_kind_is_read_off_its_targets() {
    assert_eq!(visit(1, NPC_ELDER).kind(), Some(ObjectiveKind::VisitNpc { npc: NPC_ELDER }));
    assert_eq!(defeat(1, WOLF, None).kind(), Some(ObjectiveKind::DefeatEnemy { enemy: WOLF, count: 1 }));
    assert_eq!(defeat(1, WOLF, Some(3)).kind(), Some(ObjectiveKind::DefeatEnemy { enemy: WOLF, count: 3 }));
    assert_eq!(
        exchange(1, HERB, ObjectiveItemType::GiveItem, 2).kind(),
        Some(ObjectiveKind::GiveItem { item: HERB, amount: 2 })
    );
    assert_eq!(
        exchange(1, HERB, ObjectiveItemType::RemoveItem, 2).kind(),
        Some(ObjectiveKind::RemoveItem { item: HERB, amount: 2 })
    );
    // an item objective may name the NPC to talk to
    let mut with_npc = exchange(1, HERB, ObjectiveItemType::RemoveItem, 2);
    with_npc.npc = Some(NPC_ELDER);
    assert_eq!(with_npc.kind(), Some(ObjectiveKind::RemoveItem { item: HERB, amount: 2 }));
    // rows that name nothing, an item without an action, or no amount worth the name
    assert_eq!(objective(1).kind(), None);
    let mut no_action = exchange(1, HERB, ObjectiveItemType::GiveItem, 2);
    no_action.item_type = None;
    assert_eq!(no_action.kind(), None);
    assert_eq!(defeat(1, WOLF, Some(0)).kind(), None);
    let mut both = defeat(1, WOLF, None);
    both.item = Some(HERB);
    assert_eq!(both.kind(), None);
}

#[test]
fn evidence_must_name_the_target() {
    let k = ObjectiveKind::VisitNpc { npc: NPC_ELDER };
    assert!(k.is_satisfied_by(Evidence::NpcVisited(NPC_ELDER)));
    assert!(!k.is_satisfied_by(Evidence::NpcVisited(NPC_ELDER + 1)));
    assert!(!k.is_satisfied_by(Evidence::EnemyDefeated(NPC_ELDER)));
    let k = ObjectiveKind::RemoveItem { item: HERB, amount: 2 };
    assert!(k.is_satisfied_by(Evidence::ItemExchanged(HERB)));
    assert!(!k.is_satisfied_by(Evidence::ItemExchanged(BADGE)));
    let k = ObjectiveKind::ClearInstance { instance: 5 };
    assert!(k.is_satisfied_by(Evidence::InstanceCleared(5)));
    assert!(!k.is_satisfied_by(Evidence::InstanceCleared(6)));
}

#[test]
fn gate_without_edges_is_open() {
    let log = log_with(&[]);
    assert!(gate_is_open(&quest(QUEST_Q, true), &vec![], &log));
    assert!(gate_is_open(&quest(QUEST_Q, false), &vec![], &log));
    // edges into other quests do not count
    let others = vec![edge(QUEST_A, QUEST_B)];
    assert!(gate_is_open(&quest(QUEST_Q, true), &others, &log));
    assert!(gate_is_open(&quest(QUEST_Q, false), &others, &log));
}

#[test]
fn disjunctive_gate_opens_on_any_requirement() {
    let edges = vec![edge(QUEST_A, QUEST_Q), edge(QUEST_B, QUEST_Q)];
    let q = quest(QUEST_Q, true);
    assert!(!gate_is_open(&q, &edges, &log_with(&[])));
    assert!(gate_is_open(&q, &edges, &log_with(&[QUEST_A])));
    assert!(gate_is_open(&q, &edges, &log_with(&[QUEST_B])));
    assert!(gate_is_open(&q, &edges, &log_with(&[QUEST_A, QUEST_B])));
}

#[test]
fn conjunctive_gate_needs_every_requirement() {
    let edges = vec![edge(QUEST_A, QUEST_Q), edge(QUEST_B, QUEST_Q)];
    let q = quest(QUEST_Q, false);
    assert!(!gate_is_open(&q, &edges, &log_with(&[])));
    assert!(!gate_is_open(&q, &edges, &log_with(&[QUEST_A])));
    assert!(!gate_is_open(&q, &edges, &log_with(&[QUEST_B])));
    assert!(gate_is_open(&q, &edges, &log_with(&[QUEST_A, QUEST_B])));
}

#[test]
fn accepted_requirement_does_not_satisfy_an_edge() {
    let edges = vec![edge(QUEST_A, QUEST_Q)];
    let mut log = QuestLog::new(HERO);
    log.record(relation(QUEST_A, 1, None, QuestState::Accepted)).unwrap();
    assert!(!gate_is_open(&quest(QUEST_Q, true), &edges, &log));
    assert!(!gate_is_open(&quest(QUEST_Q, false), &edges, &log));
}

#[test]
fn clearing_only_a_opens_q_by_disjunction_alone() {
    let edges = vec![edge(QUEST_A, QUEST_Q), edge(QUEST_B, QUEST_Q)];
    let a = line(quest(QUEST_A, false), vec![visit(1, NPC_ELDER)]);
    let mut t = tracker(10);
    assert!(!t.is_available(&ranged(), &quest(QUEST_Q, true), &edges));
    clear_by_visits(&mut t, &a, 1);
    assert_eq!(t.quests().state_of(QUEST_A), Some(QuestState::Cleared));
    assert!(t.is_available(&ranged(), &quest(QUEST_Q, true), &edges));
    assert!(!t.is_available(&ranged(), &quest(QUEST_Q, false), &edges));
}

#[test]
fn class_and_level_must_fit() {
    let standing = CharacterClass { character_id: HERO, class_id: 4, level: 5, experience: 0 };
    assert!(class_does_fit(&quest(QUEST_Q, false), &standing, &ranged()));
    let low = CharacterClass { level: 4, ..standing };
    assert!(!class_does_fit(&quest(QUEST_Q, false), &low, &ranged()));
    let caster = Class { class_type: ClassType::Caster, ..ranged() };
    assert!(!class_does_fit(&quest(QUEST_Q, false), &standing, &caster));
    let mut named = quest(QUEST_Q, false);
    named.class_requirement = Some(4);
    assert!(class_does_fit(&named, &standing, &ranged()));
    named.class_requirement = Some(6);
    assert!(!class_does_fit(&named, &standing, &ranged()));
    // the class handed in must be the class of the standing
    let other = Class { id: 6, ..ranged() };
    assert!(!class_does_fit(&quest(QUEST_Q, false), &standing, &other));
}

#[test]
fn ranged_character_of_level_ten_accepts_the_quest() {
    let mut t = tracker(10);
    let l = line(quest(QUEST_Q, false), vec![visit(3, NPC_ELDER), visit(5, NPC_ELDER)]);
    assert!(t.is_available(&ranged(), l.quest(), &vec![]));
    let r = t.accept(&ranged(), &l, &vec![]);
    assert_eq!(r, Ok(relation(QUEST_Q, 3, None, QuestState::Accepted)));
    assert_eq!(t.quests().relation(QUEST_Q), Some(relation(QUEST_Q, 3, None, QuestState::Accepted)));
    assert_eq!(t.quests().state_of(QUEST_Q), Some(QuestState::Accepted));
}

#[test]
fn accept_refuses_what_is_not_available() {
    let mut t = tracker(4);
    let l = line(quest(QUEST_Q, false), vec![visit(1, NPC_ELDER)]);
    assert_eq!(t.accept(&ranged(), &l, &vec![]), Err(GameError::NotAvailable));
    assert_eq!(t.quests().relation(QUEST_Q), None);
    let mut t = tracker(10);
    let gated = vec![edge(QUEST_A, QUEST_Q)];
    assert_eq!(t.accept(&ranged(), &l, &gated), Err(GameError::NotAvailable));
    assert_eq!(t.quests().relation(QUEST_Q), None);
}

#[test]
fn accept_twice_yields_already_accepted() {
    let mut t = tracker(10);
    let l = line(quest(QUEST_Q, false), vec![visit(3, NPC_ELDER), visit(5, NPC_ELDER)]);
    assert!(t.accept(&ranged(), &l, &vec![]).is_ok());
    t.advance_objective(&l, Evidence::NpcVisited(NPC_ELDER), None).unwrap();
    let before = t.quests().relation(QUEST_Q);
    assert_eq!(t.accept(&ranged(), &l, &vec![]), Err(GameError::AlreadyAccepted));
    // nothing was written: the progress made is still there
    assert_eq!(t.quests().relation(QUEST_Q), before);
    assert_eq!(before, Some(relation(QUEST_Q, 5, None, QuestState::Accepted)));
}

#[test]
fn accept_of_cleared_quest_yields_already_cleared() {
    let mut t = tracker(10);
    let l = line(quest(QUEST_Q, false), vec![visit(3, NPC_ELDER)]);
    clear_by_visits(&mut t, &l, 1);
    assert_eq!(t.accept(&ranged(), &l, &vec![]), Err(GameError::AlreadyCleared));
    assert_eq!(t.quests().state_of(QUEST_Q), Some(QuestState::Cleared));
}

#[test]
fn accept_takes_up_an_unlocked_relation() {
    let character =
        Character::from_row(HERO, String::new(), 0, 1, 1, origin(), None, None, 77, 0, 0).ok().unwrap();
    let standing = CharacterClass { character_id: HERO, class_id: 4, level: 10, experience: 0 };
    let mut log = QuestLog::new(HERO);
    log.record(relation(QUEST_Q, 0, Some(2), QuestState::Unlocked)).unwrap();
    let mut t = Tracker::new(character, standing, Inventory::new(HERO, 4), log, InstanceLog::new(HERO))
        .ok()
        .unwrap();
    let l = line(quest(QUEST_Q, false), vec![visit(3, NPC_ELDER)]);
    assert_eq!(t.advance_objective(&l, Evidence::NpcVisited(NPC_ELDER), None), Err(GameError::NotAvailable));
    assert_eq!(t.accept(&ranged(), &l, &vec![]), Ok(relation(QUEST_Q, 3, None, QuestState::Accepted)));
}

#[test]
fn objectives_advance_in_order_and_clear_once() {
    let mut t = tracker(10);
    let l = line(quest(QUEST_Q, false), vec![visit(3, NPC_ELDER), visit(5, NPC_ELDER + 1), visit(9, NPC_ELDER)]);
    t.accept(&ranged(), &l, &vec![]).unwrap();
    // the second objective's evidence does not advance the first
    assert_eq!(
        t.advance_objective(&l, Evidence::NpcVisited(NPC_ELDER + 1), None),
        Err(GameError::ObjectiveMismatch)
    );
    assert_eq!(t.quests().relation(QUEST_Q), Some(relation(QUEST_Q, 3, None, QuestState::Accepted)));
    assert_eq!(
        t.advance_objective(&l, Evidence::NpcVisited(NPC_ELDER), None),
        Ok(Advance::Next { progression: 5 })
    );
    assert_eq!(
        t.advance_objective(&l, Evidence::NpcVisited(NPC_ELDER + 1), None),
        Ok(Advance::Next { progression: 9 })
    );
    assert_eq!(
        t.advance_objective(&l, Evidence::NpcVisited(NPC_ELDER), None),
        Ok(Advance::Cleared { unlocked_class: None })
    );
    assert_eq!(t.quests().relation(QUEST_Q), Some(relation(QUEST_Q, 9, None, QuestState::Cleared)));
    assert_eq!(
        t.advance_objective(&l, Evidence::NpcVisited(NPC_ELDER), None),
        Err(GameError::AlreadyCleared)
    );
    assert_eq!(t.quests().relation(QUEST_Q), Some(relation(QUEST_Q, 9, None, QuestState::Cleared)));
}

#[test]
fn advance_needs_an_accepted_quest() {
    let mut t = tracker(10);
    let l = line(quest(QUEST_Q, false), vec![visit(3, NPC_ELDER)]);
    assert_eq!(t.advance_objective(&l, Evidence::NpcVisited(NPC_ELDER), None), Err(GameError::NotAvailable));
}

#[test]
fn advance_reports_a_progression_without_objective() {
    let character =
        Character::from_row(HERO, String::new(), 0, 1, 1, origin(), None, None, 77, 0, 0).ok().unwrap();
    let standing = CharacterClass { character_id: HERO, class_id: 4, level: 10, experience: 0 };
    let mut log = QuestLog::new(HERO);
    log.record(relation(QUEST_Q, 4, None, QuestState::Accepted)).unwrap();
    let mut t = Tracker::new(character, standing, Inventory::new(HERO, 4), log, InstanceLog::new(HERO))
        .ok()
        .unwrap();
    let l = line(quest(QUEST_Q, false), vec![visit(3, NPC_ELDER), visit(5, NPC_ELDER)]);
    assert_eq!(t.advance_objective(&l, Evidence::NpcVisited(NPC_ELDER), None), Err(GameError::NotFound));
}

#[test]
fn malformed_objective_matches_nothing() {
    let mut t = tracker(10);
    let l = line(quest(QUEST_Q, false), vec![objective(1)]);
    t.accept(&ranged(), &l, &vec![]).unwrap();
    assert_eq!(
        t.advance_objective(&l, Evidence::NpcVisited(NPC_ELDER), None),
        Err(GameError::ObjectiveMismatch)
    );
}

#[test]
fn defeats_are_counted_up_to_the_amount() {
    let mut t = tracker(10);
    let l = line(quest(QUEST_Q, false), vec![defeat(1, WOLF, Some(3)), visit(2, NPC_ELDER)]);
    t.accept(&ranged(), &l, &vec![]).unwrap();
    assert_eq!(
        t.advance_objective(&l, Evidence::EnemyDefeated(WOLF), None),
        Ok(Advance::Counted { sub_progression: 1 })
    );
    assert_eq!(t.quests().relation(QUEST_Q), Some(relation(QUEST_Q, 1, Some(1), QuestState::Accepted)));
    assert_eq!(
        t.advance_objective(&l, Evidence::EnemyDefeated(WOLF + 1), None),
        Err(GameError::ObjectiveMismatch)
    );
    assert_eq!(
        t.advance_objective(&l, Evidence::EnemyDefeated(WOLF), None),
        Ok(Advance::Counted { sub_progression: 2 })
    );
    assert_eq!(
        t.advance_objective(&l, Evidence::EnemyDefeated(WOLF), None),
        Ok(Advance::Next { progression: 2 })
    );
    assert_eq!(t.quests().relation(QUEST_Q), Some(relation(QUEST_Q, 2, None, QuestState::Accepted)));
}

#[test]
fn remove_item_objective_consumes_from_the_ledger() {
    let mut t = tracker(10);
    let l = line(
        quest(QUEST_Q, false),
        vec![exchange(1, HERB, ObjectiveItemType::RemoveItem, 3), visit(2, NPC_ELDER)],
    );
    t.accept(&ranged(), &l, &vec![]).unwrap();
    assert_eq!(
        t.advance_objective(&l, Evidence::ItemExchanged(HERB), None),
        Err(GameError::InsufficientQuantity)
    );
    assert_eq!(t.quests().relation(QUEST_Q), Some(relation(QUEST_Q, 1, None, QuestState::Accepted)));
    let (character, standing, mut inventory, quests, instances) = t.into_parts();
    inventory.add(&item(HERB, true), 4).unwrap();
    let mut t = Tracker::new(character, standing, inventory, quests, instances).ok().unwrap();
    // a key item can be consumed by an objective
    assert_eq!(
        t.advance_objective(&l, Evidence::ItemExchanged(HERB), None),
        Ok(Advance::Next { progression: 2 })
    );
    assert_eq!(t.inventory().held_amount(HERB), 1);
}

#[test]
fn give_item_objective_credits_the_ledger() {
    let mut t = tracker_with(10, 0, 0, 1);
    let l = line(
        quest(QUEST_Q, false),
        vec![exchange(1, BADGE, ObjectiveItemType::GiveItem, 2), exchange(2, HERB, ObjectiveItemType::GiveItem, 1)],
    );
    t.accept(&ranged(), &l, &vec![]).unwrap();
    // without the item's record, or with another item's, the item is not found
    assert_eq!(t.advance_objective(&l, Evidence::ItemExchanged(BADGE), None), Err(GameError::NotFound));
    assert_eq!(
        t.advance_objective(&l, Evidence::ItemExchanged(BADGE), Some(&item(HERB, false))),
        Err(GameError::NotFound)
    );
    assert_eq!(
        t.advance_objective(&l, Evidence::ItemExchanged(BADGE), Some(&item(BADGE, false))),
        Ok(Advance::Next { progression: 2 })
    );
    assert_eq!(
        t.inventory().rows(),
        vec![InventoryItem { character_id: HERO, item_id: BADGE, amount: 2, slot: 0 }]
    );
    // the only slot is taken: the last objective fails and the quest stays open
    assert_eq!(
        t.advance_objective(&l, Evidence::ItemExchanged(HERB), Some(&item(HERB, false))),
        Err(GameError::SlotsExhausted)
    );
    assert_eq!(t.quests().relation(QUEST_Q), Some(relation(QUEST_Q, 2, None, QuestState::Accepted)));
}

#[test]
fn clearing_pays_the_rewards() {
    let mut t = tracker_with(10, 100, 40, 4);
    let mut q = quest(QUEST_Q, false);
    q.digidollar_reward = Some(250);
    q.experience_reward = Some(60);
    q.unlocks_class = Some(7);
    let l = line(q, vec![visit(1, NPC_ELDER), visit(2, NPC_ELDER)]);
    t.accept(&ranged(), &l, &vec![]).unwrap();
    assert_eq!(
        t.advance_objective(&l, Evidence::NpcVisited(NPC_ELDER), None),
        Ok(Advance::Next { progression: 2 })
    );
    // nothing is paid before the last objective
    assert_eq!(t.character().digidollar(), 100);
    assert_eq!(t.standing().experience, 40);
    assert_eq!(
        t.advance_objective(&l, Evidence::NpcVisited(NPC_ELDER), None),
        Ok(Advance::Cleared { unlocked_class: Some(7) })
    );
    assert_eq!(t.character().digidollar(), 350);
    assert_eq!(t.standing().experience, 100);
    assert_eq!(t.standing().level, 10);
}

#[test]
fn reward_that_cannot_be_held_clears_nothing() {
    let mut t = tracker_with(10, i32::MAX - 5, 0, 4);
    let mut q = quest(QUEST_Q, false);
    q.digidollar_reward = Some(6);
    let l = line(q, vec![exchange(1, HERB, ObjectiveItemType::GiveItem, 1)]);
    t.accept(&ranged(), &l, &vec![]).unwrap();
    assert_eq!(
        t.advance_objective(&l, Evidence::ItemExchanged(HERB), Some(&item(HERB, false))),
        Err(GameError::ValidationError(ValidationFault::BadAmount))
    );
    assert_eq!(t.character().digidollar(), i32::MAX - 5);
    assert_eq!(t.inventory().rows(), vec![]);
    assert_eq!(t.quests().state_of(QUEST_Q), Some(QuestState::Accepted));
    let mut negative = quest(QUEST_A, false);
    negative.experience_reward = Some(-1);
    let l = line(negative, vec![visit(1, NPC_ELDER)]);
    t.accept(&ranged(), &l, &vec![]).unwrap();
    assert_eq!(
        t.advance_objective(&l, Evidence::NpcVisited(NPC_ELDER), None),
        Err(GameError::ValidationError(ValidationFault::BadAmount))
    );
}

#[test]
fn quest_log_never_holds_duplicates() {
    let inconsistent = Err(GameError::ValidationError(ValidationFault::Inconsistent));
    let mut log = QuestLog::new(HERO);
    assert_eq!(log.character_id(), HERO);
    assert_eq!(log.record(relation(QUEST_A, 1, None, QuestState::Accepted)), Ok(()));
    assert_eq!(log.record(relation(QUEST_A, 2, None, QuestState::Cleared)), inconsistent);
    assert_eq!(log.relation(QUEST_A), Some(relation(QUEST_A, 1, None, QuestState::Accepted)));
    assert!(!log.has_cleared(QUEST_A));
    let stranger = QuestCharacterRelation { character_id: HERO + 1, ..relation(QUEST_B, 1, None, QuestState::Cleared) };
    assert_eq!(log.record(stranger), inconsistent);
    assert_eq!(log.state_of(QUEST_B), None);
}
