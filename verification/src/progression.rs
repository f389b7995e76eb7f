//! The progression tracker: one character's state over the quest graph and
//! over the instances, and the transitions that move it.
//!
//! Every transition is all or nothing. Where it fails, the tracker is as it
//! was before.

use vstd::prelude::*;
use std::collections::HashMap;
use crate::character::{Character, CharacterView};
use crate::economy::{purchase, spec_purchase, Cost, ShopSellsItem};
use crate::error::{GameError, ValidationFault};
use crate::inventory::{added, drained, rows_wf, Inventory, InventoryItem, Item};
use crate::quest::{
    class_does_fit, class_fits, gate_is_open, gate_open, has_order, index_of_order,
    lemma_gate_all, lemma_gate_any, relations_wf,
    CharacterClass, Class, Evidence, ObjectiveKind, Quest, QuestCharacterRelation, QuestLine,
    QuestLineView, QuestLog, QuestRequirement, QuestState,
};
use crate::spatial::Location;
use crate::world::Instance;

verus! {

/// What a character has reached in an instance. An instance without a
/// relation is locked.
#[derive(Clone, Copy, Debug, PartialEq, Eq, Structural)]
pub enum InstanceState {
    Unlocked,
    Cleared,
}

#[derive(Clone, Copy, Debug, PartialEq, Eq, Structural)]
pub struct CharacterInstanceRelation {
    pub character_id: u128,
    pub instance_id: u128,
    pub state: InstanceState,
}

/// How far a character has come in an instance: 0 locked, 1 unlocked,
/// 2 cleared.
pub open spec fn rank(log: Map<u128, InstanceState>, instance: u128) -> int {
    if !log.dom().contains(instance) {
        0
    } else if log[instance] == InstanceState::Unlocked {
        1
    } else {
        2
    }
}

/// The state one step further: unlocked from locked, cleared from there.
pub open spec fn stepped(log: Map<u128, InstanceState>, instance: u128) -> InstanceState {
    if log.dom().contains(instance) {
        InstanceState::Cleared
    } else {
        InstanceState::Unlocked
    }
}

/// Nothing that was reached is lost: no instance is locked again, and no
/// cleared instance is reset.
pub open spec fn no_regression(before: Map<u128, InstanceState>, after: Map<u128, InstanceState>)
    -> bool {
    forall|instance: u128| rank(before, instance) <= #[trigger] rank(after, instance)
}

/// A character's relations to the instances.
pub struct InstanceLog {
    character_id: u128,
    entries: HashMap<u128, InstanceState>,
}

impl View for InstanceLog {
    type V = Map<u128, InstanceState>;

    closed spec fn view(&self) -> Map<u128, InstanceState> {
        self.entries@
    }
}

impl InstanceLog {
    pub closed spec fn owner(&self) -> u128 {
        self.character_id
    }

    pub fn new(character_id: u128) -> (log: InstanceLog)
        ensures
            log.owner() == character_id,
            log@ == Map::<u128, InstanceState>::empty(),
    {
        InstanceLog { character_id, entries: HashMap::new() }
    }

    pub fn character_id(&self) -> (id: u128)
        ensures
            id == self.owner(),
    {
        self.character_id
    }

    /// Files a stored relation. One of another character is refused, and so
    /// is a second one for the same instance.
    pub fn record(&mut self, relation: CharacterInstanceRelation) -> (r: Result<(), GameError>)
        ensures
            final(self).owner() == old(self).owner(),
            r is Ok <==> relation.character_id == old(self).owner() && !old(self)@.dom().contains(
                relation.instance_id,
            ),
            r is Ok ==> final(self)@ == old(self)@.insert(relation.instance_id, relation.state),
            r matches Err(e) ==> e == GameError::ValidationError(ValidationFault::Inconsistent)
                && final(self)@ == old(self)@,
    {
        if relation.character_id != self.character_id || self.entries.contains_key(
            &relation.instance_id,
        ) {
            return Err(GameError::ValidationError(ValidationFault::Inconsistent));
        }
        self.entries.insert(relation.instance_id, relation.state);
        Ok(())
    }

    pub fn state_of(&self, instance_id: u128) -> (r: Option<InstanceState>)
        ensures
            r == (if self@.dom().contains(instance_id) {
                Some(self@[instance_id])
            } else {
                None
            }),
    {
        match self.entries.get(&instance_id) {
            Some(state) => Some(*state),
            None => None,
        }
    }

    /// The relation row of an instance, as it is stored.
    pub fn relation(&self, instance_id: u128) -> (r: Option<CharacterInstanceRelation>)
        ensures
            r == (if self@.dom().contains(instance_id) {
                Some(
                    CharacterInstanceRelation {
                        character_id: self.owner(),
                        instance_id,
                        state: self@[instance_id],
                    },
                )
            } else {
                None
            }),
    {
        match self.entries.get(&instance_id) {
            Some(state) => Some(
                CharacterInstanceRelation {
                    character_id: self.character_id,
                    instance_id,
                    state: *state,
                },
            ),
            None => None,
        }
    }

    /// Moves the relation one step forward: a locked instance is unlocked,
    /// an unlocked one cleared, a cleared one stays cleared.
    pub(crate) fn step(&mut self, instance_id: u128)
        ensures
            final(self).owner() == old(self).owner(),
            final(self)@ == old(self)@.insert(instance_id, stepped(old(self)@, instance_id)),
            no_regression(old(self)@, final(self)@),
    {
        let next = if self.entries.contains_key(&instance_id) {
            InstanceState::Cleared
        } else {
            InstanceState::Unlocked
        };
        self.entries.insert(instance_id, next);
        proof {
            lemma_step_keeps(old(self)@, instance_id);
        }
    }

    /// The explicit clear event: an unlocked instance becomes cleared and a
    /// cleared one stays so. A locked instance cannot be cleared.
    pub fn clear(&mut self, instance_id: u128) -> (r: Result<(), GameError>)
        ensures
            final(self).owner() == old(self).owner(),
            r is Ok <==> old(self)@.dom().contains(instance_id),
            r is Ok ==> final(self)@ == old(self)@.insert(instance_id, InstanceState::Cleared),
            r matches Err(e) ==> e == GameError::InstanceLocked && final(self)@ == old(self)@,
            no_regression(old(self)@, final(self)@),
    {
        if !self.entries.contains_key(&instance_id) {
            return Err(GameError::InstanceLocked);
        }
        self.entries.insert(instance_id, InstanceState::Cleared);
        proof {
            lemma_step_keeps(old(self)@, instance_id);
        }
        Ok(())
    }
}

/// A step forward in one instance takes nothing back in any.
pub proof fn lemma_step_keeps(log: Map<u128, InstanceState>, instance: u128)
    ensures
        no_regression(log, log.insert(instance, stepped(log, instance))),
        rank(log.insert(instance, stepped(log, instance)), instance) >= 1,
        log.dom().contains(instance) ==> no_regression(
            log,
            log.insert(instance, InstanceState::Cleared),
        ),
{
    let after = log.insert(instance, stepped(log, instance));
    assert forall|i: u128| rank(log, i) <= #[trigger] rank(after, i) by {}
    if log.dom().contains(instance) {
        let cleared = log.insert(instance, InstanceState::Cleared);
        assert forall|i: u128| rank(log, i) <= #[trigger] rank(cleared, i) by {}
    }
}

/// What a successful `advance_objective` did.
#[derive(Clone, Copy, Debug, PartialEq, Eq, Structural)]
pub enum Advance {
    /// The active objective was counted one further and stays active.
    Counted { sub_progression: i16 },
    /// The active objective is complete; the next one is active.
    Next { progression: i16 },
    /// The last objective is complete. The quest is cleared and its rewards
    /// are applied; `unlocked_class` is the class it opens, if any.
    Cleared { unlocked_class: Option<i16> },
}

/// What a [`Tracker`] stands for.
pub struct TrackerView {
    pub character: CharacterView,
    /// The character's standing in its active class.
    pub standing: CharacterClass,
    pub rows: Seq<InventoryItem>,
    pub capacity: int,
    pub quests: Map<u128, QuestCharacterRelation>,
    pub instances: Map<u128, InstanceState>,
}

impl TrackerView {
    pub open spec fn wf(self) -> bool {
        &&& self.character.wf()
        &&& self.standing.character_id == self.character.id
        &&& rows_wf(self.rows, self.character.id, self.capacity)
        &&& relations_wf(self.quests, self.character.id)
    }
}

/// How often the active objective has been counted.
pub open spec fn counted(relation: QuestCharacterRelation) -> int {
    match relation.sub_progression {
        Some(c) => if c < 0 {
            0
        } else {
            c as int
        },
        None => 0,
    }
}

pub open spec fn reward_of(reward: Option<i32>) -> i32 {
    match reward {
        Some(r) => r,
        None => 0,
    }
}

/// The balance and the standing after a quest's rewards. A negative reward
/// is refused, and so is one that balance or experience cannot hold.
pub open spec fn spec_rewards(character: CharacterView, standing: CharacterClass, quest: Quest)
    -> Result<(CharacterView, CharacterClass), GameError> {
    let money = reward_of(quest.digidollar_reward);
    let experience = reward_of(quest.experience_reward);
    if money < 0 || experience < 0 || character.digidollar + money > i32::MAX
        || standing.experience + experience > i32::MAX {
        Err(GameError::ValidationError(ValidationFault::BadAmount))
    } else {
        Ok(
            (
                CharacterView { digidollar: character.digidollar + money, ..character },
                CharacterClass {
                    experience: (standing.experience + experience) as i32,
                    ..standing
                },
            ),
        )
    }
}

/// What completing an objective does to the ledger. Giving an item needs
/// the item's record; without it the item is `NotFound`.
pub open spec fn spec_ledger_effect(
    rows: Seq<InventoryItem>,
    capacity: int,
    owner: u128,
    kind: ObjectiveKind,
    item: Option<&Item>,
) -> Result<Seq<InventoryItem>, GameError> {
    match kind {
        ObjectiveKind::GiveItem { item: id, amount } => match item {
            Some(it) => if it.id != id {
                Err(GameError::NotFound)
            } else {
                match Inventory::spec_add(rows, capacity, it, amount) {
                    Err(e) => Err(e),
                    Ok(_) => Ok(added(rows, owner, it, amount)),
                }
            },
            None => Err(GameError::NotFound),
        },
        ObjectiveKind::RemoveItem { item: id, amount } => match Inventory::spec_consume(
            rows,
            id,
            amount,
        ) {
            Err(e) => Err(e),
            Ok(_) => Ok(drained(rows, id, amount as int)),
        },
        _ => Ok(rows),
    }
}

/// What completing an objective does to the instance relations. An instance
/// objective moves the relation to its instance one step forward: it unlocks
/// a locked instance and clears an unlocked one. Other objectives leave the
/// relations alone.
pub open spec fn spec_instance_effect(instances: Map<u128, InstanceState>, kind: ObjectiveKind)
    -> Map<u128, InstanceState> {
    match kind {
        ObjectiveKind::ClearInstance { instance } => instances.insert(
            instance,
            stepped(instances, instance),
        ),
        _ => instances,
    }
}

/// Whether the quest is available to the character: level and class fit,
/// and its gate over the requirement edges is open.
pub open spec fn spec_available(
    s: TrackerView,
    class: &Class,
    quest: &Quest,
    edges: Seq<QuestRequirement>,
) -> bool {
    class_fits(quest, s.standing, class) && gate_open(quest, edges, s.quests)
}

/// The relation that accepting a quest writes: accepted, at the first
/// objective.
pub open spec fn accepted_relation(s: TrackerView, line: QuestLineView) -> QuestCharacterRelation {
    QuestCharacterRelation {
        character_id: s.character.id,
        quest_id: line.quest.id,
        progression: line.first_order(),
        sub_progression: None,
        state: QuestState::Accepted,
    }
}

/// What `accept` does. A relation that is already accepted or cleared is
/// reported as such before availability is looked at.
pub open spec fn spec_accept(
    s: TrackerView,
    class: &Class,
    line: QuestLineView,
    edges: Seq<QuestRequirement>,
) -> Result<TrackerView, GameError> {
    let q = line.quest.id;
    if s.quests.dom().contains(q) && s.quests[q].state == QuestState::Accepted {
        Err(GameError::AlreadyAccepted)
    } else if s.quests.dom().contains(q) && s.quests[q].state == QuestState::Cleared {
        Err(GameError::AlreadyCleared)
    } else if !spec_available(s, class, &line.quest, edges) {
        Err(GameError::NotAvailable)
    } else {
        Ok(TrackerView { quests: s.quests.insert(q, accepted_relation(s, line)), ..s })
    }
}

/// What `advance_objective` does: the tracker afterwards and what was
/// advanced, or why nothing was.
pub open spec fn spec_advance(
    s: TrackerView,
    line: QuestLineView,
    evidence: Evidence,
    item: Option<&Item>,
) -> Result<(TrackerView, Advance), GameError> {
    let q = line.quest.id;
    if !s.quests.dom().contains(q) || s.quests[q].state == QuestState::Unlocked {
        Err(GameError::NotAvailable)
    } else if s.quests[q].state == QuestState::Cleared {
        Err(GameError::AlreadyCleared)
    } else if !has_order(line.objectives, s.quests[q].progression) {
        Err(GameError::NotFound)
    } else {
        let relation = s.quests[q];
        let idx = index_of_order(line.objectives, relation.progression);
        match line.objectives[idx].spec_kind() {
            None => Err(GameError::ObjectiveMismatch),
            Some(kind) => if !kind.satisfied_by(evidence) {
                Err(GameError::ObjectiveMismatch)
            } else if kind matches ObjectiveKind::DefeatEnemy { count, .. } && counted(relation)
                + 1 < count {
                let sub = (counted(relation) + 1) as i16;
                Ok(
                    (
                        TrackerView {
                            quests: s.quests.insert(
                                q,
                                QuestCharacterRelation { sub_progression: Some(sub), ..relation },
                            ),
                            ..s
                        },
                        Advance::Counted { sub_progression: sub },
                    ),
                )
            } else {
                spec_complete(s, line, relation, idx, kind, item)
            },
        }
    }
}

/// What completing the objective at `idx` does. The last objective clears
/// the quest and pays its rewards; any other makes the next one active.
pub open spec fn spec_complete(
    s: TrackerView,
    line: QuestLineView,
    relation: QuestCharacterRelation,
    idx: int,
    kind: ObjectiveKind,
    item: Option<&Item>,
) -> Result<(TrackerView, Advance), GameError> {
    let last = idx + 1 == line.objectives.len();
    let rewarded = if last {
        spec_rewards(s.character, s.standing, line.quest)
    } else {
        Ok((s.character, s.standing))
    };
    match rewarded {
        Err(e) => Err(e),
        Ok((character, standing)) => match spec_ledger_effect(
            s.rows,
            s.capacity,
            s.character.id,
            kind,
            item,
        ) {
            Err(e) => Err(e),
            Ok(rows) => {
                let after = if last {
                    QuestCharacterRelation {
                        sub_progression: None,
                        state: QuestState::Cleared,
                        ..relation
                    }
                } else {
                    QuestCharacterRelation {
                        progression: line.objectives[idx + 1].order_in_quest,
                        sub_progression: None,
                        ..relation
                    }
                };
                Ok(
                    (
                        TrackerView {
                            character,
                            standing,
                            rows,
                            capacity: s.capacity,
                            quests: s.quests.insert(line.quest.id, after),
                            instances: spec_instance_effect(s.instances, kind),
                        },
                        if last {
                            Advance::Cleared { unlocked_class: line.quest.unlocks_class }
                        } else {
                            Advance::Next { progression: after.progression }
                        },
                    ),
                )
            },
        },
    }
}

/// What `enter_instance` does.
pub open spec fn spec_enter(s: TrackerView, instance: u128, place: Location) -> Result<
    TrackerView,
    GameError,
> {
    if !s.instances.dom().contains(instance) {
        Err(GameError::InstanceLocked)
    } else {
        Ok(
            TrackerView {
                character: CharacterView { instance: Some((instance, place)), ..s.character },
                ..s
            },
        )
    }
}

/// One character's progression state: the character, its standing in its
/// active class, its ledger, and its relations to quests and instances.
pub struct Tracker {
    character: Character,
    standing: CharacterClass,
    inventory: Inventory,
    quests: QuestLog,
    instances: InstanceLog,
}

impl View for Tracker {
    type V = TrackerView;

    closed spec fn view(&self) -> TrackerView {
        TrackerView {
            character: self.character@,
            standing: self.standing,
            rows: self.inventory@,
            capacity: self.inventory.capacity(),
            quests: self.quests@,
            instances: self.instances@,
        }
    }
}

impl Tracker {
    /// Every part is well formed, and all parts belong to the character.
    pub closed spec fn wf(&self) -> bool {
        &&& self@.wf()
        &&& self.inventory.owner() == self.character@.id
        &&& self.quests.owner() == self.character@.id
        &&& self.instances.owner() == self.character@.id
    }

    pub proof fn lemma_wf_view(&self)
        requires
            self.wf(),
        ensures
            self@.wf(),
    {
    }

    /// Puts a tracker together. Parts of different characters are refused.
    pub fn new(
        character: Character,
        standing: CharacterClass,
        inventory: Inventory,
        quests: QuestLog,
        instances: InstanceLog,
    ) -> (r: Result<Tracker, GameError>)
        requires
            character.wf(),
            inventory.wf(),
            quests.wf(),
        ensures
            r is Ok <==> standing.character_id == character@.id && inventory.owner()
                == character@.id && quests.owner() == character@.id && instances.owner()
                == character@.id,
            r matches Err(e) ==> e == GameError::ValidationError(ValidationFault::Inconsistent),
            r matches Ok(t) ==> t.wf() && t@ == (TrackerView {
                character: character@,
                standing,
                rows: inventory@,
                capacity: inventory.capacity(),
                quests: quests@,
                instances: instances@,
            }),
    {
        let id = character.id();
        if standing.character_id != id || inventory.character_id() != id || quests.character_id()
            != id || instances.character_id() != id {
            return Err(GameError::ValidationError(ValidationFault::Inconsistent));
        }
        Ok(Tracker { character, standing, inventory, quests, instances })
    }

    pub fn character(&self) -> (c: &Character)
        ensures
            c@ == self@.character,
    {
        &self.character
    }

    pub fn standing(&self) -> (s: CharacterClass)
        ensures
            s == self@.standing,
    {
        self.standing
    }

    pub fn inventory(&self) -> (inv: &Inventory)
        ensures
            inv@ == self@.rows,
            inv.capacity() == self@.capacity,
    {
        &self.inventory
    }

    pub fn quests(&self) -> (log: &QuestLog)
        ensures
            log@ == self@.quests,
    {
        &self.quests
    }

    pub fn instances(&self) -> (log: &InstanceLog)
        ensures
            log@ == self@.instances,
    {
        &self.instances
    }

    /// Whether the quest is available to the character.
    pub fn is_available(&self, class: &Class, quest: &Quest, edges: &Vec<QuestRequirement>) -> (b:
        bool)
        ensures
            b == spec_available(self@, class, quest, edges@),
    {
        class_does_fit(quest, &self.standing, class) && gate_is_open(quest, edges, &self.quests)
    }

    /// Accepts a quest: the relation becomes accepted, at the first
    /// objective. Returns the relation as it is now.
    pub fn accept(&mut self, class: &Class, line: &QuestLine, edges: &Vec<QuestRequirement>) -> (r:
        Result<QuestCharacterRelation, GameError>)
        requires
            old(self).wf(),
            line.wf(),
        ensures
            final(self).wf(),
            match spec_accept(old(self)@, class, line@, edges@) {
                Ok(s) => r == Ok::<QuestCharacterRelation, GameError>(
                    accepted_relation(old(self)@, line@),
                ) && final(self)@ == s,
                Err(e) => r == Err::<QuestCharacterRelation, GameError>(e) && final(self)@ == old(
                    self,
                )@,
            },
    {
        let quest = line.quest();
        match self.quests.state_of(quest.id) {
            Some(QuestState::Accepted) => {
                return Err(GameError::AlreadyAccepted);
            },
            Some(QuestState::Cleared) => {
                return Err(GameError::AlreadyCleared);
            },
            _ => {},
        }
        if !self.is_available(class, quest, edges) {
            return Err(GameError::NotAvailable);
        }
        let relation = QuestCharacterRelation {
            character_id: self.character.id(),
            quest_id: quest.id,
            progression: line.first_order(),
            sub_progression: None,
            state: QuestState::Accepted,
        };
        self.quests.put(relation);
        Ok(relation)
    }

    /// Advances the quest by what the character did. The evidence is held
    /// against the active objective alone: no objective is skipped or done
    /// out of turn. `item` is the record of the item that the active
    /// objective gives, where it gives one.
    pub fn advance_objective(&mut self, line: &QuestLine, evidence: Evidence, item: Option<&Item>)
        -> (r: Result<Advance, GameError>)
        requires
            old(self).wf(),
            line.wf(),
        ensures
            final(self).wf(),
            match spec_advance(old(self)@, line@, evidence, item) {
                Ok((s, advance)) => r == Ok::<Advance, GameError>(advance) && final(self)@ == s,
                Err(e) => r == Err::<Advance, GameError>(e) && final(self)@ == old(self)@,
            },
            no_regression(old(self)@.instances, final(self)@.instances),
    {
        let quest = *line.quest();
        let q = quest.id;
        let relation = match self.quests.relation(q) {
            None => {
                return Err(GameError::NotAvailable);
            },
            Some(relation) => relation,
        };
        match relation.state {
            QuestState::Unlocked => {
                return Err(GameError::NotAvailable);
            },
            QuestState::Cleared => {
                return Err(GameError::AlreadyCleared);
            },
            QuestState::Accepted => {},
        }
        let idx = match line.find_order(relation.progression) {
            None => {
                return Err(GameError::NotFound);
            },
            Some(idx) => idx,
        };
        let kind = match line.objective(idx).kind() {
            None => {
                return Err(GameError::ObjectiveMismatch);
            },
            Some(kind) => kind,
        };
        if !kind.is_satisfied_by(evidence) {
            return Err(GameError::ObjectiveMismatch);
        }
        match kind {
            ObjectiveKind::DefeatEnemy { count, .. } => {
                let so_far: i32 = match relation.sub_progression {
                    Some(c) => if c < 0 {
                        0
                    } else {
                        c as i32
                    },
                    None => 0,
                };
                if so_far + 1 < count as i32 {
                    let sub = (so_far + 1) as i16;
                    self.quests.put(
                        QuestCharacterRelation {
                            character_id: relation.character_id,
                            quest_id: relation.quest_id,
                            progression: relation.progression,
                            sub_progression: Some(sub),
                            state: relation.state,
                        },
                    );
                    return Ok(Advance::Counted { sub_progression: sub });
                }
            },
            _ => {},
        }
        let count = line.objective_count();
        let last = idx + 1 == count;
        let money = match quest.digidollar_reward {
            Some(m) => m,
            None => 0,
        };
        let experience = match quest.experience_reward {
            Some(e) => e,
            None => 0,
        };
        if last && (money < 0 || experience < 0 || self.character.digidollar() > i32::MAX - money
            || self.standing.experience > i32::MAX - experience) {
            return Err(GameError::ValidationError(ValidationFault::BadAmount));
        }
        match kind {
            ObjectiveKind::GiveItem { item: id, amount } => {
                match item {
                    Some(it) => {
                        if it.id != id {
                            return Err(GameError::NotFound);
                        }
                        match self.inventory.add(it, amount) {
                            Err(e) => {
                                return Err(e);
                            },
                            Ok(_) => {},
                        }
                    },
                    None => {
                        return Err(GameError::NotFound);
                    },
                }
            },
            ObjectiveKind::RemoveItem { item: id, amount } => {
                match self.inventory.consume(id, amount) {
                    Err(e) => {
                        return Err(e);
                    },
                    Ok(_) => {},
                }
            },
            _ => {},
        }
        match kind {
            ObjectiveKind::ClearInstance { instance } => {
                self.instances.step(instance);
            },
            _ => {},
        }
        if last {
            let _ = self.character.credit(money);
            self.standing.experience = self.standing.experience + experience;
            self.quests.put(
                QuestCharacterRelation {
                    character_id: relation.character_id,
                    quest_id: relation.quest_id,
                    progression: relation.progression,
                    sub_progression: None,
                    state: QuestState::Cleared,
                },
            );
            Ok(Advance::Cleared { unlocked_class: quest.unlocks_class })
        } else {
            let next = line.objective(idx + 1).order_in_quest;
            self.quests.put(
                QuestCharacterRelation {
                    character_id: relation.character_id,
                    quest_id: relation.quest_id,
                    progression: next,
                    sub_progression: None,
                    state: relation.state,
                },
            );
            Ok(Advance::Next { progression: next })
        }
    }

    /// Puts the character inside an instance, at a place of the instance's
    /// own space. The instance must be unlocked or cleared.
    pub fn enter_instance(&mut self, instance: &Instance, place: Location) -> (r: Result<
        (),
        GameError,
    >)
        requires
            old(self).wf(),
            place.wf(),
        ensures
            final(self).wf(),
            match spec_enter(old(self)@, instance.id, place) {
                Ok(s) => r is Ok && final(self)@ == s,
                Err(e) => r == Err::<(), GameError>(e) && final(self)@ == old(self)@,
            },
    {
        if self.instances.state_of(instance.id).is_none() {
            return Err(GameError::InstanceLocked);
        }
        self.character.set_instance(instance.id, place);
        Ok(())
    }

    /// Takes the character out of the instance it is in. The instance and
    /// the place in it are cleared together.
    pub fn leave_instance(&mut self)
        requires
            old(self).wf(),
        ensures
            final(self).wf(),
            final(self)@ == (TrackerView {
                character: CharacterView { instance: None, ..old(self)@.character },
                ..old(self)@
            }),
    {
        self.character.leave_instance();
    }

    /// The explicit clear event for an instance.
    pub fn clear_instance(&mut self, instance_id: u128) -> (r: Result<(), GameError>)
        requires
            old(self).wf(),
        ensures
            final(self).wf(),
            r is Ok <==> old(self)@.instances.dom().contains(instance_id),
            r is Ok ==> final(self)@ == (TrackerView {
                instances: old(self)@.instances.insert(instance_id, InstanceState::Cleared),
                ..old(self)@
            }),
            r matches Err(e) ==> e == GameError::InstanceLocked && final(self)@ == old(self)@,
            no_regression(old(self)@.instances, final(self)@.instances),
    {
        self.instances.clear(instance_id)
    }

    /// Buys one unit of a listed item for the character.
    pub fn purchase(&mut self, listing: &ShopSellsItem, item: &Item, cost: &Cost) -> (r: Result<
        i16,
        GameError,
    >)
        requires
            old(self).wf(),
        ensures
            final(self).wf(),
            match spec_purchase(
                old(self)@.character,
                old(self)@.rows,
                old(self)@.character.id,
                old(self)@.capacity,
                listing,
                item,
                cost@,
            ) {
                Ok((c, rows, slot)) => r == Ok::<i16, GameError>(slot) && final(self)@ == (
                TrackerView { character: c, rows, ..old(self)@ }),
                Err(e) => r == Err::<i16, GameError>(e) && final(self)@ == old(self)@,
            },
    {
        purchase(&mut self.character, &mut self.inventory, listing, item, cost)
    }

    /// Takes the tracker apart, for the caller to store what changed.
    pub fn into_parts(self) -> (parts: (
        Character,
        CharacterClass,
        Inventory,
        QuestLog,
        InstanceLog,
    ))
        requires
            self.wf(),
        ensures
            parts.0@ == self@.character,
            parts.1 == self@.standing,
            parts.2@ == self@.rows,
            parts.2.capacity() == self@.capacity,
            parts.3@ == self@.quests,
            parts.4@ == self@.instances,
            parts.0.wf(),
            parts.2.wf(),
            parts.3.wf(),
            parts.1.character_id == parts.0@.id,
            parts.2.owner() == parts.0@.id,
            parts.3.owner() == parts.0@.id,
            parts.4.owner() == parts.0@.id,
    {
        (self.character, self.standing, self.inventory, self.quests, self.instances)
    }
}

/// Accepting is not repeated: on a quest that is already accepted, `accept`
/// answers `AlreadyAccepted`, whatever class and edges it is given, and so
/// writes no second relation.
pub proof fn lemma_accepted_stays_accepted(
    s: TrackerView,
    class: &Class,
    line: QuestLineView,
    edges: Seq<QuestRequirement>,
)
    requires
        s.quests.dom().contains(line.quest.id),
        s.quests[line.quest.id].state == QuestState::Accepted,
    ensures
        spec_accept(s, class, line, edges) == Err::<TrackerView, GameError>(
            GameError::AlreadyAccepted,
        ),
{
}

/// Calling `accept` a second time after it succeeded yields
/// `AlreadyAccepted`.
pub proof fn lemma_accept_twice(
    s: TrackerView,
    class: &Class,
    line: QuestLineView,
    edges: Seq<QuestRequirement>,
)
    requires
        spec_accept(s, class, line, edges) is Ok,
    ensures
        spec_accept(spec_accept(s, class, line, edges)->Ok_0, class, line, edges) == Err::<
            TrackerView,
            GameError,
        >(GameError::AlreadyAccepted),
{
}

/// Accepting leaves a well-formed tracker well formed and starts the quest
/// at its lowest order.
pub proof fn lemma_accept_starts_first(
    s: TrackerView,
    class: &Class,
    line: QuestLineView,
    edges: Seq<QuestRequirement>,
)
    requires
        s.wf(),
        spec_accept(s, class, line, edges) is Ok,
    ensures
        spec_accept(s, class, line, edges)->Ok_0.wf(),
        spec_accept(s, class, line, edges)->Ok_0.quests[line.quest.id].state
            == QuestState::Accepted,
        spec_accept(s, class, line, edges)->Ok_0.quests[line.quest.id].progression
            == line.first_order(),
{
}

/// Advancing never takes the progression past the quest's highest order,
/// never moves it backwards, and clears the quest exactly when the last
/// objective is completed.
pub proof fn lemma_advance_bounded(
    s: TrackerView,
    line: QuestLineView,
    evidence: Evidence,
    item: Option<&Item>,
)
    requires
        line.wf(),
        spec_advance(s, line, evidence, item) is Ok,
    ensures
        ({
            let q = line.quest.id;
            let (after, advance) = spec_advance(s, line, evidence, item)->Ok_0;
            &&& s.quests.dom().contains(q)
            &&& s.quests[q].state == QuestState::Accepted
            &&& after.quests.dom().contains(q)
            &&& line.first_order() <= after.quests[q].progression <= line.last_order()
            &&& s.quests[q].progression <= after.quests[q].progression
            &&& after.quests[q].state == QuestState::Cleared <==> advance is Cleared
            &&& advance is Cleared ==> after.quests[q].progression == line.last_order()
            &&& advance matches Advance::Next { progression } ==> s.quests[q].progression
                < progression && after.quests[q].progression == progression
            &&& advance is Counted ==> after.quests[q].progression == s.quests[q].progression
        }),
{
    let q = line.quest.id;
    let relation = s.quests[q];
    let idx = index_of_order(line.objectives, relation.progression);
    assert(0 <= idx < line.objectives.len() && line.objectives[idx].order_in_quest
        == relation.progression);
    line.lemma_orders_bounded(idx);
    if idx + 1 < line.objectives.len() {
        line.lemma_orders_bounded(idx + 1);
        assert(line.objectives[idx].order_in_quest < line.objectives[idx + 1].order_in_quest);
    }
}

/// A cleared quest is cleared once: every further call answers
/// `AlreadyCleared`.
pub proof fn lemma_cleared_is_final(
    s: TrackerView,
    line: QuestLineView,
    evidence: Evidence,
    item: Option<&Item>,
)
    requires
        s.quests.dom().contains(line.quest.id),
        s.quests[line.quest.id].state == QuestState::Cleared,
    ensures
        spec_advance(s, line, evidence, item) == Err::<(TrackerView, Advance), GameError>(
            GameError::AlreadyCleared,
        ),
{
}

/// No transition of a quest takes back what was reached in an instance.
pub proof fn lemma_advance_keeps_instances(
    s: TrackerView,
    line: QuestLineView,
    evidence: Evidence,
    item: Option<&Item>,
)
    requires
        spec_advance(s, line, evidence, item) is Ok,
    ensures
        no_regression(s.instances, spec_advance(s, line, evidence, item)->Ok_0.0.instances),
{
    let after = spec_advance(s, line, evidence, item)->Ok_0.0.instances;
    assert forall|i: u128| rank(s.instances, i) <= #[trigger] rank(after, i) by {}
}

/// After an instance objective is completed the instance is open: entering
/// it succeeds.
pub proof fn lemma_instance_objective_opens(
    s: TrackerView,
    line: QuestLineView,
    evidence: Evidence,
    item: Option<&Item>,
    instance: u128,
    place: Location,
)
    requires
        evidence == Evidence::InstanceCleared(instance),
        spec_advance(s, line, evidence, item) is Ok,
    ensures
        spec_enter(spec_advance(s, line, evidence, item)->Ok_0.0, instance, place) is Ok,
{
}

/// How far a character has come in a quest: 0 not started, 1 unlocked,
/// 2 accepted, 3 cleared.
pub open spec fn quest_rank(log: Map<u128, QuestCharacterRelation>, quest: u128) -> int {
    if !log.dom().contains(quest) {
        0
    } else {
        match log[quest].state {
            QuestState::Unlocked => 1,
            QuestState::Accepted => 2,
            QuestState::Cleared => 3,
        }
    }
}

/// Accepting moves one quest forward and no quest backwards.
pub proof fn lemma_accept_moves_forward(
    s: TrackerView,
    class: &Class,
    line: QuestLineView,
    edges: Seq<QuestRequirement>,
    quest: u128,
)
    requires
        spec_accept(s, class, line, edges) is Ok,
    ensures
        quest_rank(s.quests, quest) <= quest_rank(
            spec_accept(s, class, line, edges)->Ok_0.quests,
            quest,
        ),
        quest_rank(s.quests, line.quest.id) < 2,
        quest_rank(spec_accept(s, class, line, edges)->Ok_0.quests, line.quest.id) == 2,
{
}

/// Advancing moves no quest backwards: what was accepted stays accepted or
/// becomes cleared, and every other quest is as it was.
pub proof fn lemma_advance_moves_forward(
    s: TrackerView,
    line: QuestLineView,
    evidence: Evidence,
    item: Option<&Item>,
    quest: u128,
)
    requires
        spec_advance(s, line, evidence, item) is Ok,
    ensures
        quest_rank(s.quests, quest) <= quest_rank(
            spec_advance(s, line, evidence, item)->Ok_0.0.quests,
            quest,
        ),
        quest != line.quest.id ==> spec_advance(s, line, evidence, item)->Ok_0.0.quests.dom().contains(
            quest,
        ) == s.quests.dom().contains(quest) && spec_advance(
            s,
            line,
            evidence,
            item,
        )->Ok_0.0.quests[quest] == s.quests[quest],
{
}

/// With a disjunctive gate, one cleared requirement makes the quest
/// available to a character whose level and class fit, whatever has become
/// of the other requirements.
pub proof fn lemma_any_requirement_opens(
    s: TrackerView,
    class: &Class,
    quest: &Quest,
    edges: Seq<QuestRequirement>,
    a: int,
)
    requires
        quest.requirement_disjunction,
        class_fits(quest, s.standing, class),
        0 <= a < edges.len(),
        edges[a].unlocks == quest.id,
        quest_rank(s.quests, edges[a].requirement) == 3,
    ensures
        spec_available(s, class, quest, edges),
{
    lemma_gate_any(quest, edges, s.quests, a);
}

/// With a conjunctive gate, one requirement that is not cleared keeps the
/// quest unavailable, whatever has become of the other requirements.
pub proof fn lemma_every_requirement_is_needed(
    s: TrackerView,
    class: &Class,
    quest: &Quest,
    edges: Seq<QuestRequirement>,
    b: int,
)
    requires
        !quest.requirement_disjunction,
        0 <= b < edges.len(),
        edges[b].unlocks == quest.id,
        quest_rank(s.quests, edges[b].requirement) < 3,
    ensures
        !spec_available(s, class, quest, edges),
{
    lemma_gate_all(quest, edges, s.quests, b);
}

} // verus!
