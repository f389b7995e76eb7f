//! The quest graph: quests, the edges that gate them, their objectives in
//! order, and what a character has reached in each quest.

use vstd::prelude::*;
use std::collections::HashMap;
use crate::error::{GameError, ValidationFault};
use crate::loot::Enemy;
use crate::world::Instance;

verus! {

#[derive(Clone, Copy, Debug, PartialEq, Eq, Structural)]
pub enum ClassType {
    Melee,
    Ranged,
    Caster,
    Tank,
    Healer,
}

#[derive(Debug)]
pub struct Class {
    pub id: i16,
    pub name: String,
    pub description: String,
    pub class_type: ClassType,
}

/// A character's standing in one class.
#[derive(Clone, Copy, Debug, PartialEq, Eq, Structural)]
pub struct CharacterClass {
    pub character_id: u128,
    pub class_id: i16,
    pub level: i16,
    pub experience: i32,
}

#[derive(Clone, Copy, Debug, PartialEq, Eq, Structural)]
pub enum QuestType {
    Normal,
    Unlocking,
    MainStory,
}

#[derive(Clone, Copy, Debug, PartialEq, Eq, Structural)]
pub struct Quest {
    pub id: u128,
    pub level_requirement: i16,
    pub class_requirement: Option<i16>,
    pub class_type_requirement: ClassType,
    /// With several requirement edges: `true` opens the quest when any one
    /// is satisfied, `false` only when all are.
    pub requirement_disjunction: bool,
    pub quest_type: QuestType,
    pub digidollar_reward: Option<i32>,
    pub experience_reward: Option<i32>,
    pub unlocks_class: Option<i16>,
}

/// An edge of the quest graph: `requirement` must be cleared before
/// `unlocks` opens.
#[derive(Clone, Copy, Debug, PartialEq, Eq, Structural)]
pub struct QuestRequirement {
    pub requirement: u128,
    pub unlocks: u128,
}

#[derive(Clone, Copy, Debug, PartialEq, Eq, Structural)]
pub enum QuestState {
    Unlocked,
    Accepted,
    Cleared,
}

#[derive(Clone, Copy, Debug, PartialEq, Eq, Structural)]
pub struct QuestCharacterRelation {
    pub character_id: u128,
    pub quest_id: u128,
    /// The `order_in_quest` of the objective that is active.
    pub progression: i16,
    /// How far the active objective has been counted, where it counts.
    pub sub_progression: Option<i16>,
    pub state: QuestState,
}

#[derive(Clone, Copy, Debug, PartialEq, Eq, Structural)]
pub struct QuestItemReward {
    pub quest_id: u128,
    pub item_id: u128,
    pub optional: bool,
    pub amount: i16,
}

#[derive(Clone, Copy, Debug, PartialEq, Eq, Structural)]
pub enum ObjectiveItemType {
    GiveItem,
    RemoveItem,
}

pub struct QuestObjective {
    pub id: u128,
    pub description: String,
    pub dialogue: Option<String>,
    pub amount: Option<i16>,
    pub order_in_quest: i16,
    pub npc: Option<u128>,
    pub item: Option<u128>,
    pub item_type: Option<ObjectiveItemType>,
    pub enemy: Option<Enemy>,
    pub instance: Option<Instance>,
}

/// What an objective asks for.
#[derive(Clone, Copy, Debug, PartialEq, Eq, Structural)]
pub enum ObjectiveKind {
    VisitNpc { npc: u128 },
    /// The character receives the item.
    GiveItem { item: u128, amount: i16 },
    /// The item is taken from the character.
    RemoveItem { item: u128, amount: i16 },
    DefeatEnemy { enemy: u128, count: i16 },
    ClearInstance { instance: u128 },
}

/// What the character did, as the caller reports it. An item exchange is
/// the exchange that an item objective names, over the objective's whole
/// amount: the ledger decides whether it can take place.
#[derive(Clone, Copy, Debug, PartialEq, Eq, Structural)]
pub enum Evidence {
    NpcVisited(u128),
    ItemExchanged(u128),
    EnemyDefeated(u128),
    InstanceCleared(u128),
}

impl ObjectiveKind {
    /// Whether the evidence is of the objective's type and names its target.
    pub open spec fn satisfied_by(self, evidence: Evidence) -> bool {
        match self {
            ObjectiveKind::VisitNpc { npc } => evidence == Evidence::NpcVisited(npc),
            ObjectiveKind::GiveItem { item, .. } => evidence == Evidence::ItemExchanged(item),
            ObjectiveKind::RemoveItem { item, .. } => evidence == Evidence::ItemExchanged(item),
            ObjectiveKind::DefeatEnemy { enemy, .. } => evidence == Evidence::EnemyDefeated(enemy),
            ObjectiveKind::ClearInstance { instance } => evidence == Evidence::InstanceCleared(
                instance,
            ),
        }
    }

    pub fn is_satisfied_by(&self, evidence: Evidence) -> (b: bool)
        ensures
            b == self.satisfied_by(evidence),
    {
        match (*self, evidence) {
            (ObjectiveKind::VisitNpc { npc }, Evidence::NpcVisited(seen)) => npc == seen,
            (ObjectiveKind::GiveItem { item, .. }, Evidence::ItemExchanged(seen)) => item == seen,
            (ObjectiveKind::RemoveItem { item, .. }, Evidence::ItemExchanged(seen)) => item
                == seen,
            (ObjectiveKind::DefeatEnemy { enemy, .. }, Evidence::EnemyDefeated(seen)) => enemy
                == seen,
            (ObjectiveKind::ClearInstance { instance }, Evidence::InstanceCleared(seen)) => instance
                == seen,
            _ => false,
        }
    }
}

impl QuestObjective {
    /// The amount an objective asks for; one where it names none.
    pub open spec fn spec_amount(&self) -> i16 {
        match self.amount {
            Some(a) => a,
            None => 1,
        }
    }

    /// The objective's type, read off the targets that are set: an
    /// instance, else an enemy, else an item with what to do with it, else
    /// an NPC. `None` for rows that name several targets of the first three,
    /// none at all, an item without an action, or an amount below one.
    pub open spec fn spec_kind(&self) -> Option<ObjectiveKind> {
        if self.spec_amount() < 1 {
            None
        } else if self.instance is Some {
            if self.enemy is None && self.item is None {
                Some(ObjectiveKind::ClearInstance { instance: self.instance->0.id })
            } else {
                None
            }
        } else if self.enemy is Some {
            if self.item is None {
                Some(
                    ObjectiveKind::DefeatEnemy {
                        enemy: self.enemy->0.id,
                        count: self.spec_amount(),
                    },
                )
            } else {
                None
            }
        } else if self.item is Some {
            match self.item_type {
                Some(ObjectiveItemType::GiveItem) => Some(
                    ObjectiveKind::GiveItem { item: self.item->0, amount: self.spec_amount() },
                ),
                Some(ObjectiveItemType::RemoveItem) => Some(
                    ObjectiveKind::RemoveItem { item: self.item->0, amount: self.spec_amount() },
                ),
                None => None,
            }
        } else if self.npc is Some {
            Some(ObjectiveKind::VisitNpc { npc: self.npc->0 })
        } else {
            None
        }
    }

    pub fn kind(&self) -> (k: Option<ObjectiveKind>)
        ensures
            k == self.spec_kind(),
    {
        let amount = match self.amount {
            Some(a) => a,
            None => 1,
        };
        if amount < 1 {
            return None;
        }
        match &self.instance {
            Some(instance) => {
                if self.enemy.is_none() && self.item.is_none() {
                    return Some(ObjectiveKind::ClearInstance { instance: instance.id });
                }
                return None;
            },
            None => {},
        }
        match &self.enemy {
            Some(enemy) => {
                if self.item.is_none() {
                    return Some(ObjectiveKind::DefeatEnemy { enemy: enemy.id, count: amount });
                }
                return None;
            },
            None => {},
        }
        match self.item {
            Some(item) => {
                return match self.item_type {
                    Some(ObjectiveItemType::GiveItem) => Some(
                        ObjectiveKind::GiveItem { item, amount },
                    ),
                    Some(ObjectiveItemType::RemoveItem) => Some(
                        ObjectiveKind::RemoveItem { item, amount },
                    ),
                    None => None,
                };
            },
            None => {},
        }
        match self.npc {
            Some(npc) => Some(ObjectiveKind::VisitNpc { npc }),
            None => None,
        }
    }
}

/// The objectives come in strictly ascending `order_in_quest`, and there is
/// at least one.
pub open spec fn objectives_wf(objectives: Seq<QuestObjective>) -> bool {
    &&& objectives.len() > 0
    &&& forall|i: int, j: int|
        0 <= i < j < objectives.len() ==> (#[trigger] objectives[i]).order_in_quest < (
        #[trigger] objectives[j]).order_in_quest
}

pub open spec fn has_order(objectives: Seq<QuestObjective>, order: i16) -> bool {
    exists|i: int| #[trigger] is_index_of_order(objectives, order, i)
}

pub open spec fn is_index_of_order(objectives: Seq<QuestObjective>, order: i16, i: int) -> bool {
    0 <= i < objectives.len() && objectives[i].order_in_quest == order
}

/// The index of the objective with the given order. Orders are strictly
/// ascending, so there is at most one.
pub open spec fn index_of_order(objectives: Seq<QuestObjective>, order: i16) -> int {
    choose|i: int| is_index_of_order(objectives, order, i)
}

pub proof fn lemma_index_of_order(objectives: Seq<QuestObjective>, order: i16, i: int)
    requires
        objectives_wf(objectives),
        is_index_of_order(objectives, order, i),
    ensures
        index_of_order(objectives, order) == i,
        has_order(objectives, order),
{
    let c = index_of_order(objectives, order);
    if c < i {
        assert(objectives[c].order_in_quest < objectives[i].order_in_quest);
    } else if i < c {
        assert(objectives[i].order_in_quest < objectives[c].order_in_quest);
    }
}

/// What a [`QuestLine`] stands for.
pub struct QuestLineView {
    pub quest: Quest,
    pub objectives: Seq<QuestObjective>,
}

impl QuestLineView {
    pub open spec fn wf(self) -> bool {
        objectives_wf(self.objectives)
    }

    /// The order of the objective a quest starts with: the lowest.
    pub open spec fn first_order(self) -> i16 {
        self.objectives[0].order_in_quest
    }

    /// The order of the objective a quest ends with: the highest.
    pub open spec fn last_order(self) -> i16 {
        self.objectives.last().order_in_quest
    }

    /// No objective's order is below the first or above the last.
    pub proof fn lemma_orders_bounded(self, i: int)
        requires
            self.wf(),
            0 <= i < self.objectives.len(),
        ensures
            self.first_order() <= self.objectives[i].order_in_quest <= self.last_order(),
    {
        let last = self.objectives.len() - 1;
        if 0 < i {
            assert(self.objectives[0].order_in_quest < self.objectives[i].order_in_quest);
        }
        if i < last {
            assert(self.objectives[i].order_in_quest < self.objectives[last].order_in_quest);
        }
    }
}

/// A quest with its objectives, in the order in which they are completed.
pub struct QuestLine {
    quest: Quest,
    objectives: Vec<QuestObjective>,
}

impl View for QuestLine {
    type V = QuestLineView;

    closed spec fn view(&self) -> QuestLineView {
        QuestLineView { quest: self.quest, objectives: self.objectives@ }
    }
}

impl QuestLine {
    pub open spec fn wf(&self) -> bool {
        self@.wf()
    }

    /// A quest line from a quest and its objectives, which must come in
    /// strictly ascending `order_in_quest`. A quest without objectives is
    /// refused as `NotFound`, objectives out of order as inconsistent.
    pub fn new(quest: Quest, objectives: Vec<QuestObjective>) -> (r: Result<QuestLine, GameError>)
        ensures
            r is Ok <==> objectives_wf(objectives@),
            r matches Ok(line) ==> line.wf() && line@ == (QuestLineView {
                quest,
                objectives: objectives@,
            }),
            r == Err::<QuestLine, GameError>(GameError::NotFound) <==> objectives@.len() == 0,
            r matches Err(e) ==> e == GameError::NotFound || e == GameError::ValidationError(
                ValidationFault::Inconsistent,
            ),
    {
        let n = objectives.len();
        if n == 0 {
            return Err(GameError::NotFound);
        }
        let mut i: usize = 1;
        while i < n
            invariant
                1 <= i <= n,
                n == objectives@.len(),
                forall|a: int, b: int|
                    0 <= a < b < i ==> (#[trigger] objectives@[a]).order_in_quest < (
                    #[trigger] objectives@[b]).order_in_quest,
            decreases n - i,
        {
            if objectives[i - 1].order_in_quest >= objectives[i].order_in_quest {
                return Err(GameError::ValidationError(ValidationFault::Inconsistent));
            }
            proof {
                assert forall|a: int, b: int| 0 <= a < b < i + 1 implies (
                #[trigger] objectives@[a]).order_in_quest < (
                #[trigger] objectives@[b]).order_in_quest by {
                    if b == i && a < i - 1 {
                        assert(objectives@[a].order_in_quest < objectives@[i - 1].order_in_quest);
                    }
                }
            }
            i = i + 1;
        }
        Ok(QuestLine { quest, objectives })
    }

    pub fn quest(&self) -> (q: &Quest)
        ensures
            *q == self@.quest,
    {
        &self.quest
    }

    pub fn objective_count(&self) -> (n: usize)
        ensures
            n == self@.objectives.len(),
    {
        self.objectives.len()
    }

    pub fn objective(&self, i: usize) -> (o: &QuestObjective)
        requires
            i < self@.objectives.len(),
        ensures
            *o == self@.objectives[i as int],
    {
        &self.objectives[i]
    }

    pub fn first_order(&self) -> (order: i16)
        requires
            self.wf(),
        ensures
            order == self@.first_order(),
    {
        self.objectives[0].order_in_quest
    }

    pub fn last_order(&self) -> (order: i16)
        requires
            self.wf(),
        ensures
            order == self@.last_order(),
    {
        self.objectives[self.objectives.len() - 1].order_in_quest
    }

    /// The index of the objective with the given order.
    pub fn find_order(&self, order: i16) -> (r: Option<usize>)
        requires
            self.wf(),
        ensures
            r is Some <==> has_order(self@.objectives, order),
            r matches Some(i) ==> i == index_of_order(self@.objectives, order) && is_index_of_order(
                self@.objectives,
                order,
                i as int,
            ),
    {
        let n = self.objectives.len();
        let mut i: usize = 0;
        while i < n
            invariant
                i <= n,
                n == self.objectives@.len(),
                self.wf(),
                forall|j: int|
                    0 <= j < i ==> (#[trigger] self.objectives@[j]).order_in_quest != order,
            decreases n - i,
        {
            if self.objectives[i].order_in_quest == order {
                proof {
                    lemma_index_of_order(self@.objectives, order, i as int);
                }
                return Some(i);
            }
            i = i + 1;
        }
        None
    }
}

/// What a character has reached, quest by quest. A quest without an entry
/// has not been started.
pub struct QuestLog {
    character_id: u128,
    entries: HashMap<u128, QuestCharacterRelation>,
}

impl View for QuestLog {
    type V = Map<u128, QuestCharacterRelation>;

    closed spec fn view(&self) -> Map<u128, QuestCharacterRelation> {
        self.entries@
    }
}

/// Every entry is filed under its own quest and belongs to the owner.
pub open spec fn relations_wf(log: Map<u128, QuestCharacterRelation>, owner: u128) -> bool {
    forall|q: u128| #[trigger]
        log.dom().contains(q) ==> log[q].quest_id == q && log[q].character_id == owner
}

pub open spec fn state_in(log: Map<u128, QuestCharacterRelation>, quest: u128) -> Option<
    QuestState,
> {
    if log.dom().contains(quest) {
        Some(log[quest].state)
    } else {
        None
    }
}

pub open spec fn cleared(log: Map<u128, QuestCharacterRelation>, quest: u128) -> bool {
    state_in(log, quest) == Some(QuestState::Cleared)
}

impl QuestLog {
    pub closed spec fn owner(&self) -> u128 {
        self.character_id
    }

    pub open spec fn wf(&self) -> bool {
        relations_wf(self@, self.owner())
    }

    pub fn new(character_id: u128) -> (log: QuestLog)
        ensures
            log.wf(),
            log.owner() == character_id,
            log@ == Map::<u128, QuestCharacterRelation>::empty(),
    {
        QuestLog { character_id, entries: HashMap::new() }
    }

    pub fn character_id(&self) -> (id: u128)
        ensures
            id == self.owner(),
    {
        self.character_id
    }

    /// Files a stored relation. One of another character is refused, and so
    /// is a second one for the same quest: a log never holds duplicates.
    pub fn record(&mut self, relation: QuestCharacterRelation) -> (r: Result<(), GameError>)
        requires
            old(self).wf(),
        ensures
            final(self).wf(),
            final(self).owner() == old(self).owner(),
            r is Ok <==> relation.character_id == old(self).owner() && !old(self)@.dom().contains(
                relation.quest_id,
            ),
            r is Ok ==> final(self)@ == old(self)@.insert(relation.quest_id, relation),
            r matches Err(e) ==> e == GameError::ValidationError(ValidationFault::Inconsistent)
                && final(self)@ == old(self)@,
    {
        if relation.character_id != self.character_id || self.entries.contains_key(
            &relation.quest_id,
        ) {
            return Err(GameError::ValidationError(ValidationFault::Inconsistent));
        }
        self.entries.insert(relation.quest_id, relation);
        Ok(())
    }

    /// Writes the relation of one quest, new or in place of the old one.
    pub(crate) fn put(&mut self, relation: QuestCharacterRelation)
        requires
            old(self).wf(),
            relation.character_id == old(self).owner(),
        ensures
            final(self).wf(),
            final(self).owner() == old(self).owner(),
            final(self)@ == old(self)@.insert(relation.quest_id, relation),
    {
        self.entries.insert(relation.quest_id, relation);
    }

    pub fn relation(&self, quest_id: u128) -> (r: Option<QuestCharacterRelation>)
        ensures
            r == (if self@.dom().contains(quest_id) {
                Some(self@[quest_id])
            } else {
                None
            }),
    {
        match self.entries.get(&quest_id) {
            Some(relation) => Some(*relation),
            None => None,
        }
    }

    pub fn state_of(&self, quest_id: u128) -> (r: Option<QuestState>)
        ensures
            r == state_in(self@, quest_id),
    {
        match self.entries.get(&quest_id) {
            Some(relation) => Some(relation.state),
            None => None,
        }
    }

    pub fn has_cleared(&self, quest_id: u128) -> (b: bool)
        ensures
            b == cleared(self@, quest_id),
    {
        match self.entries.get(&quest_id) {
            Some(relation) => relation.state == QuestState::Cleared,
            None => false,
        }
    }
}

/// Whether any edge leads into the quest.
pub open spec fn has_incoming(edges: Seq<QuestRequirement>, quest: u128) -> bool {
    exists|i: int| 0 <= i < edges.len() && (#[trigger] edges[i]).unlocks == quest
}

/// Whether an edge into the quest comes from a cleared quest.
pub open spec fn any_satisfied(
    edges: Seq<QuestRequirement>,
    quest: u128,
    log: Map<u128, QuestCharacterRelation>,
) -> bool {
    exists|i: int|
        0 <= i < edges.len() && (#[trigger] edges[i]).unlocks == quest && cleared(
            log,
            edges[i].requirement,
        )
}

/// Whether every edge into the quest comes from a cleared quest.
pub open spec fn all_satisfied(
    edges: Seq<QuestRequirement>,
    quest: u128,
    log: Map<u128, QuestCharacterRelation>,
) -> bool {
    forall|i: int|
        0 <= i < edges.len() && (#[trigger] edges[i]).unlocks == quest ==> cleared(
            log,
            edges[i].requirement,
        )
}

/// A quest's gate over its incoming edges: an OR gate where the quest
/// is disjunctive, an AND gate where it is not. A quest without incoming
/// edges is open either way.
pub open spec fn gate_open(
    quest: &Quest,
    edges: Seq<QuestRequirement>,
    log: Map<u128, QuestCharacterRelation>,
) -> bool {
    if quest.requirement_disjunction {
        !has_incoming(edges, quest.id) || any_satisfied(edges, quest.id, log)
    } else {
        all_satisfied(edges, quest.id, log)
    }
}

/// Evaluates a quest's gate against what the character has cleared.
pub fn gate_is_open(quest: &Quest, edges: &Vec<QuestRequirement>, log: &QuestLog) -> (b: bool)
    ensures
        b == gate_open(quest, edges@, log@),
{
    let n = edges.len();
    let mut incoming = false;
    let mut any = false;
    let mut all = true;
    let mut i: usize = 0;
    while i < n
        invariant
            i <= n,
            n == edges@.len(),
            incoming == has_incoming(edges@.take(i as int), quest.id),
            any == any_satisfied(edges@.take(i as int), quest.id, log@),
            all == all_satisfied(edges@.take(i as int), quest.id, log@),
        decreases n - i,
    {
        let edge = edges[i];
        let ghost before = edges@.take(i as int);
        let ghost now = edges@.take(i + 1);
        let hit = edge.unlocks == quest.id;
        let done = hit && log.has_cleared(edge.requirement);
        proof {
            assert(now[i as int] == edge);
            assert forall|j: int| 0 <= j < i implies before[j] == now[j] by {}
            if incoming {
                let w = choose|w: int| 0 <= w < before.len() && (#[trigger] before[w]).unlocks
                    == quest.id;
                assert(now[w].unlocks == quest.id);
            }
            if any {
                let w = choose|w: int|
                    0 <= w < before.len() && (#[trigger] before[w]).unlocks == quest.id && cleared(
                        log@,
                        before[w].requirement,
                    );
                assert(now[w].unlocks == quest.id);
            }
            if has_incoming(now, quest.id) && !hit {
                let w = choose|w: int| 0 <= w < now.len() && (#[trigger] now[w]).unlocks
                    == quest.id;
                assert(before[w].unlocks == quest.id);
            }
            if any_satisfied(now, quest.id, log@) && !done {
                let w = choose|w: int|
                    0 <= w < now.len() && (#[trigger] now[w]).unlocks == quest.id && cleared(
                        log@,
                        now[w].requirement,
                    );
                assert(before[w].unlocks == quest.id);
            }
            if all && (done || !hit) {
                assert forall|j: int| 0 <= j < now.len() && (#[trigger] now[j]).unlocks
                    == quest.id implies cleared(log@, now[j].requirement) by {
                    if j < i {
                        assert(before[j].unlocks == quest.id);
                    }
                }
            }
            if all_satisfied(now, quest.id, log@) {
                assert forall|j: int| 0 <= j < before.len() && (#[trigger] before[j]).unlocks
                    == quest.id implies cleared(log@, before[j].requirement) by {
                    assert(now[j].unlocks == quest.id);
                }
            }
        }
        incoming = incoming || hit;
        any = any || done;
        all = all && (done || !hit);
        i = i + 1;
    }
    assert(edges@.take(n as int) =~= edges@);
    if quest.requirement_disjunction {
        !incoming || any
    } else {
        all
    }
}

/// Whether the standing in a class meets what the quest asks of level and
/// class. `class` is the class of the standing.
pub open spec fn class_fits(quest: &Quest, standing: CharacterClass, class: &Class) -> bool {
    &&& class.id == standing.class_id
    &&& standing.level >= quest.level_requirement
    &&& class.class_type == quest.class_type_requirement
    &&& quest.class_requirement matches Some(c) ==> c == class.id
}

pub fn class_does_fit(quest: &Quest, standing: &CharacterClass, class: &Class) -> (b: bool)
    ensures
        b == class_fits(quest, *standing, class),
{
    let named = match quest.class_requirement {
        Some(c) => c == class.id,
        None => true,
    };
    class.id == standing.class_id && standing.level >= quest.level_requirement && class.class_type
        == quest.class_type_requirement && named
}

/// A quest without incoming edges is open, whichever gate it has.
pub proof fn lemma_gate_without_edges(
    quest: &Quest,
    edges: Seq<QuestRequirement>,
    log: Map<u128, QuestCharacterRelation>,
)
    requires
        !has_incoming(edges, quest.id),
    ensures
        gate_open(quest, edges, log),
{
}

/// One cleared requirement opens a disjunctive gate.
pub proof fn lemma_gate_any(
    quest: &Quest,
    edges: Seq<QuestRequirement>,
    log: Map<u128, QuestCharacterRelation>,
    i: int,
)
    requires
        quest.requirement_disjunction,
        0 <= i < edges.len(),
        edges[i].unlocks == quest.id,
        cleared(log, edges[i].requirement),
    ensures
        gate_open(quest, edges, log),
{
}

/// One requirement that is not cleared keeps a conjunctive gate shut.
pub proof fn lemma_gate_all(
    quest: &Quest,
    edges: Seq<QuestRequirement>,
    log: Map<u128, QuestCharacterRelation>,
    i: int,
)
    requires
        !quest.requirement_disjunction,
        0 <= i < edges.len(),
        edges[i].unlocks == quest.id,
        !cleared(log, edges[i].requirement),
    ensures
        !gate_open(quest, edges, log),
{
}

/// A disjunctive gate with incoming edges stays shut while none of their
/// requirements is cleared.
pub proof fn lemma_gate_none(
    quest: &Quest,
    edges: Seq<QuestRequirement>,
    log: Map<u128, QuestCharacterRelation>,
)
    requires
        quest.requirement_disjunction,
        has_incoming(edges, quest.id),
        forall|i: int|
            0 <= i < edges.len() && (#[trigger] edges[i]).unlocks == quest.id ==> !cleared(
                log,
                edges[i].requirement,
            ),
    ensures
        !gate_open(quest, edges, log),
{
}

} // verus!
