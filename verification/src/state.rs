//! The world as the events describe it: known entities, the local player,
//! the current zone and the dungeon state.

use vstd::prelude::*;
use std::collections::HashMap;
use crate::event::{CharStats, DungeonStateKind, EntityId, EventView, GameEvent};
use crate::text::{digits, u64_to_dec};

verus! {

broadcast use vstd::std_specs::hash::group_hash_axioms;

/// A known entity.
pub struct Entity {
    pub id: EntityId,
    pub name: String,
    pub class_id: Option<u32>,
    pub is_local: bool,
    pub stats: CharStats,
}

/// What is known of an entity, with its name as text.
pub ghost struct EntityModel {
    pub id: EntityId,
    pub name: Seq<char>,
    pub class_id: Option<u32>,
    pub is_local: bool,
    pub stats: CharStats,
}

impl Entity {
    pub open spec fn view(&self) -> EntityModel {
        EntityModel { id: self.id, name: self.name@, class_id: self.class_id, is_local: self.is_local, stats: self.stats }
    }

    /// An entity seen for the first time: named by its id, nothing else known.
    pub open spec fn fresh(id: EntityId) -> EntityModel {
        EntityModel { id, name: digits(id.0 as nat, 10), class_id: None, is_local: false, stats: CharStats::none() }
    }

    pub fn new(id: EntityId) -> (r: Entity)
        ensures
            r.view() == Entity::fresh(id),
    {
        Entity { id, name: u64_to_dec(id.0), class_id: None, is_local: false, stats: CharStats::empty() }
    }
}

/// The world state, with entities keyed by their id's number.
pub ghost struct StateModel {
    pub entities: Map<u64, EntityModel>,
    pub local_player: Option<EntityId>,
    pub zone_id: Option<u32>,
    pub zone_name: Option<Seq<char>>,
    pub dungeon_state: Option<DungeonStateKind>,
}

/// The entity under `id`, or a fresh one.
pub open spec fn known_or_fresh(m: Map<u64, EntityModel>, id: EntityId) -> EntityModel {
    if m.contains_key(id.0) { m[id.0] } else { Entity::fresh(id) }
}

/// What one event does to the world state. Names, the local player and stats
/// create the entity where it is new; entering a different zone forgets all
/// entities; events about combat, inventories and the like change nothing.
pub open spec fn apply_event(s: StateModel, ev: EventView) -> StateModel {
    match ev {
        EventView::EntityName { id, name, class, .. } => {
            let e = known_or_fresh(s.entities, id);
            StateModel { entities: s.entities.insert(id.0, EntityModel { name, class_id: class, ..e }), ..s }
        },
        EventView::LocalPlayer { id } => {
            let e = known_or_fresh(s.entities, id);
            StateModel {
                entities: s.entities.insert(id.0, EntityModel { is_local: true, ..e }),
                local_player: Some(id),
                ..s
            }
        },
        EventView::ZoneChange { zone_id, zone_name } => StateModel {
            entities: if s.zone_id != Some(zone_id) { Map::empty() } else { s.entities },
            zone_id: Some(zone_id),
            zone_name: Some(zone_name),
            ..s
        },
        EventView::EntityDespawn { id } => StateModel { entities: s.entities.remove(id.0), ..s },
        EventView::EntityStats { id, stats } => {
            let e = known_or_fresh(s.entities, id);
            StateModel {
                entities: s.entities.insert(id.0, EntityModel { stats: CharStats::merged(e.stats, stats), ..e }),
                ..s
            }
        },
        EventView::DungeonState { state } => StateModel { dungeon_state: Some(state), ..s },
        _ => s,
    }
}

pub struct GameState {
    pub entities: HashMap<u64, Entity>,
    pub local_player: Option<EntityId>,
    pub zone_id: Option<u32>,
    pub zone_name: Option<String>,
    pub dungeon_state: Option<DungeonStateKind>,
}

impl GameState {
    pub open spec fn view(&self) -> StateModel {
        StateModel {
            entities: self.entities@.map_values(|e: Entity| e.view()),
            local_player: self.local_player,
            zone_id: self.zone_id,
            zone_name: match self.zone_name { Some(n) => Some(n@), None => None },
            dungeon_state: self.dungeon_state,
        }
    }

    /// Each entity is stored under its own id.
    pub open spec fn wf(&self) -> bool {
        forall|k: u64| #[trigger] self.entities@.contains_key(k) ==> self.entities@[k].id.0 == k
    }

    /// An empty world.
    pub fn new() -> (r: GameState)
        ensures
            r.wf(),
            r.view() == (StateModel {
                entities: Map::empty(),
                local_player: None,
                zone_id: None,
                zone_name: None,
                dungeon_state: None,
            }),
    {
        let r = GameState {
            entities: HashMap::new(),
            local_player: None,
            zone_id: None,
            zone_name: None,
            dungeon_state: None,
        };
        assert(r.view().entities =~= Map::empty());
        r
    }

    /// Takes the entity under `id` out of the map, or makes a fresh one.
    fn take_entity(&mut self, id: EntityId) -> (e: Entity)
        requires
            old(self).wf(),
        ensures
            final(self).wf(),
            e.view() == known_or_fresh(old(self).view().entities, id),
            e.id == id,
            final(self).view() == (StateModel { entities: old(self).view().entities.remove(id.0), ..old(self).view() }),
    {
        let r = self.entities.remove(&id.0);
        assert(self.view().entities =~= old(self).view().entities.remove(id.0));
        match r {
            Some(e) => e,
            None => Entity::new(id),
        }
    }

    /// Puts an entity back under its id.
    fn put_entity(&mut self, e: Entity)
        requires
            old(self).wf(),
        ensures
            final(self).wf(),
            final(self).view() == (StateModel {
                entities: old(self).view().entities.insert(e.id.0, e.view()),
                ..old(self).view()
            }),
    {
        let ghost v = e.view();
        let k = e.id.0;
        self.entities.insert(k, e);
        assert(self.view().entities =~= old(self).view().entities.insert(k, v));
    }

    /// Applies one event to the world state.
    pub fn apply(&mut self, event: &GameEvent)
        requires
            old(self).wf(),
        ensures
            final(self).wf(),
            final(self).view() == apply_event(old(self).view(), event.view()),
    {
        match event {
            GameEvent::EntityName { id, name, class, .. } => {
                let mut e = self.take_entity(*id);
                e.name = name.clone();
                e.class_id = *class;
                self.put_entity(e);
                assert(self.view().entities =~= apply_event(old(self).view(), event.view()).entities);
            },
            GameEvent::LocalPlayer { id } => {
                self.local_player = Some(*id);
                let mut e = self.take_entity(*id);
                e.is_local = true;
                self.put_entity(e);
                assert(self.view().entities =~= apply_event(old(self).view(), event.view()).entities);
            },
            GameEvent::ZoneChange { zone_id, zone_name } => {
                let zone_changed = match self.zone_id { Some(z) => z != *zone_id, None => true };
                self.zone_id = Some(*zone_id);
                self.zone_name = Some(zone_name.clone());
                if zone_changed {
                    self.entities.clear();
                    assert(self.view().entities =~= Map::empty());
                }
            },
            GameEvent::EntityDespawn { id } => {
                self.entities.remove(&id.0);
                assert(self.view().entities =~= old(self).view().entities.remove(id.0));
            },
            GameEvent::EntityStats { id, stats } => {
                let mut e = self.take_entity(*id);
                e.stats.merge(stats);
                self.put_entity(e);
                assert(self.view().entities =~= apply_event(old(self).view(), event.view()).entities);
            },
            GameEvent::DungeonState { state } => {
                self.dungeon_state = Some(*state);
            },
            _ => {},
        }
    }

    /// The name of an entity: its known name, or `Unknown`.
    pub fn entity_name(&self, id: EntityId) -> (r: &str)
        ensures
            r@ == (if self.entities@.contains_key(id.0) { self.entities@[id.0].name@ } else { "Unknown"@ }),
    {
        match self.entities.get(&id.0) {
            Some(e) => e.name.as_str(),
            None => "Unknown",
        }
    }
}

} // verus!
