//! The entities that the client tracks, by their ids: what the server's
//! spawn, move and rotation packets say of them. Positions and velocities
//! are floating point and are kept beside this table, by the program.

use crate::types::Angle;
use crate::uuid::UUID;
use std::collections::HashMap;
use vstd::prelude::*;

verus! {

broadcast use vstd::std_specs::hash::group_hash_axioms;

/// What the table knows of an entity.
#[derive(Debug, Clone, Copy)]
pub struct EntityState {
    pub uuid: UUID,
    pub ty: i32,
    pub pitch: Angle,
    pub yaw: Angle,
    pub head_yaw: Angle,
    pub on_ground: bool,
}

/// The entities, by id.
pub struct EntityTable {
    entities: HashMap<i32, EntityState>,
}

impl View for EntityTable {
    type V = Map<i32, EntityState>;

    closed spec fn view(&self) -> Map<i32, EntityState> {
        self.entities@
    }
}

impl EntityTable {
    /// A table with no entities.
    pub fn new() -> (r: EntityTable)
        ensures
            r@ == Map::<i32, EntityState>::empty(),
    {
        EntityTable { entities: HashMap::new() }
    }

    /// What the table knows of the entity `id`, if anything.
    pub fn get(&self, id: i32) -> (r: Option<EntityState>)
        ensures
            r == (if self@.contains_key(id) {
                Some(self@[id])
            } else {
                None
            }),
    {
        match self.entities.get(&id) {
            Some(e) => Some(*e),
            None => None,
        }
    }

    /// A spawned entity, not yet on the ground; it replaces any entity that
    /// had its id.
    pub fn spawn(&mut self, id: i32, uuid: UUID, ty: i32, pitch: Angle, yaw: Angle, head_yaw: Angle)
        ensures
            final(self)@ == old(self)@.insert(
                id,
                EntityState { uuid, ty, pitch, yaw, head_yaw, on_ground: false },
            ),
    {
        self.entities.insert(id, EntityState { uuid, ty, pitch, yaw, head_yaw, on_ground: false });
    }

    /// The entity `id` moved, and is or is not on the ground. `false`, with
    /// nothing changed, where the entity is not known.
    pub fn moved(&mut self, id: i32, on_ground: bool) -> (r: bool)
        ensures
            r == old(self)@.contains_key(id),
            r ==> final(self)@ == old(self)@.insert(
                id,
                EntityState {
                    uuid: old(self)@[id].uuid,
                    ty: old(self)@[id].ty,
                    pitch: old(self)@[id].pitch,
                    yaw: old(self)@[id].yaw,
                    head_yaw: old(self)@[id].head_yaw,
                    on_ground,
                },
            ),
            !r ==> final(self)@ == old(self)@,
    {
        match self.get(id) {
            Some(e) => {
                self.entities.insert(id, EntityState { on_ground, ..e });
                true
            },
            None => false,
        }
    }

    /// The entity `id` moved and turned: it faces `yaw` and `pitch`, and is
    /// or is not on the ground. `false`, with nothing changed, where the
    /// entity is not known.
    pub fn moved_and_rotated(&mut self, id: i32, on_ground: bool, yaw: Angle, pitch: Angle) -> (r:
        bool)
        ensures
            r == old(self)@.contains_key(id),
            r ==> final(self)@ == old(self)@.insert(
                id,
                EntityState {
                    uuid: old(self)@[id].uuid,
                    ty: old(self)@[id].ty,
                    pitch,
                    yaw,
                    head_yaw: old(self)@[id].head_yaw,
                    on_ground,
                },
            ),
            !r ==> final(self)@ == old(self)@,
    {
        match self.get(id) {
            Some(e) => {
                self.entities.insert(id, EntityState { on_ground, yaw, pitch, ..e });
                true
            },
            None => false,
        }
    }

    /// The entity `id` turned to face `yaw` and `pitch`. `false`, with
    /// nothing changed, where the entity is not known.
    pub fn rotated(&mut self, id: i32, yaw: Angle, pitch: Angle) -> (r: bool)
        ensures
            r == old(self)@.contains_key(id),
            r ==> final(self)@ == old(self)@.insert(
                id,
                EntityState {
                    uuid: old(self)@[id].uuid,
                    ty: old(self)@[id].ty,
                    pitch,
                    yaw,
                    head_yaw: old(self)@[id].head_yaw,
                    on_ground: old(self)@[id].on_ground,
                },
            ),
            !r ==> final(self)@ == old(self)@,
    {
        match self.get(id) {
            Some(e) => {
                self.entities.insert(id, EntityState { yaw, pitch, ..e });
                true
            },
            None => false,
        }
    }

    /// The entity `id` turned its head to `head_yaw`. `false`, with nothing
    /// changed, where the entity is not known.
    pub fn head_rotated(&mut self, id: i32, head_yaw: Angle) -> (r: bool)
        ensures
            r == old(self)@.contains_key(id),
            r ==> final(self)@ == old(self)@.insert(
                id,
                EntityState {
                    uuid: old(self)@[id].uuid,
                    ty: old(self)@[id].ty,
                    pitch: old(self)@[id].pitch,
                    yaw: old(self)@[id].yaw,
                    head_yaw,
                    on_ground: old(self)@[id].on_ground,
                },
            ),
            !r ==> final(self)@ == old(self)@,
    {
        match self.get(id) {
            Some(e) => {
                self.entities.insert(id, EntityState { head_yaw, ..e });
                true
            },
            None => false,
        }
    }
}

} // verus!
