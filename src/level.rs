use vstd::prelude::*;
use vstd::string::*;

use crate::animate::Animate;
use crate::world::{entity_wf, Drawing, Entity, World};

verus! {

/// How many balls the level lays out in a row.
pub const BALL_COUNT: usize = 5;

/// A level: a name, and the entities it spawns.
#[derive(Debug)]
pub struct Level {
    pub name: String,
}

/// The ball entity: a primitive drawn at its body.
pub open spec fn ball_entity(body: u64) -> Entity {
    Entity { body, drawing: Drawing::Primitive, animation: None, controlled: false }
}

/// The character entity: controlled, animated from idle facing left at its
/// first frame, and drawn from the given sprite sheet.
pub open spec fn character_entity(body: u64, sheet: usize) -> Entity {
    Entity {
        body,
        drawing: Drawing::Sprite(sheet),
        animation: Some(Animate { state: 0, ticks: 0 }),
        controlled: true,
    }
}

impl Level {
    /// The test level.
    pub fn new() -> (r: Self)
        ensures
            r.name@ == seq!['t', 'e', 's', 't'],
    {
        let name = String::from_str("test");
        proof {
            reveal_strlit("test");
        }
        Level { name }
    }

    /// Spawns the level's entities on the bodies the physics collaborator made
    /// for them: one ball entity per body of the ball row, in order, then the
    /// character on its body, drawn from the sprite sheet at index `sheet`.
    pub fn populate(&self, world: &mut World, ball_bodies: &Vec<u64>, character_body: u64, sheet: usize)
        requires
            old(world).wf(),
        ensures
            final(world).wf(),
            final(world).entities@ == (old(world).entities@ + ball_bodies@.map_values(|b: u64| ball_entity(b))).push(
                character_entity(character_body, sheet),
            ),
    {
        let ghost start = world.entities@;
        let mut i: usize = 0;
        while i < ball_bodies.len()
            invariant
                world.wf(),
                i <= ball_bodies@.len(),
                world.entities@ == start + ball_bodies@.subrange(0, i as int).map_values(|b: u64| ball_entity(b)),
            decreases ball_bodies@.len() - i,
        {
            world.push(Entity { body: ball_bodies[i], drawing: Drawing::Primitive, animation: None, controlled: false });
            i = i + 1;
            assert(start + ball_bodies@.subrange(0, i as int).map_values(|b: u64| ball_entity(b)) =~= (start
                + ball_bodies@.subrange(0, i - 1).map_values(|b: u64| ball_entity(b))).push(ball_entity(ball_bodies@[i - 1])));
        }
        assert(ball_bodies@.subrange(0, ball_bodies@.len() as int) == ball_bodies@);
        let animation = Animate::new(0);
        assert(entity_wf(character_entity(character_body, sheet)));
        world.push(Entity { body: character_body, drawing: Drawing::Sprite(sheet), animation: Some(animation), controlled: true });
    }
}

} // verus!
