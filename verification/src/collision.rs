//! Collision groups of the terrain, as the bit masks of the physics engine's
//! groups (group `n` is bit `n - 1`): the world is its own group and collides
//! with the player, projectiles, targets and goblins.

use vstd::prelude::*;

verus! {

pub const COLLISION_GROUP_PLAYER: u32 = 0b0_0001;
pub const COLLISION_GROUP_WORLD: u32 = 0b0_0010;
pub const COLLISION_GROUP_PROJECTILE: u32 = 0b0_0100;
pub const COLLISION_GROUP_TARGET: u32 = 0b0_1000;
pub const COLLISION_GROUP_GOBLIN: u32 = 0b1_0000;

/// Memberships and filters of a collider, as group bit masks.
#[derive(Debug, Clone, Copy, PartialEq, Eq, Structural)]
pub struct CollisionGroupBits {
    pub memberships: u32,
    pub filters: u32,
}

/// The collision groups of terrain colliders: member of the world group,
/// colliding with every other group.
pub fn world_collision_groups() -> (g: CollisionGroupBits)
    ensures
        g.memberships == COLLISION_GROUP_WORLD,
        g.filters == COLLISION_GROUP_PLAYER | COLLISION_GROUP_PROJECTILE | COLLISION_GROUP_TARGET
            | COLLISION_GROUP_GOBLIN,
{
    CollisionGroupBits {
        memberships: COLLISION_GROUP_WORLD,
        filters: COLLISION_GROUP_PLAYER | COLLISION_GROUP_PROJECTILE | COLLISION_GROUP_TARGET | COLLISION_GROUP_GOBLIN,
    }
}

/// The five groups occupy five distinct bits, and the world's filter holds
/// every group but the world itself.
pub proof fn lemma_collision_groups()
    ensures
        COLLISION_GROUP_PLAYER & COLLISION_GROUP_WORLD == 0,
        COLLISION_GROUP_PLAYER & COLLISION_GROUP_PROJECTILE == 0,
        COLLISION_GROUP_PLAYER & COLLISION_GROUP_TARGET == 0,
        COLLISION_GROUP_PLAYER & COLLISION_GROUP_GOBLIN == 0,
        COLLISION_GROUP_WORLD & COLLISION_GROUP_PROJECTILE == 0,
        COLLISION_GROUP_WORLD & COLLISION_GROUP_TARGET == 0,
        COLLISION_GROUP_WORLD & COLLISION_GROUP_GOBLIN == 0,
        COLLISION_GROUP_PROJECTILE & COLLISION_GROUP_TARGET == 0,
        COLLISION_GROUP_PROJECTILE & COLLISION_GROUP_GOBLIN == 0,
        COLLISION_GROUP_TARGET & COLLISION_GROUP_GOBLIN == 0,
        (COLLISION_GROUP_PLAYER | COLLISION_GROUP_PROJECTILE | COLLISION_GROUP_TARGET | COLLISION_GROUP_GOBLIN)
            & COLLISION_GROUP_WORLD == 0,
        (COLLISION_GROUP_PLAYER | COLLISION_GROUP_PROJECTILE | COLLISION_GROUP_TARGET | COLLISION_GROUP_GOBLIN)
            & COLLISION_GROUP_PLAYER != 0,
        (COLLISION_GROUP_PLAYER | COLLISION_GROUP_PROJECTILE | COLLISION_GROUP_TARGET | COLLISION_GROUP_GOBLIN)
            & COLLISION_GROUP_PROJECTILE != 0,
        (COLLISION_GROUP_PLAYER | COLLISION_GROUP_PROJECTILE | COLLISION_GROUP_TARGET | COLLISION_GROUP_GOBLIN)
            & COLLISION_GROUP_TARGET != 0,
        (COLLISION_GROUP_PLAYER | COLLISION_GROUP_PROJECTILE | COLLISION_GROUP_TARGET | COLLISION_GROUP_GOBLIN)
            & COLLISION_GROUP_GOBLIN != 0,
{
    assert(1u32 & 2u32 == 0 && 1u32 & 4u32 == 0 && 1u32 & 8u32 == 0 && 1u32 & 16u32 == 0) by (bit_vector);
    assert(2u32 & 4u32 == 0 && 2u32 & 8u32 == 0 && 2u32 & 16u32 == 0) by (bit_vector);
    assert(4u32 & 8u32 == 0 && 4u32 & 16u32 == 0 && 8u32 & 16u32 == 0) by (bit_vector);
    assert((1u32 | 4u32 | 8u32 | 16u32) & 2u32 == 0) by (bit_vector);
    assert((1u32 | 4u32 | 8u32 | 16u32) & 1u32 != 0 && (1u32 | 4u32 | 8u32 | 16u32) & 4u32 != 0) by (bit_vector);
    assert((1u32 | 4u32 | 8u32 | 16u32) & 8u32 != 0 && (1u32 | 4u32 | 8u32 | 16u32) & 16u32 != 0) by (bit_vector);
}

} // verus!
