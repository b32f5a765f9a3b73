use forgia::collision::{
    world_collision_groups, COLLISION_GROUP_GOBLIN, COLLISION_GROUP_PLAYER, COLLISION_GROUP_PROJECTILE,
    COLLISION_GROUP_TARGET, COLLISION_GROUP_WORLD,
};

#[test]
fn collision_groups_are_distinct() {
    let groups = [
        COLLISION_GROUP_PLAYER,
        COLLISION_GROUP_WORLD,
        COLLISION_GROUP_PROJECTILE,
        COLLISION_GROUP_TARGET,
        COLLISION_GROUP_GOBLIN,
    ];
    for (i, a) in groups.iter().enumerate() {
        for (j, b) in groups.iter().enumerate() {
            if i == j {
                continue;
            }
            assert!((a & b) == 0, "group {i} bits {:#b} overlaps group {j} bits {:#b}", a, b);
        }
    }
}

#[test]
fn world_filter_includes_all_other_groups() {
    let cg = world_collision_groups();
    let filter_bits = cg.filters;
    for (name, g) in [
        ("PLAYER", COLLISION_GROUP_PLAYER),
        ("PROJECTILE", COLLISION_GROUP_PROJECTILE),
        ("TARGET", COLLISION_GROUP_TARGET),
        ("GOBLIN", COLLISION_GROUP_GOBLIN),
    ] {
        assert!((filter_bits & g) != 0, "world filter dropped {name} — collisions will be silently skipped");
    }
    assert_eq!(cg.memberships, COLLISION_GROUP_WORLD);
    assert_eq!(filter_bits & COLLISION_GROUP_WORLD, 0);
}
