use lil_ecs::component::ComponentStorage;
use lil_ecs::component::GenericComponentStorage;
use lil_ecs::{ComponentId, Entity, Error, World};

#[test]
fn ecs() {
    let mut world: World<(i32, i32)> = World::new();

    let position = world.register_component();
    let velocity = world.register_component();

    let e1 = {
        let en = world.add_entity();
        en.insert(&mut world, position, (0, 0))
            .unwrap()
            .insert(&mut world, velocity, (5, 5))
            .unwrap()
            .entity()
    };
    let e2 = {
        let en = world.add_entity();
        en.insert(&mut world, position, (0, 0))
            .unwrap()
            .insert(&mut world, velocity, (3, 4))
            .unwrap()
            .entity()
    };
    let e3 = {
        let en = world.add_entity();
        en.insert(&mut world, position, (0, 0)).unwrap().entity()
    };

    let position_entities = [e1, e2, e3];
    for entity in world.iter_entities(&vec![position]).unwrap() {
        let pos = *world.get_component(entity, position).unwrap().unwrap();
        world.insert_component(entity, position, (10, pos.1)).unwrap();
        assert!(position_entities.contains(&entity));
    }

    let velocity_entities = [e1, e2];
    for entity in world.iter_entities(&vec![position, velocity]).unwrap() {
        let vel = *world.get_component(entity, velocity).unwrap().unwrap();
        let pos = *world.get_component(entity, position).unwrap().unwrap();
        world
            .insert_component(entity, position, (pos.0 + vel.0, pos.1 + vel.1))
            .unwrap();
        assert!(velocity_entities.contains(&entity));
    }

    assert_eq!(world.get_component(e1, position).unwrap().unwrap().0, 15);
    assert_eq!(world.get_component(e2, position).unwrap().unwrap().0, 13);
    assert_eq!(world.get_component(e3, position).unwrap().unwrap().0, 10);

    world.remove_component(e1, position).unwrap();

    for index in world.iter(&vec![position]).unwrap() {
        let storage = world.get_storage_mut(position).unwrap();
        if let Some(pos) = storage.get_mut(index) {
            pos.0 = 5;
        }
    }

    assert_eq!(world.get_component(e2, position).unwrap().unwrap().0, 5);
    assert_eq!(world.get_component(e3, position).unwrap().unwrap().0, 5);

    world.remove_entity(e3);
    let e4 = world.add_entity().entity();
    assert_eq!(e3.index, e4.index);
    assert_ne!(e3, e4);
}

#[test]
fn generation_monotonic_on_reuse() {
    let mut world: World<u8> = World::new();
    let first = world.add_entity().entity();
    assert_eq!(first.index, 0);
    assert_eq!(first.generation, 0);
    let mut seen = vec![first];
    let mut current = first;
    for _ in 0..5 {
        world.remove_entity(current);
        let next = world.add_entity().entity();
        assert_eq!(next.index, current.index);
        assert!(next.generation > current.generation);
        for old in &seen {
            assert_ne!(*old, next);
        }
        seen.push(next);
        current = next;
    }
}

#[test]
fn liveness_checks() {
    let mut world: World<u8> = World::new();
    let c = world.register_component();
    let e = world.add_entity().entity();
    world.insert_component(e, c, 7).unwrap();

    let stale = Entity {
        index: e.index,
        generation: e.generation + 1,
    };
    assert_eq!(
        world.get_component(stale, c),
        Err(Error::DeadEntityAccess(stale))
    );
    assert_eq!(
        world.insert_component(stale, c, 9),
        Err(Error::DeadEntityAccess(stale))
    );
    assert_eq!(
        world.remove_component(stale, c),
        Err(Error::DeadEntityAccess(stale))
    );

    // A never-allocated index is an absent result, not an error, for the
    // operations that have one; an insert has none and refuses the handle.
    let never = Entity {
        index: 100,
        generation: 0,
    };
    assert_eq!(world.get_component(never, c), Ok(None));
    assert_eq!(world.remove_component(never, c), Ok(None));
    assert_eq!(
        world.insert_component(never, c, 2),
        Err(Error::DeadEntityAccess(never))
    );

    assert!(world.entity(e).is_some());
    assert!(world.entity(stale).is_none());
    assert!(world.entity(never).is_none());
}

#[test]
fn unregistered_access() {
    let mut world: World<u8> = World::new();
    let e = world.add_entity().entity();
    let ghost_type = ComponentId { id: 3 };
    assert_eq!(
        world.get_component(e, ghost_type),
        Err(Error::UnregisteredComponentAccess)
    );
    assert_eq!(
        world.insert_component(e, ghost_type, 1),
        Err(Error::UnregisteredComponentAccess)
    );
    assert_eq!(
        world.remove_component(e, ghost_type),
        Err(Error::UnregisteredComponentAccess)
    );
    assert!(world.get_storage(ghost_type).is_err());
    assert_eq!(
        world.iter(&vec![ghost_type]),
        Err(Error::UnregisteredComponentAccess)
    );
    assert_eq!(
        world.iter_entities(&vec![ghost_type]),
        Err(Error::UnregisteredComponentAccess)
    );
}

#[test]
fn round_trip() {
    let mut world: World<i64> = World::new();
    let c = world.register_component();
    let e = world.add_entity().entity();
    world.insert_component(e, c, -12345).unwrap();
    assert_eq!(world.get_component(e, c), Ok(Some(&-12345)));
    assert_eq!(world.remove_component(e, c), Ok(Some(-12345)));
    assert_eq!(world.get_component(e, c), Ok(None));
    assert_eq!(world.remove_component(e, c), Ok(None));
}

#[test]
fn join_matches_exactly() {
    let mut world: World<u8> = World::new();
    let a = world.register_component();
    let b = world.register_component();
    let c = world.register_component();
    let mut entities = Vec::new();
    for _ in 0..8 {
        entities.push(world.add_entity().entity());
    }
    // a on even indices, b on multiples of three, c everywhere.
    for (i, e) in entities.iter().enumerate() {
        if i % 2 == 0 {
            world.insert_component(*e, a, 1).unwrap();
        }
        if i % 3 == 0 {
            world.insert_component(*e, b, 2).unwrap();
        }
        world.insert_component(*e, c, 3).unwrap();
    }
    assert_eq!(world.iter(&vec![a]).unwrap(), vec![0, 2, 4, 6]);
    assert_eq!(world.iter(&vec![b]).unwrap(), vec![0, 3, 6]);
    assert_eq!(world.iter(&vec![a, b]).unwrap(), vec![0, 6]);
    assert_eq!(world.iter(&vec![b, a]).unwrap(), vec![0, 6]);
    assert_eq!(world.iter(&vec![a, b, c]).unwrap(), vec![0, 6]);
    let out = world.iter_entities(&vec![a, b]).unwrap();
    assert_eq!(out, vec![entities[0], entities[6]]);
    // Ascending, and exactly the indices holding every requested type.
    for window in world.iter(&vec![a, c]).unwrap().windows(2) {
        assert!(window[0] < window[1]);
    }
}

#[test]
fn scenario_a() {
    let mut world: World<(i32, i32)> = World::new();
    let p = world.register_component();
    let v = world.register_component();
    let e1 = world.add_entity().entity();
    world.insert_component(e1, p, (0, 0)).unwrap();
    world.insert_component(e1, v, (5, 5)).unwrap();
    let e2 = world.add_entity().entity();
    world.insert_component(e2, p, (0, 0)).unwrap();
    world.insert_component(e2, v, (3, 4)).unwrap();
    let e3 = world.add_entity().entity();
    world.insert_component(e3, p, (0, 0)).unwrap();

    assert_eq!(world.iter_entities(&vec![p]).unwrap(), vec![e1, e2, e3]);
    assert_eq!(world.iter_entities(&vec![p, v]).unwrap(), vec![e1, e2]);
}

#[test]
fn scenario_b() {
    let mut world: World<(i32, i32)> = World::new();
    let p = world.register_component();
    let v = world.register_component();
    let e1 = world.add_entity().entity();
    world.insert_component(e1, p, (0, 0)).unwrap();
    world.insert_component(e1, v, (5, 5)).unwrap();
    let e2 = world.add_entity().entity();
    world.insert_component(e2, p, (0, 0)).unwrap();
    world.insert_component(e2, v, (3, 4)).unwrap();
    let e3 = world.add_entity().entity();
    world.insert_component(e3, p, (0, 0)).unwrap();

    for entity in world.iter_entities(&vec![p, v]).unwrap() {
        let vel = *world.get_component(entity, v).unwrap().unwrap();
        let pos = *world.get_component(entity, p).unwrap().unwrap();
        world
            .insert_component(entity, p, (pos.0 + vel.0, pos.1 + vel.1))
            .unwrap();
    }
    assert_eq!(world.get_component(e1, p), Ok(Some(&(5, 5))));
    assert_eq!(world.get_component(e2, p), Ok(Some(&(3, 4))));
    assert_eq!(world.get_component(e3, p), Ok(Some(&(0, 0))));
}

#[test]
fn scenario_c() {
    let mut world: World<(i32, i32)> = World::new();
    let p = world.register_component();
    world.add_entity();
    world.add_entity();
    let e3 = world.add_entity().entity();
    world.insert_component(e3, p, (0, 0)).unwrap();

    world.remove_entity(e3);
    let e4 = world.add_entity().entity();
    assert_eq!(e4.index, e3.index);
    assert_ne!(e4.generation, e3.generation);
    assert_ne!(e4, e3);
    // The purge removed e3's component; the reused slot starts empty.
    assert_eq!(world.get_component(e4, p), Ok(None));
}

#[test]
fn remove_entity_purges_every_storage() {
    let mut world: World<u8> = World::new();
    let a = world.register_component();
    let b = world.register_component();
    let e = world.add_entity().entity();
    let f = world.add_entity().entity();
    world.insert_component(e, a, 1).unwrap();
    world.insert_component(e, b, 2).unwrap();
    world.insert_component(f, a, 3).unwrap();
    world.remove_entity(e);
    // Only f's data survives, under its own index.
    assert_eq!(world.iter(&vec![a]).unwrap(), vec![f.index]);
    assert_eq!(world.iter(&vec![b]).unwrap(), Vec::<usize>::new());
    assert_eq!(world.get_component(f, a), Ok(Some(&3)));
    // Removing a dead handle is a no-op.
    world.remove_entity(e);
    assert_eq!(world.iter(&vec![a]).unwrap(), vec![f.index]);
}

#[test]
fn freelist_is_lifo_and_duplicate_free() {
    let mut world: World<u8> = World::new();
    let e0 = world.add_entity().entity();
    let e1 = world.add_entity().entity();
    world.remove_entity(e0);
    world.remove_entity(e1);
    // LIFO: the most recently reclaimed index comes back first.
    let r1 = world.add_entity().entity();
    assert_eq!(r1.index, e1.index);
    let r0 = world.add_entity().entity();
    assert_eq!(r0.index, e0.index);
    // A handle removed twice before reuse reclaims its slot only once.
    world.remove_entity(r0);
    world.remove_entity(r0);
    let s = world.add_entity().entity();
    assert_eq!(s.index, r0.index);
    let t = world.add_entity().entity();
    assert_eq!(t.index, 2);
}

#[test]
fn storage_operations() {
    let mut storage: ComponentStorage<u16> = ComponentStorage::new();
    assert!(!storage.contains(0));
    assert_eq!(storage.get(3), None);
    assert_eq!(storage.remove(3), None);

    // Inserting beyond the end fills the gap with empty slots.
    storage.insert(4, 40);
    assert!(!storage.contains(0));
    assert!(!storage.contains(3));
    assert!(storage.contains(4));
    assert_eq!(storage.get(4), Some(&40));

    storage.insert(1, 10);
    storage.insert(4, 44);
    assert_eq!(storage.get(4), Some(&44));

    assert_eq!(storage.next_entry(0), Some(1));
    assert_eq!(storage.next_entry(1), Some(1));
    assert_eq!(storage.next_entry(2), Some(4));
    assert_eq!(storage.next_entry(5), None);

    if let Some(value) = storage.get_mut(1) {
        *value = 11;
    }
    assert_eq!(storage.get(1), Some(&11));

    assert_eq!(storage.remove(1), Some(11));
    assert_eq!(storage.get(1), None);
    assert_eq!(storage.next_entry(0), Some(4));
}

#[test]
fn erased_removal() {
    let mut storage: ComponentStorage<u16> = ComponentStorage::new();
    storage.insert(2, 20);
    GenericComponentStorage::remove(&mut storage, 2);
    assert!(!storage.contains(2));
    assert_eq!(storage.next_entry(0), None);
}

#[test]
fn registration_issues_fresh_identities() {
    let mut world: World<u8> = World::new();
    let a = world.register_component();
    let b = world.register_component();
    assert_ne!(a, b);
    assert_eq!(a, ComponentId { id: 0 });
    assert_eq!(b, ComponentId { id: 1 });
    assert!(world.get_storage(a).is_ok());
    assert!(world.get_storage(b).is_ok());
}

#[test]
fn entry_accessors() {
    let mut world: World<u8> = World::new();
    let c = world.register_component();
    let en = world.add_entity();
    let e = en.entity();
    let en2 = world.entity(e).unwrap();
    assert_eq!(en2.entity(), e);
    en2.insert(&mut world, c, 5).unwrap();
    assert_eq!(en2.remove(&mut world, c), Ok(Some(5)));
    assert_eq!(en2.remove(&mut world, c), Ok(None));
}
