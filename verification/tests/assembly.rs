use rootspace::ecs::assembly::Assembly;
use rootspace::ecs::component_group::ComponentTrait;
use rootspace::ecs::entity::Entity;
use rootspace::ecs::error::EcsError;

#[derive(Debug, PartialEq, Eq)]
struct Position(u32);

impl ComponentTrait for Position {}

#[derive(Debug, PartialEq, Eq)]
struct Velocity(u32);

impl ComponentTrait for Velocity {}

#[test]
fn test_instatiation() {
    let _a = Assembly::new();
    let _a: Assembly = Default::default();
}

#[test]
fn test_create_entity() {
    let mut a = Assembly::new();

    let e = a.create_entity();
    let f = a.create_entity();

    assert!(e != f);
}

#[test]
fn test_destroy_entity() {
    let mut a = Assembly::new();

    let e = Entity::new();
    assert!(a.destroy_entity(&e).is_none());

    let f = a.create_entity();
    assert!(a.destroy_entity(&f).is_some());
}

#[test]
fn test_has_entity() {
    let mut a = Assembly::new();

    let e = Entity::new();
    assert!(!a.has_entity(&e));

    let f = a.create_entity();
    assert!(a.has_entity(&f));
}

#[test]
fn created_entities_count_up_from_zero() {
    let mut a = Assembly::new();
    assert_eq!(a.next_entity(), Entity(0));
    let e = a.create_entity();
    let f = a.create_entity();
    assert_eq!(e, Entity(0));
    assert_eq!(f, Entity(1));
    assert_eq!(a.next_entity(), Entity(2));
}

#[test]
fn destroyed_entity_is_gone_and_ids_are_not_reused() {
    let mut a = Assembly::new();
    let e = a.create_entity();
    assert!(a.destroy_entity(&e).is_some());
    assert!(!a.has_entity(&e));
    assert!(a.destroy_entity(&e).is_none());
    let f = a.create_entity();
    assert!(f != e);
}

#[test]
fn component_operations_on_unknown_entity_fail() {
    let mut a = Assembly::new();
    let e = Entity(7);
    assert_eq!(a.add_component(&e, Position(1)).unwrap_err(), EcsError::EntityNotFound(e));
    assert_eq!(a.remove_component::<Position>(&e).unwrap_err(), EcsError::EntityNotFound(e));
    assert_eq!(a.has_component::<Position>(&e).unwrap_err(), EcsError::EntityNotFound(e));
    assert_eq!(a.borrow_component::<Position>(&e).unwrap_err(), EcsError::EntityNotFound(e));
    assert_eq!(a.borrow_component_mut::<Position>(&e).unwrap_err(), EcsError::EntityNotFound(e));
}

#[test]
fn components_are_added_borrowed_and_removed() {
    let mut a = Assembly::new();
    let e = a.create_entity();
    assert_eq!(a.has_component::<Position>(&e), Ok(false));
    assert_eq!(a.borrow_component::<Position>(&e).unwrap_err(), EcsError::ComponentNotFound);
    assert_eq!(a.add_component(&e, Position(3)), Ok(None));
    assert_eq!(a.add_component(&e, Position(4)), Ok(Some(Position(3))));
    assert_eq!(a.has_component::<Position>(&e), Ok(true));
    assert_eq!(a.has_component::<Velocity>(&e), Ok(false));
    assert_eq!(a.borrow_component::<Position>(&e), Ok(&Position(4)));
    a.borrow_component_mut::<Position>(&e).unwrap().0 += 1;
    assert_eq!(a.borrow_component::<Position>(&e), Ok(&Position(5)));
    assert_eq!(a.remove_component::<Position>(&e), Ok(Some(Position(5))));
    assert_eq!(a.remove_component::<Position>(&e), Ok(None));
}

#[test]
fn queries_collect_the_holders_of_a_component() {
    let mut a = Assembly::new();
    let e = a.create_entity();
    let f = a.create_entity();
    let g = a.create_entity();
    a.add_component(&e, Position(1)).unwrap();
    a.add_component(&g, Position(3)).unwrap();
    a.add_component(&f, Velocity(2)).unwrap();

    let mut positions: Vec<(Entity, u32)> = a.r1::<Position>().iter().map(|(e, p)| (*e, p.0)).collect();
    positions.sort_by_key(|(e, _)| e.0);
    assert_eq!(positions, vec![(e, 1), (g, 3)]);

    let filtered = a.rf1(|&(_, p): &(Entity, &Position)| p.0 > 2);
    assert_eq!(filtered.len(), 1);
    assert_eq!(filtered[0].0, g);

    assert_eq!(a.rs1::<Velocity>().map(|(e, v)| (e, v.0)), Ok((f, 2)));
    assert_eq!(a.rs1::<Position>().map(|(e, _)| e), Err(EcsError::MultipleComponentsFound));
    assert_eq!(a.rsf1(|&(_, p): &(Entity, &Position)| p.0 > 5).map(|(e, _)| e), Err(EcsError::ComponentNotFound));
    assert_eq!(a.rsf1(|&(_, p): &(Entity, &Position)| p.0 < 2).map(|(e, p)| (e, p.0)), Ok((e, 1)));

    for (_, p) in a.w1::<Position>() {
        p.0 *= 10;
    }
    assert_eq!(a.borrow_component::<Position>(&e), Ok(&Position(10)));
    assert_eq!(a.borrow_component::<Position>(&g), Ok(&Position(30)));

    assert_eq!(a.wf1(|(_, p): &(Entity, &mut Position)| p.0 == 30).len(), 1);
    match a.ws1::<Velocity>() {
        Ok((ent, v)) => {
            assert_eq!(ent, f);
            v.0 = 9;
        },
        Err(err) => panic!("unexpected error {:?}", err),
    }
    assert_eq!(a.borrow_component::<Velocity>(&f), Ok(&Velocity(9)));
    assert!(a.ws1::<Position>().is_err());
    assert_eq!(a.wsf1(|(_, p): &(Entity, &mut Position)| p.0 == 10).map(|(e, _)| e), Ok(e));
}

#[test]
fn test_read_several_components() {
    let mut a = Assembly::new();
    let e = a.create_entity();
    let f = a.create_entity();
    a.add_component(&e, Position(1)).unwrap();
    a.add_component(&e, Velocity(5)).unwrap();
    a.add_component(&f, Position(2)).unwrap();

    let both = a.r2::<Position, Velocity>();
    assert_eq!(both.len(), 1);
    assert_eq!(both[0].0, e);
    assert_eq!(*both[0].1, Position(1));
    assert_eq!(*both[0].2, Velocity(5));

    let single = a.rs2::<Position, Velocity>().unwrap();
    assert_eq!(single.0, e);
    assert!(matches!(a.rs1::<Position>(), Err(EcsError::MultipleComponentsFound)));
    assert!(a.rf2(|&(_, p, _): &(Entity, &Position, &Velocity)| p.0 > 1).is_empty());
    assert!(matches!(a.rsf2(|&(_, p, _): &(Entity, &Position, &Velocity)| p.0 > 1), Err(EcsError::ComponentNotFound)));
    assert!(a.r3::<Position, Velocity, Position>().len() == 1);
    assert!(a.r4::<Position, Velocity, Position, Velocity>().len() == 1);
}

#[test]
fn test_entity_text_and_increment() {
    let mut e = Entity::new();
    assert_eq!(e.value(), 0);
    e.increment();
    assert_eq!(e, Entity(1));
    assert_eq!(Entity(3).to_string(), "Entity(3)");
}

#[test]
fn test_entity_text_digits() {
    assert_eq!(Entity(0).to_string(), "Entity(0)");
    assert_eq!(Entity(10).to_string(), "Entity(10)");
    assert_eq!(Entity(1234567890).to_string(), "Entity(1234567890)");
    assert_eq!(Entity(u64::MAX).to_string(), "Entity(18446744073709551615)");
    let mut e = Entity::new();
    e.increment();
    assert_eq!(e.to_string(), "Entity(1)");
    assert_ne!(e, Entity::new());
}
