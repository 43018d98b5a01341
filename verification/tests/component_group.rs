use rootspace::ecs::component_group::{ComponentGroup, ComponentTrait};

#[derive(Debug, PartialEq, Eq)]
struct Component(u32);

impl ComponentTrait for Component {}

#[derive(Debug, PartialEq, Eq)]
struct Other(u8);

impl ComponentTrait for Other {}

#[test]
fn test_instantiation() {
    let _cg = ComponentGroup::new();
    let _cg: ComponentGroup = Default::default();
}

#[test]
fn test_insert() {
    let mut cg = ComponentGroup::new();

    assert!(cg.insert(Component(0)).is_none());
    let c = cg.insert(Component(1));
    assert!(c.is_some() && c.unwrap() == Component(0));
}

#[test]
fn test_remove() {
    let mut cg = ComponentGroup::new();

    assert!(cg.remove::<Component>().is_none());
    assert!(cg.insert(Component(0)).is_none());
    let c = cg.remove::<Component>();
    assert!(c.is_some() && c.unwrap() == Component(0));
    assert!(cg.remove::<Component>().is_none());
}

#[test]
fn test_has() {
    let mut cg = ComponentGroup::new();

    assert!(!cg.has::<Component>());
    assert!(cg.insert(Component(0)).is_none());
    assert!(cg.has::<Component>());
    assert!(cg.remove::<Component>().is_some());
    assert!(!cg.has::<Component>());
}

#[test]
fn test_borrow() {
    let mut cg = ComponentGroup::new();

    assert!(cg.borrow::<Component>().is_err());
    assert!(cg.insert(Component(0)).is_none());
    let c = cg.borrow::<Component>();
    assert!(c.is_ok() && c.unwrap() == &Component(0));
}

#[test]
fn test_borrow_mut() {
    let mut cg = ComponentGroup::new();

    assert!(cg.borrow_mut::<Component>().is_err());
    assert!(cg.insert(Component(0)).is_none());
    let c = cg.borrow_mut::<Component>().map(|x| {
        x.0 += 1;
        x
    });
    assert!(c.is_ok() && c.unwrap() == &mut Component(1));
}

#[test]
fn components_of_different_types_are_kept_apart() {
    let mut cg = ComponentGroup::new();
    assert!(cg.insert(Component(5)).is_none());
    assert!(cg.insert(Other(6)).is_none());
    assert_eq!(cg.borrow::<Component>(), Ok(&Component(5)));
    assert_eq!(cg.borrow::<Other>(), Ok(&Other(6)));
    assert_eq!(cg.remove::<Other>(), Some(Other(6)));
    assert!(cg.has::<Component>());
    assert!(!cg.has::<Other>());
}
