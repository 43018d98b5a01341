use std::ops::Add;
use rootspace::ecs::assembly::Assembly;
use rootspace::ecs::component_group::ComponentTrait;
use rootspace::ecs::entity::Entity;
use rootspace::ecs::error::EcsError;
use rootspace::engine::scene_graph::{GraphError, SceneGraph, SceneNode};

#[derive(Clone, Debug, PartialEq, Eq)]
struct TestComponent(u32);

impl ComponentTrait for TestComponent {}

impl<'a> Add<&'a TestComponent> for TestComponent {
    type Output = TestComponent;

    fn add(self, other: &'a TestComponent) -> Self::Output {
        TestComponent(self.0 + other.0)
    }
}

impl<'a> Add<Self> for &'a TestComponent {
    type Output = TestComponent;

    fn add(self, other: Self) -> Self::Output {
        TestComponent(self.0 + other.0)
    }
}

#[test]
fn test_scene_node() {
    let mut assembly = Assembly::new();

    let entity = assembly.create_entity();
    let component = TestComponent(10);
    let mut node = SceneNode::<TestComponent>::new(entity.clone(), component.clone());
    assembly.add_component(&entity, component).unwrap();

    node.update(&assembly, None, &|pc, cc| pc + cc).unwrap();
}

#[test]
fn test_scene_graph() {
    let mut assembly = Assembly::new();

    let entity_a = assembly.create_entity();
    let component_a = TestComponent(1);
    assembly.add_component(&entity_a, component_a.clone()).unwrap();
    let node_a = SceneNode::<TestComponent>::new(entity_a.clone(), component_a.clone());

    let entity_b = assembly.create_entity();
    let component_b = TestComponent(10);
    assembly.add_component(&entity_b, component_b.clone()).unwrap();
    let node_b = SceneNode::<TestComponent>::new(entity_b.clone(), component_b.clone());

    let entity_c = assembly.create_entity();
    let component_c = TestComponent(20);
    assembly.add_component(&entity_c, component_c.clone()).unwrap();
    let node_c = SceneNode::<TestComponent>::new(entity_c.clone(), component_c.clone());

    let entity_d = assembly.create_entity();
    let component_d = TestComponent(100);
    assembly.add_component(&entity_d, component_d.clone()).unwrap();
    let node_d = SceneNode::<TestComponent>::new(entity_d.clone(), component_d.clone());

    let mut tree = SceneGraph::new(node_a);

    tree.insert_child(&entity_a, node_b).unwrap();
    tree.insert_child(&entity_a, node_c).unwrap();
    tree.insert_child(&entity_b, node_d).unwrap();

    tree.update(&assembly, &|pc, cc| pc + cc).unwrap();

    let result_a = tree.borrow(&entity_a);
    assert!(result_a.is_ok() && *result_a.unwrap() == component_a);

    let result_b = tree.borrow(&entity_b);
    assert!(result_b.is_ok() && *result_b.unwrap() == &component_a + &component_b);

    let result_c = tree.borrow(&entity_c);
    assert!(result_c.is_ok() && *result_c.unwrap() == &component_a + &component_c);

    let result_d = tree.borrow(&entity_d);
    assert!(result_d.is_ok() && *result_d.unwrap() == &component_a + &component_b + &component_d);
}

#[test]
fn test_scene_node_update_without_component_fails() {
    let mut assembly = Assembly::new();
    let entity = assembly.create_entity();
    let mut node = SceneNode::new(entity, TestComponent(3));
    let r = node.update(&assembly, None, &|pc: &TestComponent, cc: &TestComponent| pc + cc);
    assert!(matches!(r, Err(GraphError::InconsistentState(EcsError::ComponentNotFound))));
    assert_eq!(node.component, TestComponent(3));

    let stranger = Entity(42);
    let mut other = SceneNode::new(stranger, TestComponent(4));
    let r = other.update(&assembly, None, &|pc: &TestComponent, cc: &TestComponent| pc + cc);
    assert!(matches!(r, Err(GraphError::InconsistentState(EcsError::EntityNotFound(e))) if e == stranger));
}

#[test]
fn test_scene_node_update_with_parent() {
    let mut assembly = Assembly::new();
    let entity = assembly.create_entity();
    assembly.add_component(&entity, TestComponent(5)).unwrap();
    let mut node = SceneNode::new(entity, TestComponent(0));
    node.update(&assembly, Some(&TestComponent(7)), &|pc: &TestComponent, cc: &TestComponent| pc + cc).unwrap();
    assert_eq!(node.component, TestComponent(12));
}

#[test]
fn test_scene_graph_insert_and_has() {
    let root = Entity(0);
    let child = Entity(1);
    let mut tree = SceneGraph::new(SceneNode::new(root, TestComponent(1)));
    assert!(tree.has(&root));
    assert!(!tree.has(&child));
    tree.insert(SceneNode::new(child, TestComponent(2))).unwrap();
    assert!(tree.has(&child));
    assert_eq!(*tree.borrow(&child).unwrap(), TestComponent(2));
    assert!(matches!(tree.insert_child(&Entity(9), SceneNode::new(Entity(3), TestComponent(3))),
        Err(GraphError::EntityNotFound(e)) if e == Entity(9)));
    assert!(!tree.has(&Entity(3)));
    assert_eq!(tree.iter().len(), 2);
}

#[test]
fn test_scene_graph_remove() {
    let root = Entity(0);
    let a = Entity(1);
    let b = Entity(2);
    let mut tree = SceneGraph::new(SceneNode::new(root, TestComponent(1)));
    tree.insert(SceneNode::new(a, TestComponent(2))).unwrap();
    tree.insert_child(&a, SceneNode::new(b, TestComponent(3))).unwrap();

    assert!(matches!(tree.remove(&root), Err(GraphError::CannotRemoveRootNode)));
    assert!(matches!(tree.remove(&Entity(7)), Err(GraphError::EntityNotFound(e)) if e == Entity(7)));
    tree.remove(&a).unwrap();
    assert!(!tree.has(&a));
    assert!(tree.has(&b));
    assert!(matches!(tree.borrow(&a), Err(GraphError::EntityNotFound(_))));
}

#[test]
fn test_scene_graph_update_skips_detached_nodes() {
    let mut assembly = Assembly::new();
    let root = assembly.create_entity();
    let a = assembly.create_entity();
    let b = assembly.create_entity();
    assembly.add_component(&root, TestComponent(1)).unwrap();
    assembly.add_component(&a, TestComponent(10)).unwrap();
    assembly.add_component(&b, TestComponent(100)).unwrap();

    let mut tree = SceneGraph::new(SceneNode::new(root, TestComponent(0)));
    tree.insert(SceneNode::new(a, TestComponent(0))).unwrap();
    tree.insert_child(&a, SceneNode::new(b, TestComponent(0))).unwrap();
    tree.remove(&a).unwrap();

    tree.update(&assembly, &|pc: &TestComponent, cc: &TestComponent| pc + cc).unwrap();
    assert_eq!(*tree.borrow(&root).unwrap(), TestComponent(1));
    assert_eq!(*tree.borrow(&b).unwrap(), TestComponent(0));
}

#[test]
fn test_scene_graph_update_reports_missing_component() {
    let mut assembly = Assembly::new();
    let root = assembly.create_entity();
    let a = assembly.create_entity();
    assembly.add_component(&root, TestComponent(1)).unwrap();

    let mut tree = SceneGraph::new(SceneNode::new(root, TestComponent(0)));
    tree.insert(SceneNode::new(a, TestComponent(0))).unwrap();
    let r = tree.update(&assembly, &|pc: &TestComponent, cc: &TestComponent| pc + cc);
    assert!(matches!(r, Err(GraphError::InconsistentState(EcsError::ComponentNotFound))));
}

#[test]
fn test_scene_graph_borrow_mut() {
    let root = Entity(0);
    let mut tree = SceneGraph::new(SceneNode::new(root, TestComponent(1)));
    *tree.borrow_mut(&root).unwrap() = TestComponent(8);
    assert_eq!(*tree.borrow(&root).unwrap(), TestComponent(8));
    assert!(matches!(tree.borrow_mut(&Entity(5)), Err(GraphError::EntityNotFound(_))));
}

#[test]
fn test_scene_graph_remove_moves_last_node() {
    let root = Entity(0);
    let mut tree = SceneGraph::new(SceneNode::new(root, TestComponent(0)));
    tree.insert(SceneNode::new(Entity(1), TestComponent(1))).unwrap();
    tree.insert(SceneNode::new(Entity(2), TestComponent(2))).unwrap();
    tree.insert_child(&Entity(2), SceneNode::new(Entity(3), TestComponent(3))).unwrap();
    tree.remove(&Entity(1)).unwrap();
    let order: Vec<Entity> = tree.iter().iter().map(|n| n.entity).collect();
    assert_eq!(order, vec![Entity(0), Entity(3), Entity(2)]);

    let mut assembly = Assembly::new();
    let e0 = assembly.create_entity();
    let e1 = assembly.create_entity();
    let e2 = assembly.create_entity();
    let e3 = assembly.create_entity();
    for (e, c) in [(e0, 1u32), (e1, 10), (e2, 100), (e3, 1000)].iter() {
        assembly.add_component(e, TestComponent(*c)).unwrap();
    }
    tree.update(&assembly, &|pc: &TestComponent, cc: &TestComponent| pc + cc).unwrap();
    assert_eq!(*tree.borrow(&Entity(3)).unwrap(), TestComponent(1101));
    assert_eq!(*tree.borrow(&Entity(2)).unwrap(), TestComponent(101));
}
