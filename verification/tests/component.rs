use ecs::ComponentArray;
use ecs::ComponentManager;
use ecs::ComponentType;
use ecs::Entity;

use std::collections::HashSet;

const INT_TYPE: ComponentType = 1;
const COORDS_TYPE: ComponentType = 2;

#[test]
fn test_component_array() {
    let mut a = ComponentArray::new("test_array");
    let e1: Entity = 1;
    let e2: Entity = 2;
    a.add(e1, "one");
    a.add(e2, "two");

    assert_eq!(Some(&"one"), a.get(&e1));
    assert_eq!(Some(&"two"), a.get(&e2));

    assert_eq!(Some("one"), a.remove(&e1));
    assert_eq!(None, a.get(&e1));
    assert_eq!(None, a.remove(&e1));
    assert_eq!(Some(&"two"), a.get(&e2));

    a.add(e1, "word1");
    if let Some(mut_ref) = a.get_mut(&e1) {
        *mut_ref = "word2";
    }
    assert_eq!(Some(&"word2"), a.get(&e1));
}

#[derive(Debug, PartialEq)]
struct Coords {
    x: i32,
    y: i32,
}

#[derive(Debug, PartialEq)]
enum TestValue {
    Int(i32),
    Pt(Coords),
}

#[test]
fn test_component_manager() {
    let e1: Entity = 1;
    let e2: Entity = 2;

    let mut cm: ComponentManager<TestValue> = ComponentManager::new();
    cm.register(INT_TYPE);
    cm.register(COORDS_TYPE);

    cm.add(INT_TYPE, e1, TestValue::Int(1));
    cm.add(COORDS_TYPE, e1, TestValue::Pt(Coords { x: 5, y: 10 }));

    cm.add(INT_TYPE, e2, TestValue::Int(2));

    assert_eq!(Some(&TestValue::Int(1)), cm.get(INT_TYPE, &e1));
    assert_eq!(Some(&TestValue::Int(2)), cm.get(INT_TYPE, &e2));

    assert_eq!(Some(&TestValue::Pt(Coords { x: 5, y: 10 })), cm.get(COORDS_TYPE, &e1));
    assert_eq!(None, cm.get(COORDS_TYPE, &e2));

    if let Some(TestValue::Pt(coords)) = cm.get_mut(COORDS_TYPE, &e1) {
        coords.x = 6;
    }
    assert_eq!(Some(&TestValue::Pt(Coords { x: 6, y: 10 })), cm.get(COORDS_TYPE, &e1));

    let e1_types = cm.get_component_types(e1);
    let e1_expected_types: HashSet<ComponentType> =
        HashSet::from_iter(vec![INT_TYPE, COORDS_TYPE]);
    assert_eq!(e1_expected_types, e1_types);
    let e2_types = cm.get_component_types(e2);
    let e2_expected_types: HashSet<ComponentType> = HashSet::from_iter(vec![INT_TYPE]);
    assert_eq!(e2_expected_types, e2_types);

    cm.remove(INT_TYPE, &e1);
    cm.remove(COORDS_TYPE, &e1);
    assert_eq!(None, cm.get(INT_TYPE, &e1));
    assert_eq!(None, cm.get(COORDS_TYPE, &e1));

    let e1_types = cm.get_component_types(e1);
    let e1_expected_types: HashSet<ComponentType> = HashSet::new();
    assert_eq!(e1_expected_types, e1_types);
}

#[test]
fn test_component_manager_remove_returns_value() {
    let e: Entity = 7;
    let mut cm: ComponentManager<TestValue> = ComponentManager::new();
    cm.register(INT_TYPE);
    cm.add(INT_TYPE, e, TestValue::Int(41));
    assert_eq!(Some(TestValue::Int(41)), cm.remove(INT_TYPE, &e));
    assert_eq!(None, cm.remove(INT_TYPE, &e));
}

#[test]
fn test_component_manager_register_is_idempotent() {
    let e: Entity = 3;
    let mut cm: ComponentManager<TestValue> = ComponentManager::new();
    cm.register(INT_TYPE);
    cm.add(INT_TYPE, e, TestValue::Int(9));
    cm.register(INT_TYPE);
    assert_eq!(Some(&TestValue::Int(9)), cm.get(INT_TYPE, &e));
}
