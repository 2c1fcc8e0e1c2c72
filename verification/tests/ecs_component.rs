use ecs::ComponentType;
use ecs::Entity;
use ecs::ecs::ComponentArray;
use ecs::ecs::ComponentManager;

const INT_TYPE: ComponentType = 1;
const COORDS_TYPE: ComponentType = 2;

#[test]
fn component_test_component_array() {
    let mut a = ComponentArray::new("test_array");
    let e1: Entity = 1;
    let e2: Entity = 2;
    a.add(e1, "one");
    a.add(e2, "two");

    assert_eq!(Some(&mut "one"), a.get(&e1));
    assert_eq!(Some(&mut "two"), a.get(&e2));

    assert_eq!(Some("one"), a.remove(&e1));
    assert_eq!(None, a.get(&e1));
    assert_eq!(None, a.remove(&e1));
    assert_eq!(Some(&mut "two"), a.get(&e2));
}

#[derive(Debug, PartialEq)]
struct Coords {
    x: i32,
    y: i32,
}

#[derive(Debug, PartialEq)]
enum TestValue {
    Int(i32),
    Pt(Coords),
}

#[test]
fn component_test_component_manager() {
    let e1: Entity = 1;
    let e2: Entity = 2;

    let mut cm: ComponentManager<TestValue> = ComponentManager::new();
    cm.register(INT_TYPE);
    cm.register(COORDS_TYPE);

    cm.add(INT_TYPE, e1, TestValue::Int(1));
    cm.add(COORDS_TYPE, e1, TestValue::Pt(Coords { x: 5, y: 10 }));

    cm.add(INT_TYPE, e2, TestValue::Int(2));

    assert_eq!(Some(&mut TestValue::Int(1)), cm.get(INT_TYPE, &e1));
    assert_eq!(Some(&mut TestValue::Int(2)), cm.get(INT_TYPE, &e2));

    assert_eq!(Some(&mut TestValue::Pt(Coords { x: 5, y: 10 })), cm.get(COORDS_TYPE, &e1));
    assert_eq!(None, cm.get(COORDS_TYPE, &e2));

    cm.remove(INT_TYPE, &e1);
    cm.remove(COORDS_TYPE, &e1);
    assert_eq!(None, cm.get(INT_TYPE, &e1));
    assert_eq!(None, cm.get(COORDS_TYPE, &e1));
}

#[test]
fn test_unregistered_add_is_ignored() {
    let e: Entity = 1;
    let mut cm: ComponentManager<TestValue> = ComponentManager::new();
    cm.register(INT_TYPE);
    cm.add(COORDS_TYPE, e, TestValue::Pt(Coords { x: 1, y: 1 }));
    cm.register(COORDS_TYPE);
    assert_eq!(None, cm.get(COORDS_TYPE, &e));
}
