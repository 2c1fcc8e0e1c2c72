use ecs::ComponentType;
use ecs::Entity;
use ecs::SystemType;
use ecs::ecs::ComponentManager;
use ecs::ecs::System;
use ecs::ecs::SystemManager;

use std::collections::HashSet;

const INT_TYPE: ComponentType = 1;
const TEST_SYSTEM: SystemType = 10;

struct TestSystem {
    entities: HashSet<Entity>,
    component_types: HashSet<ComponentType>,
}

impl TestSystem {
    fn new() -> TestSystem {
        TestSystem { entities: HashSet::new(), component_types: HashSet::new() }
    }

    fn get_entities(&mut self) -> &HashSet<Entity> {
        &self.entities
    }
}

impl System for TestSystem {
    type Value = i32;

    fn add(&mut self, e: Entity) {
        self.entities.insert(e);
    }

    fn remove(&mut self, e: Entity) {
        self.entities.remove(&e);
    }

    fn get_component_types(&self) -> &HashSet<ComponentType> {
        &self.component_types
    }

    fn apply(&self, cm: &mut ComponentManager<i32>) {
        for e in self.entities.iter() {
            let v = cm.get(INT_TYPE, e).unwrap();
            *v += 1;
        }
    }
}

#[test]
fn system_test_system() {
    let e1: Entity = 1;
    let e2: Entity = 2;

    let mut s = TestSystem::new();
    s.add(e1);
    s.add(e2);
    s.remove(e1);

    let expected: HashSet<Entity> = vec![e2].into_iter().collect();
    assert_eq!(expected, *s.get_entities());
}

#[test]
fn system_test_system_manager() {
    let e1: Entity = 1; // Will become a part of TestSystem
    let e2: Entity = 2; // Will not be a part of TestSystem
    let v1: i32 = 1;
    let mut v2: i32 = 2;

    let mut cm: ComponentManager<i32> = ComponentManager::new();
    cm.register(INT_TYPE);
    cm.add(INT_TYPE, e1, v1);
    cm.add(INT_TYPE, e2, v2);

    let mut sm: SystemManager<TestSystem> = SystemManager::new();
    let mut s = TestSystem::new();
    s.add(e1);

    let sys_id = sm.register(TEST_SYSTEM, s);

    sm.apply(sys_id, &mut cm);

    assert_eq!(
        Some(&mut (v1 + 1)),
        cm.get(INT_TYPE, &e1),
        "Should be incremented as this entity IS a part of a TestSystem"
    );
    assert_eq!(
        Some(&mut (v2)),
        cm.get(INT_TYPE, &e2),
        "Should not be incremented as this entity IS NOT part of a TestSystem"
    );
}

#[test]
fn test_kick_all_systems_runs_every_step() {
    let e1: Entity = 1;

    let mut cm: ComponentManager<i32> = ComponentManager::new();
    cm.register(INT_TYPE);
    cm.add(INT_TYPE, e1, 0);

    let mut sm: SystemManager<TestSystem> = SystemManager::new();
    let mut a = TestSystem::new();
    a.add(e1);
    let mut b = TestSystem::new();
    b.add(e1);
    sm.register(TEST_SYSTEM, a);
    sm.register(TEST_SYSTEM + 1, b);

    sm.kick_all_systems(&mut cm);

    assert_eq!(Some(&mut 2), cm.get(INT_TYPE, &e1));
}
