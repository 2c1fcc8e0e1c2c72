use ecs::Command;
use ecs::ComponentManager;
use ecs::ComponentType;
use ecs::Entity;
use ecs::System;
use ecs::SystemManager;
use ecs::SystemType;

use std::collections::HashSet;

const INT_TYPE: ComponentType = 1;
const TEST_SYSTEM: SystemType = 10;

struct TestSystem {
    entities: HashSet<Entity>,
    component_types: HashSet<ComponentType>,
}

impl TestSystem {
    fn new() -> TestSystem {
        TestSystem { entities: HashSet::new(), component_types: HashSet::new() }
    }

    fn get_entities(&mut self) -> &HashSet<Entity> {
        &self.entities
    }
}

impl System for TestSystem {
    type Value = i32;

    fn add(&mut self, e: Entity) {
        self.entities.insert(e);
    }

    fn remove(&mut self, e: Entity) {
        self.entities.remove(&e);
    }

    fn get_component_types(&self) -> &HashSet<ComponentType> {
        &self.component_types
    }

    fn apply(&mut self, cm: &mut ComponentManager<i32>) -> Command<i32> {
        for e in self.entities.iter() {
            let v = cm.get_mut(INT_TYPE, e).unwrap();
            *v += 1;
        }
        Command::Nothing
    }
}

#[test]
fn test_system() {
    let e1: Entity = 1;
    let e2: Entity = 2;

    let mut s = TestSystem::new();
    s.add(e1);
    s.add(e2);
    s.remove(e1);

    let expected: HashSet<Entity> = vec![e2].into_iter().collect();
    assert_eq!(expected, *s.get_entities());
}

#[test]
fn test_system_manager() {
    let e1: Entity = 1; // Will become a part of TestSystem
    let e2: Entity = 2; // Will not be a part of TestSystem
    let v1: i32 = 1;
    let v2: i32 = 2;

    let mut cm: ComponentManager<i32> = ComponentManager::new();
    cm.register(INT_TYPE);
    cm.add(INT_TYPE, e1, v1);
    cm.add(INT_TYPE, e2, v2);

    let mut sm: SystemManager<TestSystem> = SystemManager::new();
    sm.register(TEST_SYSTEM, TestSystem::new());
    sm.add_component(e1, &HashSet::from_iter(vec![INT_TYPE]));
    assert_eq!(
        HashSet::from_iter(vec![e1]),
        sm.get_system(TEST_SYSTEM).unwrap().entities
    );
    sm.apply_all(&mut cm);

    assert_eq!(
        Some(&(v1 + 1)),
        cm.get(INT_TYPE, &e1),
        "Should be incremented as this entity IS a part of a TestSystem"
    );
    assert_eq!(
        Some(&(v2)),
        cm.get(INT_TYPE, &e2),
        "Should not be incremented as this entity IS NOT part of a TestSystem"
    );
}

#[test]
fn test_system_manager_membership_needs_signature_subset() {
    const POS_TYPE: ComponentType = 2;

    struct PairSystem {
        entities: HashSet<Entity>,
        component_types: HashSet<ComponentType>,
    }

    impl System for PairSystem {
        type Value = i32;

        fn add(&mut self, e: Entity) {
            self.entities.insert(e);
        }

        fn remove(&mut self, e: Entity) {
            self.entities.remove(&e);
        }

        fn get_component_types(&self) -> &HashSet<ComponentType> {
            &self.component_types
        }

        fn apply(&mut self, _cm: &mut ComponentManager<i32>) -> Command<i32> {
            Command::Nothing
        }
    }

    let pair = PairSystem {
        entities: HashSet::new(),
        component_types: HashSet::from_iter(vec![INT_TYPE, POS_TYPE]),
    };
    let mut sm: SystemManager<PairSystem> = SystemManager::new();
    sm.register(TEST_SYSTEM, pair);

    let e: Entity = 4;
    sm.add_component(e, &HashSet::from_iter(vec![INT_TYPE]));
    assert!(sm.get_system(TEST_SYSTEM).unwrap().entities.is_empty());

    sm.add_component(e, &HashSet::from_iter(vec![INT_TYPE, POS_TYPE]));
    assert_eq!(
        HashSet::from_iter(vec![e]),
        sm.get_system(TEST_SYSTEM).unwrap().entities
    );
}
