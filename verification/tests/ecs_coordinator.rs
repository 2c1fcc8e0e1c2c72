use ecs::ComponentType;
use ecs::Entity;
use ecs::SystemType;
use ecs::ecs::ComponentManager;
use ecs::ecs::Coordinator;
use ecs::ecs::System;

use std::collections::HashSet;

const U32_TYPE: ComponentType = 1;
const POSITION_TYPE: ComponentType = 2;
const VELOCITY_TYPE: ComponentType = 3;
const SIMPLE_SYSTEM: SystemType = 10;
const COMPLEX_SYSTEM: SystemType = 11;

struct SimpleSystem {
    entities: HashSet<Entity>,
    component_types: HashSet<ComponentType>,
}

impl SimpleSystem {
    fn new() -> SimpleSystem {
        SimpleSystem {
            entities: HashSet::new(),
            component_types: vec![U32_TYPE].into_iter().collect(),
        }
    }
}

impl System for SimpleSystem {
    type Value = u32;

    fn add(&mut self, e: Entity) {
        self.entities.insert(e);
    }

    fn remove(&mut self, e: Entity) {
        self.entities.remove(&e);
    }

    fn get_component_types(&self) -> &HashSet<ComponentType> {
        &self.component_types
    }

    fn apply(&self, cm: &mut ComponentManager<u32>) {
        for e in self.entities.iter() {
            let v = cm.get(U32_TYPE, e).unwrap();
            *v += 1;
        }
    }
}

#[test]
fn coordinator_test_coordinator_for_simple_component() {
    let mut c: Coordinator<SimpleSystem> = Coordinator::new();

    let s = SimpleSystem::new();
    let sys_id = c.register_system(SIMPLE_SYSTEM, s);

    let e1 = c.get_entity();
    let e2 = c.get_entity();

    c.register_component(U32_TYPE);
    let v1: u32 = 1;
    let v2: u32 = 1;

    c.add_component(U32_TYPE, e1, v1);
    c.add_component(U32_TYPE, e2, v2);
    c.apply(sys_id);

    let v1_updated = c.get_component(U32_TYPE, &e1);
    assert_eq!(Some(&mut (v1 + 1)), v1_updated);
    let v2_updated = c.get_component(U32_TYPE, &e2);
    assert_eq!(Some(&mut (v2 + 1)), v2_updated);
}

#[derive(Debug, PartialEq)]
struct Position {
    x: i32,
    y: i32,
}

#[derive(Debug, PartialEq)]
enum PhysicsValue {
    Pos(Position),
    Vel(i32, i32),
}

struct ComplexSystem {
    entities: HashSet<Entity>,
    component_types: HashSet<ComponentType>,
}

impl ComplexSystem {
    fn new() -> ComplexSystem {
        ComplexSystem {
            entities: HashSet::new(),
            component_types: vec![POSITION_TYPE, VELOCITY_TYPE].into_iter().collect(),
        }
    }
}

impl System for ComplexSystem {
    type Value = PhysicsValue;

    fn add(&mut self, e: Entity) {
        self.entities.insert(e);
    }

    fn remove(&mut self, e: Entity) {
        self.entities.remove(&e);
    }

    fn get_component_types(&self) -> &HashSet<ComponentType> {
        &self.component_types
    }

    fn apply(&self, cm: &mut ComponentManager<PhysicsValue>) {
        for e in self.entities.iter() {
            let (x, y) = match cm.get(POSITION_TYPE, e).unwrap() {
                PhysicsValue::Pos(position) => (position.x, position.y),
                _ => unreachable!(),
            };
            let (vx, vy) = match cm.get(VELOCITY_TYPE, e).unwrap() {
                PhysicsValue::Vel(vx, vy) => (*vx, *vy),
                _ => unreachable!(),
            };
            let new_pos = Position { x: x + vx, y: y + vy };
            cm.add(POSITION_TYPE, *e, PhysicsValue::Pos(new_pos));
        }
    }
}

#[test]
fn coordinator_test_coordinator_for_complex_two_componets() {
    let mut c: Coordinator<ComplexSystem> = Coordinator::new();

    let s = ComplexSystem::new();
    let sys_id = c.register_system(COMPLEX_SYSTEM, s);

    let e1 = c.get_entity();
    let e2 = c.get_entity();

    c.register_component(POSITION_TYPE);
    c.register_component(VELOCITY_TYPE);

    let pos1 = PhysicsValue::Pos(Position { x: 1, y: 2 });
    let vel1 = PhysicsValue::Vel(1, 2);
    c.add_component(POSITION_TYPE, e1, pos1);
    c.add_component(VELOCITY_TYPE, e1, vel1);
    let pos2 = PhysicsValue::Pos(Position { x: 1, y: 2 });
    let vel2 = PhysicsValue::Vel(-1, -2);
    c.add_component(POSITION_TYPE, e2, pos2);
    c.add_component(VELOCITY_TYPE, e2, vel2);

    c.apply(sys_id);

    let updated_pos1 = c.get_component(POSITION_TYPE, &e1).unwrap();
    let expected_pos1 = &mut PhysicsValue::Pos(Position { x: 2, y: 4 });
    assert_eq!(expected_pos1, updated_pos1);

    let updated_pos2 = c.get_component(POSITION_TYPE, &e2).unwrap();
    let expected_pos2 = &mut PhysicsValue::Pos(Position { x: 0, y: 0 });
    assert_eq!(expected_pos2, updated_pos2);
}
