use ecs::Command;
use ecs::ComponentManager;
use ecs::ComponentType;
use ecs::Coordinator;
use ecs::Entity;
use ecs::System;
use ecs::SystemType;

use std::collections::HashSet;

const U32_TYPE: ComponentType = 1;
const POSITION_TYPE: ComponentType = 2;
const VELOCITY_TYPE: ComponentType = 3;
const SIMPLE_SYSTEM: SystemType = 10;
const COMPLEX_SYSTEM: SystemType = 11;

struct SimpleSystem {
    entities: HashSet<Entity>,
    component_types: HashSet<ComponentType>,
}

impl SimpleSystem {
    fn new() -> SimpleSystem {
        SimpleSystem {
            entities: HashSet::new(),
            component_types: vec![U32_TYPE].into_iter().collect(),
        }
    }
}

impl System for SimpleSystem {
    type Value = u32;

    fn add(&mut self, e: Entity) {
        self.entities.insert(e);
    }

    fn remove(&mut self, e: Entity) {
        self.entities.remove(&e);
    }

    fn get_component_types(&self) -> &HashSet<ComponentType> {
        &self.component_types
    }

    fn apply(&mut self, cm: &mut ComponentManager<u32>) -> Command<u32> {
        for e in self.entities.iter() {
            let v = cm.get_mut(U32_TYPE, e).unwrap();
            *v += 1;
        }
        Command::Attach { e: 50, t: U32_TYPE, value: 100 }
    }
}

#[test]
fn test_system_returning_closure() {
    let mut c: Coordinator<SimpleSystem> = Coordinator::new();

    c.register_system(SIMPLE_SYSTEM, SimpleSystem::new());

    c.register_component(U32_TYPE);
    let e1: Entity = c.entity_take();
    let v1: u32 = 1;
    c.add_component(U32_TYPE, e1, v1);

    // The system is expected to:
    // 1) instantly update e1's component
    // 2) return a deferred command whose execution
    //    attaches a u32 component to entity 50
    c.apply_all();

    let expected_e2: Entity = 50;
    let expected_v2: u32 = 100;

    assert_eq!(Some(&(v1 + 1)), c.get(U32_TYPE, &e1));
    assert_eq!(Some(&expected_v2), c.get(U32_TYPE, &expected_e2));
}

#[test]
fn test_coordinator_for_simple_component() {
    let mut c: Coordinator<SimpleSystem> = Coordinator::new();

    c.register_system(SIMPLE_SYSTEM, SimpleSystem::new());

    let e1 = c.entity_take();
    let e2 = c.entity_take();

    c.register_component(U32_TYPE);
    let v1: u32 = 1;
    let v2: u32 = 1;
    c.add_component(U32_TYPE, e1, v1);
    c.add_component(U32_TYPE, e2, v2);

    c.apply_all();

    assert_eq!(Some(&(v1 + 1)), c.get(U32_TYPE, &e1));
    assert_eq!(Some(&(v2 + 1)), c.get(U32_TYPE, &e2));
}

#[derive(Debug, PartialEq)]
struct Position {
    x: i32,
    y: i32,
}

struct Velocity {
    vx: i32,
    vy: i32,
}

#[derive(Debug, PartialEq)]
enum PhysicsValue {
    Pos(Position),
    Vel(i32, i32),
}

struct ComplexSystem {
    entities: HashSet<Entity>,
    component_types: HashSet<ComponentType>,
}

impl ComplexSystem {
    fn new() -> ComplexSystem {
        ComplexSystem {
            entities: HashSet::new(),
            component_types: vec![POSITION_TYPE, VELOCITY_TYPE].into_iter().collect(),
        }
    }
}

impl System for ComplexSystem {
    type Value = PhysicsValue;

    fn add(&mut self, e: Entity) {
        self.entities.insert(e);
    }

    fn remove(&mut self, e: Entity) {
        self.entities.remove(&e);
    }

    fn get_component_types(&self) -> &HashSet<ComponentType> {
        &self.component_types
    }

    fn apply(&mut self, cm: &mut ComponentManager<PhysicsValue>) -> Command<PhysicsValue> {
        let members: Vec<Entity> = self.entities.iter().copied().collect();
        for e in members {
            let (x, y) = match cm.get(POSITION_TYPE, &e).unwrap() {
                PhysicsValue::Pos(position) => (position.x, position.y),
                _ => unreachable!(),
            };
            let velocity = Velocity {
                vx: match cm.get(VELOCITY_TYPE, &e).unwrap() {
                    PhysicsValue::Vel(vx, _) => *vx,
                    _ => unreachable!(),
                },
                vy: match cm.get(VELOCITY_TYPE, &e).unwrap() {
                    PhysicsValue::Vel(_, vy) => *vy,
                    _ => unreachable!(),
                },
            };
            let new_pos = Position { x: x + velocity.vx, y: y + velocity.vy };
            cm.add(POSITION_TYPE, e, PhysicsValue::Pos(new_pos));
        }
        Command::Nothing
    }
}

#[test]
fn test_coordinator_for_complex_two_componets() {
    let mut c: Coordinator<ComplexSystem> = Coordinator::new();

    c.register_system(COMPLEX_SYSTEM, ComplexSystem::new());

    let e1 = c.entity_take();
    let e2 = c.entity_take();

    c.register_component(POSITION_TYPE);
    c.register_component(VELOCITY_TYPE);

    let pos1 = PhysicsValue::Pos(Position { x: 1, y: 2 });
    let vel1 = PhysicsValue::Vel(1, 2);
    c.add_component(POSITION_TYPE, e1, pos1);
    c.add_component(VELOCITY_TYPE, e1, vel1);
    let pos2 = PhysicsValue::Pos(Position { x: 1, y: 2 });
    let vel2 = PhysicsValue::Vel(-1, -2);
    c.add_component(POSITION_TYPE, e2, pos2);
    c.add_component(VELOCITY_TYPE, e2, vel2);

    c.apply_all();

    let expected_pos1 = &PhysicsValue::Pos(Position { x: 2, y: 4 });
    assert_eq!(expected_pos1, c.get(POSITION_TYPE, &e1).unwrap());

    let expected_pos2 = &PhysicsValue::Pos(Position { x: 0, y: 0 });
    assert_eq!(expected_pos2, c.get(POSITION_TYPE, &e2).unwrap());
}

struct SpawningSystem {
    entities: HashSet<Entity>,
    component_types: HashSet<ComponentType>,
}

impl System for SpawningSystem {
    type Value = u32;

    fn add(&mut self, e: Entity) {
        self.entities.insert(e);
    }

    fn remove(&mut self, e: Entity) {
        self.entities.remove(&e);
    }

    fn get_component_types(&self) -> &HashSet<ComponentType> {
        &self.component_types
    }

    fn apply(&mut self, _cm: &mut ComponentManager<u32>) -> Command<u32> {
        Command::Spawn { t: U32_TYPE, value: 100 }
    }
}

#[test]
fn test_deferred_spawn_creates_entity_with_component() {
    let mut c: Coordinator<SpawningSystem> = Coordinator::new();
    c.register_component(U32_TYPE);
    c.register_system(
        SIMPLE_SYSTEM,
        SpawningSystem { entities: HashSet::new(), component_types: HashSet::new() },
    );

    let before = c.entities_iter().len();
    c.apply_all();
    let after: Vec<Entity> = c.entities_iter().clone();
    assert_eq!(before + 1, after.len());

    let spawned = after[after.len() - 1];
    assert_eq!(Some(&100u32), c.get(U32_TYPE, &spawned));
}

#[test]
fn test_membership_follows_each_attachment() {
    let mut c: Coordinator<ComplexSystem> = Coordinator::new();
    c.register_system(COMPLEX_SYSTEM, ComplexSystem::new());
    c.register_component(POSITION_TYPE);
    c.register_component(VELOCITY_TYPE);

    let e = c.entity_take();
    c.add_component(POSITION_TYPE, e, PhysicsValue::Pos(Position { x: 0, y: 0 }));
    // Position alone does not cover {Position, Velocity}: one step must not move it.
    c.apply_all();
    assert_eq!(
        Some(&PhysicsValue::Pos(Position { x: 0, y: 0 })),
        c.get(POSITION_TYPE, &e)
    );

    c.add_component(VELOCITY_TYPE, e, PhysicsValue::Vel(3, 4));
    c.apply_all();
    assert_eq!(
        Some(&PhysicsValue::Pos(Position { x: 3, y: 4 })),
        c.get(POSITION_TYPE, &e)
    );
}

struct IsoSystem {
    entities: HashSet<Entity>,
    component_types: HashSet<ComponentType>,
}

impl IsoSystem {
    fn new() -> IsoSystem {
        IsoSystem {
            entities: HashSet::new(),
            component_types: vec![U32_TYPE].into_iter().collect(),
        }
    }
}

impl System for IsoSystem {
    type Value = u32;

    fn add(&mut self, e: Entity) {
        self.entities.insert(e);
    }

    fn remove(&mut self, e: Entity) {
        self.entities.remove(&e);
    }

    fn get_component_types(&self) -> &HashSet<ComponentType> {
        &self.component_types
    }

    fn apply(&mut self, cm: &mut ComponentManager<u32>) -> Command<u32> {
        for e in self.entities.iter() {
            let v = cm.get_mut(U32_TYPE, e).unwrap();
            *v += 1;
        }
        Command::Attach { e: 50, t: U32_TYPE, value: 100 }
    }
}

#[test]
fn test_two_phase_isolation() {
    // Two systems each increment their members and each defer an attach of
    // 100 to entity 50.  If either step observed the other's deferred
    // attach, entity 50 would end the call incremented; instead both
    // attaches run strictly after both steps, so 50 holds exactly 100 and
    // the one member was stepped exactly twice.
    let mut c: Coordinator<IsoSystem> = Coordinator::new();
    c.register_component(U32_TYPE);
    c.register_system(SIMPLE_SYSTEM, IsoSystem::new());
    c.register_system(SIMPLE_SYSTEM + 1, IsoSystem::new());

    let e1 = c.entity_take();
    c.add_component(U32_TYPE, e1, 1);

    c.apply_all();

    assert_eq!(Some(&3u32), c.get(U32_TYPE, &e1));
    assert_eq!(Some(&100u32), c.get(U32_TYPE, &50));
}
