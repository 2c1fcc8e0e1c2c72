use ecs::ComponentType;
use ecs::Entity;
use ecs::MAX_ENTITIES;
use ecs::ecs::EntitiesPool;

use std::collections::HashSet;

#[test]
fn pool_test_pool() {
    let mut ep = EntitiesPool::new();
    for _i in 0..MAX_ENTITIES - 1 {
        ep.get();
    }

    let last_e = ep.get();
    ep.give_back(last_e);
    assert_eq!(last_e, ep.get());
}

#[test]
fn test_entities_to_components_associations() {
    let mut pool = EntitiesPool::new();

    let c_type1: ComponentType = 1;
    let c_type2: ComponentType = 2;

    let e1 = pool.get();
    pool.add_component_type(e1, c_type1);
    pool.add_component_type(e1, c_type2);

    let e2 = pool.get();
    pool.add_component_type(e2, c_type1);

    let types1 = pool.get_component_types(e1);
    let types2 = pool.get_component_types(e2);

    let expected_types1: HashSet<ComponentType> = HashSet::from_iter(vec![c_type1, c_type2]);
    let expected_types2: HashSet<ComponentType> = HashSet::from_iter(vec![c_type1]);

    assert_eq!(Some(&expected_types1), types1);
    assert_eq!(Some(&expected_types2), types2);

    pool.give_back(e1);
    let types1 = pool.get_component_types(e1);
    let types2 = pool.get_component_types(e2);
    assert_eq!(None, types1);
    assert_eq!(Some(&expected_types2), types2);
}

#[test]
fn test_fresh_entity_has_empty_type_set() {
    let mut pool = EntitiesPool::new();
    let e: Entity = pool.get();
    let types = pool.get_component_types(e).unwrap();
    assert!(types.is_empty());
}
