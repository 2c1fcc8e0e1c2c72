use ecs::Globals;

#[test]
fn test_globals() {
    let mut g: Globals<Vec<u32>> = Globals::new();

    let name1 = "first";
    let name2 = "second";

    let v1 = vec![1, 2, 3];
    let v2 = vec![1, 2];
    let v1_expected = v1.clone();
    let v2_expected = v2.clone();

    g.add(name1, v1);
    g.add(name2, v2);

    assert_eq!(Some(&v1_expected), g.get(name1));
    assert_eq!(Some(&v2_expected), g.get(name2));

    let v = g.get_mut(name1).unwrap();
    v.pop();

    assert_eq!(Some(&v2_expected), g.get(name1));
}

#[test]
fn test_globals_exceptions() {
    let mut g: Globals<Vec<u32>> = Globals::new();

    let name = "non-existing";
    assert_eq!(None, g.get(name));

    let name = "non-existing";
    assert_eq!(None, g.get_mut(name));
}

#[test]
fn test_globals_replace() {
    let mut g: Globals<u64> = Globals::new();
    g.add("slot", 1);
    g.add("slot", 2);
    assert_eq!(Some(&2), g.get("slot"));
    assert_eq!(None, g.get("other"));
}
