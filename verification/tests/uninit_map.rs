use better_explosions::uninit_map::{UninitMap, UninitMapArray};

#[test]
fn map_insert_get() {
    let mut m: UninitMap<u32> = UninitMap::new(16);
    assert_eq!(m.get(3), None);
    m.insert(3, 30);
    m.insert(7, 70);
    assert_eq!(m.get(3), Some(&30));
    assert_eq!(m.get(7), Some(&70));
    assert_eq!(m.get(4), None);
    m.insert(3, 31);
    assert_eq!(m.get(3), Some(&31));
    assert_eq!(m.keys(), vec![3, 7, 3]);
    assert_eq!(m.values(), vec![&30, &70, &31]);
    assert_eq!(m.iter(), vec![(3, &30), (7, &70), (3, &31)]);
}

#[test]
fn map_clear_forgets() {
    let mut m: UninitMap<u8> = UninitMap::new(8);
    m.insert(0, 1);
    m.insert(5, 2);
    m.clear();
    assert_eq!(m.get(0), None);
    assert_eq!(m.get(5), None);
    assert!(m.keys().is_empty());
    m.insert(5, 9);
    assert_eq!(m.get(5), Some(&9));
    assert_eq!(m.get(0), None);
}

#[test]
fn map_values_mut() {
    let mut m: UninitMap<u64> = UninitMap::new(4);
    m.insert(1, 10);
    m.insert(2, 20);
    m.values_mut(|v| v * 2);
    assert_eq!(m.get(1), Some(&20));
    assert_eq!(m.get(2), Some(&40));
    m.iter_mut(|k, v| v + k as u64);
    assert_eq!(m.get(1), Some(&21));
    assert_eq!(m.get(2), Some(&42));
}

#[test]
fn map_strings() {
    let mut m: UninitMap<String> = UninitMap::new(3);
    m.insert(2, "two".to_string());
    assert_eq!(m.get(2).map(|s| s.as_str()), Some("two"));
    assert_eq!(m.get(1), None);
}

#[test]
fn array_map_insert_get_clear() {
    let mut m: UninitMapArray<i32, 8> = UninitMapArray::default();
    m.insert(7, -1);
    m.insert(0, 5);
    assert_eq!(m.get(7), Some(&-1));
    assert_eq!(m.get(0), Some(&5));
    assert_eq!(m.get(1), None);
    assert_eq!(m.keys(), vec![7, 0]);
    m.values_mut(|v| -v);
    assert_eq!(m.values(), vec![&1, &-5]);
    m.iter_mut(|k, v| v * 10 + k as i32);
    assert_eq!(m.iter(), vec![(7, &17), (0, &-50)]);
    m.clear();
    assert_eq!(m.get(7), None);
    let b: Box<UninitMapArray<i32, 8>> = UninitMapArray::default_box();
    assert_eq!(b.get(3), None);
}
