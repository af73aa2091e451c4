use rust_box::dequemap::{DequeMap, Entry};

fn to_vec(map: &DequeMap<i32, i32>) -> Vec<(i32, i32)> {
    map.iter().into_iter().map(|t| (*t.0, *t.1)).collect::<Vec<(i32, i32)>>()
}

#[test]
fn map_test_insert() {
    let mut map = DequeMap::new();
    map.insert(2, 20);
    map.insert(1, 10);
    map.insert(9, 90);
    assert_eq!(to_vec(&map), [(2, 20), (1, 10), (9, 90)]);

    map.insert(7, 70);
    map.insert(1, 100);
    assert_eq!(to_vec(&map), [(2, 20), (1, 100), (9, 90), (7, 70)]);

    assert_eq!(map.len(), map.iter().len());

    assert_eq!(map.pop_front(), Some((2, 20)));
    assert_eq!(map.pop_back(), Some((7, 70)));
    assert_eq!(to_vec(&map), [(1, 100), (9, 90)]);

    map.insert(3, 30);
    map.insert(7, 70);
    map.insert(9, 900);
    map.push_back(1, 10);
    assert_eq!(to_vec(&map), [(9, 900), (3, 30), (7, 70), (1, 10)]);
    assert_eq!(map.len(), map.iter().len());
}

#[test]
fn map_test_dequemap() {
    let mut map = DequeMap::new();
    map.push_back(2, 20);
    map.push_back(1, 10);
    map.push_back(9, 90);
    map.push_back(3, 30);
    map.push_back(5, 50);
    assert_eq!(map.get(&1), Some(&10));
    assert_eq!(map.get(&2), Some(&20));
    assert_eq!(map.get(&3), Some(&30));
    assert_eq!(map.get(&5), Some(&50));
    assert_eq!(map.get(&9), Some(&90));
    assert_eq!(map.len(), 5);
    assert_eq!(map.pop_front(), Some((2, 20)));
    assert_eq!(map.len(), 4);
    assert_eq!(map.pop_back(), Some((5, 50)));
    assert_eq!(map.len(), 3);
    assert_eq!(to_vec(&map), [(1, 10), (9, 90), (3, 30)]);
    assert_eq!(map.len(), map.iter().len());

    let mut map1: DequeMap<i32, i32> = DequeMap::new();
    map1.push_back(7, 70);
    map1.push_back(9, 900);
    map.extend(map1);
    assert_eq!(to_vec(&map), [(1, 10), (9, 900), (3, 30), (7, 70)]);
    assert_eq!(map.len(), map.iter().len());

    assert_eq!(map.front(), Some((&1, &10)));
    assert_eq!(map.back(), Some((&7, &70)));

    assert_eq!(to_vec(&map), [(1, 10), (9, 900), (3, 30), (7, 70)]);
    assert_eq!(map.len(), map.iter().len());

    map.remove(&3);
    assert_eq!(to_vec(&map), [(1, 10), (9, 900), (7, 70)]);
    assert_eq!(map.len(), map.iter().len());
}

#[test]
fn dequemap_push_front_moves_entry() {
    let mut map: DequeMap<i32, &str> = DequeMap::with_capacity(4);
    assert!(map.is_empty());
    assert_eq!(map.push_front(1, "a"), None);
    assert_eq!(map.push_front(2, "b"), None);
    assert_eq!(map.push_front(1, "c"), Some("a"));
    assert_eq!(map.front(), Some((&1, &"c")));
    assert_eq!(map.back(), Some((&2, &"b")));
    assert_eq!(map.get_key_value(&2), Some((&2, &"b")));
    assert!(map.contains_key(&1));
    assert!(!map.contains_key(&3));
    assert_eq!(map.remove(&3), None);
    map.reserve(10);
    map.clear();
    assert_eq!(map.front(), None);
    assert_eq!(map.pop_front(), None);
    assert_eq!(map.pop_back(), None);
}

#[test]
fn dequemap_get_mut_updates_in_place() {
    let mut map: DequeMap<i32, i32> = DequeMap::default();
    map.insert(4, 40);
    map.insert(5, 50);
    if let Some(v) = map.get_mut(&4) {
        *v = 44;
    }
    assert_eq!(map.get_mut(&6), None);
    assert_eq!(to_vec(&map), [(4, 44), (5, 50)]);
    assert_eq!(map.push_back(4, 1), Some(44));
    assert_eq!(to_vec(&map), [(5, 50), (4, 1)]);
}

#[test]
fn dequemap_from_vec_and_extend_follow_insert() {
    let mut map = DequeMap::from_vec(vec![(1, 10), (2, 20), (1, 11)]);
    assert_eq!(to_vec(&map), [(1, 11), (2, 20)]);
    map.extend_from_vec(vec![(3, 30), (2, 22)]);
    assert_eq!(to_vec(&map), [(1, 11), (2, 22), (3, 30)]);
    assert_eq!(map.into_vec(), vec![(1, 11), (2, 22), (3, 30)]);
}

#[test]
fn dequemap_read_after_write() {
    let mut map: DequeMap<u8, u8> = DequeMap::new();
    map.insert(1, 1);
    map.insert(2, 2);
    map.insert(1, 3);
    assert_eq!(map.get(&1), Some(&3));
    assert_eq!(map.get(&2), Some(&2));
    assert_eq!(map.remove(&1), Some(3));
    assert_eq!(map.get(&1), None);
    assert_eq!(map.get(&2), Some(&2));
}

#[test]
fn dequemap_fifo_order() {
    let mut map: DequeMap<u8, char> = DequeMap::new();
    map.push_back(5, 'a');
    map.push_back(6, 'b');
    assert_eq!(map.pop_front(), Some((5, 'a')));
    assert_eq!(map.pop_front(), Some((6, 'b')));
    assert_eq!(map.pop_front(), None);
}

#[test]
fn dequemap_index_by_position_and_key() {
    let mut map: DequeMap<&str, i32> = DequeMap::new();
    map.push_back("a", 1);
    map.push_back("b", 2);
    assert_eq!(map[0], 1);
    assert_eq!(map[1], 2);
    assert_eq!(map[&"b"], 2);
}

#[test]
fn map_test_entry() {
    let mut map = DequeMap::new();
    map.entry(2).or_insert(20);
    map.entry(1).or_insert(10);
    map.entry(9).or_insert(90);
    map.entry(3).or_insert(30);
    map.entry(5).or_insert(50);
    assert_eq!(map.get(&1), Some(&10));
    assert_eq!(map.get(&2), Some(&20));
    assert_eq!(map.get(&3), Some(&30));
    assert_eq!(map.get(&5), Some(&50));
    assert_eq!(map.get(&9), Some(&90));

    assert_eq!(to_vec(&map), [(2, 20), (1, 10), (9, 90), (3, 30), (5, 50)]);
    assert_eq!(map.len(), map.iter().len());

    map.entry(3).and_modify(|v| *v = 300);

    assert_eq!(to_vec(&map), [(2, 20), (1, 10), (9, 90), (3, 300), (5, 50)]);
    assert_eq!(map.len(), map.iter().len());

    map.entry(7).or_insert_with(|| 70);
    assert_eq!(
        to_vec(&map),
        [(2, 20), (1, 10), (9, 90), (3, 300), (5, 50), (7, 70)]
    );
    assert_eq!(map.len(), map.iter().len());
}

#[test]
fn dequemap_entry_slots() {
    let mut map: DequeMap<i32, i32> = DequeMap::new();
    map.insert(1, 10);
    match map.entry(1) {
        Entry::Occupied(mut o) => {
            assert_eq!(*o.key(), 1);
            assert_eq!(*o.get(), 10);
            *o.get_mut() += 1;
            assert_eq!(o.insert(12), 11);
            *o.into_mut() += 1;
        }
        Entry::Vacant(_) => panic!("key 1 is present"),
    }
    assert_eq!(map.get(&1), Some(&13));
    match map.entry(4) {
        Entry::Vacant(v) => {
            assert_eq!(*v.key(), 4);
            assert_eq!(v.into_key(), 4);
        }
        Entry::Occupied(_) => panic!("key 4 is absent"),
    }
    assert_eq!(map.len(), 1);
    assert_eq!(*map.entry(4).key(), 4);
    *map.entry(4).or_default() += 5;
    assert_eq!(*map.entry(6).or_insert_with_key(|k| k * 100), 600);
    assert_eq!(to_vec(&map), [(1, 13), (4, 5), (6, 600)]);
}
