use rust_samples::affinity::{busy_sum, core_schedule, next_core_index, BUSY_LOOP_LIMIT, FIRST_WORKER_CORE, WORKER_TASKS};
use rust_samples::greeting::{AFromBase, AddTowBase, BFromBase, Base};
use rust_samples::resources::app_config_text;
use rust_samples::shared_map::SharedMap;

#[test]
fn local_configuration_wins() {
    let text = app_config_text(Some("local: 1".to_string()), Some(b"default: 1".to_vec()));
    assert_eq!(text, Some("local: 1".to_string()));
}

#[test]
fn embedded_default_is_used_without_local_file() {
    let text = app_config_text(None, Some("name: é".as_bytes().to_vec()));
    assert_eq!(text, Some("name: é".to_string()));
}

#[test]
fn missing_or_invalid_default_gives_nothing() {
    assert_eq!(app_config_text(None, None), None);
    assert_eq!(app_config_text(None, Some(vec![0xff, 0xfe])), None);
}

#[test]
fn cores_are_dealt_round_robin_from_core_two() {
    assert_eq!(core_schedule(5, WORKER_TASKS), vec![2, 3, 4, 2, 3, 4, 2, 3]);
    assert_eq!(core_schedule(3, 4), vec![2, 2, 2, 2]);
    assert_eq!(core_schedule(16, 3), vec![2, 3, 4]);
    assert_eq!(core_schedule(0, 0), Vec::<usize>::new());
}

#[test]
fn next_core_wraps_to_core_two() {
    assert_eq!(next_core_index(7, 8), FIRST_WORKER_CORE);
    assert_eq!(next_core_index(2, 8), 3);
}

#[test]
fn map_get_after_insert() {
    let mut map = SharedMap::new();
    for i in 0..3 {
        map.insert(i.to_string(), i.to_string());
    }
    assert_eq!(map.get(&"1".to_string()), Some("1".to_string()));
    map.insert("1".to_string(), "one".to_string());
    assert_eq!(map.get(&"1".to_string()), Some("one".to_string()));
    assert_eq!(map.entries().len(), 3);
    assert_eq!(map.get(&"9".to_string()), None);
}

#[test]
fn map_remove_returns_the_value() {
    let mut map = SharedMap::new();
    map.insert("a".to_string(), "x".to_string());
    map.insert("b".to_string(), "y".to_string());
    assert_eq!(map.remove(&"a".to_string()), Some("x".to_string()));
    assert_eq!(map.get(&"a".to_string()), None);
    assert_eq!(map.remove(&"a".to_string()), None);
    assert_eq!(map.get(&"b".to_string()), Some("y".to_string()));
}

#[test]
fn get_and_remove_removes_the_entry_named_by_the_value() {
    let mut map = SharedMap::new();
    map.insert("1".to_string(), "2".to_string());
    map.insert("2".to_string(), "two".to_string());
    assert_eq!(map.get_and_remove(&"1".to_string()), Some("2".to_string()));
    assert_eq!(map.get(&"1".to_string()), Some("2".to_string()));
    assert_eq!(map.get(&"2".to_string()), None);
}

#[test]
fn get_and_remove_with_key_equal_to_value() {
    let mut map = SharedMap::new();
    for i in 0..3 {
        map.insert(i.to_string(), i.to_string());
    }
    assert_eq!(map.get_and_remove(&"1".to_string()), Some("1".to_string()));
    assert_eq!(map.get(&"1".to_string()), None);
    assert_eq!(map.entries().len(), 2);
}

#[test]
fn get_and_remove_of_absent_key_leaves_the_map() {
    let mut map = SharedMap::new();
    map.insert("0".to_string(), "0".to_string());
    assert_eq!(map.get_and_remove(&"5".to_string()), None);
    assert_eq!(map.entries().len(), 1);
}

#[test]
fn speakers_are_joined_in_order() {
    let mut a = AFromBase { content: "baseA".to_string() };
    let mut b = BFromBase { text: "baseB".to_string() };
    assert_eq!(a.say(), "baseA");
    assert_eq!(b.say(), "baseB");
    let pair = AddTowBase { a: &mut a, b: &mut b };
    assert_eq!(pair.add(), "baseAbaseB");
}

#[test]
fn busy_sum_adds_up_below_the_limit() {
    assert_eq!(busy_sum(0), 0);
    assert_eq!(busy_sum(-5), 0);
    assert_eq!(busy_sum(5), 10);
    assert_eq!(busy_sum(1), 0);
}

#[test]
fn busy_sum_wraps_like_overflowing_add() {
    let mut expected: i32 = 0;
    for i in 0..BUSY_LOOP_LIMIT {
        expected = expected.overflowing_add(i).0;
    }
    assert_eq!(busy_sum(BUSY_LOOP_LIMIT), expected);
}

#[test]
fn busy_sum_is_the_wrapped_triangle_number() {
    let n = BUSY_LOOP_LIMIT as i64;
    let triangle = n * (n - 1) / 2;
    assert_eq!(busy_sum(BUSY_LOOP_LIMIT), triangle as i32);
    assert_eq!(busy_sum(70000), (70000i64 * 69999 / 2) as i32);
}
