use mycelium::config::Config;

fn sample_store() -> Config {
    Config::new(
        vec!["alpha".to_owned(), "beta".to_owned(), "gamma".to_owned()],
        vec![100, 200, 300],
    )
}

#[test]
fn get_with_default_on_empty_store_falls_back() {
    let empty = Config::new(Vec::new(), Vec::new());
    assert_eq!(empty.get_with_default("missing_key", 5_000), 5_000);
}

#[test]
fn get_with_default_finds_stored_values() {
    let store = sample_store();
    assert_eq!(store.get_with_default("alpha", -1), 100);
    assert_eq!(store.get_with_default("beta", -1), 200);
    assert_eq!(store.get_with_default("gamma", -1), 300);
    assert_eq!(store.get_with_default("delta", -1), -1);
}

#[test]
fn select_next_cycles_back_after_len_steps() {
    let mut store = sample_store();
    assert_eq!(store.selected_value, 0);
    store.next_key();
    assert_eq!(store.selected_value, 1);
    store.next_key();
    assert_eq!(store.selected_value, 2);
    store.next_key();
    assert_eq!(store.selected_value, 0);
}

#[test]
fn select_previous_is_the_inverse_of_select_next() {
    let mut store = sample_store();
    for start in 0..3usize {
        store.selected_value = start;
        store.next_key();
        store.prev_key();
        assert_eq!(store.selected_value, start);
        store.prev_key();
        store.next_key();
        assert_eq!(store.selected_value, start);
    }
}

#[test]
fn select_previous_wraps_at_the_start() {
    let mut store = sample_store();
    store.prev_key();
    assert_eq!(store.selected_value, 2);
}

#[test]
fn change_value_moves_only_the_selected_entry() {
    let mut store = sample_store();
    store.next_key();
    store.change_value(55);
    assert_eq!(store.values, vec![100, 255, 300]);
    store.change_value(-300);
    assert_eq!(store.values, vec![100, -45, 300]);
}

#[test]
fn change_value_saturates_at_the_ends() {
    let mut store = Config::new(vec!["k".to_owned()], vec![i64::MAX - 10]);
    store.change_value(100);
    assert_eq!(store.values[0], i64::MAX);
    let mut store = Config::new(vec!["k".to_owned()], vec![i64::MIN + 10]);
    store.change_value(-100);
    assert_eq!(store.values[0], i64::MIN);
}

#[test]
fn empty_store_operations_are_no_ops() {
    let mut empty = Config::new(Vec::new(), Vec::new());
    empty.next_key();
    empty.prev_key();
    empty.change_value(42);
    assert_eq!(empty.selected_value, 0);
    assert!(empty.keys.is_empty());
    assert!(empty.values.is_empty());
}
