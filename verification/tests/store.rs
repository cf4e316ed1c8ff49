use echo_server::mem_store::Mem;
use echo_server::Counter;

#[test]
fn counter_starts_at_zero_and_counts_one_at_a_time() {
    let mut c = Counter::new();
    assert_eq!(c.get_count(), 0);
    for n in 1..=5u64 {
        c.add_count();
        assert_eq!(c.get_count(), n);
        assert_eq!(c.get_count(), n);
    }
}

#[test]
fn new_store_is_empty() {
    let m = Mem::new();
    assert_eq!(m.get("anything"), None);
}

#[test]
fn get_after_set_gives_the_value_under_the_lower_case_key() {
    let mut m = Mem::new();
    m.set("MyKey", "Value");
    assert_eq!(m.get("mykey"), Some("Value".to_string()));
    // keys are looked up as given
    assert_eq!(m.get("MyKey"), None);
}

#[test]
fn set_overwrites_and_keeps_other_keys() {
    let mut m = Mem::new();
    m.set("a", "1");
    m.set("b", "2");
    m.set("A", "3");
    assert_eq!(m.get("a"), Some("3".to_string()));
    assert_eq!(m.get("b"), Some("2".to_string()));
}
