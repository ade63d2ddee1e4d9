use lazysom::helpers::{reset_scroll_id_counter, ScrollIdCounter};

#[test]
fn scroll_ids_count_up_and_restart_each_frame() {
    let mut c = ScrollIdCounter::new();
    assert_eq!(c.next_id(), 0);
    assert_eq!(c.next_id(), 1);
    assert_eq!(c.next_id(), 2);
    reset_scroll_id_counter(&mut c);
    assert_eq!(c.next_id(), 0);
    assert_eq!(c.next_id(), 1);
}
