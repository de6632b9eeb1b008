use pull_timer::PullTimer;

#[test]
fn timer_preserves_fifo_order() {
    let mut timer = PullTimer::new();

    timer.add(0, "testing");
    timer.add(0, "one two three");

    assert_eq!(timer.poll(), Some("testing"));
    assert_eq!(timer.poll(), Some("one two three"));
    assert_eq!(timer.poll(), None);
}

#[test]
fn timer_fires_in_order() {
    let mut timer = PullTimer::new();

    timer.add(4, "test");
    timer.add(3, "a");
    timer.add(2, "is");
    timer.add(1, "this");

    timer.update(4);

    assert_eq!(timer.poll(), Some("this"));
    assert_eq!(timer.poll(), Some("is"));
    assert_eq!(timer.poll(), Some("a"));
    assert_eq!(timer.poll(), Some("test"));
    assert_eq!(timer.poll(), None);
}

#[test]
fn timer_fires_in_time() {
    let mut timer = PullTimer::new();

    timer.add(40, 40);
    timer.add(20, 20);
    timer.add(0, 0);
    timer.add(30, 30);
    timer.add(10, 10);

    for i in 0..=41 {
        if let Some(value) = timer.poll() {
            assert_eq!(value, i);
        }
        timer.update(1);
    }
}

#[test]
fn timer_next_in() {
    let mut timer = PullTimer::new();

    timer.add(0, "hi");
    timer.add(20, "!");
    timer.add(10, "there");

    assert_eq!(timer.next_in(), Some(0));
    assert_eq!(timer.poll(), Some("hi"));

    assert_eq!(timer.next_in(), Some(10));

    timer.update(10);
    assert_eq!(timer.next_in(), Some(0));
    assert_eq!(timer.poll(), Some("there"));

    timer.update(3);
    assert_eq!(timer.next_in(), Some(7));
}

#[test]
fn timer_remove() {
    let mut timer = PullTimer::new();

    timer.add(100, "boom!");
    timer.update(50);
    assert_eq!(timer.remove("boom!"), Some(50));
    assert_eq!(timer.next_in(), None);
}

#[test]
fn timer_fires_after_remove() {
    let mut timer = PullTimer::new();

    timer.add(30, 30);
    timer.add(20, 20);
    timer.add(40, 40);
    timer.add(10, 10);
    timer.add(50, 50);

    assert_eq!(timer.remove(50), Some(50));
    assert_eq!(timer.remove(10), Some(10));

    for i in 0..=41 {
        if let Some(value) = timer.poll() {
            assert_eq!(value, i);
        }
        timer.update(1);
    }
}

#[test]
fn poll_on_empty_queue_is_idempotent() {
    let mut timer: PullTimer<&str> = PullTimer::new();

    assert_eq!(timer.poll(), None);
    assert_eq!(timer.poll(), None);
    assert_eq!(timer.next_in(), None);
}

#[test]
fn poll_before_due_is_idempotent() {
    let mut timer = PullTimer::new();

    timer.add(5, "later");
    timer.update(4);

    assert_eq!(timer.poll(), None);
    assert_eq!(timer.poll(), None);
    assert_eq!(timer.next_in(), Some(1));

    timer.update(1);
    assert_eq!(timer.poll(), Some("later"));
}

#[test]
fn update_zero_changes_nothing() {
    let mut timer = PullTimer::new();

    timer.add(3, "b");
    timer.add(1, "a");
    timer.update(0);

    assert_eq!(timer.next_in(), Some(1));

    timer.update(1);
    timer.update(0);
    assert_eq!(timer.poll(), Some("a"));
    assert_eq!(timer.next_in(), Some(2));

    timer.update(2);
    assert_eq!(timer.poll(), Some("b"));
    assert_eq!(timer.poll(), None);
}

#[test]
fn remove_of_absent_event_leaves_queue() {
    let mut timer = PullTimer::new();

    timer.add(10, "keep");
    assert_eq!(timer.remove("gone"), None);
    assert_eq!(timer.next_in(), Some(10));

    timer.update(10);
    assert_eq!(timer.poll(), Some("keep"));
}

#[test]
fn remove_takes_only_the_earliest_match() {
    let mut timer = PullTimer::new();

    timer.add(10, "twin");
    timer.add(30, "twin");

    assert_eq!(timer.remove("twin"), Some(10));

    timer.update(30);
    assert_eq!(timer.poll(), Some("twin"));
    assert_eq!(timer.poll(), None);
}

#[test]
fn remove_of_front_restores_follower_deadline() {
    let mut timer = PullTimer::new();

    timer.add(10, "first");
    timer.add(20, "second");

    assert_eq!(timer.remove("first"), Some(10));
    assert_eq!(timer.next_in(), Some(20));
}

#[test]
fn add_before_pending_entry_preserves_its_deadline() {
    let mut timer = PullTimer::new();

    timer.add(10, "late");
    timer.add(0, "now");

    assert_eq!(timer.poll(), Some("now"));
    assert_eq!(timer.next_in(), Some(10));
}

#[test]
fn update_overshoot_zeroes_every_gap() {
    let mut timer = PullTimer::new();

    timer.add(5, "a");
    timer.add(10, "b");
    timer.update(100);

    assert_eq!(timer.next_in(), Some(0));
    assert_eq!(timer.poll(), Some("a"));
    assert_eq!(timer.poll(), Some("b"));
    assert_eq!(timer.poll(), None);
}

#[test]
fn update_spanning_entries_shifts_deadlines_uniformly() {
    let mut timer = PullTimer::new();

    timer.add(3, "a");
    timer.add(8, "b");

    timer.update(4);

    assert_eq!(timer.poll(), Some("a"));
    assert_eq!(timer.next_in(), Some(4));
    assert_eq!(timer.poll(), None);

    timer.update(4);
    assert_eq!(timer.poll(), Some("b"));
}

#[test]
fn split_advance_equals_single_advance() {
    let mut stepped = PullTimer::new();
    let mut jumped = PullTimer::new();

    for timer in [&mut stepped, &mut jumped] {
        timer.add(3, "a");
        timer.add(8, "b");
        timer.add(8, "c");
    }

    stepped.update(3);
    stepped.update(1);
    jumped.update(4);

    for timer in [&mut stepped, &mut jumped] {
        assert_eq!(timer.poll(), Some("a"));
        assert_eq!(timer.next_in(), Some(4));
        timer.update(4);
        assert_eq!(timer.poll(), Some("b"));
        assert_eq!(timer.poll(), Some("c"));
        assert_eq!(timer.poll(), None);
    }
}

#[test]
fn largest_deadline_fires_after_full_wait() {
    let mut timer = PullTimer::new();

    timer.add(u32::MAX, "patience");

    timer.update(u32::MAX - 1);
    assert_eq!(timer.next_in(), Some(1));
    assert_eq!(timer.poll(), None);

    timer.update(1);
    assert_eq!(timer.poll(), Some("patience"));
}
