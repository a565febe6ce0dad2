use mplug::timers::{DueTimer, Finish, TimerEntry, TimerQueue, IDLE_TIMEOUT_MS};

/// Takes every due timer at `now`, firing each (as its callback would)
/// through `on_fire`, and returns what came due in order.
fn run_due(q: &mut TimerQueue, now: u64, mut on_fire: impl FnMut(&mut TimerQueue, TimerEntry)) -> Vec<DueTimer> {
    q.expire(now);
    let mut seen = Vec::new();
    while let Some(d) = q.pop_due() {
        seen.push(d);
        if let DueTimer::Fire(e) = d {
            on_fire(q, e);
        }
    }
    seen
}

#[test]
fn cancelled_timer_id_is_reaped_from_cancelled_set() {
    let mut timers = TimerQueue::new();
    let id = timers.add(0, 0, None);
    timers.cancel(id);

    let seen = run_due(&mut timers, 0, |_, _| panic!("a cancelled timer must not fire"));

    assert_eq!(seen, vec![DueTimer::Reaped(id)]);
    assert_eq!(timers.pending(), 0);
    assert!(
        timers.cancelled_count() == 0,
        "reaping a cancelled timer must also drop its id from the cancelled set"
    );
}

#[test]
fn interval_timer_cancelled_during_callback_is_reaped() {
    let mut timers = TimerQueue::new();
    let id = timers.add(0, 0, Some(60_000));
    assert_eq!(id, 0);

    let seen = run_due(&mut timers, 0, |q, entry| {
        // The callback cancels its own timer.
        q.cancel(0);
        assert_eq!(q.finish(entry), Finish::Cancelled);
    });
    assert_eq!(seen.len(), 1);

    assert!(
        timers.pending() == 0,
        "an interval timer cancelled from its own callback must not reschedule"
    );
    assert!(
        timers.cancelled_count() == 0,
        "reaping a cancelled timer must also drop its id from the cancelled set"
    );
}

#[test]
fn timer_cancelled_by_an_earlier_callback_of_the_same_tick_does_not_fire() {
    let mut q = TimerQueue::new();
    let first = q.add(0, 5, None);
    let second = q.add(0, 10, None);
    let mut fired = Vec::new();
    let seen = run_due(&mut q, 20, |q, e| {
        fired.push(e.id);
        if e.id == first {
            q.cancel(second);
        }
        q.finish(e);
    });
    assert_eq!(fired, vec![first]);
    assert_eq!(seen[1], DueTimer::Reaped(second));
    assert_eq!(q.cancelled_count(), 0);
    assert!(!q.is_cancelled(second));
}

#[test]
fn ids_count_up_and_timers_fire_in_deadline_order() {
    let mut q = TimerQueue::new();
    let a = q.add(100, 50, None);
    let b = q.add(100, 10, None);
    let c = q.add(100, 10, None);
    assert_eq!((a, b, c), (0, 1, 2));
    assert_eq!(q.next_timeout_ms(100), 10);
    assert_eq!(q.next_timeout_ms(200), 0);
    let seen = run_due(&mut q, 110, |q, e| {
        q.finish(e);
    });
    assert_eq!(seen, vec![
        DueTimer::Fire(TimerEntry { deadline_ms: 110, id: 1, interval_ms: None }),
        DueTimer::Fire(TimerEntry { deadline_ms: 110, id: 2, interval_ms: None }),
    ]);
    assert_eq!(q.pending(), 1);
    assert_eq!(q.next_timeout_ms(110), 40);
}

#[test]
fn repeating_timer_keeps_its_period() {
    let mut q = TimerQueue::new();
    let id = q.add(1000, 100, Some(100));
    q.expire(1250);
    let due = q.pop_due();
    assert_eq!(due, Some(DueTimer::Fire(TimerEntry { deadline_ms: 1100, id, interval_ms: Some(100) })));
    assert_eq!(q.pop_due(), None);
    if let Some(DueTimer::Fire(e)) = due {
        assert_eq!(q.finish(e), Finish::Rescheduled);
    }
    // The next deadline follows the last one, not the moment it ran.
    assert_eq!(q.next_timeout_ms(1250), 0);
    q.expire(1250);
    match q.pop_due() {
        Some(DueTimer::Fire(e)) => assert_eq!(e.deadline_ms, 1200),
        other => panic!("expected a timer to fire, got {other:?}"),
    }
}

#[test]
fn one_shot_timer_is_done_and_idle_queue_waits_an_hour() {
    let mut q = TimerQueue::new();
    assert_eq!(q.next_timeout_ms(5), IDLE_TIMEOUT_MS);
    q.add(0, 0, None);
    q.expire(0);
    match q.pop_due() {
        Some(DueTimer::Fire(e)) => assert_eq!(q.finish(e), Finish::Done),
        other => panic!("expected a timer to fire, got {other:?}"),
    }
    assert_eq!(q.pending(), 0);
    assert_eq!(IDLE_TIMEOUT_MS, 3_600_000);
}
