use chim_compiler::stdlib::collections::{LinkedList, Queue, Stack, Vec as IntVec};
use chim_compiler::stdlib::time::{Duration, Time, TimeZone};

#[test]
fn time_utc_weekday_and_text() {
    let t = Time::utc(2024, 1, 1, 12, 30, 45);
    assert_eq!(t.weekday(), 0);
    assert_eq!(t.year(), 2024);
    assert_eq!(t.millis(), 0);
    assert_eq!(t.to_string(), "2024-01-01 12:30:45");
    assert_eq!(t.to_iso8601(), "2024-01-01T12:30:45.000Z");
    assert_eq!(t.to_rfc2822(), "Mon, 01 Jan 2024 12:30:45 +0000");
}

#[test]
fn time_weekday_of_other_dates() {
    // 2000-02-29 was a Tuesday, 1970-01-01 a Thursday.
    assert_eq!(Time::utc(2000, 2, 29, 0, 0, 0).weekday(), 1);
    assert_eq!(Time::utc(1970, 1, 1, 0, 0, 0).weekday(), 3);
    assert_eq!(Time::utc(1970, 1, 1, 0, 0, 0).to_rfc2822(), "Thu, 01 Jan 1970 00:00:00 +0000");
}

#[test]
fn duration_constructors_and_parts() {
    assert_eq!(Duration::from_secs(2).millis(), 2000);
    assert_eq!(Duration::from_mins(2).millis(), 120000);
    assert_eq!(Duration::from_hours(1).millis(), 3600000);
    assert_eq!(Duration::from_days(1).millis(), 86400000);
    let d = Duration::from_millis(3723004);
    assert_eq!(d.secs(), 3723);
    assert_eq!(d.mins(), 62);
    assert_eq!(d.hours(), 1);
    assert_eq!(d.days(), 0);
    assert_eq!(d.subsec_millis(), 4);
    assert_eq!(d.subsec_micros(), 4000);
    assert_eq!(Duration::zero().millis(), 0);
}

#[test]
fn duration_arithmetic() {
    let a = Duration::from_millis(1500);
    let b = Duration::from_millis(2000);
    assert_eq!(a.checked_add(&b).map(|d| d.millis()), Some(3500));
    assert_eq!(a.checked_sub(&b).map(|d| d.millis()), None);
    assert_eq!(b.checked_sub(&a).map(|d| d.millis()), Some(500));
    assert_eq!(a.mul(3).millis(), 4500);
    assert_eq!(a.div(2).millis(), 750);
    assert_eq!(Duration::from_millis(-7).div(2).millis(), -3);
    assert_eq!(Duration::from_millis(7).div(-2).millis(), -3);
}

#[test]
fn duration_text_forms() {
    assert_eq!(Duration::from_millis(1500).to_string(), "1.500s");
    assert_eq!(Duration::from_millis(61000).to_string(), "1m 01.000s");
    assert_eq!(Duration::from_millis(3723004).to_string(), "1h 02m 03.004s");
    assert_eq!(Duration::from_millis(90000000).to_string(), "1d 01h 00m");
    assert_eq!(Duration::from_millis(-1500).to_string(), "-1.-500s");
}

#[test]
fn time_zone_names() {
    let utc = TimeZone::utc();
    assert_eq!(utc.name(), "UTC");
    assert_eq!(utc.offset_hours(), 0);
    let east = TimeZone::from_offset(8);
    assert_eq!(east.name(), "UTC+8");
    assert_eq!(east.offset_secs(), 28800);
    assert_eq!(TimeZone::from_offset(-5).name(), "UTC-5");
}

#[test]
fn int_vec_push_pop_keeps_slots() {
    let mut v = IntVec::new();
    assert!(v.is_empty());
    v.push(1);
    v.push(2);
    v.push(3);
    assert_eq!(v.len(), 3);
    assert_eq!(v.pop(), 3);
    assert_eq!(v.len(), 2);
    // the popped slot is still there until overwritten
    assert_eq!(v.get(2), 3);
    v.push(9);
    assert_eq!(v.get(2), 9);
    v.set(0, 7);
    assert_eq!(v.get(0), 7);
    v.clear();
    assert_eq!(v.len(), 0);
    assert_eq!(v.get(1), 2);
}

#[test]
fn stack_is_last_in_first_out() {
    let mut s = Stack::new();
    s.push(1);
    s.push(2);
    assert_eq!(s.peek(), 2);
    assert_eq!(s.len(), 2);
    assert_eq!(s.pop(), 2);
    assert_eq!(s.pop(), 1);
    assert!(s.is_empty());
}

#[test]
fn queue_is_first_in_first_out() {
    let mut q = Queue::new();
    for k in 1..=5 {
        q.enqueue(k);
    }
    assert_eq!(q.dequeue(), 1);
    assert_eq!(q.dequeue(), 2);
    assert_eq!(q.dequeue(), 3);
    q.enqueue(6);
    assert_eq!(q.len(), 3);
    assert_eq!(q.dequeue(), 4);
    assert_eq!(q.dequeue(), 5);
    assert_eq!(q.dequeue(), 6);
    assert!(q.is_empty());
}

#[test]
fn linked_list_front_and_back() {
    let mut l = LinkedList::new();
    assert!(l.is_empty());
    l.push_back(2);
    l.push_front(1);
    l.push_back(3);
    assert_eq!(l.len(), 3);
    assert_eq!(l.pop_front(), 1);
    assert_eq!(l.pop_front(), 2);
    assert_eq!(l.pop_front(), 3);
    assert!(l.is_empty());
}
