use mutex_implementation::spin_mutex::Mutex;

#[test]
fn construction_read_back() {
    // a cell created with a value hands that value to the first reader
    let mut cell = Mutex::new(7u64);
    let seen = cell.tec_lock(|d: &mut u64| *d);
    assert_eq!(seen, 7);
}

#[test]
fn tec_lock_returns_logic_result() {
    let mut cell = Mutex::new(10u64);
    let doubled = cell.tec_lock(|d: &mut u64| {
        *d = *d + 1;
        *d * 2
    });
    assert_eq!(doubled, 22);
    let seen = cell.tec_lock(|d: &mut u64| *d);
    assert_eq!(seen, 11);
}

#[test]
fn write_of_one_invocation_is_seen_by_the_next() {
    let mut cell = Mutex::new(0u64);
    for expected in 0..100u64 {
        let seen = cell.tec_lock(|d: &mut u64| {
            let was = *d;
            *d = was + 1;
            was
        });
        assert_eq!(seen, expected);
    }
    let total = cell.tec_lock(|d: &mut u64| *d);
    assert_eq!(total, 100);
}

#[test]
fn arbitrary_payload_type() {
    let mut cell = Mutex::new(String::from("spin"));
    cell.tec_lock(|s: &mut String| s.push_str(" lock"));
    let out = cell.tec_lock(|s: &mut String| s.clone());
    assert_eq!(out, "spin lock");
}

#[test]
fn compare_and_swap_protocol() {
    let mut cell = Mutex::new(5u32);
    // the first attempt takes the flag, the second finds it held
    assert!(cell.try_acquire());
    assert!(!cell.try_acquire());
    assert_eq!(*cell.read_locked(), 5);
    cell.write_locked(6);
    assert_eq!(*cell.read_locked(), 6);
    // releasing makes the flag free for the next attempt
    cell.release();
    assert!(cell.try_acquire());
    assert_eq!(*cell.read_locked(), 6);
    cell.release();
}
