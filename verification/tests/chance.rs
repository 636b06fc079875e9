use neuroevolution::chance::Rate;

#[test]
fn rate_takes_a_probability() {
    let rate = Rate::new(1, 5).unwrap();
    assert_eq!(rate.numerator(), 1);
    assert_eq!(rate.denominator(), 5);
    let rate = Rate::new(0, 1).unwrap();
    assert_eq!(rate.numerator(), 0);
    let rate = Rate::new(7, 7).unwrap();
    assert_eq!(rate.numerator(), 7);
    assert_eq!(rate.denominator(), 7);
    assert!(Rate::new(u32::MAX, u32::MAX).is_some());
}

#[test]
fn rate_refuses_what_is_no_probability() {
    assert!(Rate::new(0, 0).is_none());
    assert!(Rate::new(1, 0).is_none());
    assert!(Rate::new(2, 1).is_none());
    assert!(Rate::new(u32::MAX, u32::MAX - 1).is_none());
}

#[test]
fn half_is_one_in_two() {
    let rate = Rate::half();
    assert_eq!(rate.numerator(), 1);
    assert_eq!(rate.denominator(), 2);
}

#[test]
fn rate_of_zero_never_hits() {
    let rate = Rate::new(0, 3).unwrap();
    for _ in 0..10_000 {
        assert!(!rate.draw());
    }
}

#[test]
fn rate_of_one_always_hits() {
    let rate = Rate::new(3, 3).unwrap();
    for _ in 0..10_000 {
        assert!(rate.draw());
    }
}

#[test]
fn fair_coin_falls_both_ways() {
    let rate = Rate::half();
    let mut hits = 0;
    for _ in 0..10_000 {
        if rate.draw() {
            hits += 1;
        }
    }
    assert!(hits > 4_000 && hits < 6_000);
}

#[test]
fn rate_between_hits_about_as_often_as_it_says() {
    let rate = Rate::new(1, 5).unwrap();
    let mut hits = 0;
    for _ in 0..10_000 {
        if rate.draw() {
            hits += 1;
        }
    }
    assert!(hits > 1_500 && hits < 2_500);
}
