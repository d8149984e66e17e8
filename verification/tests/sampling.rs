use actix_erlang::sampling::get_rand;

#[test]
fn get_rand_stays_in_range() {
    for _ in 0..500 {
        let r = get_rand(3, 10);
        assert!((3..10).contains(&r));
    }
}

#[test]
fn get_rand_single_value_range() {
    assert_eq!(get_rand(5, 6), 5);
}

#[test]
fn get_rand_draws_more_than_the_low_end() {
    let mut seen_high = false;
    for _ in 0..500 {
        if get_rand(0, 2) == 1 {
            seen_high = true;
        }
    }
    assert!(seen_high);
}
