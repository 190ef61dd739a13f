use clis::learn::schedule::next_interval_days;


#[test]
fn score_5_doubles_interval() {
    assert_eq!(next_interval_days(5, 3), 6);
}

#[test]
fn score_4_multiplies_by_1_5() {
    assert_eq!(next_interval_days(4, 4), 6);
}

#[test]
fn score_3_keeps_same() {
    assert_eq!(next_interval_days(3, 5), 5);
}

#[test]
fn score_below_3_resets_to_1() {
    assert_eq!(next_interval_days(2, 10), 1);
    assert_eq!(next_interval_days(1, 10), 1);
    assert_eq!(next_interval_days(0, 10), 1);
}

#[test]
fn minimum_interval_is_1() {
    assert_eq!(next_interval_days(5, 0), 2);
    assert_eq!(next_interval_days(3, 0), 1);
}

