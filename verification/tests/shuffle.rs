use wasm_ulmo_map::Shuffle;

#[test]
fn low_strip_first_when_more_is_left_than_has_crossed() {
    let shuffle = Shuffle::get_shuffle(12, 4);
    assert_eq!(shuffle.first(), (0, -2));
    assert_eq!(shuffle.second(), (1, 2));
}

#[test]
fn high_strip_first_when_less_is_left_than_has_crossed() {
    let shuffle = Shuffle::get_shuffle(4, 12);
    assert_eq!(shuffle.first(), (1, 2));
    assert_eq!(shuffle.second(), (0, -2));
}

#[test]
fn low_strip_first_on_a_tie() {
    let shuffle = Shuffle::get_shuffle(8, 8);
    assert_eq!(shuffle.first(), (0, -2));
    assert_eq!(shuffle.second(), (1, 2));
}

#[test]
fn shuffle_with_extreme_distances() {
    let shuffle = Shuffle::get_shuffle(i32::MAX, i32::MIN);
    assert_eq!(shuffle.first(), (0, -2));
    let shuffle = Shuffle::get_shuffle(i32::MIN, i32::MAX);
    assert_eq!(shuffle.first(), (1, 2));
    let shuffle = Shuffle::get_shuffle(1, 0);
    assert_eq!(shuffle.first(), (0, -2));
    let shuffle = Shuffle::get_shuffle(0, 1);
    assert_eq!(shuffle.first(), (1, 2));
}

#[test]
fn the_two_trials_are_opposite() {
    for (min_diff, max_diff) in [(1, 15), (15, 1), (8, 8), (16, 0), (20, -3)] {
        let shuffle = Shuffle::get_shuffle(min_diff, max_diff);
        let (index1, shuffle1) = shuffle.first();
        let (index2, shuffle2) = shuffle.second();
        assert_eq!(index1 + index2, 1);
        assert_eq!(shuffle1 + shuffle2, 0);
        assert_eq!(shuffle1.abs(), 2);
        // the correction points towards the strip
        assert_eq!(shuffle1 > 0, index1 == 1);
    }
}
