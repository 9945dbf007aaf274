use rose_data_core::party::{apply_party_xp_gain, party_level_up_need_xp, party_xp_gain};

#[test]
fn party_xp_gain_is_positive_for_equal_level_kill() {
    assert!(party_xp_gain(0, 2, 2) > 0);
}

#[test]
fn party_xp_level_up_rollover_preserves_remainder() {
    let need = party_level_up_need_xp(1) as i64;
    let (new_level, new_xp, is_level_up) = apply_party_xp_gain(1, 0, need + 5);

    assert_eq!(new_level, 2);
    assert_eq!(new_xp, 5);
    assert!(is_level_up);
}

#[test]
fn qualifying_kills_do_not_reduce_party_xp_without_level_up() {
    let mut level = 20;
    let mut xp = 10;

    for _ in 0..500 {
        let previous_level = level;
        let previous_xp = xp;

        let (new_level, new_xp, _) = apply_party_xp_gain(level, xp, 2);

        if new_level == previous_level {
            assert!(new_xp >= previous_xp);
        }

        level = new_level;
        xp = new_xp;
    }
}

#[test]
fn party_leveling_is_5x_faster_than_original() {
    let original_need = (1 + 7) * (1 + 10) * 5 + 200;
    let new_need = party_level_up_need_xp(1);
    assert!(new_need < original_need / 4);
    assert!(new_need > original_need / 6);
}

#[test]
fn party_need_xp_formula_values() {
    assert_eq!(party_level_up_need_xp(1), 128);
    assert_eq!(party_level_up_need_xp(2), (2 + 7) * (2 + 10) + 40);
}

#[test]
fn party_xp_without_level_up_adds_gain() {
    let (level, xp, up) = apply_party_xp_gain(3, 10, 7);
    assert_eq!(level, 3);
    assert_eq!(xp, 17);
    assert!(!up);
}
