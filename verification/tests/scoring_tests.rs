use tetris_engine::scoring::{b2b_mode_from_str, build_attack_stats, spin_mode_from_str};
use tetris_engine::{
    b2b_bonus_for_chain, base_attack_for_clear, classify_clear, combo_after_clear,
    combo_attack_down, is_difficult_clear, surge_segments, update_b2b_state, B2BMode, B2BUpdate,
    ComboUpdate, PieceKind, SpinMode, SpinResult,
};

fn non_empty_board() -> tetris_engine::Board {
    let mut board = [0; 400];
    board[0] = 1;
    board
}

fn t_spin_result() -> SpinResult {
    SpinResult {
        piece: PieceKind::T,
        spin_type: "t-spin",
        is_mini: false,
        is_180: false,
        kick_index: Some(0),
        rotation_dir: Some(1),
        corners: Some(3),
        front_corners: Some(2),
        description: "T-Spin".to_string(),
    }
}

#[test]
fn base_attack_for_standard_clears_matches_reference() {
    for (cleared_lines, expected) in [(1, 0), (2, 1), (3, 2), (4, 4)] {
        let (base_attack, perfect_clear) =
            base_attack_for_clear(cleared_lines, None, &non_empty_board());
        assert_eq!(base_attack, expected);
        assert!(!perfect_clear);
    }
}

#[test]
fn perfect_clear_base_attack_is_five() {
    let (base_attack, perfect_clear) = base_attack_for_clear(4, None, &[0; 400]);
    assert_eq!(base_attack, 5);
    assert!(perfect_clear);
}

#[test]
fn combo_rounding_matches_reference() {
    assert_eq!(combo_attack_down(4, 2), 6);
    assert_eq!(combo_attack_down(0, 2), 1);
    assert_eq!(combo_attack_down(0, 1), 0);
}

#[test]
fn b2b_bonus_ladder_matches_reference_thresholds() {
    assert_eq!(b2b_bonus_for_chain(2), 1);
    assert_eq!(b2b_bonus_for_chain(4), 2);
    assert_eq!(b2b_bonus_for_chain(9), 3);
    assert_eq!(b2b_bonus_for_chain(25), 4);
    assert_eq!(b2b_bonus_for_chain(68), 5);
}

#[test]
fn surge_mode_charges_and_releases_at_b2bx3() {
    assert_eq!(
        update_b2b_state(B2BMode::Surge, 4, true, 3, 0),
        B2BUpdate {
            b2b_chain: 4,
            surge_charge: 3,
            b2b_bonus: 2,
            surge_send: 0,
        }
    );
    assert_eq!(
        update_b2b_state(B2BMode::Surge, 1, false, 5, 4),
        B2BUpdate {
            b2b_chain: 0,
            surge_charge: 0,
            b2b_bonus: 0,
            surge_send: 4,
        }
    );
    assert_eq!(surge_segments(4), vec![2, 1, 1]);
}

#[test]
fn chaining_mode_disables_stored_surge() {
    assert_eq!(
        update_b2b_state(B2BMode::Chaining, 4, true, 4, 9),
        B2BUpdate {
            b2b_chain: 5,
            surge_charge: 0,
            b2b_bonus: 2,
            surge_send: 0,
        }
    );
    assert_eq!(
        update_b2b_state(B2BMode::Chaining, 1, false, 5, 9),
        B2BUpdate {
            b2b_chain: 0,
            surge_charge: 0,
            b2b_bonus: 0,
            surge_send: 0,
        }
    );
}

#[test]
fn build_attack_stats_preserves_python_payload_shape() {
    let classification = classify_clear(2, Some(&t_spin_result()), false);
    let stats = build_attack_stats(
        B2BMode::Surge,
        classification,
        false,
        2,
        true,
        3,
        1,
        0,
        0,
        4,
        6,
        2,
        Some(1.5f64.to_bits()),
        7,
    );

    assert_eq!(stats.base_attack, 4);
    assert_eq!(stats.combo_attack, 6);
    assert_eq!(stats.combo_bonus, 2);
    assert_eq!(stats.combo_multiplier_bits.map(f64::from_bits), Some(1.5));
    assert_eq!(stats.attack, 7);
    assert_eq!(stats.b2b_mode, "surge");
    assert_eq!(stats.t_spin, "N");
    assert_eq!(stats.garbage_cleared, 0);
    assert_eq!(stats.immediate_garbage, 0);
}

#[test]
fn combo_after_clear_keeps_first_clear_at_zero_combo() {
    assert_eq!(
        combo_after_clear(1, 7, false),
        ComboUpdate {
            combo: 0,
            combo_active: true,
        }
    );
    assert_eq!(
        combo_after_clear(2, 1, true),
        ComboUpdate {
            combo: 2,
            combo_active: true,
        }
    );
    assert_eq!(
        combo_after_clear(0, 9, true),
        ComboUpdate {
            combo: 0,
            combo_active: false,
        }
    );
}

#[test]
fn classify_clear_marks_spins_quads_and_perfect_clears_as_difficult() {
    let spin = classify_clear(2, Some(&t_spin_result()), false);
    assert!(spin.is_spin);
    assert!(spin.is_difficult);
    assert!(spin.qualifies_b2b);
    assert!(!spin.breaks_b2b);

    let single = classify_clear(1, None, false);
    assert!(!single.is_difficult);
    assert!(single.breaks_b2b);
    assert!(!single.qualifies_b2b);

    let quad = classify_clear(4, None, false);
    assert!(quad.is_difficult);

    let none = classify_clear(0, None, false);
    assert!(!none.breaks_b2b);
    assert!(!none.qualifies_b2b);

    assert!(is_difficult_clear(1, None, true));
    assert!(!is_difficult_clear(0, Some(&t_spin_result()), true));
}

#[test]
fn t_spin_base_attack_follows_the_spin_table() {
    let spin = t_spin_result();
    let (single, _) = base_attack_for_clear(1, Some(&spin), &non_empty_board());
    let (double, _) = base_attack_for_clear(2, Some(&spin), &non_empty_board());
    let (triple, _) = base_attack_for_clear(3, Some(&spin), &non_empty_board());
    assert_eq!(single, 2);
    assert_eq!(double, 4);
    assert_eq!(triple, 6);
    let (nothing, perfect) = base_attack_for_clear(0, None, &[0; 400]);
    assert_eq!(nothing, 0);
    assert!(!perfect);
}

#[test]
fn combo_attack_uses_the_log_ladder_without_base_attack() {
    assert_eq!(combo_attack_down(0, 6), 2);
    assert_eq!(combo_attack_down(0, 5), 1);
    assert_eq!(combo_attack_down(0, 16), 3);
    assert_eq!(combo_attack_down(2, 1), 2);
    assert_eq!(combo_attack_down(3, 3), 5);
    assert_eq!(combo_attack_down(0, -4), 0);
}

#[test]
fn b2b_bonus_has_no_bonus_before_a_streak_and_caps_at_eight() {
    assert_eq!(b2b_bonus_for_chain(0), 0);
    assert_eq!(b2b_bonus_for_chain(1), 0);
    assert_eq!(b2b_bonus_for_chain(3), 1);
    assert_eq!(b2b_bonus_for_chain(1371), 8);
    assert_eq!(b2b_bonus_for_chain(1370), 7);
    assert_eq!(b2b_bonus_for_chain(i32::MAX), 8);
}

#[test]
fn surge_segments_add_up_to_the_released_charge() {
    for total in 1..40 {
        let segments = surge_segments(total);
        assert_eq!(segments.len(), 3);
        assert_eq!(segments.iter().sum::<i32>(), total);
        assert!(segments[0] >= segments[1] && segments[1] >= segments[2]);
        assert!(segments[0] - segments[2] <= 1);
    }
    assert!(surge_segments(0).is_empty());
    assert!(surge_segments(-3).is_empty());
    assert_eq!(surge_segments(5), vec![2, 2, 1]);
}

#[test]
fn mode_names_match_their_wire_strings() {
    assert_eq!(SpinMode::AllSpin.as_str(), "all_spin");
    assert_eq!(SpinMode::TOnly.as_str(), "t_only");
    assert_eq!(B2BMode::Surge.as_str(), "surge");
    assert_eq!(B2BMode::Chaining.as_str(), "chaining");
    assert_eq!(SpinMode::default(), SpinMode::AllSpin);
    assert_eq!(B2BMode::default(), B2BMode::Surge);
}

#[test]
fn mode_names_parse_strictly() {
    assert_eq!(spin_mode_from_str("t_only"), Some(SpinMode::TOnly));
    assert_eq!(spin_mode_from_str("all_spin"), Some(SpinMode::AllSpin));
    assert_eq!(spin_mode_from_str("allspin"), None);
    assert_eq!(b2b_mode_from_str("surge"), Some(B2BMode::Surge));
    assert_eq!(b2b_mode_from_str("chaining"), Some(B2BMode::Chaining));
    assert_eq!(b2b_mode_from_str("Surge"), None);
    for mode in [SpinMode::TOnly, SpinMode::AllSpin] {
        assert_eq!(spin_mode_from_str(mode.as_str()), Some(mode));
    }
    for mode in [B2BMode::Surge, B2BMode::Chaining] {
        assert_eq!(b2b_mode_from_str(mode.as_str()), Some(mode));
    }
}

#[test]
fn combo_attack_never_drops_as_the_combo_grows() {
    for base in [-2, 0, 1, 4, 10] {
        let mut previous = combo_attack_down(base, -5);
        for combo in -4..200 {
            let next = combo_attack_down(base, combo);
            assert!(next >= previous, "base {} combo {}", base, combo);
            previous = next;
        }
    }
}
