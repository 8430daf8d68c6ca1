use roll::{resolve_unit, roll_dice, total_kept, DiceRequest, RollMode, RollResult};

#[test]
fn resolve_normal_keeps_first_draw() {
    let res = resolve_unit(20, RollMode::Normal, 7, 7);
    assert_eq!(res.kept, 7);
    assert_eq!(res.dropped, None);
    assert_eq!(res.sides, 20);
    assert_eq!(res.mode, RollMode::Normal);
}

#[test]
fn resolve_advantage_keeps_larger() {
    let res = resolve_unit(20, RollMode::Advantage, 3, 17);
    assert_eq!(res.kept, 17);
    assert_eq!(res.dropped, Some(3));
    let res = resolve_unit(20, RollMode::Advantage, 17, 3);
    assert_eq!(res.kept, 17);
    assert_eq!(res.dropped, Some(3));
}

#[test]
fn resolve_disadvantage_keeps_smaller() {
    let res = resolve_unit(20, RollMode::Disadvantage, 3, 17);
    assert_eq!(res.kept, 3);
    assert_eq!(res.dropped, Some(17));
    let res = resolve_unit(20, RollMode::Disadvantage, 17, 3);
    assert_eq!(res.kept, 3);
    assert_eq!(res.dropped, Some(17));
}

#[test]
fn rolled_outcomes_stay_in_range() {
    let requests = vec![
        DiceRequest {
            count: 50,
            sides: 6,
            mode: RollMode::Normal,
        },
        DiceRequest {
            count: 50,
            sides: 6,
            mode: RollMode::Advantage,
        },
        DiceRequest {
            count: 50,
            sides: 6,
            mode: RollMode::Disadvantage,
        },
    ];
    let outcomes = roll_dice(&requests);
    assert_eq!(outcomes.len(), 150);
    for (j, res) in outcomes.iter().enumerate() {
        assert_eq!(res.sides, 6);
        assert!(1 <= res.kept && res.kept <= 6);
        match res.mode {
            RollMode::Normal => {
                assert!(j < 50);
                assert_eq!(res.dropped, None);
            }
            RollMode::Advantage => {
                assert!((50..100).contains(&j));
                let d = res.dropped.unwrap();
                assert!(1 <= d && d <= 6);
                assert!(d <= res.kept);
            }
            RollMode::Disadvantage => {
                assert!(j >= 100);
                let d = res.dropped.unwrap();
                assert!(1 <= d && d <= 6);
                assert!(d >= res.kept);
            }
        }
    }
}

#[test]
fn one_sided_die_always_rolls_one() {
    let requests = vec![DiceRequest {
        count: 10,
        sides: 1,
        mode: RollMode::Advantage,
    }];
    let outcomes = roll_dice(&requests);
    assert_eq!(outcomes.len(), 10);
    for res in &outcomes {
        assert_eq!(res.kept, 1);
        assert_eq!(res.dropped, Some(1));
    }
}

#[test]
fn total_sums_kept_values_only() {
    let results = vec![
        RollResult {
            sides: 6,
            mode: RollMode::Normal,
            kept: 4,
            dropped: None,
        },
        RollResult {
            sides: 20,
            mode: RollMode::Advantage,
            kept: 17,
            dropped: Some(3),
        },
        RollResult {
            sides: 10,
            mode: RollMode::Disadvantage,
            kept: 2,
            dropped: Some(9),
        },
    ];
    assert_eq!(total_kept(&results), 23);
}

#[test]
fn total_of_no_outcomes_is_zero() {
    assert_eq!(total_kept(&Vec::new()), 0);
}
