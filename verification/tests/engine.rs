use hypnos::dice;
use hypnos::engine::{get_response, reply, roll, roll_with, sends_up, settle, Roll, RollResult};
use hypnos::sparkle;
use hypnos::sparkle::Die;

#[test]
fn which_faces_send_a_die_up() {
    assert!(sends_up(Die::D4, 4));
    assert!(sends_up(Die::D6, 6));
    assert!(sends_up(Die::D8, 8));
    assert!(!sends_up(Die::D10, 10));
    assert!(!sends_up(Die::D4, 3));
    assert!(!sends_up(Die::D4, 1));
    assert!(!sends_up(Die::D6, 4));
    for die in [dice::Die::D4, dice::Die::D6, dice::Die::D8, dice::Die::D10, dice::Die::D12] {
        for face in 0..14 {
            assert!(!sends_up(die, face));
        }
    }
}

#[test]
fn settling_with_the_die_above() {
    assert_eq!(settle(Die::D4, 4, Roll::Glitch(Die::D6)), Roll::Value(4, Die::D4));
    assert_eq!(
        settle(Die::D4, 4, Roll::Value(3, Die::D6)),
        Roll::Shimmer { initial: Die::D4, ultimate: Die::D6, shimmer_count: 1, value: 4 }
    );
    assert_eq!(
        settle(Die::D4, 4, Roll::Value(4, Die::D6)),
        Roll::Shimmer { initial: Die::D4, ultimate: Die::D6, shimmer_count: 1, value: 4 }
    );
    assert_eq!(
        settle(Die::D4, 4, Roll::Value(5, Die::D6)),
        Roll::Shimmer { initial: Die::D4, ultimate: Die::D6, shimmer_count: 1, value: 5 }
    );
    assert_eq!(
        settle(
            Die::D4,
            4,
            Roll::Shimmer { initial: Die::D6, ultimate: Die::D10, shimmer_count: 2, value: 8 }
        ),
        Roll::Shimmer { initial: Die::D4, ultimate: Die::D10, shimmer_count: 3, value: 8 }
    );
    assert_eq!(
        settle(
            Die::D6,
            6,
            Roll::Shimmer { initial: Die::D8, ultimate: Die::D10, shimmer_count: 1, value: 8 }
        ),
        Roll::Shimmer { initial: Die::D6, ultimate: Die::D10, shimmer_count: 2, value: 8 }
    );
}

#[test]
fn one_game_for_both_kinds_of_dice() {
    assert_eq!(roll_with(Die::D4, &vec![4, 3]), Die::D4.roll_with(&vec![4, 3]));
    assert_eq!(
        roll_with(dice::Die::D4, &vec![4, 3]),
        Some(Roll::Value(4, dice::Die::D4))
    );
    assert!(roll(dice::Die::D12).is_well_formed());
    assert!(roll(Die::D4).is_well_formed());
    let rolls: RollResult<Die> = RollResult { rolled_die: vec![Roll::Value(3, Die::D4)] };
    assert_eq!(reply("d4", &rolls), sparkle::reply("d4", &rolls));
    assert_eq!(
        get_response::<Die>(&"d12".to_string()),
        "Expected d12 to be like XdY, e.g. 3d6 or 1d8"
    );
    assert!(get_response::<dice::Die>(&"d12".to_string()).starts_with("Rolling d12\n\nResult: "));
    assert!(!dice::Roll::Glitch(dice::Die::D12).is_shimmer());
}
