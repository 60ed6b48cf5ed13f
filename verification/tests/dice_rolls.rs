use hypnos::dice::{reply, CortexResult, DiceRollRequest, Die, Roll, RollResult};

fn rolls(rolled_die: Vec<Roll>) -> RollResult {
    RollResult { rolled_die }
}

fn result(total: u64, effect: Die) -> CortexResult {
    CortexResult::Result { total, effect }
}

#[test]
fn plain_faces_and_what_they_come_to() {
    assert_eq!(Die::D6.roll_with(&vec![1]), Some(Roll::Glitch(Die::D6)));
    assert_eq!(Die::D6.roll_with(&vec![2]), Some(Roll::Value(2, Die::D6)));
    assert_eq!(Die::D6.roll_with(&vec![6]), Some(Roll::Value(6, Die::D6)));
    assert_eq!(Die::D12.roll_with(&vec![12]), Some(Roll::Value(12, Die::D12)));
    assert_eq!(Die::D6.roll_with(&vec![0]), None);
    assert_eq!(Die::D6.roll_with(&vec![7]), None);
    assert_eq!(Die::D12.roll_with(&vec![13]), None);
    assert_eq!(Die::D6.roll_with(&vec![]), None);
    assert_eq!(Die::D6.roll_with(&vec![6, 1]), Some(Roll::Value(6, Die::D6)));
    assert_eq!(Die::D4.roll_with(&vec![4, 5]), Some(Roll::Value(4, Die::D4)));
}

fn check_roll(die: Die, roll: Roll) {
    match roll {
        Roll::Glitch(on) => assert_eq!(on, die),
        Roll::Value(value, on) => {
            assert_eq!(on, die);
            assert!(2 <= value && value <= die.sides());
        }
        Roll::Shimmer { .. } => panic!("a plain die shimmered"),
    }
}

#[test]
fn plain_rolls_are_rolls_of_the_die() {
    for die in [Die::D4, Die::D6, Die::D8, Die::D10, Die::D12] {
        for _ in 0..2000 {
            check_roll(die, die.roll());
        }
    }
}

#[test]
fn plain_rolls_are_not_always_the_highest_face() {
    let mut below = 0;
    let mut glitches = 0;
    for _ in 0..4000 {
        match Die::D12.roll() {
            Roll::Value(value, _) => {
                if value < 12 {
                    below += 1
                }
            }
            Roll::Glitch(_) => glitches += 1,
            Roll::Shimmer { .. } => panic!("a plain die shimmered"),
        }
    }
    assert!(below > 0);
    assert!(glitches > 0);
}

#[test]
fn plain_request_rolls_each_die_in_order() {
    let request = DiceRollRequest { dice: vec![Die::D4, Die::D12, Die::D6, Die::D6] };
    let dice = request.dice.clone();
    let result = request.roll();
    assert_eq!(result.rolled_die.len(), dice.len());
    for (die, roll) in dice.iter().zip(result.rolled_die.iter()) {
        check_roll(*die, *roll);
    }
}

#[test]
fn plain_fixed_rolls_read_both_ways() {
    let r = rolls(vec![Roll::Value(1, Die::D4), Roll::Value(2, Die::D6), Roll::Value(3, Die::D8)]);
    assert_eq!(r.get_highest_effect(), result(3, Die::D8));
    assert_eq!(r.get_highest_total(), result(5, Die::D4));
    assert_eq!(r.get_highest_effect(), result(3, Die::D8));
}

#[test]
fn plain_readings_with_a_twelve_sided_die() {
    let r = rolls(vec![
        Roll::Value(12, Die::D12),
        Roll::Value(3, Die::D12),
        Roll::Glitch(Die::D12),
        Roll::Value(9, Die::D10),
        Roll::Value(9, Die::D8),
    ]);
    assert_eq!(r.get_highest_effect(), result(21, Die::D12));
    assert_eq!(r.get_highest_total(), result(21, Die::D12));
    assert!(!r.is_botch());
    assert!(Roll::Glitch(Die::D12).is_glitch());
    assert!(!Roll::Value(2, Die::D12).is_glitch());
}

#[test]
fn plain_botch() {
    assert!(rolls(vec![]).is_botch());
    assert_eq!(rolls(vec![]).get_highest_effect(), CortexResult::Botch);
    assert_eq!(rolls(vec![Roll::Glitch(Die::D12)]).get_highest_total(), CortexResult::Botch);
    assert_eq!(
        rolls(vec![Roll::Glitch(Die::D12), Roll::Glitch(Die::D4)]).short_summary(),
        "**BOTCH!**"
    );
}

#[test]
fn plain_readings_do_not_depend_on_the_order() {
    let base = vec![
        Roll::Value(4, Die::D8),
        Roll::Glitch(Die::D6),
        Roll::Value(4, Die::D6),
        Roll::Value(4, Die::D4),
        Roll::Value(2, Die::D12),
        Roll::Value(4, Die::D12),
    ];
    let effect = rolls(base.clone()).get_highest_effect();
    let total = rolls(base.clone()).get_highest_total();
    let summary = rolls(base.clone()).short_summary();
    assert_eq!(effect, result(8, Die::D12));
    assert_eq!(total, result(8, Die::D12));
    assert_eq!(summary, "1 Glitches!\nTotal: 8 (effect d12)");
    let mut turned = base.clone();
    for _ in 0..base.len() {
        turned.rotate_left(1);
        assert_eq!(rolls(turned.clone()).get_highest_effect(), effect);
        assert_eq!(rolls(turned.clone()).get_highest_total(), total);
        assert_eq!(rolls(turned.clone()).short_summary(), summary);
    }
}

#[test]
fn plain_summary_and_markdown() {
    let r = rolls(vec![Roll::Value(1, Die::D4), Roll::Value(2, Die::D6), Roll::Value(3, Die::D8)]);
    assert_eq!(r.short_summary(), "Best effect: 3 (effect d8)\nBest total: 5 (effect d4)\n");
    assert_eq!(
        r.to_discord_markdown(),
        "1 (d4) 2 (d6) 3 (d8) \n\nBest effect: 3 (effect d8)\nBest total: 5 (effect d4)\n"
    );
    let r = rolls(vec![Roll::Glitch(Die::D12), Roll::Value(11, Die::D12), Roll::Glitch(Die::D4)]);
    assert_eq!(r.short_summary(), "2 Glitches!\nTotal: 11 (effect d4)");
    assert_eq!(
        r.to_discord_markdown(),
        "**1** (d12) 11 (d12) **1** (d4) \n\n2 Glitches!\nTotal: 11 (effect d4)"
    );
    assert_eq!(rolls(vec![]).to_discord_markdown(), "\n\n**BOTCH!**");
}

#[test]
fn plain_reply() {
    let r = rolls(vec![Roll::Value(1, Die::D4), Roll::Value(2, Die::D6), Roll::Value(3, Die::D8)]);
    assert_eq!(
        reply("d4 d6 d8", &r),
        "Rolling d4 d6 d8\n\nResult: 1 (d4) 2 (d6) 3 (d8) \n\nBest effect: 3 (effect d8)\nBest total: 5 (effect d4)"
    );
    let mut many = Vec::new();
    for _ in 0..300 {
        many.push(Roll::Value(12, Die::D12));
    }
    assert_eq!(
        reply("300d12", &rolls(many)),
        "Roll 300d12?? hoo.. that's a lot. I don't wanna flood the chat here, so, uh, I'll give you the quick summary:\n\nTotal: 24 (effect d12)"
    );
}
