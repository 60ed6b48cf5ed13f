use hypnos::sparkle::{reply, Die, FinalResult, Roll, RollResult};

fn rolls(rolled_die: Vec<Roll>) -> RollResult {
    RollResult { rolled_die }
}

fn shimmer(initial: Die, ultimate: Die, shimmer_count: u8, value: u64) -> Roll {
    Roll::Shimmer { initial, ultimate, shimmer_count, value }
}

fn result(total: u64, effect: Die) -> FinalResult {
    FinalResult::Result { total, effect }
}

#[test]
fn shimmer_fixed_rolls_read_both_ways() {
    let r = rolls(vec![Roll::Value(1, Die::D4), Roll::Value(2, Die::D6), Roll::Value(3, Die::D8)]);
    assert_eq!(r.get_highest_effect(), result(3, Die::D8));
    assert_eq!(r.get_highest_total(), result(5, Die::D4));
    // reading the rolls does not disturb them
    assert_eq!(
        r.rolled_die,
        vec![Roll::Value(1, Die::D4), Roll::Value(2, Die::D6), Roll::Value(3, Die::D8)]
    );
    assert_eq!(r.get_highest_effect(), result(3, Die::D8));
    assert_eq!(r.get_highest_total(), result(5, Die::D4));
}

#[test]
fn shimmer_no_roll_that_counts_is_a_botch() {
    assert_eq!(rolls(vec![]).get_highest_effect(), FinalResult::Botch);
    assert_eq!(rolls(vec![]).get_highest_total(), FinalResult::Botch);
    assert!(rolls(vec![]).is_botch());
    let r = rolls(vec![Roll::Glitch(Die::D4), Roll::Glitch(Die::D10)]);
    assert!(r.is_botch());
    assert_eq!(r.get_highest_effect(), FinalResult::Botch);
    assert_eq!(r.get_highest_total(), FinalResult::Botch);
    assert!(!rolls(vec![Roll::Glitch(Die::D4), Roll::Value(2, Die::D4)]).is_botch());
}

#[test]
fn shimmer_fewer_than_three_rolls_add_up() {
    let one = rolls(vec![Roll::Value(7, Die::D8)]);
    assert_eq!(one.get_highest_effect(), result(7, Die::D4));
    assert_eq!(one.get_highest_total(), result(7, Die::D4));
    let two = rolls(vec![Roll::Value(7, Die::D8), Roll::Glitch(Die::D6), Roll::Value(2, Die::D10)]);
    assert_eq!(two.get_highest_effect(), result(9, Die::D4));
    assert_eq!(two.get_highest_total(), result(9, Die::D4));
    let with_glitches =
        rolls(vec![Roll::Glitch(Die::D10), Roll::Value(5, Die::D6), Roll::Glitch(Die::D10)]);
    assert_eq!(with_glitches.get_highest_effect(), result(5, Die::D4));
    assert_eq!(with_glitches.get_highest_total(), result(5, Die::D4));
}

#[test]
fn shimmer_effect_takes_the_weakest_of_the_biggest_dice() {
    let r = rolls(vec![Roll::Value(5, Die::D8), Roll::Value(3, Die::D8), Roll::Value(4, Die::D6)]);
    assert_eq!(r.get_highest_effect(), result(9, Die::D8));
    let r = rolls(vec![
        Roll::Value(8, Die::D8),
        Roll::Value(2, Die::D8),
        Roll::Value(6, Die::D6),
        Roll::Value(4, Die::D4),
    ]);
    assert_eq!(r.get_highest_effect(), result(14, Die::D8));
    assert_eq!(r.get_highest_total(), result(14, Die::D8));
}

#[test]
fn shimmer_total_spends_the_smaller_die_of_equal_values() {
    let r = rolls(vec![Roll::Value(4, Die::D8), Roll::Value(4, Die::D6), Roll::Value(4, Die::D4)]);
    assert_eq!(r.get_highest_total(), result(8, Die::D8));
    let r = rolls(vec![
        Roll::Value(4, Die::D4),
        Roll::Value(2, Die::D10),
        Roll::Value(4, Die::D8),
        Roll::Value(4, Die::D6),
    ]);
    assert_eq!(r.get_highest_total(), result(8, Die::D10));
    assert_eq!(r.get_highest_effect(), result(8, Die::D10));
    let r = rolls(vec![Roll::Value(3, Die::D10), Roll::Value(3, Die::D4), Roll::Value(9, Die::D10)]);
    assert_eq!(r.get_highest_total(), result(12, Die::D10));
    assert_eq!(r.get_highest_effect(), result(12, Die::D10));
}

#[test]
fn shimmer_counts_on_its_last_die() {
    let r = rolls(vec![
        shimmer(Die::D4, Die::D10, 3, 9),
        Roll::Value(5, Die::D8),
        Roll::Value(6, Die::D6),
        Roll::Value(2, Die::D4),
    ]);
    assert_eq!(r.get_highest_effect(), result(11, Die::D10));
    assert_eq!(r.get_highest_total(), result(15, Die::D8));
}

#[test]
fn shimmer_readings_do_not_depend_on_the_order() {
    let base = vec![
        Roll::Value(4, Die::D8),
        Roll::Glitch(Die::D6),
        Roll::Value(4, Die::D6),
        shimmer(Die::D4, Die::D8, 2, 6),
        Roll::Value(4, Die::D4),
        Roll::Value(2, Die::D10),
        Roll::Value(6, Die::D8),
    ];
    let effect = rolls(base.clone()).get_highest_effect();
    let total = rolls(base.clone()).get_highest_total();
    let summary = rolls(base.clone()).short_summary();
    assert_eq!(effect, result(12, Die::D10));
    assert_eq!(total, result(12, Die::D10));
    let mut turned = base.clone();
    for _ in 0..base.len() {
        turned.rotate_left(1);
        assert_eq!(rolls(turned.clone()).get_highest_effect(), effect);
        assert_eq!(rolls(turned.clone()).get_highest_total(), total);
        assert_eq!(rolls(turned.clone()).short_summary(), summary);
        let mut back = turned.clone();
        back.reverse();
        assert_eq!(rolls(back.clone()).get_highest_effect(), effect);
        assert_eq!(rolls(back.clone()).get_highest_total(), total);
        assert_eq!(rolls(back).short_summary(), summary);
    }
}

#[test]
fn shimmer_botch_summary() {
    assert_eq!(rolls(vec![Roll::Glitch(Die::D4)]).short_summary(), "**BOTCH!**");
    assert_eq!(
        rolls(vec![Roll::Glitch(Die::D4), Roll::Glitch(Die::D8), Roll::Glitch(Die::D10)])
            .short_summary(),
        "**BOTCH!**"
    );
    assert_eq!(rolls(vec![]).short_summary(), "**BOTCH!**");
}

#[test]
fn shimmer_summary_in_one_line_where_the_readings_agree() {
    let r = rolls(vec![Roll::Value(5, Die::D8), Roll::Value(3, Die::D8), Roll::Value(4, Die::D6)]);
    assert_eq!(r.short_summary(), "Total: 9 (effect d8)");
    let r = rolls(vec![Roll::Glitch(Die::D6), Roll::Value(5, Die::D6)]);
    assert_eq!(r.short_summary(), "1 Glitches!\nTotal: 5 (effect d4)");
}

#[test]
fn shimmer_summary_in_two_lines_where_the_readings_differ() {
    let r = rolls(vec![Roll::Value(1, Die::D4), Roll::Value(2, Die::D6), Roll::Value(3, Die::D8)]);
    assert_eq!(r.short_summary(), "Best effect: 3 (effect d8)\nBest total: 5 (effect d4)\n");
    // asking twice gives the same words
    assert_eq!(r.short_summary(), "Best effect: 3 (effect d8)\nBest total: 5 (effect d4)\n");
}

#[test]
fn shimmer_summary_counts_glitches_and_shimmers() {
    let r = rolls(vec![
        Roll::Glitch(Die::D4),
        shimmer(Die::D4, Die::D6, 1, 5),
        Roll::Glitch(Die::D10),
        shimmer(Die::D4, Die::D8, 2, 6),
        Roll::Value(10, Die::D10),
        shimmer(Die::D6, Die::D8, 1, 8),
    ]);
    assert_eq!(r.get_highest_effect(), result(14, Die::D10));
    assert_eq!(r.get_highest_total(), result(18, Die::D8));
    assert_eq!(
        r.short_summary(),
        "2 Glitches!\n3 Shimmers!\nBest effect: 14 (effect d10)\nBest total: 18 (effect d8)\n"
    );
}

#[test]
fn shimmer_markdown_lists_every_roll() {
    let r = rolls(vec![Roll::Value(1, Die::D4), Roll::Value(2, Die::D6), Roll::Value(3, Die::D8)]);
    assert_eq!(
        r.to_discord_markdown(),
        "1 (d4) 2 (d6) 3 (d8) \n\nBest effect: 3 (effect d8)\nBest total: 5 (effect d4)\n"
    );
    let r = rolls(vec![
        Roll::Glitch(Die::D6),
        shimmer(Die::D4, Die::D6, 1, 5),
        shimmer(Die::D4, Die::D8, 2, 6),
        Roll::Value(10, Die::D10),
    ]);
    assert_eq!(
        r.to_discord_markdown(),
        "**1** (d6) **5** (d4 shimmered up to d6) **6** (d4 shimmered **2** times up to d8) 10 (d10) \n\n1 Glitches!\n2 Shimmers!\nBest effect: 11 (effect d10)\nBest total: 16 (effect d6)\n"
    );
    assert_eq!(rolls(vec![]).to_discord_markdown(), "\n\n**BOTCH!**");
    assert_eq!(
        rolls(vec![Roll::Glitch(Die::D4), Roll::Glitch(Die::D8)]).to_discord_markdown(),
        "**1** (d4) **1** (d8) \n\n**BOTCH!**"
    );
}

#[test]
fn shimmer_reply_trims_the_rolls() {
    let r = rolls(vec![Roll::Value(1, Die::D4), Roll::Value(2, Die::D6), Roll::Value(3, Die::D8)]);
    assert_eq!(
        reply("d4 d6 d8", &r),
        "Rolling d4 d6 d8\n\nResult: 1 (d4) 2 (d6) 3 (d8) \n\nBest effect: 3 (effect d8)\nBest total: 5 (effect d4)"
    );
    assert_eq!(reply("", &rolls(vec![])), "Rolling \n\nResult: **BOTCH!**");
    assert_eq!(
        reply(" d4 ", &rolls(vec![Roll::Value(3, Die::D4)])),
        "Rolling  d4 \n\nResult: 3 (d4) \n\nTotal: 3 (effect d4)"
    );
}

#[test]
fn shimmer_reply_gives_way_to_the_summary_past_the_limit() {
    let r = rolls(vec![]);
    let at_limit = "x".repeat(1922);
    let full = reply(&at_limit, &r);
    assert_eq!(full.chars().count(), 1950);
    assert_eq!(full, format!("Rolling {}\n\nResult: **BOTCH!**", at_limit));
    let past_limit = "x".repeat(1923);
    assert_eq!(
        reply(&past_limit, &r),
        format!(
            "Roll {}?? hoo.. that's a lot. I don't wanna flood the chat here, so, uh, I'll give you the quick summary:\n\n**BOTCH!**",
            past_limit
        )
    );
    let accents = "é".repeat(1922);
    assert_eq!(reply(&accents, &r), format!("Rolling {}\n\nResult: **BOTCH!**", accents));
}

#[test]
fn shimmer_reply_to_many_rolls_is_the_summary() {
    let mut many = Vec::new();
    for _ in 0..300 {
        many.push(Roll::Value(3, Die::D6));
    }
    many.push(Roll::Glitch(Die::D4));
    assert_eq!(
        reply("300d6 d4", &rolls(many)),
        "Roll 300d6 d4?? hoo.. that's a lot. I don't wanna flood the chat here, so, uh, I'll give you the quick summary:\n\n1 Glitches!\nTotal: 6 (effect d6)"
    );
}

#[test]
fn shimmer_readings_bear_their_names() {
    let dice = [Die::D4, Die::D6, Die::D8, Die::D10];
    let mut kinds = vec![Roll::Glitch(Die::D6)];
    for die in dice {
        for value in [1, 2, die.sides() - 1, die.sides()] {
            kinds.push(Roll::Value(value, die));
        }
    }
    kinds.push(shimmer(Die::D4, Die::D8, 2, 7));
    let n = kinds.len();
    let mut seen = 0;
    for a in 0..n {
        for b in 0..n {
            for c in (0..n).step_by(3) {
                for d in (0..n).step_by(5) {
                    let r = rolls(vec![kinds[a], kinds[b], kinds[c], kinds[d]]);
                    match (r.get_highest_effect(), r.get_highest_total()) {
                        (FinalResult::Botch, FinalResult::Botch) => assert!(r.is_botch()),
                        (
                            FinalResult::Result { total: et, effect: ee },
                            FinalResult::Result { total: tt, effect: te },
                        ) => {
                            assert!(!r.is_botch());
                            assert!(et <= tt);
                            assert!(te <= ee);
                            seen += 1;
                        }
                        _ => panic!("the readings disagree on the botch"),
                    }
                }
            }
        }
    }
    assert!(seen > 1000);
}
