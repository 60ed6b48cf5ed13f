//! The words of a reply: counts, dice, the two readings, and the reply as a
//! whole.

use crate::text::{append_decimal, decimal, read_chars, trim, trim_bounds};
use vstd::prelude::*;
use vstd::string::*;

verus! {

/// A reply longer than this many characters gives way to the short summary.
pub const REPLY_LIMIT: usize = 1950;

/// How a die is written: a `d` and the number of its sides.
pub open spec fn die_label(sides: nat) -> Seq<char> {
    "d"@ + decimal(sides)
}

/// A count and the words that follow it; nothing for a count of zero.
pub open spec fn count_note(count: nat, words: Seq<char>) -> Seq<char> {
    if count > 0 {
        decimal(count) + words
    } else {
        Seq::empty()
    }
}

/// The two readings in words: one line where they agree in total and in
/// effect die, a line for each where they differ.
pub open spec fn readings_text(
    effect_total: nat,
    effect_sides: nat,
    total_total: nat,
    total_sides: nat,
) -> Seq<char> {
    if effect_total == total_total && effect_sides == total_sides {
        "Total: "@ + decimal(effect_total) + " (effect "@ + die_label(effect_sides) + ")"@
    } else {
        "Best effect: "@ + decimal(effect_total) + " (effect "@ + die_label(effect_sides)
            + ")\n"@ + "Best total: "@ + decimal(total_total) + " (effect "@ + die_label(
            total_sides,
        ) + ")\n"@
    }
}

/// The reply to an expression, given the rolls in full and their short
/// summary: the expression and the rolls in full, without the white space
/// around them; or, where that is longer than `REPLY_LIMIT` characters, the
/// expression and the short summary.
pub open spec fn reply_text(
    expression: Seq<char>,
    markdown: Seq<char>,
    summary: Seq<char>,
) -> Seq<char> {
    let full = "Rolling "@ + expression + "\n\nResult: "@ + trim(markdown);
    if full.len() > REPLY_LIMIT {
        "Roll "@ + expression
            + "?? hoo.. that's a lot. I don't wanna flood the chat here, so, uh, I'll give you the quick summary:\n\n"@
            + summary
    } else {
        full
    }
}

/// A die as it is written.
pub fn write_die(sides: u64) -> (text: String)
    ensures
        text@ == die_label(sides as nat),
{
    let mut text = String::from_str("d");
    append_decimal(&mut text, sides);
    text
}

/// A count and the words that follow it; nothing for a count of zero.
pub fn write_count(count: usize, words: &str) -> (text: String)
    ensures
        text@ == count_note(count as nat, words@),
{
    let mut text = String::new();
    if count > 0 {
        append_decimal(&mut text, count as u64);
        assert(text@ =~= decimal(count as nat));
        text.append(words);
    }
    text
}

/// The two readings in words.
pub fn write_readings(
    effect_total: u64,
    effect_sides: u64,
    total_total: u64,
    total_sides: u64,
) -> (text: String)
    ensures
        text@ == readings_text(
            effect_total as nat,
            effect_sides as nat,
            total_total as nat,
            total_sides as nat,
        ),
{
    if effect_total == total_total && effect_sides == total_sides {
        // There is one ideal interpretation
        let mut text = String::from_str("Total: ");
        append_decimal(&mut text, effect_total);
        text.append(" (effect ");
        text.append(write_die(effect_sides).as_str());
        text.append(")");
        text
    } else {
        let mut text = String::from_str("Best effect: ");
        append_decimal(&mut text, effect_total);
        text.append(" (effect ");
        text.append(write_die(effect_sides).as_str());
        text.append(")\n");
        text.append("Best total: ");
        append_decimal(&mut text, total_total);
        text.append(" (effect ");
        text.append(write_die(total_sides).as_str());
        text.append(")\n");
        text
    }
}

/// The reply to an expression, given the rolls in full and their short
/// summary.
pub fn write_reply(expression: &str, markdown: &str, summary: &str) -> (text: String)
    ensures
        text@ == reply_text(expression@, markdown@, summary@),
{
    let chars = read_chars(markdown);
    let (from, to) = trim_bounds(&chars, 0, chars.len());
    proof {
        assert(chars@.subrange(0, chars@.len() as int) =~= chars@);
    }
    let mut full = String::from_str("Rolling ");
    full.append(expression);
    full.append("\n\nResult: ");
    full.append(markdown.substring_char(from, to));
    if full.as_str().unicode_len() > REPLY_LIMIT {
        let mut short = String::from_str("Roll ");
        short.append(expression);
        short.append(
            "?? hoo.. that's a lot. I don't wanna flood the chat here, so, uh, I'll give you the quick summary:\n\n",
        );
        short.append(summary);
        short
    } else {
        full
    }
}

} // verus!
