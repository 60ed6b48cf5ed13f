//! Dice notation: `3d6 d8 10` asks for three six-sided dice, one eight-sided
//! die and one ten-sided die.
//!
//! An expression is a text of words that white space keeps apart. A word is
//! a number, which asks for one die with that many sides, or a count (one,
//! where it is left out), the letter `d`, and the number of sides. Numbers
//! are written in decimal digits and nothing else. The dice of a game have an
//! even number of sides, from 4 up to the largest die of the game.

use crate::text::{
    is_number, is_space, is_space_char, lead, lemma_lead, lemma_lead_is, number, number_at,
    read_chars, saturated, trim, trim_bounds,
};
use vstd::prelude::*;
use vstd::string::*;

verus! {

/// No word may ask for more dice than this.
pub const MAX_COUNT: u64 = 1_000_000;

/// What one word asks for: so many dice with so many sides.
#[derive(Clone, Copy, Debug, PartialEq, Eq, Structural)]
pub struct Counted {
    pub count: u64,
    pub sides: u64,
}

/// The length of the word that `s` starts with.
pub open spec fn word_len(s: Seq<char>) -> nat {
    lead(s, |c: char| is_space(c))
}

/// How many characters stand before the first `d`.
pub open spec fn before_d(s: Seq<char>) -> nat {
    lead(s, |c: char| c == 'd')
}

/// The words of a text: the longest runs of characters that are not white
/// space, in the order they stand in.
pub open spec fn words(s: Seq<char>) -> Seq<Seq<char>>
    decreases s.len(),
{
    if s.len() == 0 {
        Seq::empty()
    } else if is_space(s[0]) {
        words(s.drop_first())
    } else {
        proof {
            lemma_lead(s, |c: char| is_space(c));
        }
        seq![s.take(word_len(s) as int)] + words(s.skip(word_len(s) as int))
    }
}

/// The count and the number of sides that a word states, whatever the dice
/// of the game are. White space around the word, and around either number,
/// does not count.
pub open spec fn shape(word: Seq<char>) -> Option<(nat, nat)> {
    let d = before_d(word) as int;
    let count = trim(word.take(d));
    let sides = trim(word.skip(d + 1));
    if is_number(trim(word)) {
        Some((1nat, number(trim(word))))
    } else if d == word.len() || !is_number(sides) {
        None
    } else if count.len() == 0 {
        Some((1nat, number(sides)))
    } else if is_number(count) {
        Some((number(count), number(sides)))
    } else {
        None
    }
}

/// A die with so many sides is one of the game whose largest die has
/// `largest` sides.
pub open spec fn allowed(sides: nat, largest: nat) -> bool {
    4 <= sides <= largest && sides % 2 == 0
}

/// What a word asks for, where it is well formed and names a die of the
/// game. A count beyond what a `u64` holds stands as the largest `u64`.
pub open spec fn request_of(word: Seq<char>, largest: nat) -> Option<Counted> {
    match shape(word) {
        Some((count, sides)) => if allowed(sides, largest) {
            Some(Counted { count: saturated(count), sides: sides as u64 })
        } else {
            None
        },
        None => None,
    }
}

/// The complaint about a word that is not well formed, or names no die of
/// the game.
pub open spec fn malformed(word: Seq<char>) -> Seq<char> {
    "Expected "@ + word + " to be like XdY, e.g. 3d6 or 1d8"@
}

/// The complaint about a word that asks for more than `MAX_COUNT` dice.
pub open spec fn too_many() -> Seq<char> {
    "Hey buddy, I'm just a demigod, that's too many dice!"@
}

/// What the words ask for, one after the other; or the complaint about the
/// first word that cannot be granted.
pub open spec fn requests_of(words: Seq<Seq<char>>, largest: nat) -> Result<
    Seq<Counted>,
    Seq<char>,
>
    decreases words.len(),
{
    if words.len() == 0 {
        Ok(Seq::empty())
    } else {
        match request_of(words[0], largest) {
            None => Err(malformed(words[0])),
            Some(request) => if request.count > MAX_COUNT {
                Err(too_many())
            } else {
                match requests_of(words.drop_first(), largest) {
                    Ok(rest) => Ok(seq![request] + rest),
                    Err(complaint) => Err(complaint),
                }
            },
        }
    }
}

/// How many dice the requests ask for in all.
pub open spec fn dice_asked(requests: Seq<Counted>) -> nat
    decreases requests.len(),
{
    if requests.len() == 0 {
        0
    } else {
        dice_asked(requests.drop_last()) + requests.last().count as nat
    }
}

/// The word can be granted: it is well formed, names a die of the game, and
/// asks for no more than `MAX_COUNT` dice.
pub open spec fn granted(word: Seq<char>, largest: nat) -> bool {
    request_of(word, largest) matches Some(request) && request.count <= MAX_COUNT
}

/// A word can be granted just when it states a die of the game and a count of
/// no more than `MAX_COUNT`: so many dice exactly are still granted.
pub proof fn lemma_granted(word: Seq<char>, largest: nat)
    ensures
        granted(word, largest) <==> (shape(word) matches Some((count, sides)) && allowed(
            sides,
            largest,
        ) && count <= MAX_COUNT),
{
}

/// Where every word can be granted, the requests are what the words ask
/// for, one for each word, in their order.
pub proof fn lemma_all_granted(words: Seq<Seq<char>>, largest: nat)
    requires
        forall|j: int| 0 <= j < words.len() ==> granted(#[trigger] words[j], largest),
    ensures
        requests_of(words, largest) matches Ok(requests) && requests.len() == words.len()
            && forall|j: int|
            0 <= j < words.len() ==> Some(#[trigger] requests[j]) == request_of(words[j], largest),
    decreases words.len(),
{
    if words.len() > 0 {
        let rest = words.drop_first();
        assert(granted(words[0], largest));
        assert forall|j: int| 0 <= j < rest.len() implies granted(#[trigger] rest[j], largest) by {
            assert(rest[j] == words[j + 1]);
        }
        lemma_all_granted(rest, largest);
        let first = request_of(words[0], largest)->0;
        let others = requests_of(rest, largest)->Ok_0;
        let requests = seq![first] + others;
        assert forall|j: int| 0 <= j < words.len() implies Some(#[trigger] requests[j])
            == request_of(words[j], largest) by {
            if j > 0 {
                assert(requests[j] == others[j - 1]);
                assert(rest[j - 1] == words[j]);
            }
        }
    }
}

/// The first word that cannot be granted decides the reading. Where it is
/// not well formed or names no die of the game, the complaint names it. Where
/// it asks for more than `MAX_COUNT` dice, the complaint says so; a word that
/// asks for exactly `MAX_COUNT` dice is granted.
pub proof fn lemma_first_refusal(words: Seq<Seq<char>>, largest: nat, at: int)
    requires
        0 <= at < words.len(),
        forall|j: int| 0 <= j < at ==> granted(#[trigger] words[j], largest),
        !granted(words[at], largest),
    ensures
        requests_of(words, largest) == match shape(words[at]) {
            Some((count, sides)) => if allowed(sides, largest) && count > MAX_COUNT {
                Err::<Seq<Counted>, Seq<char>>(too_many())
            } else {
                Err(malformed(words[at]))
            },
            None => Err(malformed(words[at])),
        },
    decreases at,
{
    if at > 0 {
        let rest = words.drop_first();
        assert(granted(words[0], largest));
        assert forall|j: int| 0 <= j < at - 1 implies granted(#[trigger] rest[j], largest) by {
            assert(rest[j] == words[j + 1]);
        }
        assert(rest[at - 1] == words[at]);
        lemma_first_refusal(rest, largest, at - 1);
    }
}

/// Every request of a reading is what its word asks for, names a die of the
/// game, and asks for no more than `MAX_COUNT` dice.
pub proof fn lemma_requests_are_granted(words: Seq<Seq<char>>, largest: nat)
    requires
        largest <= u64::MAX,
    ensures
        requests_of(words, largest) matches Ok(requests) ==> requests.len() == words.len()
            && forall|k: int|
            0 <= k < requests.len() ==> {
                &&& Some(#[trigger] requests[k]) == request_of(words[k], largest)
                &&& allowed(requests[k].sides as nat, largest)
                &&& requests[k].count <= MAX_COUNT
            },
    decreases words.len(),
{
    if words.len() > 0 {
        let rest = words.drop_first();
        lemma_requests_are_granted(rest, largest);
        if requests_of(words, largest) is Ok {
            let first = request_of(words[0], largest)->0;
            let others = requests_of(rest, largest)->Ok_0;
            let requests = seq![first] + others;
            assert forall|k: int| 0 <= k < requests.len() implies {
                &&& Some(#[trigger] requests[k]) == request_of(words[k], largest)
                &&& allowed(requests[k].sides as nat, largest)
                &&& requests[k].count <= MAX_COUNT
            } by {
                if k > 0 {
                    assert(requests[k] == others[k - 1]);
                    assert(rest[k - 1] == words[k]);
                }
            }
        }
    }
}

/// Where the words of a text begin and end.
pub fn word_bounds(chars: &Vec<char>) -> (bounds: Vec<(usize, usize)>)
    ensures
        bounds@.len() == words(chars@).len(),
        forall|k: int|
            0 <= k < bounds@.len() ==> {
                &&& (#[trigger] bounds@[k]).0 <= bounds@[k].1 <= chars@.len()
                &&& chars@.subrange(bounds@[k].0 as int, bounds@[k].1 as int) == words(chars@)[k]
            },
{
    let mut bounds: Vec<(usize, usize)> = Vec::new();
    let ghost mut found: Seq<Seq<char>> = Seq::empty();
    let mut i: usize = 0;
    proof {
        assert(chars@.skip(0) =~= chars@);
    }
    while i < chars.len()
        invariant
            i <= chars.len(),
            found.len() == bounds@.len(),
            forall|k: int|
                0 <= k < bounds@.len() ==> {
                    &&& (#[trigger] bounds@[k]).0 <= bounds@[k].1 <= chars@.len()
                    &&& chars@.subrange(bounds@[k].0 as int, bounds@[k].1 as int) == found[k]
                },
            words(chars@) == found + words(chars@.skip(i as int)),
        decreases chars.len() - i,
    {
        let ghost here = chars@.skip(i as int);
        if is_space_char(chars[i]) {
            proof {
                assert(here.drop_first() =~= chars@.skip(i + 1));
            }
            i += 1;
        } else {
            let start = i;
            while i < chars.len() && !is_space_char(chars[i])
                invariant
                    start <= i <= chars.len(),
                    forall|k: int| start <= k < i ==> !is_space(#[trigger] chars@[k]),
                decreases chars.len() - i,
            {
                i += 1;
            }
            proof {
                let stop = |c: char| is_space(c);
                assert forall|k: int| 0 <= k < i - start implies !stop(#[trigger] here[k]) by {
                    assert(here[k] == chars@[start + k]);
                }
                lemma_lead_is(here, stop, i - start);
                let word = chars@.subrange(start as int, i as int);
                assert(here.take(i - start) =~= word);
                assert(here.skip(i - start) =~= chars@.skip(i as int));
                assert(found + (seq![word] + words(chars@.skip(i as int))) =~= found.push(word)
                    + words(chars@.skip(i as int)));
                found = found.push(word);
            }
            bounds.push((start, i));
        }
    }
    proof {
        assert(found + Seq::<Seq<char>>::empty() =~= found);
    }
    bounds
}

/// The count and the number of sides that the word between `from` and `to`
/// states, each as far as a `u64` holds it.
fn shape_at(chars: &Vec<char>, from: usize, to: usize) -> (stated: Option<(u64, u64)>)
    requires
        from <= to <= chars.len(),
    ensures
        stated == match shape(chars@.subrange(from as int, to as int)) {
            Some((count, sides)) => Some((saturated(count), saturated(sides))),
            None => None,
        },
{
    let ghost word = chars@.subrange(from as int, to as int);
    let (a, b) = trim_bounds(chars, from, to);
    match number_at(chars, a, b) {
        Some(sides) => {
            return Some((1, sides));
        },
        None => {},
    }
    let mut d = from;
    while d < to && chars[d] != 'd'
        invariant
            from <= d <= to <= chars.len(),
            forall|k: int| from <= k < d ==> (#[trigger] chars@[k]) != 'd',
        decreases to - d,
    {
        d += 1;
    }
    proof {
        let stop = |c: char| c == 'd';
        assert forall|k: int| 0 <= k < d - from implies !stop(#[trigger] word[k]) by {
            assert(word[k] == chars@[from + k]);
        }
        lemma_lead_is(word, stop, d - from);
    }
    if d == to {
        return None;
    }
    proof {
        assert(word.take(d - from) =~= chars@.subrange(from as int, d as int));
        assert(word.skip(d - from + 1) =~= chars@.subrange(d + 1, to as int));
    }
    let (count_from, count_to) = trim_bounds(chars, from, d);
    let (sides_from, sides_to) = trim_bounds(chars, d + 1, to);
    let count: u64 = if count_from == count_to {
        1
    } else {
        match number_at(chars, count_from, count_to) {
            Some(count) => count,
            None => {
                return None;
            },
        }
    };
    match number_at(chars, sides_from, sides_to) {
        Some(sides) => Some((count, sides)),
        None => None,
    }
}

/// What the word between `from` and `to` asks for, in the game whose largest
/// die has `largest` sides.
pub fn request_at(chars: &Vec<char>, from: usize, to: usize, largest: u64) -> (request: Option<
    Counted,
>)
    requires
        from <= to <= chars.len(),
    ensures
        request == request_of(chars@.subrange(from as int, to as int), largest as nat),
{
    match shape_at(chars, from, to) {
        Some((count, sides)) => {
            if 4 <= sides && sides <= largest && sides % 2 == 0 {
                Some(Counted { count, sides })
            } else {
                None
            }
        },
        None => None,
    }
}

/// Reads an expression in the game whose largest die has `largest` sides:
/// what each of its words asks for, in their order. The first word that is
/// not well formed, or names no die of the game, ends the reading with a
/// complaint that names it; so does the first that asks for more than
/// `MAX_COUNT` dice, with a complaint of its own. An expression without a
/// word asks for nothing.
pub fn read_requests(expression: &str, largest: u64) -> (requests: Result<Vec<Counted>, String>)
    ensures
        match requests_of(words(expression@), largest as nat) {
            Ok(asked) => requests matches Ok(list) && list@ == asked,
            Err(complaint) => requests matches Err(text) && text@ == complaint,
        },
{
    let chars = read_chars(expression);
    let bounds = word_bounds(&chars);
    let ghost all = words(expression@);
    let mut list: Vec<Counted> = Vec::new();
    let mut k: usize = 0;
    proof {
        assert(all.skip(0) =~= all);
    }
    while k < bounds.len()
        invariant
            k <= bounds.len(),
            chars@ == expression@,
            all == words(expression@),
            bounds@.len() == all.len(),
            forall|j: int|
                0 <= j < bounds@.len() ==> {
                    &&& (#[trigger] bounds@[j]).0 <= bounds@[j].1 <= chars@.len()
                    &&& chars@.subrange(bounds@[j].0 as int, bounds@[j].1 as int) == all[j]
                },
            requests_of(all, largest as nat) == match requests_of(all.skip(k as int), largest as nat) {
                Ok(rest) => Ok::<Seq<Counted>, Seq<char>>(list@ + rest),
                Err(complaint) => Err(complaint),
            },
        decreases bounds.len() - k,
    {
        let (from, to) = bounds[k];
        proof {
            assert(all.skip(k as int)[0] == all[k as int]);
            assert(all.skip(k as int).drop_first() =~= all.skip(k + 1));
        }
        match request_at(&chars, from, to, largest) {
            None => {
                let mut text = String::from_str("Expected ");
                text.append(expression.substring_char(from, to));
                text.append(" to be like XdY, e.g. 3d6 or 1d8");
                return Err(text);
            },
            Some(request) => {
                if request.count > MAX_COUNT {
                    return Err(String::from_str("Hey buddy, I'm just a demigod, that's too many dice!"));
                }
                proof {
                    match requests_of(all.skip(k + 1), largest as nat) {
                        Ok(rest) => {
                            assert(list@ + (seq![request] + rest) =~= list@.push(request) + rest);
                        },
                        Err(_) => {},
                    }
                }
                list.push(request);
            },
        }
        k += 1;
    }
    proof {
        assert(list@ + Seq::<Counted>::empty() =~= list@);
    }
    Ok(list)
}

} // verus!
