//! The game of dice, whatever its dice are.
//!
//! A game has dice with an even number of sides, from four up to the biggest
//! die of the game, and it says whether its dice shimmer: whether a die that
//! shows its highest face is rolled again on the next bigger die. The rest is
//! the same for every game: an expression is read, its dice are rolled, the
//! rolls are read for effect and for total, and the result is put in words.

use crate::chance::random_face;
use crate::notation::{
    allowed, dice_asked, read_requests, request_at, request_of, requests_of, words, Counted,
};
use crate::pool::{
    addable, effect_first_sides, effect_first_total, lemma_readings_are_of_the_pool,
    lemma_readings_bear_their_names, names_sides, read_for_effect, read_for_total,
    total_first_sides, total_first_total, Scored, FALLBACK_SIDES,
};
use crate::report::{
    count_note, readings_text, reply_text, write_count, write_readings, write_reply,
};
use crate::text::{append_decimal, decimal, read_chars};
use vstd::prelude::*;
use vstd::string::*;

verus! {

/// No game has a die with more sides than this.
pub const MOST_SIDES: u64 = 100;

/// A die of a game.
pub trait GameDie: Copy {
    /// The number of faces.
    spec fn faces(self) -> u64;

    /// The next bigger die of the game; the biggest die stays what it is.
    spec fn above(self) -> Self;

    /// The die of the game with that many sides, where it has one.
    spec fn of_faces(sides: int) -> Option<Self>;

    /// The number of sides of the biggest die of the game.
    spec fn most_faces() -> u64;

    /// The smallest die of the game.
    spec fn smallest() -> Self;

    /// Whether the dice of the game shimmer.
    spec fn shimmering() -> bool;

    /// What holds of every die of a game: it has an even number of sides
    /// from four up to the biggest die, no other die has as many, the die
    /// above it has two sides more unless it is the biggest, and the
    /// smallest die has four.
    proof fn lemma_die(die: Self)
        ensures
            allowed(die.faces() as nat, Self::most_faces() as nat),
            Self::of_faces(die.faces() as int) == Some(die),
            die.above().faces() == if die.faces() < Self::most_faces() {
                die.faces() + 2
            } else {
                die.faces() as int
            },
            Self::smallest().faces() == FALLBACK_SIDES,
            Self::most_faces() <= MOST_SIDES,
    ;

    /// A game has a die for every even number of sides from four up to its
    /// biggest die, and for no other.
    proof fn lemma_sides(sides: int)
        ensures
            Self::of_faces(sides) matches Some(die) ==> die.faces() == sides,
            0 <= sides && allowed(sides as nat, Self::most_faces() as nat) ==> Self::of_faces(
                sides,
            ) is Some,
    ;

    /// The number of faces.
    fn count_faces(self) -> (n: u64)
        ensures
            n == self.faces(),
    ;

    /// The next bigger die of the game; the biggest die stays what it is.
    fn step_up(self) -> (next: Self)
        ensures
            next == self.above(),
    ;

    /// The die of the game with that many sides, where it has one.
    fn with_faces(sides: u64) -> (die: Option<Self>)
        ensures
            die == Self::of_faces(sides as int),
    ;

    /// The number of sides of the biggest die of the game.
    fn most() -> (sides: u64)
        ensures
            sides == Self::most_faces(),
    ;

    /// The smallest die of the game.
    fn least() -> (die: Self)
        ensures
            die == Self::smallest(),
    ;

    /// Whether the dice of the game shimmer.
    fn shimmers() -> (b: bool)
        ensures
            b == Self::shimmering(),
    ;
}

/// The die with that many sides; the smallest die where the game has none.
pub open spec fn die_of<D: GameDie>(sides: int) -> D {
    match D::of_faces(sides) {
        Some(die) => die,
        None => D::smallest(),
    }
}

/// What rolling one die came to.
#[derive(Debug, Clone, Copy, PartialEq, Eq)]
pub enum Roll<D> {
    /// The die showed this value.
    Value(u64, D),
    /// The die `initial` showed its highest face and was rolled again on bigger
    /// dice, `shimmer_count` times, up to the die `ultimate`; `value` is the
    /// highest value that came up on the way.
    Shimmer { initial: D, ultimate: D, shimmer_count: u8, value: u64 },
    /// The die showed a 1.
    Glitch(D),
}

/// How a pool of rolls is read: not at all where every die glitched, else as
/// a total and an effect die.
#[derive(Debug, Clone, Copy, PartialEq, Eq)]
pub enum FinalResult<D> {
    Botch,
    Result { total: u64, effect: D },
}

/// The rolls of a request.
pub struct RollResult<D> {
    pub rolled_die: Vec<Roll<D>>,
}

/// The dice of a request, in the order they are to be rolled.
pub struct DiceRollRequest<D> {
    pub dice: Vec<D>,
}

impl<D: GameDie> View for RollResult<D> {
    type V = Seq<Roll<D>>;

    open spec fn view(&self) -> Seq<Roll<D>> {
        self.rolled_die@
    }
}

impl<D: GameDie> View for DiceRollRequest<D> {
    type V = Seq<D>;

    open spec fn view(&self) -> Seq<D> {
        self.dice@
    }
}

impl<D: GameDie> Roll<D> {
    /// Whether the roll is a shimmer.
    pub open spec fn spec_is_shimmer(self) -> bool {
        self is Shimmer
    }

    /// Whether the roll is a glitch.
    pub open spec fn spec_is_glitch(self) -> bool {
        self is Glitch
    }

    /// The roll is one that dice can give: a value lies between 1 and the
    /// number of faces of the die that showed it; a shimmer is a roll of a
    /// game whose dice shimmer, it went up one die for each time it is
    /// counted, and its value is no lower than the highest face of the die
    /// it began on.
    pub open spec fn wf(self) -> bool {
        match self {
            Roll::Value(value, die) => 1 <= value <= die.faces(),
            Roll::Shimmer { initial, ultimate, shimmer_count, value } => {
                &&& D::shimmering()
                &&& shimmer_count >= 1
                &&& initial.faces() + 2 * shimmer_count == ultimate.faces()
                &&& initial.faces() <= value <= ultimate.faces()
            },
            Roll::Glitch(_) => true,
        }
    }

    /// The die that was rolled: for a shimmer, the one it began on.
    pub open spec fn die(self) -> D {
        match self {
            Roll::Value(_, die) => die,
            Roll::Shimmer { initial, .. } => initial,
            Roll::Glitch(die) => die,
        }
    }

    /// What the roll brings to the pool: nothing for a glitch; else its value,
    /// on the die that showed it (for a shimmer, the last die of the chain).
    pub open spec fn scored(self) -> Option<Scored> {
        match self {
            Roll::Value(value, die) => Some(Scored { value, sides: die.faces() }),
            Roll::Shimmer { ultimate, value, .. } => Some(Scored { value, sides: ultimate.faces() }),
            Roll::Glitch(_) => None,
        }
    }

    /// The roll as the listing shows it, with the blank that follows it. A
    /// glitch and the value of a shimmer stand out in bold; a shimmer names
    /// the die it began on and the die it reached, and how many times it went
    /// up where that is more than once.
    pub open spec fn listed(self) -> Seq<char> {
        match self {
            Roll::Glitch(die) => "**1** (d"@ + decimal(die.faces() as nat) + ") "@,
            Roll::Shimmer { initial, ultimate, shimmer_count, value } => if shimmer_count == 1 {
                "**"@ + decimal(value as nat) + "** (d"@ + decimal(initial.faces() as nat)
                    + " shimmered up to d"@ + decimal(ultimate.faces() as nat) + ") "@
            } else {
                "**"@ + decimal(value as nat) + "** (d"@ + decimal(initial.faces() as nat)
                    + " shimmered **"@ + decimal(shimmer_count as nat) + "** times up to d"@
                    + decimal(ultimate.faces() as nat) + ") "@
            },
            Roll::Value(value, die) => decimal(value as nat) + " (d"@ + decimal(
                die.faces() as nat,
            ) + ") "@,
        }
    }

    /// The roll as the listing shows it.
    fn listed_text(self) -> (text: String)
        ensures
            text@ == self.listed(),
    {
        match self {
            Roll::Glitch(die) => {
                let mut text = String::from_str("**1** (d");
                append_decimal(&mut text, die.count_faces());
                text.append(") ");
                text
            },
            Roll::Shimmer { initial, ultimate, shimmer_count, value } => {
                let mut text = String::from_str("**");
                append_decimal(&mut text, value);
                text.append("** (d");
                append_decimal(&mut text, initial.count_faces());
                if shimmer_count == 1 {
                    text.append(" shimmered up to d");
                } else {
                    text.append(" shimmered **");
                    append_decimal(&mut text, shimmer_count as u64);
                    text.append("** times up to d");
                }
                append_decimal(&mut text, ultimate.count_faces());
                text.append(") ");
                text
            },
            Roll::Value(value, die) => {
                let mut text = String::new();
                append_decimal(&mut text, value);
                assert(text@ =~= decimal(value as nat));
                text.append(" (d");
                append_decimal(&mut text, die.count_faces());
                text.append(") ");
                text
            },
        }
    }

    /// Whether the roll is a shimmer.
    #[verifier::when_used_as_spec(spec_is_shimmer)]
    pub fn is_shimmer(self) -> (b: bool)
        ensures
            b == self.spec_is_shimmer(),
    {
        match self {
            Roll::Shimmer { .. } => true,
            _ => false,
        }
    }

    /// Whether the roll is a glitch.
    #[verifier::when_used_as_spec(spec_is_glitch)]
    pub fn is_glitch(self) -> (b: bool)
        ensures
            b == self.spec_is_glitch(),
    {
        match self {
            Roll::Glitch(_) => true,
            _ => false,
        }
    }

    /// Whether the roll is one that dice can give.
    pub fn is_well_formed(self) -> (ok: bool)
        ensures
            ok == self.wf(),
    {
        match self {
            Roll::Value(value, die) => 1 <= value && value <= die.count_faces(),
            Roll::Shimmer { initial, ultimate, shimmer_count, value } => {
                proof {
                    D::lemma_die(initial);
                    D::lemma_die(ultimate);
                }
                D::shimmers() && shimmer_count >= 1 && initial.count_faces() + 2 * (
                shimmer_count as u64) == ultimate.count_faces() && initial.count_faces() <= value
                    && value <= ultimate.count_faces()
            },
            Roll::Glitch(_) => true,
        }
    }
}

/// Whether the face sends the die up: the dice of the game shimmer, the die
/// is not the biggest, and the face is its highest.
pub open spec fn goes_up<D: GameDie>(die: D, face: u64) -> bool {
    D::shimmering() && die.faces() < D::most_faces() && face == die.faces()
}

/// What a die comes to when it has shown its highest face `face` and the next
/// bigger die, rolled in its turn, has come to `bigger`. A glitch of the
/// bigger die leaves the plain value `face`. A value of the bigger die makes
/// a shimmer of one step up to that die. A shimmer of the bigger die goes on
/// from this die, one step longer. The value of a shimmer is the highest
/// that came up: `face`, or what the dice above showed where that is more.
pub open spec fn settled<D: GameDie>(die: D, face: u64, bigger: Roll<D>) -> Roll<D> {
    match bigger {
        Roll::Glitch(_) => Roll::Value(face, die),
        Roll::Value(value, _) => Roll::Shimmer {
            initial: die,
            ultimate: die.above(),
            shimmer_count: 1,
            value: if value < face {
                face
            } else {
                value
            },
        },
        Roll::Shimmer { ultimate, value, shimmer_count, .. } => Roll::Shimmer {
            initial: die,
            ultimate,
            shimmer_count: (shimmer_count + 1) as u8,
            value: if value < face {
                face
            } else {
                value
            },
        },
    }
}

/// What a die comes to when the dice show `faces`: the first is the face of
/// this die, the next that of the next bigger die if it comes to be rolled,
/// and so on. A 1 is a glitch. A face that sends the die up has the next
/// bigger die rolled, and the two are settled as `settled` says. Every other
/// face is a plain value. Faces that are not needed are not looked at. There
/// is no outcome where a face is missing, or is not a face of the die that is
/// to show it.
pub open spec fn outcome<D: GameDie>(die: D, faces: Seq<u64>) -> Option<Roll<D>>
    decreases faces.len(),
{
    if faces.len() == 0 || faces[0] < 1 || faces[0] > die.faces() {
        None
    } else if faces[0] == 1 {
        Some(Roll::Glitch(die))
    } else if !goes_up(die, faces[0]) {
        Some(Roll::Value(faces[0], die))
    } else {
        match outcome(die.above(), faces.drop_first()) {
            None => None,
            Some(bigger) => Some(settled(die, faces[0], bigger)),
        }
    }
}

/// Chance can make this roll of the die.
pub open spec fn can_roll<D: GameDie>(die: D, roll: Roll<D>) -> bool {
    exists|faces: Seq<u64>| outcome(die, faces) == Some(roll)
}

/// Every outcome is a roll that dice can give, of the die that was rolled,
/// and where it is a shimmer it ends on a bigger die.
pub proof fn lemma_outcome<D: GameDie>(die: D, faces: Seq<u64>)
    ensures
        outcome(die, faces) matches Some(roll) ==> {
            &&& roll.wf()
            &&& roll.die() == die
            &&& roll matches Roll::Shimmer { ultimate, .. } ==> ultimate.faces() > die.faces()
        },
    decreases faces.len(),
{
    D::lemma_die(die);
    if faces.len() > 0 && 1 < faces[0] <= die.faces() && goes_up(die, faces[0]) {
        lemma_outcome(die.above(), faces.drop_first());
        D::lemma_die(die.above());
        match outcome(die.above(), faces.drop_first()) {
            Some(Roll::Shimmer { ultimate, .. }) => {
                D::lemma_die(ultimate);
            },
            _ => {},
        }
    }
}

/// The highest face of a die that can go up never comes to less. Where the
/// die above glitched, the roll is the plain value of that face, and only
/// there. Everywhere else it is a shimmer that began on the die, and its
/// value is that face or what the dice above showed, whichever is more.
pub proof fn lemma_highest_face_holds<D: GameDie>(die: D, faces: Seq<u64>)
    requires
        faces.len() > 0,
        goes_up(die, faces[0]),
    ensures
        outcome(die, faces) matches Some(roll) ==> match outcome(
            die.above(),
            faces.drop_first(),
        ) {
            Some(Roll::Glitch(_)) => roll == Roll::Value(faces[0], die) && faces[1] == 1,
            Some(Roll::Value(above, _)) => roll == Roll::Shimmer {
                initial: die,
                ultimate: die.above(),
                shimmer_count: 1,
                value: if above < faces[0] {
                    faces[0]
                } else {
                    above
                },
            },
            Some(Roll::Shimmer { value: above, .. }) => roll matches Roll::Shimmer {
                initial,
                value,
                ..
            } && initial == die && value == if above < faces[0] {
                faces[0]
            } else {
                above
            },
            None => false,
        },
{
    D::lemma_die(die);
    D::lemma_die(die.above());
    lemma_outcome(die.above(), faces.drop_first());
}

/// Whether the face sends the die up.
pub fn sends_up<D: GameDie>(die: D, face: u64) -> (up: bool)
    ensures
        up == goes_up(die, face),
{
    D::shimmers() && die.count_faces() < D::most() && face == die.count_faces()
}

/// What a die comes to when it has shown its highest face and the next bigger
/// die has come to `bigger`.
pub fn settle<D: GameDie>(die: D, face: u64, bigger: Roll<D>) -> (roll: Roll<D>)
    requires
        bigger.wf(),
    ensures
        roll == settled(die, face, bigger),
{
    match bigger {
        Roll::Glitch(_) => Roll::Value(face, die),
        Roll::Value(value, _) => Roll::Shimmer {
            initial: die,
            ultimate: die.step_up(),
            shimmer_count: 1,
            value: if value < face {
                face
            } else {
                value
            },
        },
        // Repeated shimmer!
        Roll::Shimmer { ultimate, value, shimmer_count, .. } => {
            proof {
                D::lemma_die(ultimate);
            }
            Roll::Shimmer {
                initial: die,
                ultimate,
                shimmer_count: shimmer_count + 1,
                value: if value < face {
                    face
                } else {
                    value
                },
            }
        },
    }
}

/// What the die comes to when the dice show the faces given, from the place
/// `at` on.
fn roll_from<D: GameDie>(die: D, faces: &Vec<u64>, at: usize) -> (roll: Option<Roll<D>>)
    requires
        at <= faces.len(),
    ensures
        roll == outcome(die, faces@.skip(at as int)),
    decreases faces.len() - at,
{
    if at == faces.len() {
        return None;
    }
    let face = faces[at];
    proof {
        assert(faces@.skip(at as int)[0] == face);
        assert(faces@.skip(at as int).drop_first() =~= faces@.skip(at + 1));
    }
    if face < 1 || face > die.count_faces() {
        None
    } else if face == 1 {
        Some(Roll::Glitch(die))
    } else if sends_up(die, face) {
        match roll_from(die.step_up(), faces, at + 1) {
            None => None,
            Some(bigger) => {
                proof {
                    lemma_outcome(die.above(), faces@.skip(at + 1));
                }
                Some(settle(die, face, bigger))
            },
        }
    } else {
        Some(Roll::Value(face, die))
    }
}

/// Rolls a die with chance taken out: the dice show `faces`, in turn, the
/// first on this die. `None` where a face is missing or is not a face of the
/// die that is to show it.
pub fn roll_with<D: GameDie>(die: D, faces: &Vec<u64>) -> (roll: Option<Roll<D>>)
    ensures
        roll == outcome(die, faces@),
{
    proof {
        assert(faces@.skip(0) =~= faces@);
    }
    roll_from(die, faces, 0)
}

/// Throws the die, and the bigger dice after it for as long as the face
/// thrown sends the die up. Every face is a fresh throw. The faces come
/// back in the order they were thrown; they are all that a roll of the die
/// needs.
fn draw<D: GameDie>(die: D) -> (faces: Vec<u64>)
    ensures
        outcome(die, faces@) is Some,
    decreases D::most_faces() - die.faces(),
{
    proof {
        D::lemma_die(die);
        D::lemma_die(die.above());
    }
    let face = random_face(die.count_faces());
    if sends_up(die, face) {
        // shimmer potential!
        let mut faces = draw(die.step_up());
        let ghost above = faces@;
        faces.insert(0, face);
        proof {
            assert(faces@.drop_first() =~= above);
        }
        faces
    } else {
        let mut faces: Vec<u64> = Vec::new();
        faces.push(face);
        faces
    }
}

/// Rolls a die: the faces are thrown, and the roll is what `roll_with` makes
/// of them.
pub fn roll<D: GameDie>(die: D) -> (roll: Roll<D>)
    ensures
        can_roll(die, roll),
        roll.wf(),
        roll.die() == die,
{
    let faces = draw(die);
    proof {
        lemma_outcome(die, faces@);
    }
    roll_with(die, &faces).unwrap()
}

/// The rolls that count, in the order they were rolled.
pub open spec fn pool_of<D: GameDie>(rolls: Seq<Roll<D>>) -> Seq<Scored>
    decreases rolls.len(),
{
    if rolls.len() == 0 {
        Seq::empty()
    } else {
        match rolls.last().scored() {
            None => pool_of(rolls.drop_last()),
            Some(entry) => pool_of(rolls.drop_last()).push(entry),
        }
    }
}

/// Every roll is one that dice can give.
pub open spec fn all_wf<D: GameDie>(rolls: Seq<Roll<D>>) -> bool {
    forall|i: int| 0 <= i < rolls.len() ==> (#[trigger] rolls[i]).wf()
}

/// Every roll is a glitch. This holds of no rolls at all.
pub open spec fn all_glitches<D: GameDie>(rolls: Seq<Roll<D>>) -> bool {
    forall|i: int| 0 <= i < rolls.len() ==> (#[trigger] rolls[i]).is_glitch()
}

/// The rolls read for effect.
pub open spec fn highest_effect_of<D: GameDie>(rolls: Seq<Roll<D>>) -> FinalResult<D> {
    let pool = pool_of(rolls).to_multiset();
    if pool.len() == 0 {
        FinalResult::Botch
    } else {
        FinalResult::Result {
            total: effect_first_total(pool) as u64,
            effect: die_of(effect_first_sides(pool) as int),
        }
    }
}

/// The rolls read for total.
pub open spec fn highest_total_of<D: GameDie>(rolls: Seq<Roll<D>>) -> FinalResult<D> {
    let pool = pool_of(rolls).to_multiset();
    if pool.len() == 0 {
        FinalResult::Botch
    } else {
        FinalResult::Result {
            total: total_first_total(pool) as u64,
            effect: die_of(total_first_sides(pool) as int),
        }
    }
}

/// How many of the rolls are glitches.
pub open spec fn glitches_in<D: GameDie>(rolls: Seq<Roll<D>>) -> nat
    decreases rolls.len(),
{
    if rolls.len() == 0 {
        0
    } else if rolls.last().is_glitch() {
        glitches_in(rolls.drop_last()) + 1
    } else {
        glitches_in(rolls.drop_last())
    }
}

/// How many of the rolls are shimmers.
pub open spec fn shimmers_in<D: GameDie>(rolls: Seq<Roll<D>>) -> nat
    decreases rolls.len(),
{
    if rolls.len() == 0 {
        0
    } else if rolls.last().is_shimmer() {
        shimmers_in(rolls.drop_last()) + 1
    } else {
        shimmers_in(rolls.drop_last())
    }
}

/// The rolls one after the other, each as `Roll::listed` shows it.
pub open spec fn listing_of<D: GameDie>(rolls: Seq<Roll<D>>) -> Seq<char>
    decreases rolls.len(),
{
    if rolls.len() == 0 {
        Seq::empty()
    } else {
        listing_of(rolls.drop_last()) + rolls.last().listed()
    }
}

/// The short summary of the rolls: the botch mark and nothing else where
/// every die glitched; else the glitches and the shimmers counted, where
/// there are any, and then the two readings. Should one reading be a botch
/// where not every die glitched, the summary says so and nothing else
/// (`lemma_readings_agree_on_botch` shows that none is).
pub open spec fn summary_of<D: GameDie>(rolls: Seq<Roll<D>>) -> Seq<char> {
    if all_glitches(rolls) {
        "**BOTCH!**"@
    } else {
        match (highest_effect_of(rolls), highest_total_of(rolls)) {
            (
                FinalResult::Result { total: effect_total, effect: effect_die },
                FinalResult::Result { total: total_total, effect: total_die },
            ) => count_note(glitches_in(rolls), " Glitches!\n"@) + count_note(
                shimmers_in(rolls),
                " Shimmers!\n"@,
            ) + readings_text(
                effect_total as nat,
                effect_die.faces() as nat,
                total_total as nat,
                total_die.faces() as nat,
            ),
            _ => "Internal error, disagreement on botch??"@,
        }
    }
}

/// The rolls in full: the listing, an empty line, and the short summary.
pub open spec fn markdown_of<D: GameDie>(rolls: Seq<Roll<D>>) -> Seq<char> {
    listing_of(rolls) + "\n\n"@ + summary_of(rolls)
}

/// The reply to an expression whose dice came to `rolls`.
pub open spec fn reply_of<D: GameDie>(expression: Seq<char>, rolls: Seq<Roll<D>>) -> Seq<char> {
    reply_text(expression, markdown_of(rolls), summary_of(rolls))
}

/// An entry of the pool of rolls that dice can give: its value is at least 1
/// and at most the size of its die, which is the size of a die of the game.
pub open spec fn sound<D: GameDie>(entry: Scored) -> bool {
    1 <= entry.value <= entry.sides && entry.sides <= D::most_faces() && D::of_faces(
        entry.sides as int,
    ) is Some
}

/// The pool of rolls that dice can give holds sound entries only, and it is
/// empty just when every roll is a glitch.
pub proof fn lemma_pool_of<D: GameDie>(rolls: Seq<Roll<D>>)
    requires
        all_wf(rolls),
    ensures
        forall|k: int| 0 <= k < pool_of(rolls).len() ==> sound::<D>(#[trigger] pool_of(rolls)[k]),
        pool_of(rolls).len() == 0 <==> all_glitches(rolls),
        pool_of(rolls).len() <= rolls.len(),
    decreases rolls.len(),
{
    if rolls.len() > 0 {
        let before = rolls.drop_last();
        lemma_pool_of(before);
        assert(rolls.last().wf());
        match rolls.last() {
            Roll::Value(_, die) => {
                D::lemma_die(die);
            },
            Roll::Shimmer { initial, ultimate, .. } => {
                D::lemma_die(initial);
                D::lemma_die(ultimate);
            },
            Roll::Glitch(_) => {},
        }
        if all_glitches(before) && rolls.last().is_glitch() {
            assert forall|i: int| 0 <= i < rolls.len() implies (#[trigger] rolls[i]).is_glitch() by {
                if i < before.len() {
                    assert(before[i].is_glitch());
                }
            }
        }
        if all_glitches(rolls) {
            assert forall|i: int| 0 <= i < before.len() implies (#[trigger] before[i]).is_glitch() by {
                assert(rolls[i].is_glitch());
            }
        }
    }
}

/// A size that a reading of sound entries names is the size of a die.
proof fn lemma_names_a_die<D: GameDie>(entries: Seq<Scored>, sides: nat)
    requires
        forall|k: int| 0 <= k < entries.len() ==> sound::<D>(#[trigger] entries[k]),
        names_sides(entries, sides),
    ensures
        D::of_faces(sides as int) is Some,
        die_of::<D>(sides as int).faces() == sides,
{
    D::lemma_die(D::smallest());
    D::lemma_sides(sides as int);
}

/// The two readings are a botch together, and just when every die glitched.
pub proof fn lemma_readings_agree_on_botch<D: GameDie>(rolls: Seq<Roll<D>>)
    requires
        all_wf(rolls),
    ensures
        highest_effect_of(rolls) is Botch <==> all_glitches(rolls),
        highest_total_of(rolls) is Botch <==> all_glitches(rolls),
{
    lemma_pool_of(rolls);
    pool_of(rolls).to_multiset_ensures();
}

/// The two readings bear their names: where the rolls are no botch, the
/// reading for total has a total that is no lower than that of the reading
/// for effect, and the reading for effect has an effect die that is no
/// smaller than that of the reading for total.
pub proof fn lemma_best_effect_and_best_total<D: GameDie>(rolls: Seq<Roll<D>>)
    requires
        all_wf(rolls),
        !all_glitches(rolls),
    ensures
        highest_effect_of(rolls) matches FinalResult::Result {
            total: effect_total,
            effect: effect_die,
        } && highest_total_of(rolls) matches FinalResult::Result {
            total: total_total,
            effect: total_die,
        } && effect_total <= total_total && total_die.faces() <= effect_die.faces(),
{
    lemma_pool_of(rolls);
    let pool = pool_of(rolls);
    pool.to_multiset_ensures();
    D::lemma_die(D::smallest());
    assert forall|k: int| 0 <= k < pool.len() implies (#[trigger] pool[k]).value
        <= MOST_SIDES by {
        assert(sound::<D>(pool[k]));
    }
    lemma_readings_are_of_the_pool(pool, MOST_SIDES as nat);
    lemma_readings_bear_their_names(pool);
    lemma_names_a_die::<D>(pool, effect_first_sides(pool.to_multiset()));
    lemma_names_a_die::<D>(pool, total_first_sides(pool.to_multiset()));
}

/// What the rolls come to with one of them taken out: the pool loses what
/// that roll brought to it, and the counts lose what it added to them.
pub proof fn lemma_without_one<D: GameDie>(rolls: Seq<Roll<D>>, at: int)
    requires
        0 <= at < rolls.len(),
    ensures
        pool_of(rolls).to_multiset() == match rolls[at].scored() {
            Some(entry) => pool_of(rolls.remove(at)).to_multiset().insert(entry),
            None => pool_of(rolls.remove(at)).to_multiset(),
        },
        glitches_in(rolls) == glitches_in(rolls.remove(at)) + if rolls[at].is_glitch() {
            1nat
        } else {
            0nat
        },
        shimmers_in(rolls) == shimmers_in(rolls.remove(at)) + if rolls[at].is_shimmer() {
            1nat
        } else {
            0nat
        },
    decreases rolls.len(),
{
    let before = rolls.drop_last();
    if at == rolls.len() - 1 {
        assert(rolls.remove(at) =~= before);
        match rolls[at].scored() {
            Some(entry) => {
                pool_of(before).to_multiset_ensures();
            },
            None => {},
        }
    } else {
        lemma_without_one(before, at);
        let rest = rolls.remove(at);
        assert(rest.drop_last() =~= before.remove(at));
        assert(rest.last() == rolls.last());
        match rolls.last().scored() {
            Some(entry) => {
                pool_of(before).to_multiset_ensures();
                pool_of(before.remove(at)).to_multiset_ensures();
                assert(pool_of(rolls).to_multiset() =~= match rolls[at].scored() {
                    Some(taken) => pool_of(rest).to_multiset().insert(taken),
                    None => pool_of(rest).to_multiset(),
                });
            },
            None => {},
        }
    }
}

/// The order of the rolls does not matter: rolls that are the same but for
/// their order have the same pool, the same counts, the same two readings
/// and the same short summary.
pub proof fn lemma_order_does_not_matter<D: GameDie>(a: Seq<Roll<D>>, b: Seq<Roll<D>>)
    requires
        a.to_multiset() == b.to_multiset(),
    ensures
        pool_of(a).to_multiset() == pool_of(b).to_multiset(),
        glitches_in(a) == glitches_in(b),
        shimmers_in(a) == shimmers_in(b),
        all_glitches(a) == all_glitches(b),
        highest_effect_of(a) == highest_effect_of(b),
        highest_total_of(a) == highest_total_of(b),
        summary_of(a) == summary_of(b),
    decreases a.len(),
{
    a.to_multiset_ensures();
    b.to_multiset_ensures();
    if a.len() > 0 {
        let last = a.last();
        assert(a.contains(last));
        assert(a.to_multiset().count(last) > 0);
        assert(b.to_multiset().count(last) > 0);
        assert(b.contains(last));
        let at = choose|at: int| 0 <= at < b.len() && b[at] == last;
        assert(a.drop_last() =~= a.remove(a.len() - 1));
        lemma_order_does_not_matter(a.drop_last(), b.remove(at));
        lemma_without_one(a, a.len() - 1);
        lemma_without_one(b, at);
    }
    assert(all_glitches(a) == all_glitches(b)) by {
        if all_glitches(a) {
            assert forall|i: int| 0 <= i < b.len() implies (#[trigger] b[i]).is_glitch() by {
                assert(b.contains(b[i]));
                assert(b.to_multiset().count(b[i]) > 0);
                assert(a.to_multiset().count(b[i]) > 0);
                assert(a.contains(b[i]));
            }
        }
        if all_glitches(b) {
            assert forall|i: int| 0 <= i < a.len() implies (#[trigger] a[i]).is_glitch() by {
                assert(a.contains(a[i]));
                assert(a.to_multiset().count(a[i]) > 0);
                assert(b.to_multiset().count(a[i]) > 0);
                assert(b.contains(a[i]));
            }
        }
    }
}

/// The die of a reading.
fn effect_die<D: GameDie>(sides: u64) -> (die: D)
    ensures
        die == die_of::<D>(sides as int),
{
    match D::with_faces(sides) {
        Some(die) => die,
        None => D::least(),
    }
}

impl<D: GameDie> RollResult<D> {
    /// Every roll is one that dice can give.
    pub open spec fn wf(&self) -> bool {
        all_wf(self@)
    }

    /// Whether every roll is one that dice can give.
    pub fn is_well_formed(&self) -> (ok: bool)
        ensures
            ok == self.wf(),
    {
        let mut i: usize = 0;
        while i < self.rolled_die.len()
            invariant
                i <= self.rolled_die.len(),
                forall|j: int| 0 <= j < i ==> (#[trigger] self@[j]).wf(),
            decreases self.rolled_die.len() - i,
        {
            if !self.rolled_die[i].is_well_formed() {
                return false;
            }
            i += 1;
        }
        true
    }

    /// The rolls that count.
    fn pool(&self) -> (entries: Vec<Scored>)
        requires
            self.wf(),
        ensures
            entries@ == pool_of(self@),
            addable(entries@),
    {
        let mut entries: Vec<Scored> = Vec::new();
        let mut i: usize = 0;
        while i < self.rolled_die.len()
            invariant
                i <= self.rolled_die.len(),
                entries@ == pool_of(self@.take(i as int)),
            decreases self.rolled_die.len() - i,
        {
            proof {
                assert(self@.take(i + 1).drop_last() =~= self@.take(i as int));
            }
            match self.rolled_die[i] {
                Roll::Value(value, die) => {
                    entries.push(Scored { value, sides: die.count_faces() });
                },
                Roll::Shimmer { ultimate, value, .. } => {
                    entries.push(Scored { value, sides: ultimate.count_faces() });
                },
                Roll::Glitch(_) => {},
            }
            i += 1;
        }
        proof {
            assert(self@.take(i as int) =~= self@);
            lemma_pool_of(self@);
            D::lemma_die(D::smallest());
            assert forall|k: int| 0 <= k < entries@.len() implies (#[trigger] entries@[k]).value
                <= MOST_SIDES by {
                assert(sound::<D>(entries@[k]));
            }
        }
        entries
    }

    /// Whether every die glitched. A request for no dice at all is a botch too.
    pub fn is_botch(&self) -> (b: bool)
        ensures
            b == all_glitches(self@),
    {
        let mut i: usize = 0;
        while i < self.rolled_die.len()
            invariant
                i <= self.rolled_die.len(),
                forall|j: int| 0 <= j < i ==> (#[trigger] self@[j]).is_glitch(),
            decreases self.rolled_die.len() - i,
        {
            if !self.rolled_die[i].is_glitch() {
                return false;
            }
            i += 1;
        }
        true
    }

    /// Reads the rolls for effect. Glitches do not count. Of the rolls that
    /// count, the one on the biggest die is set aside (the lowest of them,
    /// where several dice are as big): its die is the effect die, and the two
    /// highest values among the others make the total. With fewer than three
    /// rolls that count all their values are added up and the effect die is
    /// the smallest die. With none, the rolls are a botch.
    pub fn get_highest_effect(&self) -> (result: FinalResult<D>)
        requires
            self.wf(),
        ensures
            result == highest_effect_of(self@),
            result is Botch <==> all_glitches(self@),
            result matches FinalResult::Result { total, effect } ==> {
                &&& total == effect_first_total(pool_of(self@).to_multiset())
                &&& effect.faces() == effect_first_sides(pool_of(self@).to_multiset())
            },
    {
        let entries = self.pool();
        proof {
            lemma_pool_of(self@);
            entries@.to_multiset_ensures();
        }
        match read_for_effect(entries) {
            None => FinalResult::Botch,
            Some(reading) => {
                proof {
                    lemma_names_a_die::<D>(entries@, reading.effect as nat);
                }
                FinalResult::Result { total: reading.total, effect: effect_die(reading.effect) }
            },
        }
    }

    /// Reads the rolls for total. Glitches do not count. The two highest
    /// values among the rolls that count make the total (where two values are
    /// equal, the one on the smaller die goes first); the biggest die among
    /// the others is the effect die, or the smallest die where none is
    /// left. With no roll that counts, the rolls are a botch. The rolls
    /// themselves stay as they are.
    pub fn get_highest_total(&self) -> (result: FinalResult<D>)
        requires
            self.wf(),
        ensures
            result == highest_total_of(self@),
            result is Botch <==> all_glitches(self@),
            result matches FinalResult::Result { total, effect } ==> {
                &&& total == total_first_total(pool_of(self@).to_multiset())
                &&& effect.faces() == total_first_sides(pool_of(self@).to_multiset())
            },
    {
        let entries = self.pool();
        proof {
            lemma_pool_of(self@);
            entries@.to_multiset_ensures();
        }
        match read_for_total(entries) {
            None => FinalResult::Botch,
            Some(reading) => {
                proof {
                    lemma_names_a_die::<D>(entries@, reading.effect as nat);
                }
                FinalResult::Result { total: reading.total, effect: effect_die(reading.effect) }
            },
        }
    }

    /// How many of the rolls are glitches, and how many are shimmers.
    fn count_marks(&self) -> (counts: (usize, usize))
        ensures
            counts.0 == glitches_in(self@),
            counts.1 == shimmers_in(self@),
    {
        let mut glitches: usize = 0;
        let mut shimmers: usize = 0;
        let mut i: usize = 0;
        while i < self.rolled_die.len()
            invariant
                i <= self.rolled_die.len(),
                glitches == glitches_in(self@.take(i as int)),
                shimmers == shimmers_in(self@.take(i as int)),
                glitches <= i,
                shimmers <= i,
            decreases self.rolled_die.len() - i,
        {
            proof {
                assert(self@.take(i + 1).drop_last() =~= self@.take(i as int));
            }
            if self.rolled_die[i].is_glitch() {
                glitches += 1;
            }
            if self.rolled_die[i].is_shimmer() {
                shimmers += 1;
            }
            i += 1;
        }
        proof {
            assert(self@.take(i as int) =~= self@);
        }
        (glitches, shimmers)
    }

    /// The short summary of the rolls. Where every die glitched it is the
    /// botch mark and nothing else. Otherwise it counts the glitches and the
    /// shimmers, where there are any, and gives the two readings: in one line
    /// where they agree, in a line each where they differ.
    pub fn short_summary(&self) -> (text: String)
        requires
            self.wf(),
        ensures
            text@ == summary_of(self@),
            all_glitches(self@) ==> text@ == "**BOTCH!**"@,
    {
        if self.is_botch() {
            return String::from_str("**BOTCH!**");
        }
        let (glitch_count, shimmer_count) = self.count_marks();
        let mut text = write_count(glitch_count, " Glitches!\n");
        text.append(write_count(shimmer_count, " Shimmers!\n").as_str());
        let highest_effect = self.get_highest_effect();
        let highest_total = self.get_highest_total();
        match (highest_effect, highest_total) {
            (
                FinalResult::Result { total: etotal, effect: eeffect },
                FinalResult::Result { total: ttotal, effect: teffect },
            ) => {
                text.append(
                    write_readings(
                        etotal,
                        eeffect.count_faces(),
                        ttotal,
                        teffect.count_faces(),
                    ).as_str(),
                );
                text
            },
            // Both readings are a botch just when every die glitched, and
            // then the summary has ended above.
            _ => String::from_str("Internal error, disagreement on botch??"),
        }
    }

    /// The rolls in full: each roll in the order it was rolled, then an empty
    /// line, then the short summary.
    pub fn to_discord_markdown(&self) -> (text: String)
        requires
            self.wf(),
        ensures
            text@ == markdown_of(self@),
    {
        let mut text = String::new();
        let mut i: usize = 0;
        while i < self.rolled_die.len()
            invariant
                i <= self.rolled_die.len(),
                text@ == listing_of(self@.take(i as int)),
            decreases self.rolled_die.len() - i,
        {
            proof {
                assert(self@.take(i + 1).drop_last() =~= self@.take(i as int));
            }
            text.append(self.rolled_die[i].listed_text().as_str());
            i += 1;
        }
        proof {
            assert(self@.take(i as int) =~= self@);
        }
        text.append("\n\n");
        text.append(self.short_summary().as_str());
        text
    }
}

/// The dice that the requests ask for: for each request in its turn, as many
/// dice as it counts.
pub open spec fn dice_of<D: GameDie>(requests: Seq<Counted>) -> Seq<D>
    decreases requests.len(),
{
    if requests.len() == 0 {
        Seq::empty()
    } else {
        dice_of(requests.drop_last()) + Seq::new(
            requests.last().count as nat,
            |i: int| die_of::<D>(requests.last().sides as int),
        )
    }
}

/// The dice that an expression asks for, or the complaint about its first
/// word that cannot be granted.
pub open spec fn parsed<D: GameDie>(expression: Seq<char>) -> Result<Seq<D>, Seq<char>> {
    match requests_of(words(expression), D::most_faces() as nat) {
        Ok(requests) => Ok(dice_of(requests)),
        Err(complaint) => Err(complaint),
    }
}

/// The dice of requests are as many as the requests ask for in all, and each
/// of them is the die that one of the requests names.
pub proof fn lemma_dice_of<D: GameDie>(requests: Seq<Counted>)
    ensures
        dice_of::<D>(requests).len() == dice_asked(requests),
        forall|i: int|
            0 <= i < dice_of::<D>(requests).len() ==> exists|k: int|
                0 <= k < requests.len() && #[trigger] dice_of::<D>(requests)[i] == die_of::<D>(
                    (#[trigger] requests[k]).sides as int,
                ),
    decreases requests.len(),
{
    if requests.len() > 0 {
        let before = requests.drop_last();
        lemma_dice_of::<D>(before);
        let dice = dice_of::<D>(requests);
        assert forall|i: int| 0 <= i < dice.len() implies exists|k: int|
            0 <= k < requests.len() && #[trigger] dice[i] == die_of::<D>(
                (#[trigger] requests[k]).sides as int,
            ) by {
            if i < dice_of::<D>(before).len() {
                assert(dice[i] == dice_of::<D>(before)[i]);
                let k = choose|k: int|
                    0 <= k < before.len() && dice_of::<D>(before)[i] == die_of::<D>(
                        (#[trigger] before[k]).sides as int,
                    );
                assert(requests[k] == before[k]);
            } else {
                let k = requests.len() - 1;
                assert(dice[i] == die_of::<D>(requests[k].sides as int));
            }
        }
    }
}

/// An expression that can be read asks for as many dice as its words count
/// in all, and every one of them is a die of the game.
pub proof fn lemma_parsed<D: GameDie>(expression: Seq<char>)
    ensures
        parsed::<D>(expression) matches Ok(dice) ==> {
            &&& requests_of(words(expression), D::most_faces() as nat) matches Ok(requests)
                && dice.len() == dice_asked(requests)
            &&& forall|i: int|
                0 <= i < dice.len() ==> allowed(
                    (#[trigger] dice[i]).faces() as nat,
                    D::most_faces() as nat,
                )
        },
{
    if parsed::<D>(expression) is Ok {
        let dice = parsed::<D>(expression)->Ok_0;
        lemma_dice_of::<D>(requests_of(words(expression), D::most_faces() as nat)->Ok_0);
        assert forall|i: int| 0 <= i < dice.len() implies allowed(
            (#[trigger] dice[i]).faces() as nat,
            D::most_faces() as nat,
        ) by {
            D::lemma_die(dice[i]);
        }
    }
}

/// The rolls are rolls of the dice, one of each in its turn.
pub open spec fn rolls_of<D: GameDie>(dice: Seq<D>, rolls: Seq<Roll<D>>) -> bool {
    &&& rolls.len() == dice.len()
    &&& forall|i: int| 0 <= i < dice.len() ==> can_roll(#[trigger] dice[i], rolls[i])
}

impl<D: GameDie> DiceRollRequest<D> {
    /// Reads an expression such as `3d6 d8 10`. Each word asks for dice: a
    /// number for one die with that many sides; a count, `d` and a number
    /// for so many dice of that size, one where the count is left out. The
    /// dice come in the order of the words. An expression without a word
    /// asks for no dice, which is no error. The first word that is not of
    /// this form, or names a die that the game does not have, is refused
    /// with a message that names it; the first that asks for more than a
    /// million dice, with a message of its own.
    pub fn parse(s: &str) -> (request: Result<Self, String>)
        ensures
            match parsed::<D>(s@) {
                Ok(dice) => request matches Ok(asked) && asked@ == dice,
                Err(complaint) => request matches Err(text) && text@ == complaint,
            },
            request matches Ok(asked) ==> requests_of(words(s@), D::most_faces() as nat) matches Ok(
                requests,
            ) && asked@.len() == dice_asked(requests),
    {
        let requests = match read_requests(s, D::most()) {
            Ok(requests) => requests,
            Err(text) => {
                return Err(text);
            },
        };
        let mut dice: Vec<D> = Vec::new();
        let mut k: usize = 0;
        while k < requests.len()
            invariant
                k <= requests.len(),
                dice@ == dice_of::<D>(requests@.take(k as int)),
                dice@.len() == dice_asked(requests@.take(k as int)),
            decreases requests.len() - k,
        {
            let die: D = effect_die(requests[k].sides);
            let count = requests[k].count;
            let ghost before = dice@;
            proof {
                assert(requests@.take(k + 1).drop_last() =~= requests@.take(k as int));
            }
            let mut n: u64 = 0;
            while n < count
                invariant
                    n <= count,
                    dice@ == before + Seq::new(n as nat, |i: int| die),
                decreases count - n,
            {
                dice.push(die);
                n += 1;
                assert(dice@ =~= before + Seq::new(n as nat, |i: int| die));
            }
            k += 1;
        }
        proof {
            assert(requests@.take(k as int) =~= requests@);
        }
        Ok(DiceRollRequest { dice })
    }

    /// What one word asks for: the count and the die. `None` where the word
    /// is not well formed or names a die that the game does not have. A
    /// count beyond what a `u64` holds comes back as the largest `u64`.
    pub fn get_die_count(s: &str) -> (asked: Option<(u64, D)>)
        ensures
            asked == match request_of(s@, D::most_faces() as nat) {
                Some(request) => Some((request.count, die_of::<D>(request.sides as int))),
                None => None,
            },
            asked matches Some((_, die)) ==> request_of(s@, D::most_faces() as nat) matches Some(
                request,
            ) && die.faces() == request.sides,
    {
        let chars = read_chars(s);
        proof {
            assert(chars@.subrange(0, chars@.len() as int) =~= chars@);
            D::lemma_die(D::smallest());
        }
        match request_at(&chars, 0, chars.len(), D::most()) {
            Some(request) => {
                proof {
                    D::lemma_sides(request.sides as int);
                }
                Some((request.count, effect_die(request.sides)))
            },
            None => None,
        }
    }

    /// Rolls every die of the request, each with throws of its own. The
    /// rolls come in the order of the dice.
    pub fn roll(self) -> (result: RollResult<D>)
        ensures
            rolls_of(self@, result@),
            result.wf(),
    {
        let mut rolls: Vec<Roll<D>> = Vec::new();
        let mut i: usize = 0;
        while i < self.dice.len()
            invariant
                i <= self.dice.len(),
                rolls@.len() == i,
                forall|j: int| 0 <= j < i ==> can_roll(#[trigger] self@[j], rolls@[j]),
                all_wf(rolls@),
            decreases self.dice.len() - i,
        {
            let roll = roll(self.dice[i]);
            rolls.push(roll);
            i += 1;
        }
        RollResult { rolled_die: rolls }
    }
}

/// The reply to an expression whose dice came to `rolls`: the expression
/// and the rolls in full, or the expression and the short summary where the
/// former would be too long.
pub fn reply<D: GameDie>(expression: &str, rolls: &RollResult<D>) -> (text: String)
    requires
        rolls.wf(),
    ensures
        text@ == reply_of(expression@, rolls@),
{
    let markdown = rolls.to_discord_markdown();
    let summary = rolls.short_summary();
    write_reply(expression, markdown.as_str(), summary.as_str())
}

/// Answers a request to roll dice. An expression that cannot be read is
/// answered with the complaint about it, and no die is rolled. Otherwise the
/// dice are rolled, and the answer is the reply to what they came to.
pub fn get_response<D: GameDie>(dice: &String) -> (response: String)
    ensures
        match parsed::<D>(dice@) {
            Err(complaint) => response@ == complaint,
            Ok(asked) => exists|rolls: Seq<Roll<D>>|
                rolls_of(asked, rolls) && all_wf(rolls) && response@ == reply_of(dice@, rolls),
        },
{
    let request = DiceRollRequest::<D>::parse(dice.as_str());
    let request = match request {
        Err(err) => {
            return err;
        },
        Ok(request) => request,
    };
    let rolls = request.roll();
    reply(dice.as_str(), &rolls)
}

} // verus!
