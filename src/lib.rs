//! Diceware passphrase generation: dice rolls pick words from a wordlist,
//! phrases can be strengthened with a capital letter or a special character,
//! and a strength policy decides which phrases are handed out.

pub mod charclass;
pub mod cli;
pub mod passphrase;
pub mod wordlist;

use rand::distributions::{Distribution, Uniform};
use vstd::prelude::*;

use crate::charclass::{alphabetic_char, upper_of};
use crate::cli::Args;
use crate::passphrase::{
    capitalized, inserted, insecure, lemma_char_length_at_least, lemma_single_word_insecure,
    PassPhrase, WORD_COUNT_MIN,
};
use crate::wordlist::{is_dice_key, is_face, special_char, special_row, WordList, KEY_DIGITS};

verus! {

/// Relies on rand's `Uniform` over `low..high`, sampled from `thread_rng`:
/// a value in `[low, high)`. `Uniform::new` panics when `low >= high`.
#[verifier::external_body]
fn roll_dice(low: usize, high: usize) -> (r: usize)
    requires
        low < high,
    ensures
        low <= r < high,
{
    Uniform::from(low..high).sample(&mut rand::thread_rng())
}

/// A position the operators may pick in `w`: 0 for a word of at most one
/// character, else any of its characters.
pub open spec fn valid_position(w: Seq<char>, pos: int) -> bool {
    if w.len() <= 1 {
        pos == 0
    } else {
        0 <= pos < w.len()
    }
}

/// Draws a word of `pp` and a position in it, as `valid_position` allows.
fn roll_position(pp: &PassPhrase) -> (r: (usize, usize))
    requires
        pp@.len() > 0,
    ensures
        r.0 < pp@.len(),
        valid_position(pp@[r.0 as int], r.1 as int),
{
    let idx_word = roll_dice(0, pp.len());
    let len_word = pp.get(idx_word).unicode_len();
    let mut idx_char: usize = 0;
    if len_word > 1 {
        idx_char = roll_dice(0, len_word);
    }
    (idx_word, idx_char)
}

/// `after` is `before` with one word, at a position the operators may pick,
/// changed by `op`.
pub open spec fn one_word_changed(
    before: Seq<Seq<char>>,
    after: Seq<Seq<char>>,
    op: spec_fn(Seq<char>, int) -> Seq<char>,
) -> bool {
    if before.len() == 0 {
        after == before
    } else {
        exists|w: int, pos: int|
            0 <= w < before.len() && valid_position(before[w], pos) && after == before.update(
                w,
                #[trigger] op(before[w], pos),
            )
    }
}

/// The change that `add_capital_char` makes to the word it picks.
pub open spec fn capitalize_op() -> spec_fn(Seq<char>, int) -> Seq<char> {
    |w: Seq<char>, pos: int| capitalized(w, pos)
}

/// The change that `add_special_char` makes to the word it picks.
pub open spec fn insert_op(ch: char) -> spec_fn(Seq<char>, int) -> Seq<char> {
    |w: Seq<char>, pos: int| inserted(w, pos, ch)
}

/// Into a word of one character, a special character can only go in front.
pub proof fn lemma_insert_into_single_character(w: Seq<char>, pos: int, ch: char)
    requires
        w.len() == 1,
        valid_position(w, pos),
    ensures
        pos == 0,
        inserted(w, pos, ch) == seq![ch, w[0]],
{
    assert(inserted(w, pos, ch) =~= seq![ch, w[0]]);
}

/// A word of one character is capitalised at that character: an alphabetic
/// one becomes its uppercase mapping, any other stays as it is.
pub proof fn lemma_capitalize_single_character(w: Seq<char>, pos: int)
    requires
        w.len() == 1,
        valid_position(w, pos),
    ensures
        capitalized(w, pos) == if alphabetic_char(w[0]) {
            upper_of(w[0])
        } else {
            w
        },
{
    if alphabetic_char(w[0]) {
        assert(capitalized(w, pos) =~= upper_of(w[0]));
    }
}

/// Uppercases, if it is alphabetic, one character drawn at random from a word
/// drawn at random. An empty phrase is left as it is.
pub fn add_capital_char(pp: &mut PassPhrase) -> (r: &PassPhrase)
    ensures
        one_word_changed(old(pp)@, r@, capitalize_op()),
        r@.len() == old(pp)@.len(),
        forall|i: int| 0 <= i < r@.len() ==> (#[trigger] r@[i]).len() >= old(pp)@[i].len(),
        r.separator_spec() == old(pp).separator_spec(),
        *final(pp) == *r,
{
    if pp.len() > 0 {
        let (idx_word, idx_char) = roll_position(pp);
        pp.capitalize_character_at(idx_word, idx_char);
        assert(pp@ == old(pp)@.update(
            idx_word as int,
            capitalize_op()(old(pp)@[idx_word as int], idx_char as int),
        ));
    }
    pp
}

/// Inserts `ch` into a word drawn at random, at a position drawn at random:
/// in front of a word of at most one character, else in front of it or right
/// after one of its characters (see `inserted`). An empty phrase is left as it is.
pub fn add_special_char(pp: &mut PassPhrase, ch: char) -> (r: &PassPhrase)
    ensures
        one_word_changed(old(pp)@, r@, insert_op(ch)),
        r@.len() == old(pp)@.len(),
        forall|i: int| 0 <= i < r@.len() ==> (#[trigger] r@[i]).len() >= old(pp)@[i].len(),
        r.separator_spec() == old(pp).separator_spec(),
        *final(pp) == *r,
{
    if pp.len() > 0 {
        let (idx_word, idx_char) = roll_position(pp);
        pp.insert_character_at(idx_word, idx_char, ch);
        assert(pp@ == old(pp)@.update(
            idx_word as int,
            insert_op(ch)(old(pp)@[idx_word as int], idx_char as int),
        ));
    }
    pp
}

/// A character of the special-character grid.
pub open spec fn is_special_char(c: char) -> bool {
    exists|row: int, col: int| 0 <= row < 6 && 0 <= col < 6 && c == #[trigger] special_row(row)[col]
}

/// One of the special characters, drawn with two dice.
pub fn roll_for_special_char() -> (r: char)
    ensures
        is_special_char(r),
{
    let x = roll_dice(0, 6);
    let y = roll_dice(0, 6);
    special_char(x, y)
}

/// The digit that shows a die face from 1 to 6.
fn face_digit(n: usize) -> (c: char)
    requires
        1 <= n <= 6,
    ensures
        is_face(c),
        c as int == '0' as int + n,
{
    ((n as u8) + 48u8) as char
}

/// The dice key that writes `faces`, each from 1 to 6, as digits in order:
/// the first face first.
pub fn dice_key(faces: &Vec<usize>) -> (r: String)
    requires
        faces@.len() == KEY_DIGITS,
        forall|i: int| 0 <= i < KEY_DIGITS ==> 1 <= #[trigger] faces@[i] <= 6,
    ensures
        r@.len() == KEY_DIGITS,
        forall|i: int| 0 <= i < KEY_DIGITS ==> #[trigger] r@[i] as int == '0' as int + faces@[i],
        is_dice_key(r@),
{
    let mut key = String::new();
    let mut k: usize = 0;
    while k < KEY_DIGITS
        invariant
            faces@.len() == KEY_DIGITS,
            forall|i: int| 0 <= i < KEY_DIGITS ==> 1 <= #[trigger] faces@[i] <= 6,
            k <= KEY_DIGITS,
            key@.len() == k,
            forall|i: int| 0 <= i < k ==> is_face(#[trigger] key@[i]),
            forall|i: int| 0 <= i < k ==> #[trigger] key@[i] as int == '0' as int + faces@[i],
        decreases KEY_DIGITS - k,
    {
        key.push(face_digit(faces[k]));
        k += 1;
    }
    key
}

/// Five die rolls written as a dice key, the first roll first.
pub fn roll_dice_5_times() -> (r: String)
    ensures
        is_dice_key(r@),
        exists|faces: Seq<usize>|
            faces.len() == KEY_DIGITS && (forall|i: int| 0 <= i < KEY_DIGITS ==> 1 <= #[trigger] faces[i] <= 6)
                && (forall|i: int| 0 <= i < KEY_DIGITS ==> #[trigger] r@[i] as int == '0' as int + faces[i]),
{
    let mut faces: Vec<usize> = Vec::new();
    let mut k: usize = 0;
    while k < KEY_DIGITS
        invariant
            k <= KEY_DIGITS,
            faces@.len() == k,
            forall|i: int| 0 <= i < k ==> 1 <= #[trigger] faces@[i] <= 6,
        decreases KEY_DIGITS - k,
    {
        faces.push(roll_dice(1, 7));
        k += 1;
    }
    let key = dice_key(&faces);
    assert(faces@.len() == KEY_DIGITS);
    key
}

/// The word that `lookup`, a dice key, selects in `diceware_map`.
pub fn lookup_word<'a>(lookup: &str, diceware_map: &'a WordList) -> (r: &'a str)
    requires
        is_dice_key(lookup@),
    ensures
        r@ == diceware_map.word_for(lookup@),
{
    diceware_map.lookup(lookup)
}

/// The wordlist that `cli_args` selects: the EFF one when asked, else the original one.
pub fn choose_word_list<'a>(cli_args: &Args, original: &'a WordList, eff: &'a WordList) -> (r:
    &'a WordList)
    ensures
        *r == if cli_args.eff {
            *eff
        } else {
            *original
        },
{
    if cli_args.eff {
        return eff;
    }
    original
}

/// Appends `candidate` to `list` when it passes the strength policy, and
/// drops it otherwise.
pub fn keep_if_secure(list: &mut Vec<PassPhrase>, candidate: PassPhrase)
    ensures
        final(list)@ == if insecure(candidate@) {
            old(list)@
        } else {
            old(list)@.push(candidate)
        },
{
    if !candidate.is_insecure() {
        list.push(candidate);
    }
}

/// The wordlist that `args` selects.
pub open spec fn selected(args: Args, original: WordList, eff: WordList) -> WordList {
    if args.eff {
        eff
    } else {
        original
    }
}

/// Every word of `list` has at least `m` characters.
pub open spec fn words_at_least(list: WordList, m: nat) -> bool {
    forall|key: Seq<char>| is_dice_key(key) ==> (#[trigger] list.word_for(key)).len() >= m
}

/// Whether `w` is the word of some dice key in `list`.
pub open spec fn is_list_word(list: WordList, w: Seq<char>) -> bool {
    exists|key: Seq<char>| is_dice_key(key) && #[trigger] list.word_for(key) == w
}

/// The capital-letter step of an iteration: `mid` is `base` capitalised when
/// `capital` holds, else `base` itself.
pub open spec fn capital_step(base: Seq<Seq<char>>, mid: Seq<Seq<char>>, capital: bool) -> bool {
    if capital {
        one_word_changed(base, mid, capitalize_op())
    } else {
        mid == base
    }
}

/// The special-character step of an iteration: `after` is `mid` with a
/// character of the grid inserted when `special` holds, else `mid` itself.
pub open spec fn special_step(mid: Seq<Seq<char>>, after: Seq<Seq<char>>, special: bool) -> bool {
    if special {
        exists|ch: char| is_special_char(ch) && #[trigger] one_word_changed(mid, after, insert_op(ch))
    } else {
        after == mid
    }
}

/// `after` is `base` capitalised and then given a special character, each
/// step only when asked for.
pub open spec fn mutated(
    base: Seq<Seq<char>>,
    after: Seq<Seq<char>>,
    capital: bool,
    special: bool,
) -> bool {
    exists|mid: Seq<Seq<char>>| #[trigger] capital_step(base, mid, capital) && special_step(mid, after, special)
}

/// Whether `args` asks for a capital letter (quality asks for one).
pub open spec fn capital_asked(args: Args) -> bool {
    args.use_capital_char || args.quality
}

/// Whether `args` asks for a special character (quality asks for one).
pub open spec fn special_asked(args: Args) -> bool {
    args.use_special_char || args.quality
}

/// A phrase that one iteration can build for `args` from `list`: the words
/// of `word_count` dice keys, mutated as `args` asks, shown with its separator.
pub open spec fn is_candidate(c: PassPhrase, args: Args, list: WordList) -> bool {
    &&& c.separator_spec() == args.separator
    &&& exists|base: Seq<Seq<char>>|
        {
            &&& base.len() == args.word_count
            &&& (forall|i: int| 0 <= i < base.len() ==> is_list_word(list, #[trigger] base[i]))
            &&& #[trigger] mutated(base, c@, capital_asked(args), special_asked(args))
        }
}

/// Keeps a phrase that passes the strength policy.
pub open spec fn secure_phrase() -> spec_fn(PassPhrase) -> bool {
    |c: PassPhrase| !insecure(c@)
}

/// Attempts `num_of_pass` passphrases of `word_count` words each, drawn from
/// the wordlist that `cli_args` selects, and keeps those that pass the
/// strength policy, in the order they were made: the result is the
/// candidates of the iterations, filtered by the policy. A capital letter is
/// added before a special character, so that the capitaliser never lands on
/// the special character.
pub fn iterate(cli_args: &Args, original: &WordList, eff: &WordList) -> (r: Vec<PassPhrase>)
    ensures
        exists|candidates: Seq<PassPhrase>|
            {
                &&& candidates.len() == cli_args.num_of_pass
                &&& forall|k: int|
                    0 <= k < candidates.len() ==> is_candidate(
                        #[trigger] candidates[k],
                        *cli_args,
                        selected(*cli_args, *original, *eff),
                    )
                &&& r@ == #[trigger] candidates.filter(secure_phrase())
            },
        r@.len() <= cli_args.num_of_pass,
        forall|k: int|
            0 <= k < r@.len() ==> {
                &&& (#[trigger] r@[k])@.len() == cli_args.word_count
                &&& !insecure(r@[k]@)
                &&& r@[k].separator_spec() == cli_args.separator
            },
        !capital_asked(*cli_args) && !special_asked(*cli_args) ==> forall|k: int, i: int|
            0 <= k < r@.len() && 0 <= i < cli_args.word_count ==> is_list_word(
                selected(*cli_args, *original, *eff),
                #[trigger] r@[k]@[i],
            ),
        cli_args.word_count < 2 ==> r@.len() == 0,
        forall|m: nat|
            #[trigger] words_at_least(
                selected(*cli_args, *original, *eff),
                m,
            ) && cli_args.word_count >= WORD_COUNT_MIN && cli_args.word_count * (m + 1) >= 20
                ==> r@.len() == cli_args.num_of_pass,
{
    let separator = cli_args.separator;
    let word_count = cli_args.word_count;
    let iterations = cli_args.num_of_pass;
    let capital = cli_args.use_capital_char || cli_args.quality;
    let special = cli_args.use_special_char || cli_args.quality;
    let diceware_map = choose_word_list(cli_args, original, eff);
    let mut list = Vec::<PassPhrase>::new();
    let ghost mut candidates: Seq<PassPhrase> = Seq::empty();
    proof {
        reveal(Seq::filter);
    }
    let mut n: u8 = 0;
    while n < iterations
        invariant
            n <= iterations,
            iterations == cli_args.num_of_pass,
            word_count == cli_args.word_count,
            separator == cli_args.separator,
            capital == capital_asked(*cli_args),
            special == special_asked(*cli_args),
            *diceware_map == selected(*cli_args, *original, *eff),
            candidates.len() == n,
            forall|k: int|
                0 <= k < candidates.len() ==> is_candidate(
                    #[trigger] candidates[k],
                    *cli_args,
                    *diceware_map,
                ),
            list@ == candidates.filter(secure_phrase()),
            list@.len() <= n,
            forall|m: nat|
                #[trigger] words_at_least(*diceware_map, m) && word_count >= WORD_COUNT_MIN
                    && word_count * (m + 1) >= 20 ==> list@.len() == n,
            forall|k: int|
                0 <= k < list@.len() ==> {
                    &&& (#[trigger] list@[k])@.len() == word_count
                    &&& !insecure(list@[k]@)
                    &&& list@[k].separator_spec() == separator
                },
            !capital && !special ==> forall|k: int, i: int|
                0 <= k < list@.len() && 0 <= i < word_count ==> is_list_word(
                    *diceware_map,
                    #[trigger] list@[k]@[i],
                ),
        decreases iterations - n,
    {
        let mut passphrase = PassPhrase::new(separator);
        let mut w: u8 = 0;
        while w < word_count
            invariant
                w <= word_count,
                passphrase@.len() == w,
                passphrase.separator_spec() == separator,
                forall|i: int| 0 <= i < w ==> is_list_word(*diceware_map, #[trigger] passphrase@[i]),
            decreases word_count - w,
        {
            let lookup = roll_dice_5_times();
            let word = lookup_word(lookup.as_str(), diceware_map);
            passphrase.push(word);
            assert(is_list_word(*diceware_map, passphrase@[w as int]));
            w += 1;
        }
        let ghost base = passphrase@;
        // Capitalise first: a special character inserted before could take
        // the place that the capitaliser then picks.
        if capital {
            add_capital_char(&mut passphrase);
        }
        let ghost mid = passphrase@;
        assert(capital_step(base, mid, capital));
        assert(forall|i: int| 0 <= i < mid.len() ==> (#[trigger] mid[i]).len() >= base[i].len());
        if special {
            let ch = roll_for_special_char();
            add_special_char(&mut passphrase, ch);
            assert(is_special_char(ch) && one_word_changed(mid, passphrase@, insert_op(ch)));
        }
        let ghost candidate = passphrase;
        proof {
            assert(special_step(mid, candidate@, special));
            assert(mutated(base, candidate@, capital, special));
            assert(is_candidate(candidate, *cli_args, *diceware_map));
            assert forall|m: nat|
                #[trigger] words_at_least(*diceware_map, m) && word_count >= WORD_COUNT_MIN
                    && word_count * (m + 1) >= 20 implies !insecure(candidate@) by {
                assert forall|i: int| 0 <= i < candidate@.len() implies (
                #[trigger] candidate@[i]).len() >= m by {
                    let key = choose|key: Seq<char>|
                        is_dice_key(key) && #[trigger] diceware_map.word_for(key) == base[i];
                    assert(diceware_map.word_for(key).len() >= m);
                }
                lemma_char_length_at_least(candidate@, m);
                let wc = word_count as int;
                assert(wc * m + wc == wc * (m + 1)) by (nonlinear_arith);
            }
        }
        let ghost before = list@;
        let ghost old_candidates = candidates;
        keep_if_secure(&mut list, passphrase);
        proof {
            candidates = candidates.push(candidate);
            reveal(Seq::filter);
            assert(candidates.drop_last() =~= old_candidates);
            assert(candidates.last() == candidate);
            assert(secure_phrase()(candidate) == !insecure(candidate@));
            assert(candidates.filter(secure_phrase()) == if !insecure(candidate@) {
                old_candidates.filter(secure_phrase()).push(candidate)
            } else {
                old_candidates.filter(secure_phrase())
            });
            if list@.len() > before.len() {
                assert(list@[before.len() as int] == candidate);
            }
        }
        n += 1;
    }
    proof {
        if word_count < 2 && list@.len() > 0 {
            lemma_single_word_insecure(list@[0]@);
        }
    }
    list
}

/// Whether a run has to report that no passphrase passed the strength
/// policy: it attempted some and kept none.
pub fn none_secure(list: &Vec<PassPhrase>, cli_args: &Args) -> (r: bool)
    ensures
        r == (list@.len() == 0 && cli_args.num_of_pass > 0),
{
    list.len() == 0 && cli_args.num_of_pass > 0
}

} // verus!
