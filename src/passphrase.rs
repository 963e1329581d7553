//! The passphrase container, its mutation operators and its strength policy.

use vstd::prelude::*;

use crate::charclass::{
    alphabetic_char, ascii_punctuation_char, is_alphabetic, is_ascii_punctuation, is_numeric,
    is_uppercase, numeric_char, to_uppercase, upper_of, uppercase_char,
};

verus! {

/// A phrase of at least this many characters (separators included) is long enough.
pub const CHAR_COUNT_MIN: usize = 19;

/// A phrase of fewer words than this is insecure unless it has full quality.
pub const WORD_COUNT_MIN: usize = 4;

/// A short phrase with full quality needs at least this many characters.
pub const QUALITY_CHAR_COUNT_MIN: usize = 8;

/// A phrase needs at least this many words to be rescued by quality.
pub const QUALITY_WORD_COUNT_MIN: usize = 2;

/// How many characters of `w` satisfy `p`.
pub open spec fn count_in_word(w: Seq<char>, p: spec_fn(char) -> bool) -> nat
    decreases w.len(),
{
    if w.len() == 0 {
        0
    } else {
        count_in_word(w.drop_last(), p) + if p(w.last()) {
            1nat
        } else {
            0nat
        }
    }
}

/// How many characters over all of `ws` satisfy `p`.
pub open spec fn count_in_words(ws: Seq<Seq<char>>, p: spec_fn(char) -> bool) -> nat
    decreases ws.len(),
{
    if ws.len() == 0 {
        0
    } else {
        count_in_words(ws.drop_last(), p) + count_in_word(ws.last(), p)
    }
}

/// The number of characters over all words.
pub open spec fn char_length(ws: Seq<Seq<char>>) -> nat {
    count_in_words(ws, any_char())
}

/// The length of the phrase as displayed: its characters and one separator
/// between each two words.
pub open spec fn total_length(ws: Seq<Seq<char>>) -> nat {
    if ws.len() == 0 {
        0
    } else {
        char_length(ws) + (ws.len() - 1) as nat
    }
}

/// The character classes that the strength policy counts.
pub open spec fn is_upper() -> spec_fn(char) -> bool {
    |c: char| uppercase_char(c)
}

pub open spec fn is_digit() -> spec_fn(char) -> bool {
    |c: char| numeric_char(c)
}

pub open spec fn is_special() -> spec_fn(char) -> bool {
    |c: char| ascii_punctuation_char(c)
}

pub open spec fn any_char() -> spec_fn(char) -> bool {
    |c: char| true
}

/// How many uppercase, numeric and special (ASCII punctuation) characters
/// the words hold.
pub open spec fn uppercase_count(ws: Seq<Seq<char>>) -> nat {
    count_in_words(ws, is_upper())
}

pub open spec fn numeric_count(ws: Seq<Seq<char>>) -> nat {
    count_in_words(ws, is_digit())
}

pub open spec fn special_count(ws: Seq<Seq<char>>) -> nat {
    count_in_words(ws, is_special())
}

/// The composition score, from 0 to 3. A lone digit earns one point only:
/// digits occur both in wordlists and among the special characters.
pub open spec fn quality_score(uppercase: bool, numeric: bool, special: bool) -> nat {
    (if uppercase {
        1nat
    } else {
        0nat
    }) + (if numeric || (special && uppercase) {
        1nat
    } else {
        0nat
    }) + (if special || (numeric && uppercase) {
        1nat
    } else {
        0nat
    })
}

pub open spec fn quality(ws: Seq<Seq<char>>) -> nat {
    quality_score(uppercase_count(ws) > 0, numeric_count(ws) > 0, special_count(ws) > 0)
}

/// The strength policy. A phrase of two or three words is secure exactly when
/// it has full quality and at least `QUALITY_CHAR_COUNT_MIN` characters; any
/// other phrase is secure exactly when it has at least `WORD_COUNT_MIN` words
/// and `CHAR_COUNT_MIN` characters.
pub open spec fn insecure(ws: Seq<Seq<char>>) -> bool {
    if QUALITY_WORD_COUNT_MIN <= ws.len() < WORD_COUNT_MIN {
        !(quality(ws) == 3 && total_length(ws) >= QUALITY_CHAR_COUNT_MIN)
    } else {
        ws.len() < WORD_COUNT_MIN || total_length(ws) < CHAR_COUNT_MIN
    }
}

/// The words joined by `sep`, with no separator before the first or after the last.
pub open spec fn join(ws: Seq<Seq<char>>, sep: char) -> Seq<char>
    decreases ws.len(),
{
    if ws.len() == 0 {
        Seq::empty()
    } else if ws.len() == 1 {
        ws[0]
    } else {
        join(ws.drop_last(), sep).push(sep) + ws.last()
    }
}

/// The separator shown between words: the configured one, else a space.
pub open spec fn separator_or_space(sep: Option<char>) -> char {
    match sep {
        Some(c) => c,
        None => ' ',
    }
}

/// `w` with `ch` inserted for a draw of `pos`: at the front when `pos` is 0,
/// else right after the character at `pos`.
pub open spec fn inserted(w: Seq<char>, pos: int, ch: char) -> Seq<char> {
    if pos == 0 {
        seq![ch] + w
    } else {
        w.subrange(0, pos + 1).push(ch) + w.subrange(pos + 1, w.len() as int)
    }
}

/// `w` with the character at `pos` replaced by its uppercase mapping when it
/// is alphabetic; otherwise `w` unchanged.
pub open spec fn capitalized(w: Seq<char>, pos: int) -> Seq<char> {
    if 0 <= pos < w.len() && alphabetic_char(w[pos]) {
        w.subrange(0, pos) + upper_of(w[pos]) + w.subrange(pos + 1, w.len() as int)
    } else {
        w
    }
}

proof fn lemma_count_in_word_step(w: Seq<char>, j: int, p: spec_fn(char) -> bool)
    requires
        0 <= j < w.len(),
    ensures
        count_in_word(w.take(j + 1), p) == count_in_word(w.take(j), p) + if p(w[j]) {
            1nat
        } else {
            0nat
        },
{
    assert(w.take(j + 1).drop_last() =~= w.take(j));
}

proof fn lemma_count_in_words_step(ws: Seq<Seq<char>>, i: int, p: spec_fn(char) -> bool)
    requires
        0 <= i < ws.len(),
    ensures
        count_in_words(ws.take(i + 1), p) == count_in_words(ws.take(i), p) + count_in_word(
            ws[i],
            p,
        ),
{
    assert(ws.take(i + 1).drop_last() =~= ws.take(i));
}

proof fn lemma_count_in_word_all(w: Seq<char>)
    ensures
        count_in_word(w, any_char()) == w.len(),
    decreases w.len(),
{
    if w.len() > 0 {
        lemma_count_in_word_all(w.drop_last());
    }
}

/// A phrase of four words or more is insecure exactly when it is shorter
/// than `CHAR_COUNT_MIN` characters, separators included, whatever its
/// composition.
pub proof fn lemma_long_phrase_needs_length(ws: Seq<Seq<char>>)
    requires
        ws.len() >= WORD_COUNT_MIN,
    ensures
        insecure(ws) == (total_length(ws) < CHAR_COUNT_MIN),
{
}

/// A phrase of two or three words with an uppercase letter, a special
/// character and at least `QUALITY_CHAR_COUNT_MIN` characters, separators
/// included, is secure.
pub proof fn lemma_short_phrase_with_quality(ws: Seq<Seq<char>>)
    requires
        QUALITY_WORD_COUNT_MIN <= ws.len() < WORD_COUNT_MIN,
        uppercase_count(ws) > 0,
        special_count(ws) > 0,
        total_length(ws) >= QUALITY_CHAR_COUNT_MIN,
    ensures
        !insecure(ws),
{
}

/// Words of at least `m` characters each make at least `m` characters per word.
pub proof fn lemma_char_length_at_least(ws: Seq<Seq<char>>, m: nat)
    requires
        forall|i: int| 0 <= i < ws.len() ==> (#[trigger] ws[i]).len() >= m,
    ensures
        char_length(ws) >= ws.len() * m,
    decreases ws.len(),
{
    if ws.len() > 0 {
        let d = ws.drop_last();
        assert forall|i: int| 0 <= i < d.len() implies (#[trigger] d[i]).len() >= m by {
            assert(d[i] == ws[i]);
        }
        lemma_char_length_at_least(d, m);
        lemma_count_in_word_all(ws.last());
        assert(ws.last() == ws[ws.len() - 1]);
        let n = ws.len();
        assert((n - 1) * m + m == n * m) by (nonlinear_arith);
    }
}

/// A phrase of fewer than two words is insecure, whatever its words.
pub proof fn lemma_single_word_insecure(ws: Seq<Seq<char>>)
    requires
        ws.len() < QUALITY_WORD_COUNT_MIN,
    ensures
        insecure(ws),
{
}

/// An ordered sequence of words, with the separator used to display them.
#[derive(Clone, Debug)]
pub struct PassPhrase {
    inner: Vec<String>,
    separator: Option<char>,
}

impl View for PassPhrase {
    type V = Seq<Seq<char>>;

    closed spec fn view(&self) -> Seq<Seq<char>> {
        self.inner@.map_values(|s: String| s@)
    }
}

impl Default for PassPhrase {
    /// An empty phrase displayed with spaces.
    fn default() -> (r: PassPhrase)
        ensures
            r@ == Seq::<Seq<char>>::empty(),
            r.separator_spec() == None::<char>,
    {
        PassPhrase::new(None)
    }
}

impl PassPhrase {
    /// The separator configured at construction.
    pub closed spec fn separator_spec(&self) -> Option<char> {
        self.separator
    }

    /// The phrase as displayed.
    pub open spec fn display_spec(&self) -> Seq<char> {
        join(self@, separator_or_space(self.separator_spec()))
    }

    /// An empty phrase displayed with `separator`, or with a space when there is none.
    pub fn new(separator: Option<char>) -> (r: Self)
        ensures
            r@ == Seq::<Seq<char>>::empty(),
            r.separator_spec() == separator,
    {
        let r = PassPhrase { inner: Vec::new(), separator };
        assert(r@ =~= Seq::<Seq<char>>::empty());
        r
    }

    pub fn separator(&self) -> (r: Option<char>)
        ensures
            r == self.separator_spec(),
    {
        self.separator
    }

    /// The number of words.
    pub fn len(&self) -> (r: usize)
        ensures
            r == self@.len(),
    {
        self.inner.len()
    }

    pub fn is_empty(&self) -> (r: bool)
        ensures
            r == (self@.len() == 0),
    {
        self.len() == 0
    }

    /// Appends `word`; the result is the phrase itself, for chained appends.
    pub fn push(&mut self, word: &str) -> (r: &mut Self)
        ensures
            r@ == old(self)@.push(word@),
            r.separator_spec() == old(self).separator_spec(),
            *final(self) == *final(r),
    {
        self.inner.push(word.to_owned());
        assert(self@ =~= old(self)@.push(word@));
        self
    }

    /// Whether the phrase fails the strength policy (see `insecure`).
    pub fn is_insecure(&self) -> (r: bool)
        ensures
            r == insecure(self@),
    {
        let word_count = self.inner.len();
        // the character count, capped at CHAR_COUNT_MIN: the policy compares
        // it with nothing larger
        let mut chars: usize = 0;
        let mut uppercase = false;
        let mut numeric = false;
        let mut special = false;
        let ghost ws = self@;
        let mut i: usize = 0;
        while i < word_count
            invariant
                word_count == ws.len(),
                ws == self@,
                i <= word_count,
                chars <= CHAR_COUNT_MIN,
                chars == if char_length(ws.take(i as int)) < CHAR_COUNT_MIN {
                    char_length(ws.take(i as int))
                } else {
                    CHAR_COUNT_MIN as nat
                },
                uppercase == (uppercase_count(ws.take(i as int)) > 0),
                numeric == (numeric_count(ws.take(i as int)) > 0),
                special == (special_count(ws.take(i as int)) > 0),
            decreases word_count - i,
        {
            let word = self.inner[i].as_str();
            assert(word@ == ws[i as int]);
            let n = word.unicode_len();
            let mut j: usize = 0;
            while j < n
                invariant
                    word_count == ws.len(),
                    ws == self@,
                    i < word_count,
                    n == word@.len(),
                    word@ == ws[i as int],
                    j <= n,
                    uppercase == (uppercase_count(ws.take(i as int)) + count_in_word(
                        word@.take(j as int),
                        is_upper(),
                    ) > 0),
                    numeric == (numeric_count(ws.take(i as int)) + count_in_word(
                        word@.take(j as int),
                        is_digit(),
                    ) > 0),
                    special == (special_count(ws.take(i as int)) + count_in_word(
                        word@.take(j as int),
                        is_special(),
                    ) > 0),
                decreases n - j,
            {
                let c = word.get_char(j);
                proof {
                    lemma_count_in_word_step(word@, j as int, is_upper());
                    lemma_count_in_word_step(word@, j as int, is_digit());
                    lemma_count_in_word_step(word@, j as int, is_special());
                }
                // digits are kept apart: they occur in wordlists and among
                // the special characters alike
                if is_numeric(c) {
                    numeric = true;
                }
                if is_ascii_punctuation(c) {
                    special = true;
                }
                if is_uppercase(c) {
                    uppercase = true;
                }
                j += 1;
            }
            proof {
                assert(word@.take(n as int) =~= word@);
                lemma_count_in_words_step(ws, i as int, is_upper());
                lemma_count_in_words_step(ws, i as int, is_digit());
                lemma_count_in_words_step(ws, i as int, is_special());
                lemma_count_in_words_step(ws, i as int, any_char());
                lemma_count_in_word_all(word@);
            }
            if n >= CHAR_COUNT_MIN - chars {
                chars = CHAR_COUNT_MIN;
            } else {
                chars = chars + n;
            }
            i += 1;
        }
        assert(ws.take(word_count as int) =~= ws);
        let mut quality: usize = 0;
        if uppercase {
            quality += 1;
        }
        if numeric || (special && uppercase) {
            quality += 1;
        }
        if special || (numeric && uppercase) {
            quality += 1;
        }
        // with the separators counted, is the phrase at least `min` long?
        let spaces: usize = if word_count == 0 {
            0
        } else {
            word_count - 1
        };
        let long_enough = chars >= CHAR_COUNT_MIN || spaces >= CHAR_COUNT_MIN
            - chars;
        let long_enough_for_quality = chars >= QUALITY_CHAR_COUNT_MIN || spaces
            >= QUALITY_CHAR_COUNT_MIN - chars;
        if QUALITY_WORD_COUNT_MIN <= word_count && word_count < WORD_COUNT_MIN {
            return !(quality == 3 && long_enough_for_quality);
        }
        word_count < WORD_COUNT_MIN || !long_enough
    }

    /// The words joined by the separator (a space when none was configured).
    pub fn to_string(&self) -> (r: String)
        ensures
            r@ == self.display_spec(),
    {
        let sep = match self.separator {
            Some(c) => c,
            None => ' ',
        };
        let ghost ws = self@;
        let mut out = String::new();
        let mut i: usize = 0;
        while i < self.inner.len()
            invariant
                ws == self@,
                sep == separator_or_space(self.separator_spec()),
                i <= ws.len(),
                out@ == join(ws.take(i as int), sep),
            decreases ws.len() - i,
        {
            proof {
                assert(ws.take(i + 1).drop_last() =~= ws.take(i as int));
            }
            if i > 0 {
                out.push(sep);
            } else {
                assert(out@ + ws[0] =~= ws[0]);
            }
            out.append(self.inner[i].as_str());
            i += 1;
        }
        assert(ws.take(ws.len() as int) =~= ws);
        out
    }

    /// Uppercases the character at `pos` of the word at `index` when it is
    /// alphabetic; a non-alphabetic character or a `pos` past the word's end
    /// leaves the phrase unchanged. The uppercase form may be longer than one
    /// character.
    pub fn capitalize_character_at(&mut self, index: usize, pos: usize)
        requires
            index < old(self)@.len(),
        ensures
            final(self)@ == old(self)@.update(index as int, capitalized(old(self)@[index as int], pos as int)),
            final(self).separator_spec() == old(self).separator_spec(),
            capitalized(old(self)@[index as int], pos as int).len() >= old(self)@[index as int].len(),
    {
        let word = self.inner[index].as_str();
        let n = word.unicode_len();
        if pos < n {
            let c = word.get_char(pos);
            if is_alphabetic(c) {
                let upper = to_uppercase(c);
                let mut w = String::from_str(word.substring_char(0, pos));
                w.append(upper.as_str());
                w.append(word.substring_char(pos + 1, n));
                self.set(index, w);
                return ;
            }
        }
        assert(old(self)@.update(index as int, old(self)@[index as int]) =~= old(self)@);
    }

    /// Inserts `ch` into the word at `index`: in front of it when `pos` is 0,
    /// else right after its character at `pos`. Positions count characters,
    /// not bytes.
    pub fn insert_character_at(&mut self, index: usize, pos: usize, ch: char)
        requires
            index < old(self)@.len(),
            pos == 0 || pos < old(self)@[index as int].len(),
        ensures
            final(self)@ == old(self)@.update(index as int, inserted(old(self)@[index as int], pos as int, ch)),
            final(self).separator_spec() == old(self).separator_spec(),
            inserted(old(self)@[index as int], pos as int, ch).len() == old(self)@[index as int].len() + 1,
    {
        let word = self.inner[index].as_str();
        let n = word.unicode_len();
        let mut w = String::new();
        if pos == 0 {
            w.push(ch);
            w.append(word);
            assert(w@ =~= seq![ch] + word@);
        } else {
            w.append(word.substring_char(0, pos + 1));
            w.push(ch);
            w.append(word.substring_char(pos + 1, n));
        }
        self.set(index, w);
    }

    /// The word at `index`.
    pub fn get(&self, index: usize) -> (r: &str)
        requires
            index < self@.len(),
        ensures
            r@ == self@[index as int],
    {
        self.inner[index].as_str()
    }

    /// Replaces the word at `index` by `value`.
    pub fn set(&mut self, index: usize, value: String)
        requires
            index < old(self)@.len(),
        ensures
            final(self)@ == old(self)@.update(index as int, value@),
            final(self).separator_spec() == old(self).separator_spec(),
    {
        let ghost v = value@;
        self.inner.set(index, value);
        assert(self@ =~= old(self)@.update(index as int, v));
    }
}

} // verus!
