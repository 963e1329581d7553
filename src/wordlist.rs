//! Diceware wordlists, addressed by five-digit dice keys, and the grid of
//! special characters addressed by two dice.

use vstd::prelude::*;

verus! {

/// Dice rolled for one word.
pub const KEY_DIGITS: usize = 5;

/// Words in a complete list: one for each key, 6 to the power `KEY_DIGITS`.
pub const WORDLIST_LEN: usize = 7776;

/// A die face written as a digit, '1' to '6'.
pub open spec fn is_face(c: char) -> bool {
    '1' <= c <= '6'
}

/// A dice key: five faces, the first roll first.
pub open spec fn is_dice_key(s: Seq<char>) -> bool {
    s.len() == KEY_DIGITS && forall|i: int| 0 <= i < s.len() ==> is_face(#[trigger] s[i])
}

/// The faces of `s` read as a number in base 6, first face most significant.
pub open spec fn key_value(s: Seq<char>) -> int
    decreases s.len(),
{
    if s.len() == 0 {
        0
    } else {
        key_value(s.drop_last()) * 6 + (s.last() as int - '1' as int)
    }
}

pub open spec fn pow6(n: nat) -> nat
    decreases n,
{
    if n == 0 {
        1
    } else {
        6 * pow6((n - 1) as nat)
    }
}

proof fn lemma_key_value_bound(s: Seq<char>)
    requires
        forall|i: int| 0 <= i < s.len() ==> is_face(#[trigger] s[i]),
    ensures
        0 <= key_value(s) < pow6(s.len()),
    decreases s.len(),
{
    if s.len() > 0 {
        let d = s.drop_last();
        assert forall|i: int| 0 <= i < d.len() implies is_face(#[trigger] d[i]) by {
            assert(d[i] == s[i]);
        }
        lemma_key_value_bound(d);
        let k = key_value(d);
        let p = pow6(d.len());
        let x = s.last() as int - '1' as int;
        assert(s.last() == s[s.len() - 1]);
        assert(0 <= x < 6);
        assert(0 <= k * 6 + x < 6 * p) by (nonlinear_arith)
            requires
                0 <= k < p,
                0 <= x < 6,
        ;
    }
}

proof fn lemma_pow6_key_digits()
    ensures
        pow6(KEY_DIGITS as nat) == WORDLIST_LEN,
        forall|n: nat| n <= KEY_DIGITS ==> #[trigger] pow6(n) <= WORDLIST_LEN,
{
    assert(pow6(0) == 1);
    assert(pow6(1) == 6);
    assert(pow6(2) == 36);
    assert(pow6(3) == 216);
    assert(pow6(4) == 1296);
    assert(pow6(5) == 7776);
}

/// A complete wordlist: one word for each dice key, in the order of the keys
/// read as base-6 numbers ("11111" first, "66666" last).
pub struct WordList {
    words: Vec<String>,
}

impl View for WordList {
    type V = Seq<Seq<char>>;

    closed spec fn view(&self) -> Seq<Seq<char>> {
        self.words@.map_values(|s: String| s@)
    }
}

impl WordList {
    #[verifier::type_invariant]
    spec fn complete(&self) -> bool {
        self.words@.len() == WORDLIST_LEN
    }

    /// The word bound to a dice key.
    pub open spec fn word_for(&self, key: Seq<char>) -> Seq<char> {
        self@[key_value(key)]
    }

    /// A wordlist from its words in key order; `None` unless there is
    /// exactly one word for each key.
    pub fn from_words(words: Vec<String>) -> (r: Option<WordList>)
        ensures
            r is Some <==> words@.len() == WORDLIST_LEN,
            r matches Some(l) ==> l@ == words@.map_values(|s: String| s@),
    {
        if words.len() == WORDLIST_LEN {
            Some(WordList { words })
        } else {
            None
        }
    }

    pub fn len(&self) -> (r: usize)
        ensures
            r == self@.len(),
            r == WORDLIST_LEN,
    {
        proof {
            use_type_invariant(self);
        }
        self.words.len()
    }

    /// The word bound to `key`, which must be a dice key.
    pub fn lookup(&self, key: &str) -> (r: &str)
        requires
            is_dice_key(key@),
        ensures
            r@ == self.word_for(key@),
    {
        proof {
            use_type_invariant(self);
        }
        let index = key_index(key);
        self.words[index].as_str()
    }
}

/// The position of a dice key's word in a wordlist.
pub fn key_index(key: &str) -> (r: usize)
    requires
        is_dice_key(key@),
    ensures
        r == key_value(key@),
        r < WORDLIST_LEN,
{
    let ghost s = key@;
    let mut index: usize = 0;
    let mut j: usize = 0;
    while j < KEY_DIGITS
        invariant
            s == key@,
            is_dice_key(s),
            j <= KEY_DIGITS,
            index == key_value(s.take(j as int)),
            index < pow6(j as nat),
        decreases KEY_DIGITS - j,
    {
        let c = key.get_char(j);
        proof {
            assert(s.take(j + 1).last() == c);
            assert(s.take(j + 1).drop_last() =~= s.take(j as int));
            assert forall|i: int| 0 <= i < s.take(j + 1).len() implies is_face(
                #[trigger] s.take(j + 1)[i],
            ) by {
                assert(s.take(j + 1)[i] == s[i]);
            }
            lemma_key_value_bound(s.take(j + 1));
            lemma_pow6_key_digits();
        }
        index = index * 6 + (c as u32 - '1' as u32) as usize;
        j += 1;
    }
    assert(s.take(KEY_DIGITS as int) =~= s);
    proof {
        lemma_pow6_key_digits();
    }
    index
}

/// The special-character grid, row by row.
pub open spec fn special_row(row: int) -> Seq<char> {
    if row == 0 {
        "~!#$%^"@
    } else if row == 1 {
        "&*()-="@
    } else if row == 2 {
        "+[]\\{}"@
    } else if row == 3 {
        ":;\"'<>"@
    } else if row == 4 {
        "?/0123"@
    } else {
        "456789"@
    }
}

/// The special character at `row` and `col`, each a die roll from 0 to 5.
pub fn special_char(row: usize, col: usize) -> (r: char)
    requires
        row < 6,
        col < 6,
    ensures
        r == special_row(row as int)[col as int],
{
    let chars = if row == 0 {
        "~!#$%^"
    } else if row == 1 {
        "&*()-="
    } else if row == 2 {
        "+[]\\{}"
    } else if row == 3 {
        ":;\"'<>"
    } else if row == 4 {
        "?/0123"
    } else {
        "456789"
    };
    proof {
        reveal_strlit("~!#$%^");
        reveal_strlit("&*()-=");
        reveal_strlit("+[]\\{}");
        reveal_strlit(":;\"'<>");
        reveal_strlit("?/0123");
        reveal_strlit("456789");
    }
    chars.get_char(col)
}

} // verus!
