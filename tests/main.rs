use sppg::cli::Args;
use sppg::passphrase::PassPhrase;
use sppg::wordlist::{key_index, special_char, WordList};
use sppg::{
    add_capital_char, add_special_char, choose_word_list, dice_key, iterate, keep_if_secure, lookup_word,
    none_secure, roll_dice_5_times, roll_for_special_char,
};

const KEYS: usize = 7776;

/// A lowercase filler word for each position of a list.
fn filler(i: usize) -> String {
    let mut w = String::new();
    let mut n = i;
    for _ in 0..4 {
        w.push((b'a' + (n % 26) as u8) as char);
        n /= 26;
    }
    w
}

/// A complete list with `known` words at the given keys.
fn fixture(known: &[(&str, &str)]) -> WordList {
    let mut words: Vec<String> = (0..KEYS).map(filler).collect();
    for (key, word) in known {
        words[key_index(key)] = word.to_string();
    }
    WordList::from_words(words).expect("one word per key")
}

fn original() -> WordList {
    fixture(&[("11111", "a"), ("36355", "levi"), ("66666", "\"@")])
}

fn eff() -> WordList {
    fixture(&[("11111", "abacus")])
}

fn contains_uppercase(s: &str) -> bool {
    s.chars().any(|c| c.is_uppercase())
}

#[test]
fn correct_digits() {
    let lookup_num = roll_dice_5_times();

    assert_eq!(lookup_num.len(), 5, "The lookup number is 5 digits long");

    for i in 0..lookup_num.len() {
        let ch = lookup_num.as_bytes()[i];
        assert!(
            ch >= b'1' && ch <= b'6',
            "Each character is between 1 - 6, inclusive"
        )
    }
}

#[test]
fn lookup_number_retrieves_word() {
    let cases = [("11111", "a"), ("36355", "levi"), ("66666", "\"@")];

    let cli_args = Args::default();
    let (orig, eff) = (original(), eff());
    let diceware_map = choose_word_list(&cli_args, &orig, &eff);
    for (index, expected) in cases {
        let word = lookup_word(&index, &diceware_map);
        assert_eq!(
            word, expected,
            "lookup index {}, expected {}",
            index, expected
        )
    }
}

#[test]
fn default_iterations_and_word_count() {
    let cli_args = Args::default();
    let num_choices = cli_args.num_of_pass;
    let word_count = cli_args.word_count;
    let list = iterate(&cli_args, &original(), &eff());

    // Because there may be insecure passphrases we can't test for equality
    assert!(
        list.len() <= 6,
        "number of passphrases is <= {}",
        num_choices
    );

    for pp in list {
        assert_eq!(pp.len(), 5, "words in passphrase = {}", word_count);
    }
}

#[test]
fn iterations_and_word_count() {
    let num_choices = 12;
    let word_count = 15;
    let mut cli_args = Args::default();
    cli_args.num_of_pass = num_choices;
    cli_args.word_count = word_count;
    let list = iterate(&cli_args, &original(), &eff());

    // Because there may be insecure passphrases we can't test for equality
    assert!(
        list.len() <= 12,
        "number of passphrases is <= {}",
        num_choices
    );

    for pp in list {
        assert_eq!(pp.len(), 15, "words in passphrase = {}", word_count);
    }
}

#[test]
fn choose_wordlist_default() {
    let args = Args::default();
    let (orig, eff) = (original(), eff());
    let map = choose_word_list(&args, &orig, &eff);
    assert_eq!(
        lookup_word(&"11111", map),
        "a",
        "default wordlist is the original one",
    );
}

#[test]
fn choose_wordlist_eff() {
    let mut args = Args::default();
    args.eff = true;
    let (orig, eff) = (original(), eff());
    let map = choose_word_list(&args, &orig, &eff);

    assert_eq!(
        lookup_word("11111", map),
        "abacus",
        "when -e is used wordlist is the EFF one",
    );
}

#[test]
fn special_char_handling() {
    let mut cli_args = Args::default();
    cli_args.num_of_pass = 1;
    cli_args.word_count = 7;
    let mut list = iterate(&cli_args, &original(), &eff());
    assert!(!list.is_empty());
    let special_char = roll_for_special_char();
    let new_pp = add_special_char(&mut list[0], special_char);

    let output = new_pp.to_string();
    assert!(
        output.contains(special_char),
        "the passphrase contains a special char"
    );
}

#[test]
fn no_insecure_passphrases() {
    let num_choices = 1;
    let word_count = 1;
    let mut cli_args = Args::default();
    cli_args.num_of_pass = num_choices;
    cli_args.word_count = word_count;
    let list = iterate(&cli_args, &original(), &eff());

    assert_eq!(list.len(), 0, "list of passphrases is empty");
    assert!(none_secure(&list, &cli_args));
}

#[test]
fn capital_char_handling() {
    let mut pp = PassPhrase::new(None);
    pp.push("some");
    pp.push("phrase");
    let mut list = Vec::<PassPhrase>::new();
    list.push(pp);
    let new_pp = add_capital_char(&mut list[0]);

    let output = new_pp.to_string();
    assert!(
        contains_uppercase(&output),
        "the passphrase contains a Capital letter"
    );
}

#[test]
fn quality_for_short_phrases() {
    let mut cli_args = Args::default();
    cli_args.num_of_pass = 1;
    cli_args.use_capital_char = true;
    cli_args.use_special_char = true;
    cli_args.word_count = 2;
    let (orig, eff) = (original(), eff());
    let mut list = iterate(&cli_args, &orig, &eff);
    while list.is_empty() {
        list = iterate(&cli_args, &orig, &eff);
    }
    let pp = &list[0];

    let output = pp.to_string();
    assert!(
        contains_uppercase(&output),
        "the passphrase contains a Capital letter"
    );

    let contains_special = output
        .chars()
        .any(|ch| ch.is_numeric() || ch.is_ascii_punctuation());
    assert!(contains_special, "the passphrase contains a special char");
}

#[test]
fn special_char_in_first_word() {
    let mut pp = PassPhrase::new(None);
    pp.push("some");
    pp.push("phrase");
    let mut list = Vec::<PassPhrase>::new();
    list.push(pp);
    let mut contains_special_char = false;
    // assume 500 tries is enough to get at least one special char in the first word
    for _ in 0..500 {
        // Wordlist contains numbers so skip them to avoid false positives
        let mut ch = roll_for_special_char();
        while ch >= '0' && ch <= '9' {
            ch = roll_for_special_char();
        }
        let new_pp = add_special_char(&mut list[0], ch);

        let output = new_pp.get(0).to_string();
        if output.chars().any(|c| c.is_ascii_punctuation()) {
            contains_special_char = true;
        }
    }

    assert!(
        contains_special_char,
        "the first word in the passphrase contains a special char"
    );
}

#[test]
fn special_char_in_first_character() {
    let mut pp = PassPhrase::new(None);
    pp.push("some");
    pp.push("phrase");
    let mut list = Vec::<PassPhrase>::new();
    list.push(pp);
    let mut contains_special_char = false;
    // assume 500 tries is enough to get at least one special char in the first word
    for _ in 0..500 {
        let ch = '*';
        let new_pp = add_special_char(&mut list[0], ch);

        let output = new_pp.get(0).to_string();
        if output[0..1] == ch.to_string() {
            contains_special_char = true;
        }
    }

    assert!(
        contains_special_char,
        "the first character in a word is a special char"
    );
}

#[test]
fn capital_in_first_word() {
    let mut pp = PassPhrase::new(None);
    pp.push("some");
    pp.push("phrase");
    let mut list = Vec::<PassPhrase>::new();
    list.push(pp);
    let mut contains_special_char = false;
    // assume 500 tries is enough to get at least one special char in the first word
    for _ in 0..500 {
        let new_pp = add_capital_char(&mut list[0]);

        let output = new_pp.get(0).to_string();
        if contains_uppercase(&output) {
            contains_special_char = true;
        }
    }

    assert!(
        contains_special_char,
        "the first word in the passphrase contains a capital letter"
    );
}

#[test]
fn default_separator_char_is_space() {
    let mut pp = PassPhrase::new(None);
    pp.push("some");
    pp.push("phrase");
    let display = pp.to_string();

    assert_eq!(
        display, "some phrase",
        "the default separator must be a space"
    )
}

#[test]
fn separator_char_in_output() {
    let mut pp = PassPhrase::new(Some('-'));
    pp.push("some");
    pp.push("phrase");
    let display = pp.to_string();

    assert_eq!(display, "some-phrase", "the separator '-' is displayed")
}

#[test]
fn key_positions() {
    assert_eq!(key_index("11111"), 0);
    assert_eq!(key_index("11112"), 1);
    assert_eq!(key_index("11121"), 6);
    assert_eq!(key_index("36355"), 3772);
    assert_eq!(key_index("66666"), 7775);
}

#[test]
fn wordlist_needs_every_key() {
    assert!(WordList::from_words(vec!["a".to_string(); 7775]).is_none());
    assert!(WordList::from_words(vec!["a".to_string(); 7777]).is_none());
    assert_eq!(WordList::from_words(vec!["a".to_string(); 7776]).unwrap().len(), 7776);
}

#[test]
fn special_grid_corners() {
    assert_eq!(special_char(0, 0), '~');
    assert_eq!(special_char(0, 5), '^');
    assert_eq!(special_char(3, 2), '"');
    assert_eq!(special_char(5, 5), '9');
}

#[test]
fn single_character_words() {
    for _ in 0..50 {
        let mut pp = PassPhrase::new(None);
        pp.push("x");
        add_special_char(&mut pp, '%');
        assert_eq!(pp.get(0), "%x");

        let mut pp = PassPhrase::new(None);
        pp.push("q");
        add_capital_char(&mut pp);
        assert_eq!(pp.get(0), "Q");

        let mut pp = PassPhrase::new(None);
        pp.push("7");
        add_capital_char(&mut pp);
        assert_eq!(pp.get(0), "7");
    }
}

#[test]
fn empty_phrase_is_left_alone() {
    let mut pp = PassPhrase::new(None);
    add_capital_char(&mut pp);
    add_special_char(&mut pp, '!');
    assert!(pp.is_empty());
}

#[test]
fn plain_phrases_use_list_words() {
    let mut cli_args = Args::default();
    cli_args.num_of_pass = 10;
    cli_args.eff = true;
    let (orig, eff) = (original(), eff());
    let list = iterate(&cli_args, &orig, &eff);
    // five words of four letters always pass the policy
    assert_eq!(list.len(), 10);
    for pp in &list {
        for i in 0..pp.len() {
            let w = pp.get(i);
            assert!(w == "abacus" || (w.len() == 4 && w.chars().all(|c| c.is_ascii_lowercase())));
        }
    }
}

#[test]
fn quality_flag_mutates_every_phrase() {
    let mut cli_args = Args::default();
    cli_args.num_of_pass = 5;
    cli_args.word_count = 6;
    cli_args.quality = true;
    cli_args.eff = true;
    cli_args.separator = Some('_');
    let list = iterate(&cli_args, &original(), &eff());
    assert_eq!(list.len(), 5);
    for pp in &list {
        assert_eq!(pp.separator(), Some('_'));
        assert!(contains_uppercase(&pp.to_string()));
    }
}

#[test]
fn keep_only_secure() {
    let mut list = Vec::new();
    let mut weak = PassPhrase::new(None);
    weak.push("tiny");
    keep_if_secure(&mut list, weak);
    assert!(list.is_empty());
    let mut strong = PassPhrase::new(None);
    strong.push("abcd").push("efgh").push("ijkl").push("mnop");
    keep_if_secure(&mut list, strong);
    assert_eq!(list.len(), 1);
    let args = Args::default();
    assert!(!none_secure(&list, &args));
}

#[test]
fn dice_key_keeps_roll_order() {
    assert_eq!(dice_key(&vec![3, 6, 3, 5, 5]), "36355");
    assert_eq!(dice_key(&vec![1, 1, 1, 1, 2]), "11112");
    assert_eq!(dice_key(&vec![6, 5, 4, 3, 2]), "65432");
}

#[test]
fn short_words_still_fill_long_phrases() {
    // one-character words: ten of them make 10 characters and 9 separators
    let words: Vec<String> = (0..7776).map(|_| "z".to_string()).collect();
    let list = WordList::from_words(words).unwrap();
    let mut cli_args = Args::default();
    cli_args.num_of_pass = 4;
    cli_args.word_count = 10;
    assert_eq!(iterate(&cli_args, &list, &list).len(), 4);
    cli_args.word_count = 9;
    assert_eq!(iterate(&cli_args, &list, &list).len(), 0);
}
