//! The configuration of a generation run, and the command line that sets it.

use vstd::prelude::*;

verus! {

/// Passphrases asked for when the command line does not say.
pub const DEFAULT_NUM_OF_PASS: u8 = 6;

/// Words per passphrase when the command line does not say.
pub const DEFAULT_WORD_COUNT: u8 = 5;

/// What a generation run is asked to produce.
#[derive(Clone, Copy, Debug, PartialEq, Eq)]
pub struct Args {
    /// Use the EFF wordlist instead of the original one.
    pub eff: bool,
    /// How many passphrases to attempt.
    pub num_of_pass: u8,
    /// Words in each passphrase.
    pub word_count: u8,
    /// Uppercase one character of each passphrase.
    pub use_capital_char: bool,
    /// Insert one special character into each passphrase.
    pub use_special_char: bool,
    /// Ask for both of the above.
    pub quality: bool,
    /// Shown between words; a space when absent.
    pub separator: Option<char>,
}

pub open spec fn default_args() -> Args {
    Args {
        eff: false,
        num_of_pass: DEFAULT_NUM_OF_PASS,
        word_count: DEFAULT_WORD_COUNT,
        use_capital_char: false,
        use_special_char: false,
        quality: false,
        separator: None,
    }
}

impl Default for Args {
    fn default() -> (r: Args)
        ensures
            r == default_args(),
    {
        Args {
            eff: false,
            num_of_pass: DEFAULT_NUM_OF_PASS,
            word_count: DEFAULT_WORD_COUNT,
            use_capital_char: false,
            use_special_char: false,
            quality: false,
            separator: None,
        }
    }
}

/// Why a command line yields no configuration. The first two are requests
/// rather than faults: the caller shows the usage or the version.
#[derive(Clone, Copy, Debug, PartialEq, Eq, Structural)]
pub enum CliError {
    DisplayHelp,
    DisplayVersion,
    /// An argument that the command line does not know.
    UnknownArgument,
    /// An option without its value.
    MissingValue,
    /// A flag given a value with `=`.
    UnexpectedValue,
    /// A count that is not a decimal number.
    InvalidValue,
    /// A count outside 1 to 255, or a separator that is not one character.
    ValueValidation,
}

/// The arguments that the command line knows.
#[derive(Clone, Copy, Debug, PartialEq, Eq, Structural)]
pub enum ArgName {
    Help,
    Version,
    Eff,
    UseCapitalChar,
    UseSpecialChar,
    Quality,
    NumOfPass,
    WordCount,
    Separator,
}

/// The argument that the long name `n` (written after `--`) names.
pub open spec fn long_name(n: Seq<char>) -> Option<ArgName> {
    if n == "help"@ {
        Some(ArgName::Help)
    } else if n == "version"@ {
        Some(ArgName::Version)
    } else if n == "eff"@ {
        Some(ArgName::Eff)
    } else if n == "use-capital-char"@ {
        Some(ArgName::UseCapitalChar)
    } else if n == "use-special-char"@ {
        Some(ArgName::UseSpecialChar)
    } else if n == "quality"@ {
        Some(ArgName::Quality)
    } else if n == "num-of-pass"@ {
        Some(ArgName::NumOfPass)
    } else if n == "word-count"@ {
        Some(ArgName::WordCount)
    } else if n == "separator"@ {
        Some(ArgName::Separator)
    } else {
        None
    }
}

/// The argument that the short name `c` (written after `-`) names.
pub open spec fn short_name(c: char) -> Option<ArgName> {
    if c == 'h' {
        Some(ArgName::Help)
    } else if c == 'V' {
        Some(ArgName::Version)
    } else if c == 'e' {
        Some(ArgName::Eff)
    } else if c == 'c' {
        Some(ArgName::UseCapitalChar)
    } else if c == 's' {
        Some(ArgName::UseSpecialChar)
    } else if c == 'q' {
        Some(ArgName::Quality)
    } else if c == 'n' {
        Some(ArgName::NumOfPass)
    } else if c == 'w' {
        Some(ArgName::WordCount)
    } else if c == 'S' {
        Some(ArgName::Separator)
    } else {
        None
    }
}

/// Whether `name` takes a value.
pub open spec fn takes_value(name: ArgName) -> bool {
    name == ArgName::NumOfPass || name == ArgName::WordCount || name == ArgName::Separator
}

/// An argument in long form: `--name` or `--name=value`.
pub open spec fn is_long(t: Seq<char>) -> bool {
    t.len() >= 2 && t[0] == '-' && t[1] == '-'
}

/// An argument in short form: `-` and one or more short names, the last of
/// which may carry its value.
pub open spec fn is_short(t: Seq<char>) -> bool {
    t.len() >= 2 && t[0] == '-' && t[1] != '-'
}

/// `i` is the position of the first `=` in `s`.
pub open spec fn first_eq(s: Seq<char>, i: int) -> bool {
    0 <= i < s.len() && s[i] == '=' && forall|j: int| 0 <= j < i ==> s[j] != '='
}

pub open spec fn has_eq(s: Seq<char>) -> bool {
    exists|i: int| 0 <= i < s.len() && s[i] == '='
}

pub open spec fn eq_pos(s: Seq<char>) -> int {
    choose|i: int| first_eq(s, i)
}

/// The name part of the body of a long argument: all before its first `=`.
pub open spec fn long_part(body: Seq<char>) -> Seq<char> {
    if has_eq(body) {
        body.subrange(0, eq_pos(body))
    } else {
        body
    }
}

/// An argument that names something the command line knows.
pub open spec fn known_arg(v: Seq<char>) -> bool {
    (is_long(v) && long_name(long_part(v.subrange(2, v.len() as int))) is Some) || (is_short(v)
        && short_name(v[1]) is Some)
}

/// An argument that starts with a dash (a lone dash excepted) is never
/// taken as the value of the option before it.
pub open spec fn looks_like_arg(v: Seq<char>) -> bool {
    v.len() > 1 && v[0] == '-'
}

pub open spec fn is_digit(c: char) -> bool {
    '0' <= c <= '9'
}

/// The decimal number that the digits of `v` write.
pub open spec fn digits_value(v: Seq<char>) -> nat
    decreases v.len(),
{
    if v.len() == 0 {
        0
    } else {
        digits_value(v.drop_last()) * 10 + (v.last() as int - '0' as int) as nat
    }
}

/// Whether `v` starts with a sign.
pub open spec fn signed(v: Seq<char>) -> bool {
    v.len() > 0 && (v[0] == '+' || v[0] == '-')
}

/// The digits of a count, its sign left out.
pub open spec fn count_digits(v: Seq<char>) -> Seq<char> {
    if signed(v) {
        v.drop_first()
    } else {
        v
    }
}

/// A count as the command line takes it: an integer with an optional sign,
/// from 1 to 255.
pub open spec fn count_value(v: Seq<char>) -> Result<u8, CliError> {
    let d = count_digits(v);
    if d.len() == 0 || exists|i: int| 0 <= i < d.len() && !is_digit(#[trigger] d[i]) {
        Err(CliError::InvalidValue)
    } else if v[0] == '-' || digits_value(d) == 0 || digits_value(d) > 255 {
        Err(CliError::ValueValidation)
    } else {
        Ok(digits_value(d) as u8)
    }
}

/// `acc` with the option `name` set from the value `v`.
pub open spec fn apply_value(acc: Args, name: ArgName, v: Seq<char>) -> Result<Args, CliError> {
    if name == ArgName::Separator {
        if v.len() == 1 {
            Ok(Args { separator: Some(v[0]), ..acc })
        } else {
            Err(CliError::ValueValidation)
        }
    } else {
        match count_value(v) {
            Ok(n) => if name == ArgName::NumOfPass {
                Ok(Args { num_of_pass: n, ..acc })
            } else {
                Ok(Args { word_count: n, ..acc })
            },
            Err(e) => Err(e),
        }
    }
}

/// `acc` with the option `name` set from the separate argument `v`.
pub open spec fn next_value(acc: Args, name: ArgName, v: Seq<char>) -> Result<Args, CliError> {
    if looks_like_arg(v) {
        if known_arg(v) {
            Err(CliError::MissingValue)
        } else {
            Err(CliError::UnknownArgument)
        }
    } else {
        apply_value(acc, name, v)
    }
}

/// The value attached to a short option: the rest of its argument, after
/// an optional `=`.
pub open spec fn attached(rest: Seq<char>) -> Seq<char> {
    if rest.len() > 0 && rest[0] == '=' {
        rest.drop_first()
    } else {
        rest
    }
}

/// `acc` with the flag `name` set.
pub open spec fn apply_flag(acc: Args, name: ArgName) -> Args {
    if name == ArgName::Eff {
        Args { eff: true, ..acc }
    } else if name == ArgName::UseCapitalChar {
        Args { use_capital_char: true, ..acc }
    } else if name == ArgName::UseSpecialChar {
        Args { use_special_char: true, ..acc }
    } else {
        Args { quality: true, ..acc }
    }
}

/// Quality asks for a capital letter and a special character.
pub open spec fn with_quality(a: Args) -> Args {
    if a.quality {
        Args { use_capital_char: true, use_special_char: true, ..a }
    } else {
        a
    }
}

/// The configuration that the arguments `ts` give, read from the left on
/// top of `acc`, after the short names left in `cluster` (what remains of
/// an argument in short form).
pub open spec fn parse_args(ts: Seq<Seq<char>>, cluster: Seq<char>, acc: Args) -> Result<
    Args,
    CliError,
>
    decreases ts.len(), cluster.len(),
{
    if cluster.len() > 0 {
        match short_name(cluster[0]) {
            None => Err(CliError::UnknownArgument),
            Some(ArgName::Help) => Err(CliError::DisplayHelp),
            Some(ArgName::Version) => Err(CliError::DisplayVersion),
            Some(name) => if !takes_value(name) {
                parse_args(ts, cluster.drop_first(), apply_flag(acc, name))
            } else if cluster.len() > 1 {
                match apply_value(acc, name, attached(cluster.drop_first())) {
                    Ok(a) => parse_args(ts, Seq::empty(), a),
                    Err(e) => Err(e),
                }
            } else if ts.len() == 0 {
                Err(CliError::MissingValue)
            } else {
                match next_value(acc, name, ts[0]) {
                    Ok(a) => parse_args(ts.drop_first(), Seq::empty(), a),
                    Err(e) => Err(e),
                }
            },
        }
    } else if ts.len() == 0 {
        Ok(with_quality(acc))
    } else if is_long(ts[0]) {
        let body = ts[0].subrange(2, ts[0].len() as int);
        let rest = ts.drop_first();
        if has_eq(body) {
            let k = eq_pos(body);
            match long_name(body.subrange(0, k)) {
                None => Err(CliError::UnknownArgument),
                Some(name) => if takes_value(name) {
                    match apply_value(acc, name, body.subrange(k + 1, body.len() as int)) {
                        Ok(a) => parse_args(rest, Seq::empty(), a),
                        Err(e) => Err(e),
                    }
                } else {
                    Err(CliError::UnexpectedValue)
                },
            }
        } else {
            match long_name(body) {
                None => Err(CliError::UnknownArgument),
                Some(ArgName::Help) => Err(CliError::DisplayHelp),
                Some(ArgName::Version) => Err(CliError::DisplayVersion),
                Some(name) => if !takes_value(name) {
                    parse_args(rest, Seq::empty(), apply_flag(acc, name))
                } else if rest.len() == 0 {
                    Err(CliError::MissingValue)
                } else {
                    match next_value(acc, name, rest[0]) {
                        Ok(a) => parse_args(rest.drop_first(), Seq::empty(), a),
                        Err(e) => Err(e),
                    }
                },
            }
        }
    } else if is_short(ts[0]) {
        parse_args(ts.drop_first(), ts[0].drop_first(), acc)
    } else {
        Err(CliError::UnknownArgument)
    }
}

/// The configuration that a command line gives; its first element names
/// the program and is not read.
pub open spec fn parse_command_line(argv: Seq<Seq<char>>) -> Result<Args, CliError> {
    if argv.len() == 0 {
        Ok(default_args())
    } else {
        parse_args(argv.drop_first(), Seq::empty(), default_args())
    }
}

/// Whether two strings hold the same characters.
fn same_text(a: &str, b: &str) -> (r: bool)
    ensures
        r == (a@ == b@),
{
    let n = a.unicode_len();
    if n != b.unicode_len() {
        return false;
    }
    let mut i: usize = 0;
    while i < n
        invariant
            n == a@.len(),
            n == b@.len(),
            i <= n,
            forall|k: int| 0 <= k < i ==> a@[k] == b@[k],
        decreases n - i,
    {
        if a.get_char(i) != b.get_char(i) {
            return false;
        }
        i += 1;
    }
    assert(a@ =~= b@);
    true
}

/// The argument that the long name `n` names, if any.
pub fn long_argument(n: &str) -> (r: Option<ArgName>)
    ensures
        r == long_name(n@),
{
    if same_text(n, "help") {
        Some(ArgName::Help)
    } else if same_text(n, "version") {
        Some(ArgName::Version)
    } else if same_text(n, "eff") {
        Some(ArgName::Eff)
    } else if same_text(n, "use-capital-char") {
        Some(ArgName::UseCapitalChar)
    } else if same_text(n, "use-special-char") {
        Some(ArgName::UseSpecialChar)
    } else if same_text(n, "quality") {
        Some(ArgName::Quality)
    } else if same_text(n, "num-of-pass") {
        Some(ArgName::NumOfPass)
    } else if same_text(n, "word-count") {
        Some(ArgName::WordCount)
    } else if same_text(n, "separator") {
        Some(ArgName::Separator)
    } else {
        None
    }
}

/// The argument that the short name `c` names, if any.
pub fn short_argument(c: char) -> (r: Option<ArgName>)
    ensures
        r == short_name(c),
{
    if c == 'h' {
        Some(ArgName::Help)
    } else if c == 'V' {
        Some(ArgName::Version)
    } else if c == 'e' {
        Some(ArgName::Eff)
    } else if c == 'c' {
        Some(ArgName::UseCapitalChar)
    } else if c == 's' {
        Some(ArgName::UseSpecialChar)
    } else if c == 'q' {
        Some(ArgName::Quality)
    } else if c == 'n' {
        Some(ArgName::NumOfPass)
    } else if c == 'w' {
        Some(ArgName::WordCount)
    } else if c == 'S' {
        Some(ArgName::Separator)
    } else {
        None
    }
}

/// The position of the first `=` in `s`, if any.
fn find_eq(s: &str) -> (r: Option<usize>)
    ensures
        r is None <==> !has_eq(s@),
        r matches Some(k) ==> first_eq(s@, k as int) && eq_pos(s@) == k,
{
    let n = s.unicode_len();
    let mut i: usize = 0;
    while i < n
        invariant
            n == s@.len(),
            i <= n,
            forall|j: int| 0 <= j < i ==> s@[j] != '=',
        decreases n - i,
    {
        if s.get_char(i) == '=' {
            assert(first_eq(s@, i as int));
            let ghost k = eq_pos(s@);
            assert(first_eq(s@, k));
            assert(k == i);
            return Some(i);
        }
        i += 1;
    }
    None
}

/// Whether `v` names something the command line knows.
fn known_argument(v: &str) -> (r: bool)
    ensures
        r == known_arg(v@),
{
    let n = v.unicode_len();
    if n < 2 || v.get_char(0) != '-' {
        return false;
    }
    if v.get_char(1) == '-' {
        let body = v.substring_char(2, n);
        let name = match find_eq(body) {
            Some(k) => long_argument(body.substring_char(0, k)),
            None => long_argument(body),
        };
        name.is_some()
    } else {
        short_argument(v.get_char(1)).is_some()
    }
}

/// A count as the command line takes it (see `count_value`).
pub fn parse_count(v: &str) -> (r: Result<u8, CliError>)
    ensures
        r == count_value(v@),
{
    let n = v.unicode_len();
    let start: usize = if n > 0 && (v.get_char(0) == '+' || v.get_char(0) == '-') {
        1
    } else {
        0
    };
    let ghost d = count_digits(v@);
    assert(d =~= v@.subrange(start as int, n as int));
    if n == start {
        return Err(CliError::InvalidValue);
    }
    // the value so far, capped at 256: anything larger is out of range alike
    let mut value: u32 = 0;
    let mut i: usize = start;
    while i < n
        invariant
            n == v@.len(),
            start <= i <= n,
            d == v@.subrange(start as int, n as int),
            d == count_digits(v@),
            start == 1 ==> signed(v@),
            forall|k: int| 0 <= k < i - start ==> is_digit(#[trigger] d[k]),
            value == if digits_value(d.take(i - start)) < 256 {
                digits_value(d.take(i - start))
            } else {
                256
            },
        decreases n - i,
    {
        let c = v.get_char(i);
        assert(d[i - start] == c);
        if !('0' <= c && c <= '9') {
            let ghost k: int = i - start;
            assert(0 <= k < d.len() && !is_digit(d[k]));
            return Err(CliError::InvalidValue);
        }
        assert(d.take(i - start + 1).drop_last() =~= d.take(i - start));
        let digit = c as u32 - '0' as u32;
        if value >= 26 {
            value = 256;
        } else {
            value = value * 10 + digit;
            if value > 256 {
                value = 256;
            }
        }
        i += 1;
    }
    assert(d.take(n - start) =~= d);
    if v.get_char(0) == '-' || value == 0 || value > 255 {
        Err(CliError::ValueValidation)
    } else {
        Ok(value as u8)
    }
}

/// `acc` with the option `name` set from the value `v` (see `apply_value`).
fn set_value(acc: Args, name: ArgName, v: &str) -> (r: Result<Args, CliError>)
    requires
        takes_value(name),
    ensures
        r == apply_value(acc, name, v@),
{
    match name {
        ArgName::Separator => {
            if v.unicode_len() == 1 {
                Ok(Args { separator: Some(v.get_char(0)), ..acc })
            } else {
                Err(CliError::ValueValidation)
            }
        },
        _ => {
            match parse_count(v) {
                Ok(count) => {
                    if name == ArgName::NumOfPass {
                        Ok(Args { num_of_pass: count, ..acc })
                    } else {
                        Ok(Args { word_count: count, ..acc })
                    }
                },
                Err(e) => Err(e),
            }
        },
    }
}

/// `acc` with the option `name` set from the separate argument `v` (see
/// `next_value`).
fn set_next_value(acc: Args, name: ArgName, v: &str) -> (r: Result<Args, CliError>)
    requires
        takes_value(name),
    ensures
        r == next_value(acc, name, v@),
{
    if v.unicode_len() > 1 && v.get_char(0) == '-' {
        if known_argument(v) {
            Err(CliError::MissingValue)
        } else {
            Err(CliError::UnknownArgument)
        }
    } else {
        set_value(acc, name, v)
    }
}

/// `acc` with the flag `name` set (see `apply_flag`).
fn set_flag(acc: Args, name: ArgName) -> (r: Args)
    ensures
        r == apply_flag(acc, name),
{
    let mut a = acc;
    match name {
        ArgName::Eff => a.eff = true,
        ArgName::UseCapitalChar => a.use_capital_char = true,
        ArgName::UseSpecialChar => a.use_special_char = true,
        _ => a.quality = true,
    }
    a
}

/// The configuration that the command line `argv` gives; `argv[0]` names
/// the program. Each argument is a long option (`--word-count 7`,
/// `--word-count=7`) or a run of short ones (`-cs`, `-w7`, `-w=7`,
/// `-w 7`); flags may repeat, and `--quality` also sets `use_capital_char`
/// and `use_special_char`. Options left out keep their defaults (see
/// `default_args`).
pub fn process_command_line(argv: &Vec<String>) -> (r: Result<Args, CliError>)
    ensures
        r == parse_command_line(argv@.map_values(|s: String| s@)),
{
    let ghost all = argv@.map_values(|s: String| s@);
    let mut acc = Args::default();
    let n = argv.len();
    if n == 0 {
        return Ok(acc);
    }
    let ghost ts = all.drop_first();
    let ghost target = parse_command_line(all);
    let mut i: usize = 1;
    assert(ts.subrange(0, ts.len() as int) =~= ts);
    while i < n
        invariant
            n == argv@.len(),
            all == argv@.map_values(|s: String| s@),
            ts == all.drop_first(),
            target == parse_command_line(all),
            1 <= i <= n,
            parse_args(ts.subrange(i - 1, ts.len() as int), Seq::empty(), acc) == target,
        decreases n - i,
    {
        let ghost here = ts.subrange(i - 1, ts.len() as int);
        let t = argv[i].as_str();
        assert(here[0] == t@);
        assert(here.drop_first() =~= ts.subrange(i as int, ts.len() as int));
        let tl = t.unicode_len();
        if tl >= 2 && t.get_char(0) == '-' && t.get_char(1) == '-' {
            let body = t.substring_char(2, tl);
            match find_eq(body) {
                Some(k) => {
                    match long_argument(body.substring_char(0, k)) {
                        None => {
                            return Err(CliError::UnknownArgument);
                        },
                        Some(name) => {
                            if !(name == ArgName::NumOfPass || name == ArgName::WordCount || name
                                == ArgName::Separator) {
                                return Err(CliError::UnexpectedValue);
                            }
                            match set_value(acc, name, body.substring_char(k + 1, tl - 2)) {
                                Ok(a) => {
                                    acc = a;
                                },
                                Err(e) => {
                                    return Err(e);
                                },
                            }
                            i += 1;
                        },
                    }
                },
                None => {
                    match long_argument(body) {
                        None => {
                            return Err(CliError::UnknownArgument);
                        },
                        Some(ArgName::Help) => {
                            return Err(CliError::DisplayHelp);
                        },
                        Some(ArgName::Version) => {
                            return Err(CliError::DisplayVersion);
                        },
                        Some(name) => {
                            if !(name == ArgName::NumOfPass || name == ArgName::WordCount || name
                                == ArgName::Separator) {
                                acc = set_flag(acc, name);
                                i += 1;
                            } else {
                                if i + 1 >= n {
                                    return Err(CliError::MissingValue);
                                }
                                assert(here.drop_first()[0] == argv@[i + 1]@);
                                match set_next_value(acc, name, argv[i + 1].as_str()) {
                                    Ok(a) => {
                                        acc = a;
                                    },
                                    Err(e) => {
                                        return Err(e);
                                    },
                                }
                                assert(here.drop_first().drop_first() =~= ts.subrange(
                                    i + 1,
                                    ts.len() as int,
                                ));
                                i += 2;
                            }
                        },
                    }
                },
            }
        } else if tl >= 2 && t.get_char(0) == '-' {
            // a run of short names; `next` is the argument after the run
            let mut p: usize = 1;
            let mut next: usize = i + 1;
            let mut done = false;
            assert(t@.drop_first() =~= t@.subrange(1, tl as int));
            while p < tl && !done
                invariant
                    n == argv@.len(),
                    all == argv@.map_values(|s: String| s@),
                    ts == all.drop_first(),
                    target == parse_command_line(all),
                    1 <= i < n,
                    t@ == argv@[i as int]@,
                    tl == t@.len(),
                    1 <= p <= tl,
                    done ==> i + 1 <= next <= n && parse_args(
                        ts.subrange(next - 1, ts.len() as int),
                        Seq::empty(),
                        acc,
                    ) == target,
                    !done ==> next == i + 1 && parse_args(
                        ts.subrange(i as int, ts.len() as int),
                        t@.subrange(p as int, tl as int),
                        acc,
                    ) == target,
                decreases tl - p,
            {
                let ghost cluster = t@.subrange(p as int, tl as int);
                let c = t.get_char(p);
                assert(cluster[0] == c);
                assert(cluster.drop_first() =~= t@.subrange(p + 1, tl as int));
                match short_argument(c) {
                    None => {
                        return Err(CliError::UnknownArgument);
                    },
                    Some(ArgName::Help) => {
                        return Err(CliError::DisplayHelp);
                    },
                    Some(ArgName::Version) => {
                        return Err(CliError::DisplayVersion);
                    },
                    Some(name) => {
                        if !(name == ArgName::NumOfPass || name == ArgName::WordCount || name
                            == ArgName::Separator) {
                            acc = set_flag(acc, name);
                            p += 1;
                        } else if p + 1 < tl {
                            let start = if t.get_char(p + 1) == '=' {
                                p + 2
                            } else {
                                p + 1
                            };
                            assert(attached(cluster.drop_first()) =~= t@.subrange(
                                start as int,
                                tl as int,
                            ));
                            match set_value(acc, name, t.substring_char(start, tl)) {
                                Ok(a) => {
                                    acc = a;
                                },
                                Err(e) => {
                                    return Err(e);
                                },
                            }
                            done = true;
                            p = tl;
                        } else {
                            if i + 1 >= n {
                                return Err(CliError::MissingValue);
                            }
                            let ghost after = ts.subrange(i as int, ts.len() as int);
                            assert(after[0] == argv@[i + 1]@);
                            match set_next_value(acc, name, argv[i + 1].as_str()) {
                                Ok(a) => {
                                    acc = a;
                                },
                                Err(e) => {
                                    return Err(e);
                                },
                            }
                            assert(after.drop_first() =~= ts.subrange(i + 1, ts.len() as int));
                            next = i + 2;
                            done = true;
                            p = tl;
                        }
                    },
                }
            }
            if !done {
                assert(t@.subrange(p as int, tl as int) =~= Seq::<char>::empty());
            }
            i = next;
        } else {
            return Err(CliError::UnknownArgument);
        }
    }
    assert(ts.subrange(i - 1, ts.len() as int) =~= Seq::<Seq<char>>::empty());
    if acc.quality {
        acc.use_capital_char = true;
        acc.use_special_char = true;
    }
    Ok(acc)
}

} // verus!
