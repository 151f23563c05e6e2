//! Command-line argument parsing.
//!
//! Options are matched case-insensitively and need their hyphens:
//! `--sim`/`-s`, `--actual`/`-a`, `--gui`/`-g`, `--cli`/`-c`, `--bin`/`-b`,
//! and the simulator modes `--fixed <value>`, `--sin`, `--gaussian`,
//! `--seed <integer>`. A data source and a UI mode must each be given once.

use vstd::prelude::*;
use vstd::string::StringExecFns;

use crate::config::{AppConfig, DataSource, FrameFormat, SimModeArg, UiMode};
use crate::errors::ArgumentError;
use crate::text::chars_of;

verus! {

/// A recognised command-line option.
#[derive(Debug, Clone, Copy, PartialEq, Eq)]
pub enum Token {
    Source(DataSource),
    Ui(UiMode),
    FrameMode,
    SimMode,
}

/// ASCII lowercase of a character; other characters are unchanged.
pub open spec fn ascii_lower(c: char) -> char {
    if 'A' <= c && c <= 'Z' {
        ((c as u8) + 32) as char
    } else {
        c
    }
}

/// ASCII lowercase of a text.
///
/// For matching against the ASCII option names this agrees with
/// `str::to_lowercase`: the only non-ASCII characters whose lowercase is ASCII
/// text are the Kelvin sign (to `k`, in no option name) and `U+0130`
/// (to `i` followed by a non-ASCII mark).
pub open spec fn lower(s: Seq<char>) -> Seq<char> {
    s.map_values(|c: char| ascii_lower(c))
}

/// The option a lowercased argument names, if any.
pub open spec fn spec_token(l: Seq<char>) -> Option<Token> {
    if l == seq!['-', '-', 's', 'i', 'm'] || l == seq!['-', 's'] {
        Some(Token::Source(DataSource::Sim))
    } else if l == seq!['-', '-', 'a', 'c', 't', 'u', 'a', 'l'] || l == seq!['-', 'a'] {
        Some(Token::Source(DataSource::Actual))
    } else if l == seq!['-', '-', 'g', 'u', 'i'] || l == seq!['-', 'g'] {
        Some(Token::Ui(UiMode::Gui))
    } else if l == seq!['-', '-', 'c', 'l', 'i'] || l == seq!['-', 'c'] {
        Some(Token::Ui(UiMode::Cli))
    } else if l == seq!['-', '-', 'b', 'i', 'n'] || l == seq!['-', 'b'] {
        Some(Token::FrameMode)
    } else if l == fixed_word() || l == sin_word() || l == seq![
        '-',
        '-',
        'g',
        'a',
        'u',
        's',
        's',
        'i',
        'a',
        'n',
    ] || l == seed_word() {
        Some(Token::SimMode)
    } else {
        None
    }
}

pub open spec fn fixed_word() -> Seq<char> {
    seq!['-', '-', 'f', 'i', 'x', 'e', 'd']
}

pub open spec fn sin_word() -> Seq<char> {
    seq!['-', '-', 's', 'i', 'n']
}

pub open spec fn seed_word() -> Seq<char> {
    seq!['-', '-', 's', 'e', 'e', 'd']
}

/// Options must be written with their hyphens: an argument that is empty
/// or does not start with `-` names no option.
pub proof fn lemma_options_need_hyphen(a: Seq<char>)
    requires
        a.len() == 0 || a[0] != '-',
    ensures
        spec_token(lower(a)) is None,
{
    let l = lower(a);
    if a.len() > 0 {
        assert(l[0] == ascii_lower(a[0]));
    }
    let words = seq![
        seq!['-', '-', 's', 'i', 'm'],
        seq!['-', 's'],
        seq!['-', '-', 'a', 'c', 't', 'u', 'a', 'l'],
        seq!['-', 'a'],
        seq!['-', '-', 'g', 'u', 'i'],
        seq!['-', 'g'],
        seq!['-', '-', 'c', 'l', 'i'],
        seq!['-', 'c'],
        seq!['-', '-', 'b', 'i', 'n'],
        seq!['-', 'b'],
        fixed_word(),
        sin_word(),
        seq!['-', '-', 'g', 'a', 'u', 's', 's', 'i', 'a', 'n'],
        seed_word(),
    ];
    assert forall|w: int| 0 <= w < words.len() implies words[w] != l by {
        assert(words[w].len() > 0 && words[w][0] == '-');
        if words[w] == l {
            assert(l.len() > 0 && l[0] == '-');
        }
    }
    assert(words[0] != l && words[1] != l && words[2] != l && words[3] != l && words[4] != l);
    assert(words[5] != l && words[6] != l && words[7] != l && words[8] != l && words[9] != l);
    assert(words[10] != l && words[11] != l && words[12] != l && words[13] != l);
}

/// Option names ignore ASCII letter case: two arguments that differ only in
/// the case of their letters name the same option (or both none).
pub proof fn lemma_options_ignore_case(a: Seq<char>, b: Seq<char>)
    requires
        a.len() == b.len(),
        forall|i: int| 0 <= i < a.len() ==> ascii_lower(#[trigger] a[i]) == ascii_lower(b[i]),
    ensures
        spec_token(lower(a)) == spec_token(lower(b)),
{
    assert(lower(a) =~= lower(b));
}

/// The characters of a text, ASCII-lowercased.
fn lowered(s: &str) -> (r: Vec<char>)
    ensures
        r@ == lower(s@),
{
    let chars = chars_of(s);
    let mut out: Vec<char> = Vec::new();
    let mut i: usize = 0;
    while i < chars.len()
        invariant
            i <= chars@.len(),
            chars@ == s@,
            out@ == lower(s@.take(i as int)),
        decreases chars@.len() - i,
    {
        let c = chars[i];
        let l = if 'A' <= c && c <= 'Z' {
            ((c as u8) + 32) as char
        } else {
            c
        };
        out.push(l);
        proof {
            assert(lower(s@.take(i + 1)) =~= lower(s@.take(i as int)).push(l));
        }
        i = i + 1;
    }
    proof {
        assert(s@.take(i as int) =~= s@);
    }
    out
}

/// Whether two character sequences are equal.
fn same_chars(a: &[char], b: &[char]) -> (r: bool)
    ensures
        r == (a@ == b@),
{
    if a.len() != b.len() {
        return false;
    }
    let mut i: usize = 0;
    while i < a.len()
        invariant
            i <= a@.len(),
            a@.len() == b@.len(),
            forall|j: int| 0 <= j < i ==> a@[j] == b@[j],
        decreases a@.len() - i,
    {
        if a[i] != b[i] {
            return false;
        }
        i = i + 1;
    }
    assert(a@ =~= b@);
    true
}

/// The option a lowercased argument names, if any.
fn token_of(l: &[char]) -> (r: Option<Token>)
    ensures
        r == spec_token(l@),
{
    if same_chars(l, &['-', '-', 's', 'i', 'm']) || same_chars(l, &['-', 's']) {
        Some(Token::Source(DataSource::Sim))
    } else if same_chars(l, &['-', '-', 'a', 'c', 't', 'u', 'a', 'l']) || same_chars(l, &['-', 'a']) {
        Some(Token::Source(DataSource::Actual))
    } else if same_chars(l, &['-', '-', 'g', 'u', 'i']) || same_chars(l, &['-', 'g']) {
        Some(Token::Ui(UiMode::Gui))
    } else if same_chars(l, &['-', '-', 'c', 'l', 'i']) || same_chars(l, &['-', 'c']) {
        Some(Token::Ui(UiMode::Cli))
    } else if same_chars(l, &['-', '-', 'b', 'i', 'n']) || same_chars(l, &['-', 'b']) {
        Some(Token::FrameMode)
    } else if same_chars(l, &['-', '-', 'f', 'i', 'x', 'e', 'd']) || same_chars(
        l,
        &['-', '-', 's', 'i', 'n'],
    ) || same_chars(l, &['-', '-', 'g', 'a', 'u', 's', 's', 'i', 'a', 'n']) || same_chars(
        l,
        &['-', '-', 's', 'e', 'e', 'd'],
    ) {
        Some(Token::SimMode)
    } else {
        None
    }
}

/// Classifies one argument.
///
/// An unknown argument gives `InvalidArgs("不正な引数です: <arg>")`.
pub fn normalize_arg(arg: &str) -> (r: Result<Token, ArgumentError>)
    ensures
        match spec_token(lower(arg@)) {
            Some(t) => r == Ok::<Token, ArgumentError>(t),
            None => r matches Err(ArgumentError::InvalidArgs(m)) && m@ == "不正な引数です: "@ + arg@,
        },
{
    let l = lowered(arg);
    match token_of(l.as_slice()) {
        Some(t) => Ok(t),
        None => {
            let mut msg = String::from_str("不正な引数です: ");
            msg.append(arg);
            Err(ArgumentError::InvalidArgs(msg))
        },
    }
}


/// An ASCII digit.
pub open spec fn is_digit(c: char) -> bool {
    '0' <= c && c <= '9'
}

/// One or more ASCII digits.
pub open spec fn is_digits(s: Seq<char>) -> bool {
    s.len() > 0 && forall|i: int| 0 <= i < s.len() ==> is_digit(#[trigger] s[i])
}

/// Index of the first `'e'` (or the length when there is none).
pub open spec fn exp_index(s: Seq<char>) -> int
    decreases s.len(),
{
    if s.len() == 0 {
        0
    } else if s.last() == 'e' && exp_index(s.drop_last()) == s.len() - 1 {
        s.len() - 1
    } else if exp_index(s.drop_last()) < s.len() - 1 {
        exp_index(s.drop_last())
    } else {
        s.len() as int
    }
}

/// Number of `'.'` characters.
pub open spec fn dot_count(s: Seq<char>) -> int
    decreases s.len(),
{
    if s.len() == 0 {
        0
    } else {
        dot_count(s.drop_last()) + if s.last() == '.' {
            1int
        } else {
            0int
        }
    }
}

/// Digits with at most one decimal point and at least one digit:
/// `Digit+ | Digit+ '.' Digit* | Digit* '.' Digit+`.
pub open spec fn is_mantissa(s: Seq<char>) -> bool {
    &&& forall|i: int| 0 <= i < s.len() ==> is_digit(#[trigger] s[i]) || s[i] == '.'
    &&& dot_count(s) <= 1
    &&& exists|i: int| 0 <= i < s.len() && is_digit(#[trigger] s[i])
}

/// `Sign? Digit+`.
pub open spec fn is_exponent(s: Seq<char>) -> bool {
    if s.len() > 0 && (s[0] == '+' || s[0] == '-') {
        is_digits(s.drop_first())
    } else {
        is_digits(s)
    }
}

/// `Number ::= Mantissa ('e' Exponent)?` on lowercased text.
pub open spec fn is_number(s: Seq<char>) -> bool {
    let k = exp_index(s);
    if k < s.len() {
        is_mantissa(s.take(k)) && is_exponent(s.skip(k + 1))
    } else {
        is_mantissa(s)
    }
}

/// The grammar that `f64::from_str` accepts, on lowercased text:
/// `Sign? ('inf' | 'infinity' | 'nan' | Number)`.
pub open spec fn is_float_text(s: Seq<char>) -> bool {
    let l = lower(s);
    let b = if l.len() > 0 && (l[0] == '+' || l[0] == '-') {
        l.drop_first()
    } else {
        l
    };
    ||| b == seq!['i', 'n', 'f']
    ||| b == seq!['i', 'n', 'f', 'i', 'n', 'i', 't', 'y']
    ||| b == seq!['n', 'a', 'n']
    ||| is_number(b)
}

proof fn lemma_exp_index_step(s: Seq<char>, i: int)
    requires
        0 <= i < s.len(),
    ensures
        exp_index(s.take(i + 1)) == (if exp_index(s.take(i)) < i {
            exp_index(s.take(i))
        } else if s[i] == 'e' {
            i
        } else {
            i + 1
        }),
{
    assert(s.take(i + 1).drop_last() =~= s.take(i));
    lemma_exp_index_bound(s.take(i));
}

proof fn lemma_exp_index_bound(s: Seq<char>)
    ensures
        0 <= exp_index(s) <= s.len(),
        exp_index(s) < s.len() ==> s[exp_index(s)] == 'e',
        forall|j: int| 0 <= j < exp_index(s) ==> s[j] != 'e',
    decreases s.len(),
{
    if s.len() > 0 {
        lemma_exp_index_bound(s.drop_last());
        assert forall|j: int| 0 <= j < exp_index(s) implies s[j] != 'e' by {
            if j < s.len() - 1 {
                assert(s.drop_last()[j] == s[j]);
            }
        }
        if exp_index(s) < s.len() && exp_index(s.drop_last()) < s.len() - 1 {
            assert(s.drop_last()[exp_index(s.drop_last())] == s[exp_index(s)]);
        }
    }
}

/// Index of the first `'e'`, or the length.
fn find_exp(s: &[char]) -> (r: usize)
    ensures
        r == exp_index(s@),
{
    let mut i: usize = 0;
    while i < s.len()
        invariant
            i <= s@.len(),
            exp_index(s@.take(i as int)) == i,
        decreases s@.len() - i,
    {
        proof {
            lemma_exp_index_step(s@, i as int);
        }
        if s[i] == 'e' {
            proof {
                assert(exp_index(s@.take(i + 1)) == i);
                lemma_exp_index_prefix(s@, i + 1);
            }
            return i;
        }
        i = i + 1;
    }
    assert(s@.take(i as int) =~= s@);
    i
}

/// Once the first `'e'` is inside a prefix, it is the first `'e'` of the whole text.
proof fn lemma_exp_index_prefix(s: Seq<char>, n: int)
    requires
        0 <= n <= s.len(),
        exp_index(s.take(n)) < n,
    ensures
        exp_index(s) == exp_index(s.take(n)),
    decreases s.len() - n,
{
    if n < s.len() {
        lemma_exp_index_step(s, n);
        lemma_exp_index_prefix(s, n + 1);
    } else {
        assert(s.take(n) =~= s);
    }
}

/// Whether `s[from..to]` matches the mantissa rule.
fn check_mantissa(s: &[char], from: usize, to: usize) -> (r: bool)
    requires
        from <= to <= s@.len(),
    ensures
        r == is_mantissa(s@.subrange(from as int, to as int)),
{
    let ghost t = s@.subrange(from as int, to as int);
    let mut dots: usize = 0;
    let mut digits: usize = 0;
    let mut i = from;
    proof {
        assert(t.take(0) =~= Seq::<char>::empty());
    }
    while i < to
        invariant
            from <= i <= to <= s@.len(),
            t == s@.subrange(from as int, to as int),
            dots == dot_count(t.take(i - from)),
            dots <= 1,
            forall|j: int| 0 <= j < i - from ==> is_digit(#[trigger] t[j]) || t[j] == '.',
            digits <= i - from,
            (digits > 0) == (exists|j: int| 0 <= j < i - from && is_digit(#[trigger] t[j])),
        decreases to - i,
    {
        let c = s[i];
        assert(t[i - from] == c);
        proof {
            assert(t.take(i - from + 1).drop_last() =~= t.take(i - from));
        }
        if '0' <= c && c <= '9' {
            digits = digits + 1;
        } else if c == '.' {
            if dots == 1 {
                proof {
                    lemma_dot_count_prefix(t, i - from + 1);
                }
                return false;
            }
            dots = dots + 1;
        } else {
            return false;
        }
        i = i + 1;
    }
    proof {
        assert(t.take(i - from) =~= t);
    }
    digits > 0
}

/// The dot count of a text is at least that of any prefix.
proof fn lemma_dot_count_prefix(s: Seq<char>, n: int)
    requires
        0 <= n <= s.len(),
    ensures
        dot_count(s.take(n)) <= dot_count(s),
    decreases s.len() - n,
{
    if n < s.len() {
        lemma_dot_count_prefix(s, n + 1);
        assert(s.take(n + 1).drop_last() =~= s.take(n));
    } else {
        assert(s.take(n) =~= s);
    }
}

/// Whether `s[from..to]` is one or more digits.
fn check_digits(s: &[char], from: usize, to: usize) -> (r: bool)
    requires
        from <= to <= s@.len(),
    ensures
        r == is_digits(s@.subrange(from as int, to as int)),
{
    let ghost t = s@.subrange(from as int, to as int);
    if from == to {
        return false;
    }
    let mut i = from;
    while i < to
        invariant
            from <= i <= to <= s@.len(),
            t == s@.subrange(from as int, to as int),
            forall|j: int| 0 <= j < i - from ==> is_digit(#[trigger] t[j]),
        decreases to - i,
    {
        assert(t[i - from] == s@[i as int]);
        if !('0' <= s[i] && s[i] <= '9') {
            return false;
        }
        i = i + 1;
    }
    true
}

/// Whether a text is a floating-point literal that `f64::from_str` accepts.
pub fn is_float_literal(text: &str) -> (r: bool)
    ensures
        r == is_float_text(text@),
{
    let l = lowered(text);
    let n = l.len();
    let from: usize = if n > 0 && (l[0] == '+' || l[0] == '-') {
        1
    } else {
        0
    };
    let ghost b = l@.subrange(from as int, n as int);
    proof {
        if from == 1 {
            assert(b =~= l@.drop_first());
        } else {
            assert(b =~= l@);
        }
    }
    let body = slice_chars(l.as_slice(), from, n);
    if same_chars(body, &['i', 'n', 'f']) || same_chars(
        body,
        &['i', 'n', 'f', 'i', 'n', 'i', 't', 'y'],
    ) || same_chars(body, &['n', 'a', 'n']) {
        return true;
    }
    let k = find_exp(body);
    if k < body.len() {
        proof {
            assert(b.take(k as int) =~= body@.subrange(0, k as int));
        }
        let mantissa_ok = check_mantissa(body, 0, k);
        if !mantissa_ok {
            return false;
        }
        let m = body.len();
        proof {
            assert(b.skip(k + 1) =~= body@.subrange(k + 1, m as int));
        }
        if k + 1 < m && (body[k + 1] == '+' || body[k + 1] == '-') {
            proof {
                assert(b.skip(k + 1).drop_first() =~= body@.subrange(k + 2, m as int));
            }
            check_digits(body, k + 2, m)
        } else {
            check_digits(body, k + 1, m)
        }
    } else {
        proof {
            assert(b =~= body@.subrange(0, body@.len() as int));
        }
        check_mantissa(body, 0, body.len())
    }
}

/// The sub-slice `s[from..to]`.
fn slice_chars(s: &[char], from: usize, to: usize) -> (r: &[char])
    requires
        from <= to <= s@.len(),
    ensures
        r@ == s@.subrange(from as int, to as int),
{
    vstd::slice::slice_subrange(s, from, to)
}

/// The decimal value of a digit text.
pub open spec fn decimal_value(s: Seq<char>) -> int
    decreases s.len(),
{
    if s.len() == 0 {
        0
    } else {
        decimal_value(s.drop_last()) * 10 + (s.last() as int - 48)
    }
}

/// What `u64::from_str` gives: an optional `+`, then one or more digits whose
/// value fits in a `u64`.
pub open spec fn spec_parse_u64(s: Seq<char>) -> Option<u64> {
    let d = if s.len() > 0 && s[0] == '+' {
        s.drop_first()
    } else {
        s
    };
    if is_digits(d) && decimal_value(d) <= u64::MAX {
        Some(decimal_value(d) as u64)
    } else {
        None
    }
}

proof fn lemma_decimal_value_monotone(s: Seq<char>, n: int)
    requires
        0 <= n <= s.len(),
        forall|i: int| 0 <= i < s.len() ==> is_digit(#[trigger] s[i]),
    ensures
        0 <= decimal_value(s.take(n)) <= decimal_value(s),
    decreases s.len() - n,
{
    if n < s.len() {
        lemma_decimal_value_monotone(s, n + 1);
        assert(s.take(n + 1).drop_last() =~= s.take(n));
        assert(is_digit(s[n]));
        lemma_decimal_nonneg(s.take(n));
    } else {
        assert(s.take(n) =~= s);
        lemma_decimal_nonneg(s);
    }
}

proof fn lemma_decimal_nonneg(s: Seq<char>)
    requires
        forall|i: int| 0 <= i < s.len() ==> is_digit(#[trigger] s[i]),
    ensures
        0 <= decimal_value(s),
    decreases s.len(),
{
    if s.len() > 0 {
        assert(is_digit(s.last()));
        lemma_decimal_nonneg(s.drop_last());
    }
}

/// Parses an unsigned decimal integer the way `u64::from_str` does.
pub fn parse_u64(text: &str) -> (r: Option<u64>)
    ensures
        r == spec_parse_u64(text@),
{
    let s = chars_of(text);
    let n = s.len();
    let from: usize = if n > 0 && s[0] == '+' {
        1
    } else {
        0
    };
    let ghost d = s@.subrange(from as int, n as int);
    proof {
        if from == 1 {
            assert(d =~= s@.drop_first());
        } else {
            assert(d =~= s@);
        }
    }
    if !check_digits(s.as_slice(), from, n) {
        return None;
    }
    let mut acc: u64 = 0;
    let mut i = from;
    proof {
        assert(d.take(0) =~= Seq::<char>::empty());
    }
    while i < n
        invariant
            from <= i <= n,
            n == s@.len(),
            d == s@.subrange(from as int, n as int),
            s@ == text@,
            d == (if text@.len() > 0 && text@[0] == '+' {
                text@.drop_first()
            } else {
                text@
            }),
            is_digits(d),
            acc == decimal_value(d.take(i - from)),
        decreases n - i,
    {
        let c = s[i];
        assert(d[i - from] == c);
        assert(is_digit(d[i - from]));
        proof {
            assert(d.take(i - from + 1).drop_last() =~= d.take(i - from));
        }
        let digit = (c as u32 - 48) as u64;
        assert(decimal_value(d.take(i - from + 1)) == acc * 10 + digit);
        match acc.checked_mul(10) {
            Some(t) => match t.checked_add(digit) {
                Some(v) => {
                    acc = v;
                },
                None => {
                    proof {
                        lemma_decimal_value_monotone(d, i - from + 1);
                        assert(decimal_value(d) > u64::MAX);
                    }
                    return None;
                },
            },
            None => {
                proof {
                    lemma_decimal_value_monotone(d, i - from + 1);
                    assert(acc * 10 > u64::MAX);
                    assert(decimal_value(d) > u64::MAX);
                }
                return None;
            },
        }
        i = i + 1;
    }
    proof {
        assert(d.take(i - from) =~= d);
    }
    Some(acc)
}


/// The simulator mode of the command line, with a fixed value as its text.
pub enum SimModeView {
    Random,
    Seed(u64),
    Fixed(Seq<char>),
    SinWave,
}

/// The view of a simulator mode choice.
pub open spec fn sim_view(m: SimModeArg) -> SimModeView {
    match m {
        SimModeArg::Random => SimModeView::Random,
        SimModeArg::Seed(s) => SimModeView::Seed(s),
        SimModeArg::Fixed(t) => SimModeView::Fixed(t@),
        SimModeArg::SinWave => SimModeView::SinWave,
    }
}

/// The options collected so far: source, UI mode, binary flag, simulator mode.
pub type ArgState = (Option<DataSource>, Option<UiMode>, bool, Option<SimModeView>);

pub open spec fn usage_text() -> Seq<char> {
    "Usage: digimatic <sim|actual> <gui|cli>"@
}

pub open spec fn duplicate_text(field: Seq<char>) -> Seq<char> {
    field + " が重複しています"@
}

/// Reads the arguments from index `i` on, starting from `st`: the collected
/// options, or the message of the first error.
pub open spec fn scan(args: Seq<Seq<char>>, i: int, st: ArgState) -> Result<ArgState, Seq<char>>
    decreases args.len() - i,
{
    if i < 0 || i >= args.len() {
        Ok(st)
    } else {
        let a = args[i];
        match spec_token(lower(a)) {
            None => Err("不正な引数です: "@ + a),
            Some(Token::Source(s)) => if st.0 is Some {
                Err(duplicate_text("source"@))
            } else {
                scan(args, i + 1, (Some(s), st.1, st.2, st.3))
            },
            Some(Token::Ui(u)) => if st.1 is Some {
                Err(duplicate_text("ui"@))
            } else {
                scan(args, i + 1, (st.0, Some(u), st.2, st.3))
            },
            Some(Token::FrameMode) => scan(args, i + 1, (st.0, st.1, true, st.3)),
            Some(Token::SimMode) => if lower(a) == fixed_word() {
                if i + 1 >= args.len() {
                    Err("値が指定されていません"@)
                } else if !is_float_text(args[i + 1]) {
                    Err("不正な数値です"@)
                } else {
                    scan(args, i + 2, (st.0, st.1, st.2, Some(SimModeView::Fixed(args[i + 1]))))
                }
            } else if lower(a) == sin_word() {
                scan(args, i + 1, (st.0, st.1, st.2, Some(SimModeView::SinWave)))
            } else if lower(a) == seed_word() {
                if i + 1 >= args.len() {
                    Err("シード値が指定されていません"@)
                } else {
                    match spec_parse_u64(args[i + 1]) {
                        None => Err("不正なシード値（整数）です"@),
                        Some(v) => scan(args, i + 2, (st.0, st.1, st.2, Some(SimModeView::Seed(v)))),
                    }
                }
            } else {
                scan(args, i + 1, st)
            },
        }
    }
}

/// The views of the argument strings.
pub open spec fn arg_views(args: Seq<String>) -> Seq<Seq<char>> {
    args.map_values(|s: String| s@)
}

/// What `parse_from_tokens` gives: the configuration parts
/// `(source, ui, binary, simulator mode)`, or the error message.
pub open spec fn spec_parse_args(args: Seq<Seq<char>>) -> Result<(DataSource, UiMode, bool, SimModeView), Seq<char>> {
    if args.len() < 2 {
        Err(usage_text())
    } else {
        match scan(args, 0, (None, None, false, None)) {
            Err(m) => Err(m),
            Ok(st) => if st.0 is None || st.1 is None {
                Err(usage_text())
            } else {
                Ok(
                    (
                        st.0->Some_0,
                        st.1->Some_0,
                        st.2,
                        match st.3 {
                            Some(m) => m,
                            None => SimModeView::Random,
                        },
                    ),
                )
            },
        }
    }
}

/// Reading on from `st` keeps a data source already chosen, or ends with one
/// that some argument at or after `i` names.
proof fn lemma_scan_source(args: Seq<Seq<char>>, i: int, st: ArgState)
    requires
        0 <= i,
        scan(args, i, st) is Ok,
    ensures
        ({
            let fin = scan(args, i, st)->Ok_0;
            fin.0 == st.0 || (fin.0 is Some && exists|k: int|
                i <= k < args.len() && spec_token(lower(#[trigger] args[k])) == Some(
                    Token::Source(fin.0->Some_0),
                ))
        }),
    decreases args.len() - i,
{
    if i < args.len() {
        let a = args[i];
        match spec_token(lower(a)) {
            None => {},
            Some(Token::Source(s)) => {
                lemma_scan_source(args, i + 1, (Some(s), st.1, st.2, st.3));
            },
            Some(Token::Ui(u)) => {
                lemma_scan_source(args, i + 1, (st.0, Some(u), st.2, st.3));
            },
            Some(Token::FrameMode) => {
                lemma_scan_source(args, i + 1, (st.0, st.1, true, st.3));
            },
            Some(Token::SimMode) => {
                if lower(a) == fixed_word() {
                    if i + 1 < args.len() && is_float_text(args[i + 1]) {
                        lemma_scan_source(args, i + 2, (st.0, st.1, st.2, Some(SimModeView::Fixed(args[i + 1]))));
                    }
                } else if lower(a) == sin_word() {
                    lemma_scan_source(args, i + 1, (st.0, st.1, st.2, Some(SimModeView::SinWave)));
                } else if lower(a) == seed_word() {
                    if i + 1 < args.len() {
                        if let Some(v) = spec_parse_u64(args[i + 1]) {
                            lemma_scan_source(args, i + 2, (st.0, st.1, st.2, Some(SimModeView::Seed(v))));
                        }
                    }
                } else {
                    lemma_scan_source(args, i + 1, st);
                }
            },
        }
    }
}

/// Reading on from `st` keeps a UI mode already chosen, or ends with one
/// that some argument at or after `i` names.
proof fn lemma_scan_ui(args: Seq<Seq<char>>, i: int, st: ArgState)
    requires
        0 <= i,
        scan(args, i, st) is Ok,
    ensures
        ({
            let fin = scan(args, i, st)->Ok_0;
            fin.1 == st.1 || (fin.1 is Some && exists|k: int|
                i <= k < args.len() && spec_token(lower(#[trigger] args[k])) == Some(
                    Token::Ui(fin.1->Some_0),
                ))
        }),
    decreases args.len() - i,
{
    if i < args.len() {
        let a = args[i];
        match spec_token(lower(a)) {
            None => {},
            Some(Token::Source(s)) => {
                lemma_scan_ui(args, i + 1, (Some(s), st.1, st.2, st.3));
            },
            Some(Token::Ui(u)) => {
                lemma_scan_ui(args, i + 1, (st.0, Some(u), st.2, st.3));
            },
            Some(Token::FrameMode) => {
                lemma_scan_ui(args, i + 1, (st.0, st.1, true, st.3));
            },
            Some(Token::SimMode) => {
                if lower(a) == fixed_word() {
                    if i + 1 < args.len() && is_float_text(args[i + 1]) {
                        lemma_scan_ui(args, i + 2, (st.0, st.1, st.2, Some(SimModeView::Fixed(args[i + 1]))));
                    }
                } else if lower(a) == sin_word() {
                    lemma_scan_ui(args, i + 1, (st.0, st.1, st.2, Some(SimModeView::SinWave)));
                } else if lower(a) == seed_word() {
                    if i + 1 < args.len() {
                        if let Some(v) = spec_parse_u64(args[i + 1]) {
                            lemma_scan_ui(args, i + 2, (st.0, st.1, st.2, Some(SimModeView::Seed(v))));
                        }
                    }
                } else {
                    lemma_scan_ui(args, i + 1, st);
                }
            },
        }
    }
}

/// An accepted command line has at least two arguments, and among them one
/// that names the chosen data source and one that names the chosen UI mode.
pub proof fn lemma_accepted_names_source_and_ui(args: Seq<Seq<char>>)
    requires
        spec_parse_args(args) is Ok,
    ensures
        args.len() >= 2,
        exists|k: int|
            0 <= k < args.len() && spec_token(lower(#[trigger] args[k])) == Some(
                Token::Source(spec_parse_args(args)->Ok_0.0),
            ),
        exists|k: int|
            0 <= k < args.len() && spec_token(lower(#[trigger] args[k])) == Some(
                Token::Ui(spec_parse_args(args)->Ok_0.1),
            ),
{
    lemma_scan_source(args, 0, (None, None, false, None));
    lemma_scan_ui(args, 0, (None, None, false, None));
}

/// Some argument at or after `i` names the binary-frame option.
pub open spec fn names_bin_from(args: Seq<Seq<char>>, i: int) -> bool {
    exists|k: int| i <= k < args.len() && spec_token(lower(#[trigger] args[k])) == Some(Token::FrameMode)
}

proof fn lemma_names_bin_step(args: Seq<Seq<char>>, i: int)
    requires
        0 <= i < args.len(),
    ensures
        names_bin_from(args, i) == (spec_token(lower(args[i])) == Some(Token::FrameMode)
            || names_bin_from(args, i + 1)),
{
    if names_bin_from(args, i) {
        let k = choose|k: int|
            i <= k < args.len() && spec_token(lower(#[trigger] args[k])) == Some(Token::FrameMode);
        if k > i {
            assert(names_bin_from(args, i + 1));
        }
    }
    if names_bin_from(args, i + 1) {
        let k = choose|k: int|
            i + 1 <= k < args.len() && spec_token(lower(#[trigger] args[k])) == Some(Token::FrameMode);
        assert(i <= k < args.len());
    }
    if spec_token(lower(args[i])) == Some(Token::FrameMode) {
        assert(i <= i < args.len() && spec_token(lower(args[i])) == Some(Token::FrameMode));
    }
}

/// A text that names the binary-frame option is neither a floating-point
/// literal nor an unsigned integer, so it is never taken as the value of
/// `--fixed` or `--seed`.
proof fn lemma_bin_option_is_no_value(x: Seq<char>)
    requires
        spec_token(lower(x)) == Some(Token::FrameMode),
    ensures
        !is_float_text(x),
        spec_parse_u64(x) is None,
{
    let l = lower(x);
    let bin = seq!['-', '-', 'b', 'i', 'n'];
    let b1 = seq!['-', 'b'];
    assert(l == bin || l == b1);
    assert(l[0] == '-');
    assert(ascii_lower(x[0]) == '-');
    assert(x[0] == '-');
    assert(!is_digits(x)) by {
        assert(!is_digit(x[0]));
    }
    let b = l.drop_first();
    if l == bin {
        assert(b =~= seq!['-', 'b', 'i', 'n']);
    } else {
        assert(b =~= seq!['b']);
    }
    assert(forall|j: int| 0 <= j < b.len() ==> b[j] != 'e');
    lemma_exp_index_bound(b);
    assert(exp_index(b) == b.len());
    assert(!is_mantissa(b)) by {
        if is_mantissa(b) {
            assert(is_digit(b[0]) || b[0] == '.');
        }
    }
    assert(b != seq!['i', 'n', 'f']);
    assert(b != seq!['i', 'n', 'f', 'i', 'n', 'i', 't', 'y']);
    assert(b != seq!['n', 'a', 'n']);
}

/// Reading on from `st` ends with binary frames chosen exactly when they were
/// chosen already or some argument at or after `i` names the binary option.
proof fn lemma_scan_bin(args: Seq<Seq<char>>, i: int, st: ArgState)
    requires
        0 <= i,
        scan(args, i, st) is Ok,
    ensures
        scan(args, i, st)->Ok_0.2 == (st.2 || names_bin_from(args, i)),
    decreases args.len() - i,
{
    if i >= args.len() {
        assert(!names_bin_from(args, i));
    } else {
        lemma_names_bin_step(args, i);
        let a = args[i];
        match spec_token(lower(a)) {
            None => {},
            Some(Token::Source(s)) => {
                lemma_scan_bin(args, i + 1, (Some(s), st.1, st.2, st.3));
            },
            Some(Token::Ui(u)) => {
                lemma_scan_bin(args, i + 1, (st.0, Some(u), st.2, st.3));
            },
            Some(Token::FrameMode) => {
                lemma_scan_bin(args, i + 1, (st.0, st.1, true, st.3));
            },
            Some(Token::SimMode) => {
                if lower(a) == fixed_word() {
                    if i + 1 < args.len() && is_float_text(args[i + 1]) {
                        lemma_scan_bin(args, i + 2, (st.0, st.1, st.2, Some(SimModeView::Fixed(args[i + 1]))));
                        lemma_names_bin_step(args, i + 1);
                        if spec_token(lower(args[i + 1])) == Some(Token::FrameMode) {
                            lemma_bin_option_is_no_value(args[i + 1]);
                        }
                    }
                } else if lower(a) == sin_word() {
                    lemma_scan_bin(args, i + 1, (st.0, st.1, st.2, Some(SimModeView::SinWave)));
                } else if lower(a) == seed_word() {
                    if i + 1 < args.len() {
                        if let Some(v) = spec_parse_u64(args[i + 1]) {
                            lemma_scan_bin(args, i + 2, (st.0, st.1, st.2, Some(SimModeView::Seed(v))));
                            lemma_names_bin_step(args, i + 1);
                            if spec_token(lower(args[i + 1])) == Some(Token::FrameMode) {
                                lemma_bin_option_is_no_value(args[i + 1]);
                            }
                        }
                    }
                } else {
                    lemma_scan_bin(args, i + 1, st);
                }
            },
        }
    }
}

/// Binary frames are chosen exactly by naming the option: an accepted
/// command line selects binary frames if and only if one of its arguments is
/// `--bin` or `-b` (in any letter case).
pub proof fn lemma_binary_option(args: Seq<Seq<char>>)
    requires
        spec_parse_args(args) is Ok,
    ensures
        spec_parse_args(args)->Ok_0.2 <==> exists|k: int|
            0 <= k < args.len() && (lower(#[trigger] args[k]) == seq!['-', '-', 'b', 'i', 'n'] || lower(
                args[k],
            ) == seq!['-', 'b']),
{
    lemma_scan_bin(args, 0, (None, None, false, None));
    if names_bin_from(args, 0) {
        let k = choose|k: int|
            0 <= k < args.len() && spec_token(lower(#[trigger] args[k])) == Some(Token::FrameMode);
        assert(lower(args[k]) == seq!['-', '-', 'b', 'i', 'n'] || lower(args[k]) == seq!['-', 'b']);
    }
    if exists|k: int|
        0 <= k < args.len() && (lower(#[trigger] args[k]) == seq!['-', '-', 'b', 'i', 'n'] || lower(
            args[k],
        ) == seq!['-', 'b']) {
        let k = choose|k: int|
            0 <= k < args.len() && (lower(#[trigger] args[k]) == seq!['-', '-', 'b', 'i', 'n'] || lower(
                args[k],
            ) == seq!['-', 'b']);
        assert(spec_token(lower(args[k])) == Some(Token::FrameMode));
        assert(names_bin_from(args, 0));
    }
}

/// The error for an option given twice.
fn duplicate_error(field: &str) -> (r: ArgumentError)
    ensures
        r matches ArgumentError::InvalidArgs(m) && m@ == duplicate_text(field@),
{
    let mut msg = String::from_str(field);
    msg.append(" が重複しています");
    ArgumentError::InvalidArgs(msg)
}

/// The usage error.
fn invalid_usage() -> (r: ArgumentError)
    ensures
        r matches ArgumentError::InvalidArgs(m) && m@ == usage_text(),
{
    ArgumentError::InvalidArgs(String::from_str("Usage: digimatic <sim|actual> <gui|cli>"))
}

fn message(text: &str) -> (r: ArgumentError)
    ensures
        r matches ArgumentError::InvalidArgs(m) && m@ == text@,
{
    ArgumentError::InvalidArgs(String::from_str(text))
}

/// The current collected options as a spec state.
pub open spec fn state_of(
    source: Option<DataSource>,
    ui: Option<UiMode>,
    is_bin: bool,
    sim: Option<SimModeArg>,
) -> ArgState {
    (
        source,
        ui,
        is_bin,
        match sim {
            Some(m) => Some(sim_view(m)),
            None => None,
        },
    )
}

/// Parses the command-line arguments (without the program name).
///
/// At least two arguments are needed; every argument must be an option;
/// the data source and the UI mode must each appear exactly once;
/// `--fixed` and `--seed` take the next argument as their value (a
/// floating-point literal and an unsigned integer); the simulator mode
/// defaults to random. Every failure is an `InvalidArgs` with its message.
pub fn parse_from_tokens(args: Vec<String>) -> (r: Result<AppConfig, ArgumentError>)
    ensures
        match spec_parse_args(arg_views(args@)) {
            Ok((source, ui, is_bin, sim)) => r matches Ok(c) && c == AppConfig::spec_build(
                source,
                ui,
                is_bin,
                c.sim_mode,
            ) && sim_view(c.sim_mode) == sim,
            Err(m) => r matches Err(ArgumentError::InvalidArgs(e)) && e@ == m,
        },
        r matches Ok(c) ==> ((c.format == FrameFormat::Bin) <==> exists|k: int|
            0 <= k < args@.len() && (lower(#[trigger] args@[k]@) == seq!['-', '-', 'b', 'i', 'n']
                || lower(args@[k]@) == seq!['-', 'b'])),
{
    let ghost views = arg_views(args@);
    if args.len() < 2 {
        return Err(invalid_usage());
    }
    let mut source: Option<DataSource> = None;
    let mut ui: Option<UiMode> = None;
    let mut is_bin = false;
    let mut sim_mode: Option<SimModeArg> = None;
    let n = args.len();
    let mut i: usize = 0;
    while i < n
        invariant
            n == args@.len(),
            n >= 2,
            views == arg_views(args@),
            i <= n,
            scan(views, 0, (None, None, false, None)) == scan(views, i as int, state_of(source, ui, is_bin, sim_mode)),
        decreases n - i,
    {
        let arg = args[i].as_str();
        assert(views[i as int] == arg@);
        let token = match normalize_arg(arg) {
            Ok(t) => t,
            Err(e) => {
                return Err(e);
            },
        };
        match token {
            Token::Source(s) => {
                if source.is_some() {
                    return Err(duplicate_error("source"));
                }
                source = Some(s);
                i = i + 1;
            },
            Token::Ui(u) => {
                if ui.is_some() {
                    return Err(duplicate_error("ui"));
                }
                ui = Some(u);
                i = i + 1;
            },
            Token::FrameMode => {
                is_bin = true;
                i = i + 1;
            },
            Token::SimMode => {
                let l = lowered(arg);
                if same_chars(l.as_slice(), &['-', '-', 'f', 'i', 'x', 'e', 'd']) {
                    if i + 1 >= n {
                        return Err(message("値が指定されていません"));
                    }
                    let value = args[i + 1].as_str();
                    assert(views[i + 1] == value@);
                    if !is_float_literal(value) {
                        return Err(message("不正な数値です"));
                    }
                    sim_mode = Some(SimModeArg::Fixed(String::from_str(value)));
                    i = i + 2;
                } else if same_chars(l.as_slice(), &['-', '-', 's', 'i', 'n']) {
                    sim_mode = Some(SimModeArg::SinWave);
                    i = i + 1;
                } else if same_chars(l.as_slice(), &['-', '-', 's', 'e', 'e', 'd']) {
                    if i + 1 >= n {
                        return Err(message("シード値が指定されていません"));
                    }
                    let value = args[i + 1].as_str();
                    assert(views[i + 1] == value@);
                    match parse_u64(value) {
                        Some(v) => {
                            sim_mode = Some(SimModeArg::Seed(v));
                        },
                        None => {
                            return Err(message("不正なシード値（整数）です"));
                        },
                    }
                    i = i + 2;
                } else {
                    i = i + 1;
                }
            },
        }
    }
    let source = match source {
        Some(s) => s,
        None => {
            return Err(invalid_usage());
        },
    };
    let ui = match ui {
        Some(u) => u,
        None => {
            return Err(invalid_usage());
        },
    };
    let sim = match sim_mode {
        Some(m) => m,
        None => SimModeArg::Random,
    };
    proof {
        assert(scan(views, 0, (None, None, false, None)) == Ok::<ArgState, Seq<char>>(
            state_of(Some(source), Some(ui), is_bin, sim_mode),
        ));
        assert(spec_parse_args(views)->Ok_0.2 == is_bin);
        lemma_binary_option(views);
        if is_bin {
            let k = choose|k: int|
                0 <= k < views.len() && (lower(#[trigger] views[k]) == seq!['-', '-', 'b', 'i', 'n']
                    || lower(views[k]) == seq!['-', 'b']);
            assert(views[k] == args@[k]@);
        }
        if exists|k: int|
            0 <= k < args@.len() && (lower(#[trigger] args@[k]@) == seq!['-', '-', 'b', 'i', 'n']
                || lower(args@[k]@) == seq!['-', 'b']) {
            let k = choose|k: int|
                0 <= k < args@.len() && (lower(#[trigger] args@[k]@) == seq!['-', '-', 'b', 'i', 'n']
                    || lower(args@[k]@) == seq!['-', 'b']);
            assert(views[k] == args@[k]@);
        }
    }
    Ok(AppConfig::build(source, ui, is_bin, sim))
}

} // verus!
