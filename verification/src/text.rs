//! Character-level string utilities: substring search, first-occurrence
//! replacement, and decimal formatting of sequence numbers.

use vstd::prelude::*;

verus! {

// ---------------------------------------------------------------------------
// Substring search
// ---------------------------------------------------------------------------

/// `pat` occurs in `text` starting at character index `i`.
pub open spec fn occurs_at(text: Seq<char>, pat: Seq<char>, i: int) -> bool {
    0 <= i && i + pat.len() <= text.len() && text.subrange(i, i + pat.len() as int) == pat
}

/// Character index of the first occurrence of `pat` in `text` at or after
/// `from`; `text.len() + 1` when there is none.
pub open spec fn first_occurrence_from(text: Seq<char>, pat: Seq<char>, from: int) -> int
    decreases text.len() - from + 1,
{
    if from < 0 || from + pat.len() > text.len() {
        text.len() as int + 1
    } else if occurs_at(text, pat, from) {
        from
    } else {
        first_occurrence_from(text, pat, from + 1)
    }
}

/// Character index of the first occurrence of `pat` in `text`;
/// `text.len() + 1` when there is none.
pub open spec fn first_occurrence(text: Seq<char>, pat: Seq<char>) -> int {
    first_occurrence_from(text, pat, 0)
}

/// `text` with the first occurrence of `pat` (if any) replaced by `repl`.
pub open spec fn replace_first_spec(text: Seq<char>, pat: Seq<char>, repl: Seq<char>) -> Seq<
    char,
> {
    let i = first_occurrence(text, pat);
    if i + pat.len() <= text.len() {
        text.subrange(0, i) + repl + text.subrange(i + pat.len() as int, text.len() as int)
    } else {
        text
    }
}

proof fn lemma_first_occurrence_from_found(text: Seq<char>, pat: Seq<char>, from: int, i: int)
    requires
        0 <= from <= i,
        forall|j: int| from <= j < i ==> !occurs_at(text, pat, j),
        occurs_at(text, pat, i),
    ensures
        first_occurrence_from(text, pat, from) == i,
    decreases i - from,
{
    if from < i {
        lemma_first_occurrence_from_found(text, pat, from + 1, i);
    }
}

proof fn lemma_first_occurrence_from_absent(text: Seq<char>, pat: Seq<char>, from: int)
    requires
        0 <= from,
        forall|j: int| !occurs_at(text, pat, j),
    ensures
        first_occurrence_from(text, pat, from) == text.len() + 1,
    decreases text.len() - from + 1,
{
    if !(from + pat.len() > text.len()) {
        lemma_first_occurrence_from_absent(text, pat, from + 1);
    }
}

/// Whether `pat` occurs in `text` starting exactly at character index `i`.
fn matches_at(text: &str, i: usize, pat: &str) -> (r: bool)
    requires
        i + pat@.len() <= text@.len(),
    ensures
        r == occurs_at(text@, pat@, i as int),
{
    let text_len = text.unicode_len();
    let pat_len = pat.unicode_len();
    let mut j: usize = 0;
    while j < pat_len
        invariant
            i + pat_len <= text_len,
            pat_len == pat@.len(),
            text_len == text@.len(),
            0 <= j <= pat_len,
            forall|k: int| 0 <= k < j ==> text@[i + k] == pat@[k],
        decreases pat_len - j,
    {
        if text.get_char(i + j) != pat.get_char(j) {
            assert(text@.subrange(i as int, i + pat@.len() as int)[j as int] != pat@[j as int]);
            return false;
        }
        j += 1;
    }
    assert(text@.subrange(i as int, i + pat@.len() as int) =~= pat@);
    true
}

/// The character index of the first occurrence of `pat` in `text`, when
/// there is one.
pub fn find_pattern(text: &str, pat: &str) -> (r: Option<usize>)
    ensures
        r matches Some(i) ==> first_occurrence(text@, pat@) == i as int && i + pat@.len()
            <= text@.len(),
        r is None ==> first_occurrence(text@, pat@) == text@.len() + 1,
{
    let text_len = text.unicode_len();
    let pat_len = pat.unicode_len();
    if pat_len > text_len {
        proof {
            lemma_first_occurrence_from_absent(text@, pat@, 0);
        }
        return None;
    }
    if pat_len == 0 {
        proof {
            assert(text@.subrange(0, 0) =~= pat@);
            lemma_first_occurrence_from_found(text@, pat@, 0, 0);
        }
        return Some(0);
    }
    let mut i: usize = 0;
    while i <= text_len - pat_len
        invariant
            1 <= pat_len <= text_len,
            pat_len == pat@.len(),
            text_len == text@.len(),
            0 <= i <= text_len - pat_len + 1,
            forall|j: int| 0 <= j < i ==> !occurs_at(text@, pat@, j),
        decreases text_len + 1 - i,
    {
        if matches_at(text, i, pat) {
            proof {
                lemma_first_occurrence_from_found(text@, pat@, 0, i as int);
            }
            return Some(i);
        }
        i += 1;
    }
    proof {
        assert(forall|j: int| !occurs_at(text@, pat@, j));
        lemma_first_occurrence_from_absent(text@, pat@, 0);
    }
    None
}

/// `text` with the first occurrence of `pat` (if any) replaced by `repl`.
pub fn replace_first(text: &str, pat: &str, repl: &str) -> (r: String)
    ensures
        r@ == replace_first_spec(text@, pat@, repl@),
{
    match find_pattern(text, pat) {
        Some(i) => {
            let text_len = text.unicode_len();
            let pat_len = pat.unicode_len();
            let mut out = text.substring_char(0, i).to_owned();
            out.append(repl);
            out.append(text.substring_char(i + pat_len, text_len));
            out
        },
        None => text.to_owned(),
    }
}

/// `text` with every occurrence of `pat` replaced by `repl`, scanning left
/// to right and never rescanning inserted replacement text — the same
/// non-overlapping global substitution that a textual replace performs.
pub open spec fn replace_all_spec(text: Seq<char>, pat: Seq<char>, repl: Seq<char>) -> Seq<char>
    decreases text.len(),
{
    let i = first_occurrence(text, pat);
    if pat.len() > 0 && 0 <= i && i + pat.len() <= text.len() {
        text.subrange(0, i) + repl + replace_all_spec(
            text.subrange(i + pat.len() as int, text.len() as int),
            pat,
            repl,
        )
    } else {
        text
    }
}

/// `text` with every occurrence of `pat` replaced by `repl`, left to
/// right.
pub fn replace_all(text: &str, pat: &str, repl: &str) -> (r: String)
    ensures
        r@ == replace_all_spec(text@, pat@, repl@),
{
    let pat_len = pat.unicode_len();
    if pat_len == 0 {
        return text.to_owned();
    }
    let mut out = String::new();
    let mut rest: &str = text;
    proof {
        assert(Seq::<char>::empty() + replace_all_spec(text@, pat@, repl@) =~= replace_all_spec(
            text@,
            pat@,
            repl@,
        ));
    }
    loop
        invariant
            pat_len == pat@.len(),
            pat_len >= 1,
            replace_all_spec(text@, pat@, repl@) == out@ + replace_all_spec(rest@, pat@, repl@),
        decreases rest@.len(),
    {
        let ghost prev_rest = rest@;
        let ghost prev_out = out@;
        match find_pattern(rest, pat) {
            None => {
                out.append(rest);
                proof {
                    assert(replace_all_spec(prev_rest, pat@, repl@) == prev_rest);
                }
                return out;
            },
            Some(i) => {
                let rest_len = rest.unicode_len();
                out.append(rest.substring_char(0, i));
                out.append(repl);
                rest = rest.substring_char(i + pat_len, rest_len);
                proof {
                    assert(replace_all_spec(prev_rest, pat@, repl@) == prev_rest.subrange(
                        0,
                        i as int,
                    ) + repl@ + replace_all_spec(rest@, pat@, repl@));
                    assert(out@ + replace_all_spec(rest@, pat@, repl@) =~= prev_out + (
                    prev_rest.subrange(0, i as int) + repl@ + replace_all_spec(
                        rest@,
                        pat@,
                        repl@,
                    )));
                }
            },
        }
    }
}

// ---------------------------------------------------------------------------
// Single-character search
// ---------------------------------------------------------------------------

/// Index of the first character at or after `from` that equals `a` or `b`;
/// `s.len()` when there is none.
pub open spec fn first_of_two_from(s: Seq<char>, a: char, b: char, from: int) -> int
    decreases s.len() - from,
{
    if !(0 <= from < s.len()) {
        s.len() as int
    } else if s[from] == a || s[from] == b {
        from
    } else {
        first_of_two_from(s, a, b, from + 1)
    }
}

/// Index of the first character of `s` at or after `from` that equals `a`
/// or `b`; the length of `s` when there is none.
pub fn find_one_of_two(s: &str, a: char, b: char, from: usize) -> (r: usize)
    ensures
        r as int == first_of_two_from(s@, a, b, from as int),
{
    let len = s.unicode_len();
    if from >= len {
        return len;
    }
    let mut i: usize = from;
    while i < len
        invariant
            from <= i <= len,
            len == s@.len(),
            first_of_two_from(s@, a, b, from as int) == first_of_two_from(s@, a, b, i as int),
        decreases len - i,
    {
        let c = s.get_char(i);
        if c == a || c == b {
            return i;
        }
        i += 1;
    }
    len
}

/// `s` starts with `prefix`.
pub open spec fn starts_with_spec(s: Seq<char>, prefix: Seq<char>) -> bool {
    s.len() >= prefix.len() && s.subrange(0, prefix.len() as int) == prefix
}

/// Whether `s` starts with `prefix`.
pub fn starts_with(s: &str, prefix: &str) -> (r: bool)
    ensures
        r == starts_with_spec(s@, prefix@),
{
    let s_len = s.unicode_len();
    let p_len = prefix.unicode_len();
    if p_len > s_len {
        return false;
    }
    matches_at(s, 0, prefix)
}

/// `s` ends with `suffix`.
pub open spec fn ends_with_spec(s: Seq<char>, suffix: Seq<char>) -> bool {
    s.len() >= suffix.len() && s.subrange(s.len() - suffix.len(), s.len() as int) == suffix
}

/// Whether `s` ends with `suffix`.
pub fn ends_with(s: &str, suffix: &str) -> (r: bool)
    ensures
        r == ends_with_spec(s@, suffix@),
{
    let s_len = s.unicode_len();
    let x_len = suffix.unicode_len();
    if x_len > s_len {
        return false;
    }
    matches_at(s, s_len - x_len, suffix)
}

/// Whether `a` and `b` hold the same characters.
pub fn str_eq(a: &str, b: &str) -> (r: bool)
    ensures
        r == (a@ == b@),
{
    let a_len = a.unicode_len();
    let b_len = b.unicode_len();
    if a_len != b_len {
        return false;
    }
    if matches_at(a, 0, b) {
        assert(a@.subrange(0, b@.len() as int) =~= a@);
        true
    } else {
        assert(a@.subrange(0, b@.len() as int) =~= a@);
        false
    }
}

// ---------------------------------------------------------------------------
// ASCII lower-casing
// ---------------------------------------------------------------------------

/// `c` with an ASCII uppercase letter replaced by its lowercase form;
/// every other character is left unchanged.
pub open spec fn ascii_lower_char(c: char) -> char {
    if 'A' <= c && c <= 'Z' {
        ((c as u8) + 32) as char
    } else {
        c
    }
}

/// `s` with every ASCII uppercase letter replaced by its lowercase form.
pub open spec fn ascii_lower(s: Seq<char>) -> Seq<char> {
    Seq::new(s.len(), |i: int| ascii_lower_char(s[i]))
}

/// The lowercase string for an ASCII uppercase letter, or nothing for a
/// character that lower-casing leaves unchanged.
fn lowered_char_str(c: char) -> (r: Option<&'static str>)
    ensures
        r matches Some(t) ==> t@ == seq![ascii_lower_char(c)],
        r is None ==> ascii_lower_char(c) == c,
{
    if !('A' <= c && c <= 'Z') {
        return None;
    }
    proof {
        reveal_strlit("a");
        reveal_strlit("b");
        reveal_strlit("c");
        reveal_strlit("d");
        reveal_strlit("e");
        reveal_strlit("f");
        reveal_strlit("g");
        reveal_strlit("h");
        reveal_strlit("i");
        reveal_strlit("j");
        reveal_strlit("k");
        reveal_strlit("l");
        reveal_strlit("m");
        reveal_strlit("n");
        reveal_strlit("o");
        reveal_strlit("p");
        reveal_strlit("q");
        reveal_strlit("r");
        reveal_strlit("s");
        reveal_strlit("t");
        reveal_strlit("u");
        reveal_strlit("v");
        reveal_strlit("w");
        reveal_strlit("x");
        reveal_strlit("y");
        reveal_strlit("z");
        assert("a"@ =~= seq!['a']);
        assert("b"@ =~= seq!['b']);
        assert("c"@ =~= seq!['c']);
        assert("d"@ =~= seq!['d']);
        assert("e"@ =~= seq!['e']);
        assert("f"@ =~= seq!['f']);
        assert("g"@ =~= seq!['g']);
        assert("h"@ =~= seq!['h']);
        assert("i"@ =~= seq!['i']);
        assert("j"@ =~= seq!['j']);
        assert("k"@ =~= seq!['k']);
        assert("l"@ =~= seq!['l']);
        assert("m"@ =~= seq!['m']);
        assert("n"@ =~= seq!['n']);
        assert("o"@ =~= seq!['o']);
        assert("p"@ =~= seq!['p']);
        assert("q"@ =~= seq!['q']);
        assert("r"@ =~= seq!['r']);
        assert("s"@ =~= seq!['s']);
        assert("t"@ =~= seq!['t']);
        assert("u"@ =~= seq!['u']);
        assert("v"@ =~= seq!['v']);
        assert("w"@ =~= seq!['w']);
        assert("x"@ =~= seq!['x']);
        assert("y"@ =~= seq!['y']);
        assert("z"@ =~= seq!['z']);
    }
    match c {
        'A' => Some("a"),
        'B' => Some("b"),
        'C' => Some("c"),
        'D' => Some("d"),
        'E' => Some("e"),
        'F' => Some("f"),
        'G' => Some("g"),
        'H' => Some("h"),
        'I' => Some("i"),
        'J' => Some("j"),
        'K' => Some("k"),
        'L' => Some("l"),
        'M' => Some("m"),
        'N' => Some("n"),
        'O' => Some("o"),
        'P' => Some("p"),
        'Q' => Some("q"),
        'R' => Some("r"),
        'S' => Some("s"),
        'T' => Some("t"),
        'U' => Some("u"),
        'V' => Some("v"),
        'W' => Some("w"),
        'X' => Some("x"),
        'Y' => Some("y"),
        _ => Some("z"),
    }
}

/// `s` with every ASCII uppercase letter replaced by its lowercase form.
pub fn to_ascii_lower(s: &str) -> (r: String)
    ensures
        r@ == ascii_lower(s@),
{
    let len = s.unicode_len();
    let mut out = String::new();
    let mut i: usize = 0;
    while i < len
        invariant
            len == s@.len(),
            0 <= i <= len,
            out@ == ascii_lower(s@).take(i as int),
        decreases len - i,
    {
        let c = s.get_char(i);
        match lowered_char_str(c) {
            Some(t) => out.append(t),
            None => out.append(s.substring_char(i, i + 1)),
        }
        proof {
            assert(out@ =~= ascii_lower(s@).take(i + 1));
        }
        i += 1;
    }
    proof {
        assert(ascii_lower(s@).take(len as int) =~= ascii_lower(s@));
    }
    out
}

// ---------------------------------------------------------------------------
// Decimal formatting
// ---------------------------------------------------------------------------

/// The decimal digit character for `d`, which must be below ten.
pub open spec fn digit_char(d: int) -> char {
    if d == 0 {
        '0'
    } else if d == 1 {
        '1'
    } else if d == 2 {
        '2'
    } else if d == 3 {
        '3'
    } else if d == 4 {
        '4'
    } else if d == 5 {
        '5'
    } else if d == 6 {
        '6'
    } else if d == 7 {
        '7'
    } else if d == 8 {
        '8'
    } else {
        '9'
    }
}

/// `c` is a decimal digit character.
pub open spec fn is_digit_char(c: char) -> bool {
    c == '0' || c == '1' || c == '2' || c == '3' || c == '4' || c == '5' || c == '6' || c == '7'
        || c == '8' || c == '9'
}

/// The decimal digits of `n`, most significant first, without leading zeros.
pub open spec fn decimal_digits(n: nat) -> Seq<char>
    decreases n,
{
    if n < 10 {
        seq![digit_char(n as int)]
    } else {
        decimal_digits(n / 10).push(digit_char((n % 10) as int))
    }
}

/// The decimal digits of `n`, zero-padded on the left to at least three
/// characters.
pub open spec fn zero_padded3(n: nat) -> Seq<char> {
    if n < 10 {
        seq!['0', '0'] + decimal_digits(n)
    } else if n < 100 {
        seq!['0'] + decimal_digits(n)
    } else {
        decimal_digits(n)
    }
}

/// The numeric value of a sequence of decimal digit characters.
pub open spec fn decimal_value(s: Seq<char>) -> int
    decreases s.len(),
{
    if s.len() == 0 {
        0
    } else {
        decimal_value(s.drop_last()) * 10 + (if is_digit_char(s.last()) {
            char_digit(s.last())
        } else {
            0
        })
    }
}

/// The numeric value of a single decimal digit character.
pub open spec fn char_digit(c: char) -> int {
    if c == '0' {
        0
    } else if c == '1' {
        1
    } else if c == '2' {
        2
    } else if c == '3' {
        3
    } else if c == '4' {
        4
    } else if c == '5' {
        5
    } else if c == '6' {
        6
    } else if c == '7' {
        7
    } else if c == '8' {
        8
    } else {
        9
    }
}

/// Every character of `decimal_digits(n)` is a decimal digit.
pub proof fn lemma_decimal_digits_are_digits(n: nat)
    ensures
        decimal_digits(n).len() >= 1,
        forall|i: int|
            0 <= i < decimal_digits(n).len() ==> is_digit_char(#[trigger] decimal_digits(n)[i]),
    decreases n,
{
    if n >= 10 {
        lemma_decimal_digits_are_digits(n / 10);
    }
}

/// Reading `decimal_digits(n)` back as a number yields `n`.
pub proof fn lemma_decimal_digits_value(n: nat)
    ensures
        decimal_value(decimal_digits(n)) == n,
    decreases n,
{
    if n < 10 {
        assert(decimal_value(Seq::<char>::empty()) == 0);
        assert(decimal_digits(n).drop_last() =~= Seq::<char>::empty());
        assert(decimal_value(decimal_digits(n)) == decimal_value(
            decimal_digits(n).drop_last(),
        ) * 10 + char_digit(digit_char(n as int)));
    } else {
        lemma_decimal_digits_value(n / 10);
        let s = decimal_digits(n);
        assert(s == decimal_digits(n / 10).push(digit_char((n % 10) as int)));
        assert(s.drop_last() =~= decimal_digits(n / 10));
        assert(s.last() == digit_char((n % 10) as int));
        assert(decimal_value(s) == decimal_value(decimal_digits(n / 10)) * 10 + (n % 10) as int);
        vstd::arithmetic::div_mod::lemma_fundamental_div_mod(n as int, 10);
    }
}

/// A leading zero does not change the numeric value of a digit string.
proof fn lemma_decimal_value_leading_zero(s: Seq<char>)
    ensures
        decimal_value(seq!['0'] + s) == decimal_value(s),
    decreases s.len(),
{
    if s.len() == 0 {
        assert(decimal_value(Seq::<char>::empty()) == 0);
        assert(seq!['0'] + s =~= seq!['0']);
        assert((seq!['0']).drop_last() =~= Seq::<char>::empty());
        assert(decimal_value(seq!['0']) == decimal_value((seq!['0']).drop_last()) * 10
            + char_digit('0'));
    } else {
        lemma_decimal_value_leading_zero(s.drop_last());
        let t = seq!['0'] + s;
        assert(t.len() == s.len() + 1);
        assert(t.drop_last() =~= seq!['0'] + s.drop_last());
        assert(t.last() == s.last());
        assert(decimal_value(t) == decimal_value(seq!['0'] + s.drop_last()) * 10 + (
        if is_digit_char(s.last()) {
            char_digit(s.last())
        } else {
            0
        }));
        assert(decimal_value(s) == decimal_value(s.drop_last()) * 10 + (if is_digit_char(
            s.last(),
        ) {
            char_digit(s.last())
        } else {
            0
        }));
    }
}

/// Reading `zero_padded3(n)` back as a number yields `n`.
pub proof fn lemma_zero_padded3_value(n: nat)
    ensures
        decimal_value(zero_padded3(n)) == n,
        zero_padded3(n).len() >= 3,
{
    lemma_decimal_digits_value(n);
    lemma_decimal_digits_are_digits(n);
    if n < 10 {
        lemma_decimal_value_leading_zero(decimal_digits(n));
        lemma_decimal_value_leading_zero(seq!['0'] + decimal_digits(n));
        assert(seq!['0', '0'] + decimal_digits(n) =~= seq!['0'] + (seq!['0'] + decimal_digits(
            n,
        )));
    } else if n < 100 {
        lemma_decimal_value_leading_zero(decimal_digits(n));
        assert(decimal_digits(n).len() >= 2) by {
            assert(decimal_digits(n) == decimal_digits(n / 10).push(
                digit_char((n % 10) as int),
            ));
            lemma_decimal_digits_are_digits(n / 10);
        }
    } else {
        assert(decimal_digits(n).len() >= 3) by {
            assert(decimal_digits(n) == decimal_digits(n / 10).push(
                digit_char((n % 10) as int),
            ));
            assert(decimal_digits(n / 10) == decimal_digits(n / 10 / 10).push(
                digit_char((n / 10 % 10) as int),
            ));
            lemma_decimal_digits_are_digits(n / 10 / 10);
        }
    }
}

/// Every character of `zero_padded3(n)` is a decimal digit.
pub proof fn lemma_zero_padded3_digits(n: nat)
    ensures
        forall|i: int|
            0 <= i < zero_padded3(n).len() ==> is_digit_char(#[trigger] zero_padded3(n)[i]),
{
    lemma_decimal_digits_are_digits(n);
}

/// The single-character string for a decimal digit.
fn digit_string(d: usize) -> (s: String)
    requires
        d < 10,
    ensures
        s@ =~= seq![digit_char(d as int)],
{
    proof {
        reveal_strlit("0");
        reveal_strlit("1");
        reveal_strlit("2");
        reveal_strlit("3");
        reveal_strlit("4");
        reveal_strlit("5");
        reveal_strlit("6");
        reveal_strlit("7");
        reveal_strlit("8");
        reveal_strlit("9");
    }
    match d {
        0 => "0".to_owned(),
        1 => "1".to_owned(),
        2 => "2".to_owned(),
        3 => "3".to_owned(),
        4 => "4".to_owned(),
        5 => "5".to_owned(),
        6 => "6".to_owned(),
        7 => "7".to_owned(),
        8 => "8".to_owned(),
        _ => "9".to_owned(),
    }
}

/// The decimal representation of `n`, without leading zeros.
pub fn decimal_string(n: usize) -> (s: String)
    ensures
        s@ == decimal_digits(n as nat),
    decreases n,
{
    if n < 10 {
        digit_string(n)
    } else {
        let mut s = decimal_string(n / 10);
        let d = digit_string(n % 10);
        s.append(d.as_str());
        proof {
            assert(s@ =~= decimal_digits((n / 10) as nat).push(digit_char((n % 10) as int)));
        }
        s
    }
}

/// The decimal representation of `n`, zero-padded on the left to at least
/// three characters.
pub fn zero_padded3_string(n: usize) -> (s: String)
    ensures
        s@ == zero_padded3(n as nat),
{
    proof {
        reveal_strlit("00");
        reveal_strlit("0");
    }
    if n < 10 {
        let mut s = "00".to_owned();
        let d = decimal_string(n);
        s.append(d.as_str());
        proof {
            assert(s@ =~= seq!['0', '0'] + decimal_digits(n as nat));
        }
        s
    } else if n < 100 {
        let mut s = "0".to_owned();
        let d = decimal_string(n);
        s.append(d.as_str());
        proof {
            assert(s@ =~= seq!['0'] + decimal_digits(n as nat));
        }
        s
    } else {
        decimal_string(n)
    }
}

} // verus!
