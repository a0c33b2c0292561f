//! Character-level helpers: decimal numerals and prefix tests over `Seq<char>`.
//!
//! Identifiers and the graph description are built from and read back as
//! decimal numerals, so the numeral is given a mathematical definition here
//! and the executable code is proved against it.

use vstd::prelude::*;

verus! {

/// `String::push` of std: appends one character to the end of the string.
pub assume_specification[ String::push ](s: &mut String, ch: char)
    ensures
        final(s)@ == old(s)@.push(ch),
;

/// The ten decimal digits, in order.
pub open spec fn digits() -> Seq<char> {
    seq!['0', '1', '2', '3', '4', '5', '6', '7', '8', '9']
}

/// The character that stands for the digit `d`.
pub open spec fn digit_char(d: nat) -> char
    recommends
        d < 10,
{
    digits()[d as int]
}

/// Whether `c` is one of `'0'..='9'`.
pub open spec fn is_digit(c: char) -> bool {
    48 <= c as u32 <= 57
}

/// The number that the digit `c` stands for.
pub open spec fn digit_value(c: char) -> nat
    recommends
        is_digit(c),
{
    (c as u32 - 48) as nat
}

/// The decimal numeral of `n`: no sign, no leading zero but for `0` itself.
pub open spec fn decimal(n: nat) -> Seq<char>
    decreases n,
{
    if n < 10 {
        seq![digit_char(n)]
    } else {
        decimal(n / 10).push(digit_char(n % 10))
    }
}

/// Whether every character of `s` is a decimal digit.
pub open spec fn all_digits(s: Seq<char>) -> bool {
    forall|i: int| 0 <= i < s.len() ==> is_digit(#[trigger] s[i])
}

/// The number that a sequence of digits denotes, leading zeros allowed.
pub open spec fn decimal_value(s: Seq<char>) -> nat
    decreases s.len(),
{
    if s.len() == 0 {
        0
    } else {
        decimal_value(s.drop_last()) * 10 + digit_value(s.last())
    }
}

/// The index that `s` denotes: `s` is a non-empty run of digits whose value
/// fits the machine word. Anything else denotes no index.
pub open spec fn index_of(s: Seq<char>) -> Option<usize> {
    if s.len() > 0 && all_digits(s) && decimal_value(s) <= usize::MAX {
        Some(decimal_value(s) as usize)
    } else {
        None
    }
}

/// Whether `s` begins with `prefix`.
pub open spec fn starts_with(s: Seq<char>, prefix: Seq<char>) -> bool {
    prefix.len() <= s.len() && s.subrange(0, prefix.len() as int) == prefix
}

/// Every digit character is a digit and denotes the digit it was made from.
pub proof fn lemma_digit_char(d: nat)
    requires
        d < 10,
    ensures
        is_digit(digit_char(d)),
        digit_value(digit_char(d)) == d,
        digit_char(d) as u32 == 48 + d,
{
}

/// A numeral is a non-empty run of digits that denotes the number it was
/// made from.
pub proof fn lemma_decimal_round_trip(n: nat)
    ensures
        decimal(n).len() > 0,
        all_digits(decimal(n)),
        decimal_value(decimal(n)) == n,
    decreases n,
{
    if n < 10 {
        lemma_digit_char(n);
        let s = decimal(n);
        assert(s.drop_last().len() == 0);
        assert(decimal_value(s.drop_last()) == 0);
    } else {
        lemma_decimal_round_trip(n / 10);
        lemma_digit_char(n % 10);
        let s = decimal(n);
        assert(s.drop_last() =~= decimal(n / 10));
        assert(s.last() == digit_char(n % 10));
    }
}

/// A numeral of a machine word denotes that word as an index.
pub proof fn lemma_index_of_decimal(n: usize)
    ensures
        index_of(decimal(n as nat)) == Some(n),
{
    lemma_decimal_round_trip(n as nat);
}

/// Reading more digits never lowers the value.
pub proof fn lemma_decimal_value_grows(s: Seq<char>, k: int)
    requires
        0 <= k <= s.len(),
    ensures
        decimal_value(s.take(k)) <= decimal_value(s),
    decreases s.len() - k,
{
    if k == s.len() {
        assert(s.take(k) =~= s);
    } else {
        lemma_decimal_value_grows(s, k + 1);
        assert(s.take(k + 1).drop_last() =~= s.take(k));
    }
}

/// The characters of `s`, one by one.
pub fn to_chars(s: &str) -> (chars: Vec<char>)
    ensures
        chars@ == s@,
{
    let mut chars: Vec<char> = Vec::new();
    for c in it: s.chars()
        invariant
            chars@.len() == it.index(),
            forall|k: int| 0 <= k < chars@.len() ==> chars@[k] == it.seq()[k],
    {
        chars.push(c);
    }
    chars
}

/// Appends the decimal numeral of `n` to `out`.
pub fn push_decimal(out: &mut String, n: usize)
    ensures
        final(out)@ == old(out)@ + decimal(n as nat),
    decreases n,
{
    if n >= 10 {
        push_decimal(out, n / 10);
    }
    let d: u8 = (n % 10) as u8;
    let c: char = (48u8 + d) as char;
    proof {
        lemma_digit_char(d as nat);
        assert(c == digit_char(d as nat));
    }
    out.push(c);
    proof {
        if n >= 10 {
            assert(out@ =~= old(out)@ + decimal((n / 10) as nat).push(c));
        } else {
            assert(out@ =~= old(out)@ + seq![c]);
        }
    }
}

/// Whether the characters of `s` from `at` on begin with `word`. Past the
/// end of `s` nothing begins.
pub fn has_word_at(s: &Vec<char>, at: usize, word: &Vec<char>) -> (found: bool)
    ensures
        found == (at <= s.len() && starts_with(s@.skip(at as int), word@)),
{
    if at > s.len() || word.len() > s.len() - at {
        return false;
    }
    let mut i: usize = 0;
    while i < word.len()
        invariant
            at <= s.len(),
            word.len() <= s.len() - at,
            i <= word.len(),
            forall|k: int| 0 <= k < i ==> s@[at + k] == word@[k],
        decreases word.len() - i,
    {
        if s[at + i] != word[i] {
            proof {
                let sub = s@.skip(at as int).subrange(0, word@.len() as int);
                assert(sub[i as int] == s@[at + i]);
            }
            return false;
        }
        i += 1;
    }
    assert(s@.skip(at as int).subrange(0, word@.len() as int) =~= word@);
    true
}

/// Reads the characters of `s` from `at` on as an index. Past the end of
/// `s` there is none.
pub fn parse_index(s: &Vec<char>, at: usize) -> (index: Option<usize>)
    ensures
        index == if at <= s.len() {
            index_of(s@.skip(at as int))
        } else {
            None
        },
{
    let ghost tail = s@.skip(at as int);
    if at >= s.len() {
        return None;
    }
    let mut value: usize = 0;
    let mut i: usize = at;
    while i < s.len()
        invariant
            at <= i <= s.len(),
            tail == s@.skip(at as int),
            all_digits(tail.take(i - at)),
            value == decimal_value(tail.take(i - at)),
        decreases s.len() - i,
    {
        let c = s[i];
        let code: u32 = c as u32;
        assert(tail[i - at] == c);
        if code < 48 || code > 57 {
            return None;
        }
        let d: usize = (code - 48) as usize;
        proof {
            assert(tail.take(i - at + 1).drop_last() =~= tail.take(i - at));
            assert(tail.take(i - at + 1).last() == c);
            assert forall|k: int| 0 <= k < i - at + 1 implies is_digit(
                #[trigger] tail.take(i - at + 1)[k],
            ) by {
                if k < i - at {
                    assert(tail.take(i - at)[k] == tail.take(i - at + 1)[k]);
                }
            }
        }
        if value > (usize::MAX - d) / 10 {
            proof {
                lemma_decimal_value_grows(tail, i - at + 1);
                assert(value * 10 + d > usize::MAX) by (nonlinear_arith)
                    requires
                        value > (usize::MAX - d) / 10,
                        d < 10,
                ;
            }
            return None;
        }
        assert(value * 10 + d <= usize::MAX) by (nonlinear_arith)
            requires
                value <= (usize::MAX - d) / 10,
                d < 10,
        ;
        value = value * 10 + d;
        i += 1;
    }
    assert(tail.take(i - at) =~= tail);
    Some(value)
}

} // verus!
