//! Characters, digits and short decimal numbers.

use vstd::prelude::*;

verus! {

/// `c` is one of the ten ASCII digits.
pub open spec fn is_digit(c: char) -> bool {
    '0' <= c && c <= '9'
}

/// Every character of `s` is an ASCII digit.
pub open spec fn all_digits(s: Seq<char>) -> bool {
    forall|i: int| 0 <= i < s.len() ==> is_digit(#[trigger] s[i])
}

/// The number that the ASCII digits of `s` write in base ten.
pub open spec fn decimal_value(s: Seq<char>) -> int
    decreases s.len(),
{
    if s.len() == 0 {
        0
    } else {
        decimal_value(s.drop_last()) * 10 + (s.last() as int - 48)
    }
}

/// The number written by `s`, where `s` is one to four ASCII digits.
pub open spec fn short_number(s: Seq<char>) -> Option<int> {
    if 1 <= s.len() <= 4 && all_digits(s) {
        Some(decimal_value(s))
    } else {
        None
    }
}

/// A number written in so many digits is below that power of ten.
pub proof fn lemma_decimal_bound(s: Seq<char>)
    requires
        all_digits(s),
        s.len() <= 4,
    ensures
        0 <= decimal_value(s),
        s.len() <= 1 ==> decimal_value(s) <= 9,
        s.len() <= 2 ==> decimal_value(s) <= 99,
        s.len() <= 3 ==> decimal_value(s) <= 999,
        decimal_value(s) <= 9999,
    decreases s.len(),
{
    if s.len() > 0 {
        assert(is_digit(s[s.len() - 1]));
        assert forall|i: int| 0 <= i < s.drop_last().len() implies is_digit(
            #[trigger] s.drop_last()[i],
        ) by {
            assert(s.drop_last()[i] == s[i]);
        }
        lemma_decimal_bound(s.drop_last());
    }
}

/// The characters of `text`, in order.
pub fn chars_of(text: &str) -> (chars: Vec<char>)
    ensures
        chars@ == text@,
{
    let mut chars: Vec<char> = Vec::new();
    for c in it: text.chars()
        invariant
            it.seq() == text@,
            chars@ == it.seq().take(it.index() as int),
    {
        chars.push(c);
        assert(it.seq().take(it.index() + 1) =~= it.seq().take(it.index() as int).push(c));
    }
    assert(chars@ =~= text@);
    chars
}

/// The number written by `chars`, where they are one to four ASCII digits.
pub fn read_short_number(chars: &Vec<char>) -> (number: Option<u32>)
    ensures
        match number {
            Some(n) => short_number(chars@) == Some(n as int),
            None => short_number(chars@).is_none(),
        },
{
    let n = chars.len();
    if n < 1 || n > 4 {
        return None;
    }
    let mut value: u32 = 0;
    let mut i: usize = 0;
    while i < n
        invariant
            n == chars.len(),
            1 <= n <= 4,
            i <= n,
            all_digits(chars@.take(i as int)),
            value == decimal_value(chars@.take(i as int)),
        decreases n - i,
    {
        let c = chars[i];
        if !('0' <= c && c <= '9') {
            return None;
        }
        proof {
            let before = chars@.take(i as int);
            let after = chars@.take(i + 1);
            assert(after.drop_last() =~= before);
            assert(after.last() == c);
            assert forall|k: int| 0 <= k < after.len() implies is_digit(#[trigger] after[k]) by {
                if k < i {
                    assert(after[k] == before[k]);
                }
            }
            lemma_decimal_bound(before);
        }
        value = value * 10 + ((c as u32) - 48);
        i += 1;
    }
    assert(chars@.take(n as int) =~= chars@);
    Some(value)
}

} // verus!
