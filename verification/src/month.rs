//! The twelve French month names.

use crate::text::chars_of;
use vstd::prelude::*;

verus! {

/// Lower case of the letters that month names are written with: the ASCII
/// capitals, and the capitals of the two accented letters.
pub open spec fn fold_case(c: char) -> char {
    if 'A' <= c && c <= 'Z' {
        ((c as int) + 32) as char
    } else if c == 'É' {
        'é'
    } else if c == 'Û' {
        'û'
    } else {
        c
    }
}

/// `s`, each character in lower case.
pub open spec fn folded(s: Seq<char>) -> Seq<char> {
    Seq::new(s.len(), |i: int| fold_case(s[i]))
}

/// The name of `month` (1 to 12), in lower case.
pub open spec fn month_name(month: int) -> Seq<char> {
    if month == 1 {
        "janvier"@
    } else if month == 2 {
        "février"@
    } else if month == 3 {
        "mars"@
    } else if month == 4 {
        "avril"@
    } else if month == 5 {
        "mai"@
    } else if month == 6 {
        "juin"@
    } else if month == 7 {
        "juillet"@
    } else if month == 8 {
        "août"@
    } else if month == 9 {
        "septembre"@
    } else if month == 10 {
        "octobre"@
    } else if month == 11 {
        "novembre"@
    } else {
        "décembre"@
    }
}

/// The second spelling of `month`: February and August may be written
/// without their accent. Every other month has its one name.
pub open spec fn plain_name(month: int) -> Seq<char> {
    if month == 2 {
        "fevrier"@
    } else if month == 8 {
        "aout"@
    } else {
        month_name(month)
    }
}

/// `name` is a spelling of `month`.
pub open spec fn names_month(name: Seq<char>, month: int) -> bool {
    name == month_name(month) || name == plain_name(month)
}

/// The first month from `from` on that `name` spells.
pub open spec fn month_named(name: Seq<char>, from: int) -> Option<int>
    decreases 13 - from,
{
    if from < 1 || from > 12 {
        None
    } else if names_month(name, from) {
        Some(from)
    } else {
        month_named(name, from + 1)
    }
}

/// The number, 1 to 12, of the month that `token` names in upper or lower
/// case.
pub open spec fn month_number(token: Seq<char>) -> Option<int> {
    month_named(folded(token), 1)
}

/// A month found is one of the twelve, and the name spells it; where none is
/// found, the name spells no month.
pub proof fn lemma_month_named(name: Seq<char>, from: int)
    requires
        1 <= from,
    ensures
        match month_named(name, from) {
            Some(m) => from <= m <= 12 && names_month(name, m),
            None => forall|m: int| from <= m <= 12 ==> !names_month(name, m),
        },
    decreases 13 - from,
{
    if from <= 12 && !names_month(name, from) {
        lemma_month_named(name, from + 1);
    }
}

/// The first month that a name spells is the month found.
proof fn lemma_first_month(name: Seq<char>, from: int, month: int)
    requires
        1 <= from <= month <= 12,
        names_month(name, month),
        forall|k: int| from <= k < month ==> !names_month(name, k),
    ensures
        month_named(name, from) == Some(month),
    decreases month - from,
{
    if from < month {
        lemma_first_month(name, from + 1, month);
    }
}

/// What the spellings are, character by character.
proof fn lemma_spellings()
    ensures
        forall|m: int| 1 <= m <= 12 ==> 3 <= (#[trigger] month_name(m)).len() <= 9,
        forall|m: int| 1 <= m <= 12 ==> 3 <= (#[trigger] plain_name(m)).len() <= 9,
        forall|m: int, i: int|
            1 <= m <= 12 && 0 <= i < month_name(m).len() ==> fold_case(
                #[trigger] month_name(m)[i],
            ) == month_name(m)[i],
        forall|m: int, i: int|
            1 <= m <= 12 && 0 <= i < plain_name(m).len() ==> fold_case(
                #[trigger] plain_name(m)[i],
            ) == plain_name(m)[i],
        forall|a: int, b: int|
            1 <= a <= 12 && 1 <= b <= 12 && a != b ==> #[trigger] month_name(a)
                != #[trigger] month_name(b),
        forall|a: int, b: int|
            1 <= a <= 12 && 1 <= b <= 12 && a != b ==> #[trigger] month_name(a)
                != #[trigger] plain_name(b),
        forall|a: int, b: int|
            1 <= a <= 12 && 1 <= b <= 12 && a != b ==> #[trigger] plain_name(a)
                != #[trigger] plain_name(b),
{
    reveal_strlit("janvier");
    reveal_strlit("février");
    reveal_strlit("fevrier");
    reveal_strlit("mars");
    reveal_strlit("avril");
    reveal_strlit("mai");
    reveal_strlit("juin");
    reveal_strlit("juillet");
    reveal_strlit("août");
    reveal_strlit("aout");
    reveal_strlit("septembre");
    reveal_strlit("octobre");
    reveal_strlit("novembre");
    reveal_strlit("décembre");
    assert forall|a: int, b: int| 1 <= a <= 12 && 1 <= b <= 12 && a != b implies #[trigger] month_name(a)
        != #[trigger] month_name(b) by {
        let x = month_name(a);
        let y = month_name(b);
        if x.len() == y.len() {
            assert(x[0] != y[0] || x[1] != y[1] || x[2] != y[2]);
        }
    }
    assert forall|a: int, b: int| 1 <= a <= 12 && 1 <= b <= 12 && a != b implies #[trigger] month_name(a)
        != #[trigger] plain_name(b) by {
        let x = month_name(a);
        let y = plain_name(b);
        if x.len() == y.len() {
            assert(x[0] != y[0] || x[1] != y[1] || x[2] != y[2]);
        }
    }
    assert forall|a: int, b: int| 1 <= a <= 12 && 1 <= b <= 12 && a != b implies #[trigger] plain_name(a)
        != #[trigger] plain_name(b) by {
        let x = plain_name(a);
        let y = plain_name(b);
        if x.len() == y.len() {
            assert(x[0] != y[0] || x[1] != y[1] || x[2] != y[2]);
        }
    }
}

/// Each month is found under its name, and under its second spelling: both
/// spellings of February, and both of August, give the one number.
pub proof fn lemma_spellings_name_their_month(month: int)
    requires
        1 <= month <= 12,
    ensures
        month_number(month_name(month)) == Some(month),
        month_number(plain_name(month)) == Some(month),
{
    lemma_spellings();
    assert(folded(month_name(month)) =~= month_name(month));
    assert(folded(plain_name(month)) =~= plain_name(month));
    lemma_first_month(month_name(month), 1, month);
    lemma_first_month(plain_name(month), 1, month);
}

/// A token names a month exactly when, in lower case, it is one of the
/// spellings; any other token names none.
pub proof fn lemma_month_number(token: Seq<char>)
    ensures
        match month_number(token) {
            Some(m) => 1 <= m <= 12 && names_month(folded(token), m),
            None => forall|m: int| 1 <= m <= 12 ==> !names_month(folded(token), m),
        },
{
    lemma_month_named(folded(token), 1);
}

fn lower(c: char) -> (low: char)
    ensures
        low == fold_case(c),
{
    if 'A' <= c && c <= 'Z' {
        ((c as u8) + 32) as char
    } else if c == 'É' {
        'é'
    } else if c == 'Û' {
        'û'
    } else {
        c
    }
}

fn spelling(month: u32, plain: bool) -> (name: &'static str)
    requires
        1 <= month <= 12,
    ensures
        name@ == if plain {
            plain_name(month as int)
        } else {
            month_name(month as int)
        },
{
    if month == 2 && plain {
        "fevrier"
    } else if month == 8 && plain {
        "aout"
    } else if month == 1 {
        "janvier"
    } else if month == 2 {
        "février"
    } else if month == 3 {
        "mars"
    } else if month == 4 {
        "avril"
    } else if month == 5 {
        "mai"
    } else if month == 6 {
        "juin"
    } else if month == 7 {
        "juillet"
    } else if month == 8 {
        "août"
    } else if month == 9 {
        "septembre"
    } else if month == 10 {
        "octobre"
    } else if month == 11 {
        "novembre"
    } else {
        "décembre"
    }
}

fn same_text(chars: &Vec<char>, name: &str) -> (same: bool)
    ensures
        same == (chars@ == name@),
{
    let other = chars_of(name);
    if chars.len() != other.len() {
        return false;
    }
    let mut i: usize = 0;
    while i < chars.len()
        invariant
            chars.len() == other.len(),
            i <= chars.len(),
            other@ == name@,
            forall|k: int| 0 <= k < i ==> chars@[k] == other@[k],
        decreases chars.len() - i,
    {
        if chars[i] != other[i] {
            return false;
        }
        i += 1;
    }
    assert(chars@ =~= other@);
    true
}

/// The number of the month that `token` names, in upper or lower case.
/// February and August are known with and without their accent; no other
/// spelling is.
pub fn month_from_name(token: &str) -> (month: Option<u32>)
    ensures
        match month {
            Some(m) => 1 <= m <= 12 && month_number(token@) == Some(m as int),
            None => month_number(token@).is_none(),
        },
{
    let given = chars_of(token);
    let mut name: Vec<char> = Vec::new();
    let mut i: usize = 0;
    while i < given.len()
        invariant
            i <= given.len(),
            given@ == token@,
            name@ == folded(token@).take(i as int),
        decreases given.len() - i,
    {
        name.push(lower(given[i]));
        assert(folded(token@).take(i + 1) =~= folded(token@).take(i as int).push(
            fold_case(given@[i as int]),
        ));
        i += 1;
    }
    assert(name@ =~= folded(token@));
    let mut month: u32 = 1;
    while month <= 12
        invariant
            1 <= month <= 13,
            name@ == folded(token@),
            month_named(name@, 1) == month_named(name@, month as int),
        decreases 13 - month,
    {
        if same_text(&name, spelling(month, false)) || same_text(&name, spelling(month, true)) {
            return Some(month);
        }
        month += 1;
    }
    None
}

} // verus!
