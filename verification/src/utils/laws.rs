//! What texts promise: what is written can be read back.

use vstd::prelude::*;
use crate::utils::csv;
use crate::utils::text;

verus! {

/// What a digit counts, and less than nothing for any other character.
pub open spec fn digit(c: char) -> int {
    match c {
        '0' => 0,
        '1' => 1,
        '2' => 2,
        '3' => 3,
        '4' => 4,
        '5' => 5,
        '6' => 6,
        '7' => 7,
        '8' => 8,
        '9' => 9,
        _ => -1,
    }
}

/// The number that a row of digits stands for.
pub open spec fn value(s: Seq<char>) -> int
    decreases s.len(),
{
    if s.len() == 0 {
        0
    } else {
        10 * value(s.drop_last()) + digit(s.last())
    }
}

/// A number in decimal notation is a row of digits without leading zeros, and stands for the
/// number.
pub proof fn law_decimal_is_read_back(n: nat)
    ensures
        text::decimal(n).len() > 0,
        value(text::decimal(n)) == n,
        forall|i: int|
            0 <= i < text::decimal(n).len() ==> #[trigger] digit(text::decimal(n)[i]) >= 0,
        text::decimal(n).len() > 1 ==> text::decimal(n)[0] != '0',
    decreases n,
{
    reveal_with_fuel(value, 2);
    let s = text::decimal(n);
    if n < 10 {
        assert(s.drop_last() =~= Seq::<char>::empty());
    } else {
        law_decimal_is_read_back(n / 10);
        let t = text::decimal(n / 10);
        assert(s.drop_last() =~= t);
        assert forall|i: int| 0 <= i < s.len() implies #[trigger] digit(s[i]) >= 0 by {
            if i < t.len() {
                assert(s[i] == t[i]);
            }
        }
        assert(s[0] == t[0]);
        if t.len() == 1 && t[0] == '0' {
            reveal_with_fuel(value, 2);
            assert(t.drop_last() =~= Seq::<char>::empty());
            assert(value(t) == 0);
        }
    }
}

/// The text is the number in decimal notation: digits without leading zeros that stand for it.
pub open spec fn numeral(s: Seq<char>, n: int) -> bool {
    &&& s.len() > 0
    &&& value(s) == n
    &&& forall|i: int| 0 <= i < s.len() ==> #[trigger] digit(s[i]) >= 0
    &&& s.len() > 1 ==> s[0] != '0'
}

/// Digits that do not begin with a zero stand for no less than one.
proof fn lemma_positive(s: Seq<char>)
    requires
        s.len() > 0,
        forall|i: int| 0 <= i < s.len() ==> #[trigger] digit(s[i]) >= 0,
        s[0] != '0',
    ensures
        value(s) >= 1,
    decreases s.len(),
{
    reveal_with_fuel(value, 2);
    let front = s.drop_last();
    assert(digit(s[s.len() - 1]) >= 0);
    if front.len() > 0 {
        assert forall|i: int| 0 <= i < front.len() implies #[trigger] digit(front[i]) >= 0 by {
            assert(front[i] == s[i]);
        }
        lemma_positive(front);
    } else {
        assert(digit(s[0]) != 0);
    }
}

/// There is one way to write a number in decimal notation, and it is the one that is used.
pub proof fn law_numeral_is_unique(s: Seq<char>, n: nat)
    ensures
        numeral(s, n as int) <==> s == text::decimal(n),
    decreases s.len(),
{
    if numeral(s, n as int) {
        reveal_with_fuel(value, 2);
        let front = s.drop_last();
        assert(digit(s[s.len() - 1]) >= 0);
        if front.len() == 0 {
            assert(value(front) == 0);
            assert(n == digit(s[0]));
            assert(s[0] == text::digit_char(n));
            assert(s =~= text::decimal(n));
        } else {
            assert forall|i: int| 0 <= i < front.len() implies #[trigger] digit(front[i]) >= 0 by {
                assert(front[i] == s[i]);
            }
            lemma_positive(front);
            let rest = value(front) as nat;
            let d = digit(s.last()) as nat;
            assert(n == 10 * rest + d);
            assert(n / 10 == rest && n % 10 == d);
            law_numeral_is_unique(front, rest);
            assert(text::digit_char(d) == s.last());
            assert(s =~= front.push(s.last()));
        }
    }
    law_decimal_is_read_back(n);
}

/// Different numbers have different digits.
pub proof fn law_decimals_differ(a: nat, b: nat)
    requires
        a != b,
    ensures
        text::decimal(a) != text::decimal(b),
{
    law_decimal_is_read_back(a);
    law_decimal_is_read_back(b);
}

/// The truth values are written as words.
pub proof fn law_truth_values(b: bool)
    ensures
        b ==> text::truth(b) =~= seq!['t', 'r', 'u', 'e'],
        !b ==> text::truth(b) =~= seq!['f', 'a', 'l', 's', 'e'],
{
    reveal_strlit("true");
    reveal_strlit("false");
}

/// No field at all makes an empty text, one makes the field itself, and the texts of two rows of
/// fields make the text of both rows with one separator between them.
pub proof fn law_joined_rows(a: Seq<Seq<char>>, b: Seq<Seq<char>>, separator: Seq<char>)
    ensures
        a.len() == 0 ==> csv::joined(a, separator) =~= Seq::<char>::empty(),
        a.len() == 1 ==> csv::joined(a, separator) == a[0],
        a.len() > 0 && b.len() > 0 ==> csv::joined(a + b, separator) == csv::joined(a, separator)
            + separator + csv::joined(b, separator),
    decreases b.len(),
{
    if a.len() > 0 && b.len() > 0 {
        assert((a + b).drop_last() =~= a + b.drop_last());
        assert((a + b).last() == b.last());
        if b.len() == 1 {
            assert(a + b.drop_last() =~= a);
        } else {
            law_joined_rows(a, b.drop_last(), separator);
            assert(csv::joined(a + b, separator) =~= csv::joined(a, separator) + separator
                + csv::joined(b, separator));
        }
    }
}

/// The text does not hold the character.
pub open spec fn free_of(s: Seq<char>, c: char) -> bool {
    forall|i: int| 0 <= i < s.len() ==> #[trigger] s[i] != c
}

/// A text is parted in one way at its last separator.
proof fn lemma_last_separator(u: Seq<char>, x: Seq<char>, v: Seq<char>, y: Seq<char>, c: char)
    requires
        free_of(x, c),
        free_of(y, c),
        u + seq![c] + x == v + seq![c] + y,
    ensures
        u == v,
        x == y,
{
    let s = u + seq![c] + x;
    let t = v + seq![c] + y;
    assert(s.len() == u.len() + 1 + x.len());
    assert(t.len() == v.len() + 1 + y.len());
    assert(s[u.len() as int] == c);
    assert(t[v.len() as int] == c);
    if u.len() > v.len() {
        assert(t[u.len() as int] == y[u.len() - v.len() - 1]);
    } else if u.len() < v.len() {
        assert(s[v.len() as int] == x[v.len() - u.len() - 1]);
    }
    assert forall|i: int| 0 <= i < u.len() implies u[i] == v[i] by {
        assert(s[i] == u[i]);
        assert(t[i] == v[i]);
    }
    assert forall|i: int| 0 <= i < x.len() implies x[i] == y[i] by {
        assert(s[u.len() + 1 + i] == x[i]);
        assert(t[v.len() + 1 + i] == y[i]);
    }
    assert(u =~= v);
    assert(x =~= y);
}

/// A line tells its fields: fields that do not hold the separator can be read back, so that
/// different rows of fields never make the same line.
pub proof fn law_lines_tell_their_fields(a: Seq<Seq<char>>, b: Seq<Seq<char>>, c: char)
    requires
        a.len() > 0,
        b.len() > 0,
        forall|i: int| 0 <= i < a.len() ==> free_of(#[trigger] a[i], c),
        forall|i: int| 0 <= i < b.len() ==> free_of(#[trigger] b[i], c),
        csv::joined(a, seq![c]) == csv::joined(b, seq![c]),
    ensures
        a == b,
    decreases a.len() + b.len(),
{
    let s = seq![c];
    assert(a[a.len() - 1] == a.last());
    assert(b[b.len() - 1] == b.last());
    if a.len() == 1 && b.len() == 1 {
        assert(a[0] == b[0]);
        assert(a =~= b);
    } else if a.len() == 1 {
        let front = csv::joined(b.drop_last(), s);
        assert((front + s + b.last())[front.len() as int] == c);
        assert(a[0][front.len() as int] == c);
    } else if b.len() == 1 {
        let front = csv::joined(a.drop_last(), s);
        assert((front + s + a.last())[front.len() as int] == c);
        assert(b[0][front.len() as int] == c);
    } else {
        let (x, y) = (a.drop_last(), b.drop_last());
        lemma_last_separator(csv::joined(x, s), a.last(), csv::joined(y, s), b.last(), c);
        assert forall|i: int| 0 <= i < x.len() implies free_of(#[trigger] x[i], c) by {
            assert(x[i] == a[i]);
        }
        assert forall|i: int| 0 <= i < y.len() implies free_of(#[trigger] y[i], c) by {
            assert(y[i] == b[i]);
        }
        law_lines_tell_their_fields(x, y, c);
        assert(a =~= x.push(a.last()));
        assert(b =~= y.push(b.last()));
    }
}

} // verus!
