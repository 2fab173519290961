//! Large numbers for people.

use vstd::prelude::*;
use vstd::string::*;
use crate::utils::csv;
use crate::utils::text;

verus! {

/// A text, preceded by a plus sign if something stands before it.
pub open spec fn joined(before: Seq<char>, part: Seq<char>) -> Seq<char> {
    if before.len() == 0 {
        part
    } else {
        before + " + "@ + part
    }
}

/// What is said of the multiples of a unit.
pub open spec fn counted(before: Seq<char>, n: nat, unit: nat, suffix: Seq<char>) -> Seq<char> {
    if n >= unit {
        joined(before, text::decimal(n / unit) + " "@ + suffix)
    } else {
        before
    }
}

/// A number as a sum of billions, millions, thousands and ones, without the parts that are
/// zero.
pub open spec fn sum_text(n: nat) -> Seq<char> {
    let b = counted(Seq::empty(), n, 1_000_000_000, "B"@);
    let m = counted(b, n % 1_000_000_000, 1_000_000, "Mio"@);
    let k = counted(m, n % 1_000_000, 1_000, "K"@);
    let ones = n % 1_000;
    if ones > 0 {
        joined(k, text::decimal(ones))
    } else if n == 0 {
        "0"@
    } else {
        k
    }
}

/// Puts a part behind others.
fn append_part(s: &mut String, empty: bool, part: String)
    requires
        empty == (old(s)@.len() == 0),
    ensures
        final(s)@ == joined(old(s)@, part@),
{
    if !empty {
        s.append(" + ");
    }
    s.append(part.as_str());
    assert(s@ =~= joined(old(s)@, part@));
}

/// The multiples of a unit as text.
fn multiples(count: u64, suffix: &str) -> (s: String)
    ensures
        s@ == text::decimal(count as nat) + " "@ + suffix@,
        s@.len() > 0,
{
    let mut s = text::number(count);
    s.append(" ");
    s.append(suffix);
    proof {
        text::lemma_decimal_len(count as nat);
    }
    s
}

/// Writes a number as a sum of billions, millions, thousands and ones.
#[verifier::rlimit(80)]
#[verifier::spinoff_prover]
pub fn format_insertions(i: usize) -> (s: String)
    ensures
        s@ == sum_text(i as nat),
{
    let i: u64 = i as u64;
    let mut s = String::new();
    let mut empty = true;
    let mut rest: u64 = i;
    if rest >= 1_000_000_000 {
        append_part(&mut s, empty, multiples(rest / 1_000_000_000, "B"));
        rest = rest % 1_000_000_000;
        empty = false;
    }
    assert(rest == i % 1_000_000_000);
    let ghost b = s@;
    assert(b =~= counted(Seq::empty(), i as nat, 1_000_000_000, "B"@));
    if rest >= 1_000_000 {
        append_part(&mut s, empty, multiples(rest / 1_000_000, "Mio"));
        rest = rest % 1_000_000;
        empty = false;
    }
    assert(rest == i % 1_000_000);
    let ghost m = s@;
    assert(m =~= counted(b, (i % 1_000_000_000) as nat, 1_000_000, "Mio"@));
    if rest >= 1_000 {
        append_part(&mut s, empty, multiples(rest / 1_000, "K"));
        rest = rest % 1_000;
        empty = false;
    }
    assert(rest == i % 1_000);
    assert(s@ =~= counted(m, (i % 1_000_000) as nat, 1_000, "K"@));
    if rest > 0 {
        append_part(&mut s, empty, text::number(rest));
        s
    } else if empty {
        proof {
            assert(i == 0);
        }
        String::from_str("0")
    } else {
        s
    }
}

/// Some multiples of a unit.
pub struct Part {
    pub count: nat,
    pub unit: nat,
}

impl Part {
    /// A unit as it is written behind its count.
    pub open spec fn suffix(self) -> Seq<char> {
        if self.unit == 1_000_000_000 {
            " "@ + "B"@
        } else if self.unit == 1_000_000 {
            " "@ + "Mio"@
        } else if self.unit == 1_000 {
            " "@ + "K"@
        } else {
            Seq::empty()
        }
    }

    /// The text of a part.
    pub open spec fn text(self) -> Seq<char> {
        text::decimal(self.count) + self.suffix()
    }
}

/// What some parts amount to.
pub open spec fn amount(parts: Seq<Part>) -> nat
    decreases parts.len(),
{
    if parts.len() == 0 {
        0
    } else {
        amount(parts.drop_last()) + parts.last().count * parts.last().unit
    }
}

/// The texts of some parts.
pub open spec fn part_texts(parts: Seq<Part>) -> Seq<Seq<char>> {
    parts.map_values(|part: Part| part.text())
}

/// Each part counts one of the units, the larger ones first, and counts something, but no
/// thousand unless it is of the largest unit.
pub open spec fn proper(parts: Seq<Part>) -> bool {
    &&& forall|i: int| #![trigger parts[i]]
        0 <= i < parts.len() ==> {
            &&& parts[i].unit == 1_000_000_000 || parts[i].unit == 1_000_000 || parts[i].unit
                == 1_000 || parts[i].unit == 1
            &&& parts[i].count >= 1
            &&& parts[i].unit == 1_000_000_000 || parts[i].count < 1_000
        }
    &&& forall|i: int, j: int| 0 <= i < j < parts.len() ==> parts[i].unit > parts[j].unit
}

/// The parts with one more, if that counts something.
pub open spec fn with_part(parts: Seq<Part>, count: nat, unit: nat) -> Seq<Part> {
    if count > 0 {
        parts.push(Part { count, unit })
    } else {
        parts
    }
}

/// The parts of a number.
pub open spec fn parts_of(n: nat) -> Seq<Part> {
    let b = with_part(Seq::empty(), n / 1_000_000_000, 1_000_000_000);
    let m = with_part(b, n % 1_000_000_000 / 1_000_000, 1_000_000);
    let k = with_part(m, n % 1_000_000 / 1_000, 1_000);
    with_part(k, n % 1_000, 1)
}

/// One more part adds its multiples, and its text behind a plus sign.
proof fn lemma_with_part(parts: Seq<Part>, before: Seq<char>, count: nat, unit: nat)
    requires
        proper(parts),
        forall|i: int| 0 <= i < parts.len() ==> (#[trigger] parts[i]).unit > unit,
        unit == 1_000_000_000 || unit == 1_000_000 || unit == 1_000 || unit == 1,
        unit == 1_000_000_000 || count < 1_000,
        before == csv::joined(part_texts(parts), " + "@),
        (before.len() == 0) == (parts.len() == 0),
    ensures
        ({
            let more = with_part(parts, count, unit);
            let after = if count > 0 {
                joined(before, (Part { count, unit }).text())
            } else {
                before
            };
            &&& proper(more)
            &&& amount(more) == amount(parts) + count * unit
            &&& after == csv::joined(part_texts(more), " + "@)
            &&& (after.len() == 0) == (more.len() == 0)
        }),
{
    assert(0 * unit == 0) by (nonlinear_arith);
    if count > 0 {
        let part = Part { count, unit };
        let more = parts.push(part);
        assert(more.drop_last() =~= parts);
        assert(part_texts(more).drop_last() =~= part_texts(parts));
        assert(part_texts(more).last() == part.text());
        text::lemma_decimal_len(count);
        assert forall|i: int, j: int| 0 <= i < j < more.len() implies more[i].unit
            > more[j].unit by {
            assert(more[i] == parts[i]);
        }
    }
}

/// The text of a number that is not zero is that of its parts, which amount to the number, with
/// plus signs between them.
pub proof fn law_text_is_a_sum(n: nat)
    requires
        n > 0,
    ensures
        proper(parts_of(n)),
        amount(parts_of(n)) == n,
        sum_text(n) == csv::joined(part_texts(parts_of(n)), " + "@),
{
    let none = Seq::<Part>::empty();
    let nothing = Seq::<char>::empty();
    assert(part_texts(none) =~= Seq::<Seq<char>>::empty());
    let b = with_part(none, n / 1_000_000_000, 1_000_000_000);
    let m = with_part(b, n % 1_000_000_000 / 1_000_000, 1_000_000);
    let k = with_part(m, n % 1_000_000 / 1_000, 1_000);
    let bt = counted(nothing, n, 1_000_000_000, "B"@);
    let mt = counted(bt, n % 1_000_000_000, 1_000_000, "Mio"@);
    let kt = counted(mt, n % 1_000_000, 1_000, "K"@);
    lemma_with_part(none, nothing, n / 1_000_000_000, 1_000_000_000);
    let bp = Part { count: n / 1_000_000_000, unit: 1_000_000_000 };
    assert(bp.text() =~= text::decimal(bp.count) + " "@ + "B"@);
    lemma_with_part(b, bt, n % 1_000_000_000 / 1_000_000, 1_000_000);
    let mp = Part { count: n % 1_000_000_000 / 1_000_000, unit: 1_000_000 };
    assert(mp.text() =~= text::decimal(mp.count) + " "@ + "Mio"@);
    lemma_with_part(m, mt, n % 1_000_000 / 1_000, 1_000);
    let kp = Part { count: n % 1_000_000 / 1_000, unit: 1_000 };
    assert(kp.text() =~= text::decimal(kp.count) + " "@ + "K"@);
    lemma_with_part(k, kt, n % 1_000, 1);
    let op = Part { count: n % 1_000, unit: 1 };
    assert(op.text() =~= text::decimal(op.count));
}

/// What was read of a text: what is complete, and the count that a unit may follow.
pub struct Reading {
    pub total: nat,
    pub count: nat,
}

/// One more character: a digit goes to the count, and a unit completes it.
pub open spec fn read_char(r: Reading, c: char) -> Reading {
    if '0' <= c <= '9' {
        Reading { count: (r.count * 10 + (c as nat - '0' as nat)) as nat, ..r }
    } else if c == 'B' {
        Reading { total: r.total + r.count * 1_000_000_000, count: 0 }
    } else if c == 'M' {
        Reading { total: r.total + r.count * 1_000_000, count: 0 }
    } else if c == 'K' {
        Reading { total: r.total + r.count * 1_000, count: 0 }
    } else {
        r
    }
}

/// Reads a text from left to right.
pub open spec fn read(start: Reading, s: Seq<char>) -> Reading
    decreases s.len(),
{
    if s.len() == 0 {
        start
    } else {
        read_char(read(start, s.drop_last()), s.last())
    }
}

/// The number that a text stands for.
pub open spec fn number_of(s: Seq<char>) -> nat {
    let r = read(Reading { total: 0, count: 0 }, s);
    r.total + r.count
}

/// A text is read part by part.
proof fn lemma_read_concat(start: Reading, a: Seq<char>, b: Seq<char>)
    ensures
        read(start, a + b) == read(read(start, a), b),
    decreases b.len(),
{
    if b.len() == 0 {
        assert(a + b =~= a);
    } else {
        assert((a + b).drop_last() =~= a + b.drop_last());
        lemma_read_concat(start, a, b.drop_last());
    }
}

/// Decimal notation is read as the number.
proof fn lemma_read_decimal(total: nat, n: nat)
    ensures
        read(Reading { total, count: 0 }, text::decimal(n)) == (Reading { total, count: n }),
    decreases n,
{
    let s = text::decimal(n);
    if n < 10 {
        reveal_with_fuel(read, 2);
        assert(s.drop_last() =~= Seq::<char>::empty());
    } else {
        lemma_read_decimal(total, n / 10);
        assert(s.drop_last() =~= text::decimal(n / 10));
        assert(s.last() == text::digit_char(n % 10));
    }
}

/// A plus sign between parts is passed over.
proof fn lemma_read_joined(before: Seq<char>, part: Seq<char>)
    requires
        read(Reading { total: 0, count: 0 }, before).count == 0,
    ensures
        read(Reading { total: 0, count: 0 }, joined(before, part)) == read(
            read(Reading { total: 0, count: 0 }, before),
            part,
        ),
{
    let zero = Reading { total: 0, count: 0 };
    if before.len() > 0 {
        let r = read(zero, before);
        let plus = " + "@;
        reveal_strlit(" + ");
        assert(plus =~= seq![' ', '+', ' ']);
        reveal_with_fuel(read, 4);
        assert(plus.drop_last().drop_last().drop_last() =~= Seq::<char>::empty());
        assert(read(r, plus) == r);
        lemma_read_concat(zero, before, plus);
        lemma_read_concat(zero, before + plus, part);
    }
}

/// The multiples of a unit are read as such.
proof fn lemma_read_counted(before: Seq<char>, n: nat, unit: nat, suffix: Seq<char>)
    requires
        read(Reading { total: 0, count: 0 }, before).count == 0,
        unit > 0,
        ({
            let total = read(Reading { total: 0, count: 0 }, before).total;
            read(Reading { total, count: n / unit }, suffix) == (Reading {
                total: total + n / unit * unit,
                count: 0,
            })
        }),
    ensures
        read(Reading { total: 0, count: 0 }, counted(before, n, unit, suffix)) == (Reading {
            total: read(Reading { total: 0, count: 0 }, before).total + n / unit * unit,
            count: 0,
        }),
{
    let zero = Reading { total: 0, count: 0 };
    let r = read(zero, before);
    if n >= unit {
        let digits = text::decimal(n / unit);
        let space = " "@;
        reveal_strlit(" ");
        lemma_read_joined(before, digits + space + suffix);
        lemma_read_decimal(r.total, n / unit);
        lemma_read_concat(r, digits, space);
        lemma_read_concat(r, digits + space, suffix);
        let d = Reading { total: r.total, count: n / unit };
        assert(space.drop_last() =~= Seq::<char>::empty());
        reveal_with_fuel(read, 2);
        assert(read(d, space) == d);
    } else {
        assert(n / unit * unit == 0) by (nonlinear_arith)
            requires
                n < unit,
        ;
    }
}

/// The units are read as what they stand for.
proof fn lemma_read_units(r: Reading)
    ensures
        read(r, "B"@) == (Reading { total: r.total + r.count * 1_000_000_000, count: 0 }),
        read(r, "Mio"@) == (Reading { total: r.total + r.count * 1_000_000, count: 0 }),
        read(r, "K"@) == (Reading { total: r.total + r.count * 1_000, count: 0 }),
{
    reveal_strlit("B");
    reveal_strlit("Mio");
    reveal_strlit("K");
    reveal_with_fuel(read, 4);
    assert("B"@.drop_last() =~= Seq::<char>::empty());
    assert("K"@.drop_last() =~= Seq::<char>::empty());
    assert("Mio"@ =~= seq!['M', 'i', 'o']);
    assert("Mio"@.drop_last() =~= seq!['M', 'i']);
    assert("Mio"@.drop_last().drop_last() =~= seq!['M']);
    assert("Mio"@.drop_last().drop_last().drop_last() =~= Seq::<char>::empty());
}

/// A number is the sum of the multiples of its units and of what is left.
proof fn lemma_units(n: nat)
    ensures
        n / 1_000_000_000 * 1_000_000_000 + n % 1_000_000_000 / 1_000_000 * 1_000_000 + n
            % 1_000_000 / 1_000 * 1_000 + n % 1_000 == n,
{
    assert(n % 1_000_000_000 % 1_000_000 == n % 1_000_000);
    assert(n % 1_000_000 % 1_000 == n % 1_000);
}

/// The thousands and above are read as such.
proof fn lemma_read_thousands(n: nat)
    ensures
        ({
            let b = counted(Seq::empty(), n, 1_000_000_000, "B"@);
            let m = counted(b, n % 1_000_000_000, 1_000_000, "Mio"@);
            let k = counted(m, n % 1_000_000, 1_000, "K"@);
            read(Reading { total: 0, count: 0 }, k) == (Reading {
                total: n / 1_000_000_000 * 1_000_000_000 + n % 1_000_000_000 / 1_000_000
                    * 1_000_000 + n % 1_000_000 / 1_000 * 1_000,
                count: 0,
            })
        }),
{
    let zero = Reading { total: 0, count: 0 };
    let none = Seq::<char>::empty();
    let b = counted(none, n, 1_000_000_000, "B"@);
    let m = counted(b, n % 1_000_000_000, 1_000_000, "Mio"@);
    assert(read(zero, none) == zero);
    lemma_read_units(Reading { total: 0, count: n / 1_000_000_000 });
    lemma_read_counted(none, n, 1_000_000_000, "B"@);
    let after_b = read(zero, b).total;
    lemma_read_units(Reading { total: after_b, count: n % 1_000_000_000 / 1_000_000 });
    lemma_read_counted(b, n % 1_000_000_000, 1_000_000, "Mio"@);
    let after_m = read(zero, m).total;
    lemma_read_units(Reading { total: after_m, count: n % 1_000_000 / 1_000 });
    lemma_read_counted(m, n % 1_000_000, 1_000, "K"@);
}

/// The text of a number gives the number back.
pub proof fn law_text_gives_number_back(n: nat)
    ensures
        number_of(sum_text(n)) == n,
{
    let zero = Reading { total: 0, count: 0 };
    let b = counted(Seq::empty(), n, 1_000_000_000, "B"@);
    let m = counted(b, n % 1_000_000_000, 1_000_000, "Mio"@);
    let k = counted(m, n % 1_000_000, 1_000, "K"@);
    lemma_read_thousands(n);
    lemma_units(n);
    let ones = n % 1_000;
    if ones > 0 {
        lemma_read_joined(k, text::decimal(ones));
        lemma_read_decimal(read(zero, k).total, ones);
        assert(sum_text(n) == joined(k, text::decimal(ones)));
    } else if n == 0 {
        lemma_read_zero();
        assert(sum_text(n) == "0"@);
    } else {
        assert(sum_text(n) == k);
    }
}

/// The text of zero is read as such.
proof fn lemma_read_zero()
    ensures
        read(Reading { total: 0, count: 0 }, "0"@) == (Reading { total: 0, count: 0 }),
{
    reveal_strlit("0");
    assert("0"@.drop_last() =~= Seq::<char>::empty());
    reveal_with_fuel(read, 2);
}

/// Different numbers have different texts.
pub proof fn law_texts_differ(n: nat, other: nat)
    requires
        n != other,
    ensures
        sum_text(n) != sum_text(other),
{
    law_text_gives_number_back(n);
    law_text_gives_number_back(other);
}

} // verus!
