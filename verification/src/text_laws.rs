//! What holds of every number, list and time that is written as text.

use vstd::prelude::*;

use crate::fmt_duration;
use crate::text;

verus! {

/// The number that decimal digits stand for.
pub open spec fn number(s: Seq<char>) -> int
    decreases s.len(),
{
    if s.len() == 0 {
        0
    } else {
        number(s.drop_last()) * 10 + (s.last() as int - '0' as int)
    }
}

/// Whether the text is a number in decimal digits.
pub open spec fn is_number(s: Seq<char>) -> bool {
    &&& s.len() > 0
    &&& forall|i: int| 0 <= i < s.len() ==> '0' <= #[trigger] s[i] <= '9'
}

/// The decimal form of a number consists of digits, stands for that number, and leads
/// with zero only where the number is zero.
pub proof fn law_decimal_reads_back(n: nat)
    ensures
        is_number(text::decimal(n)),
        number(text::decimal(n)) == n,
        text::decimal(n)[0] == '0' ==> text::decimal(n).len() == 1,
        n > 0 ==> text::decimal(n)[0] != '0',
    decreases n,
{
    let s = text::decimal(n);
    if n < 10 {
        assert(s.drop_last() =~= Seq::<char>::empty());
        assert(number(s.drop_last()) == 0);
    } else {
        law_decimal_reads_back(n / 10);
        assert(s.drop_last() =~= text::decimal(n / 10));
        assert(s[0] == text::decimal(n / 10)[0]);
        assert forall|i: int| 0 <= i < s.len() implies '0' <= #[trigger] s[i] <= '9' by {
            if i < s.len() - 1 {
                assert(s[i] == text::decimal(n / 10)[i]);
            }
        }
    }
}

/// The form in at least two digits stands for the number too, and has two digits for all
/// numbers below one hundred.
pub proof fn law_two_digits_read_back(n: nat)
    ensures
        is_number(text::decimal2(n)),
        number(text::decimal2(n)) == n,
        n < 100 ==> text::decimal2(n).len() == 2,
{
    law_decimal_reads_back(n);
    if n < 10 {
        let s = text::decimal2(n);
        let init = s.drop_last();
        assert(init =~= seq!['0']);
        assert(init.drop_last() =~= Seq::<char>::empty());
        reveal_with_fuel(number, 3);
    } else if n < 100 {
        assert(text::decimal(n / 10) =~= seq![text::digit(n / 10)]);
    }
}

/// A padded text ends with the text, has nothing but spaces in front of it, and fills the
/// width, or is longer and has none.
pub proof fn law_padding_is_spaces_in_front(s: Seq<char>, width: nat)
    ensures
        ({
            let padded = text::right_aligned(s, width);
            let n = padded.len() - s.len();
            &&& s.len() <= width ==> padded.len() == width
            &&& s.len() > width ==> padded.len() == s.len()
            &&& padded.skip(n) == s
            &&& forall|i: int| 0 <= i < n ==> #[trigger] padded[i] == ' '
        }),
{
    let padded = text::right_aligned(s, width);
    assert(padded.skip(padded.len() - s.len()) =~= s);
}

/// Joining one part gives the part; joining two lists of parts gives what each gives, with
/// the separator between them.
pub proof fn law_joining_is_associative(a: Seq<Seq<char>>, b: Seq<Seq<char>>, sep: Seq<char>)
    ensures
        text::joined(seq![], sep).len() == 0,
        forall|part: Seq<char>| #[trigger] text::joined(seq![part], sep) == part,
        a.len() > 0 && b.len() > 0 ==> text::joined(a + b, sep) == text::joined(a, sep) + sep
            + text::joined(b, sep),
    decreases b.len(),
{
    if a.len() > 0 && b.len() > 0 {
        assert((a + b).drop_last() =~= a + b.drop_last());
        if b.len() == 1 {
            assert(a + b.drop_last() =~= a);
            assert(text::joined(a + b, sep) =~= text::joined(a, sep) + sep + text::joined(b, sep));
        } else {
            law_joining_is_associative(a, b.drop_last(), sep);
            assert(text::joined(a + b, sep) =~= text::joined(a, sep) + sep + text::joined(b, sep));
        }
    }
}

/// A time is rounded to the nearest tenth of a second, and up where two are as near,
/// unless it is too long.
pub proof fn law_tenths_are_nearest(ns: nat)
    ensures
        ns + 50_000_000 <= u64::MAX ==> fmt_duration::tenths_of_second(ns) * 100_000_000
            - 50_000_000 <= ns < fmt_duration::tenths_of_second(ns) * 100_000_000 + 50_000_000,
        ns + 50_000_000 > u64::MAX ==> fmt_duration::tenths_of_second(ns) == 184_467_440_737,
{
}

/// The clock shows the hours, minutes, seconds and tenths that make up the time: minutes
/// and seconds in two digits behind a colon, and neither hours nor minutes where they
/// would lead with zero.
pub proof fn law_clock_shows_its_parts(hours: nat, mins: nat, secs: nat, tenth: nat)
    requires
        mins < 60,
        secs < 60,
        tenth < 10,
    ensures
        ({
            let shown = fmt_duration::clock_text(
                ((hours * 60 + mins) * 60 + secs) * 10 + tenth,
            );
            &&& hours > 0 ==> shown == text::decimal(hours) + ":"@ + text::decimal2(mins)
                + ":"@ + text::decimal2(secs) + "."@ + text::decimal(tenth) + "s"@
            &&& hours == 0 && mins > 0 ==> shown == text::decimal(mins) + ":"@
                + text::decimal2(secs) + "."@ + text::decimal(tenth) + "s"@
            &&& hours == 0 && mins == 0 ==> shown == text::decimal(secs) + "."@
                + text::decimal(tenth) + "s"@
        }),
{
    let tenths = ((hours * 60 + mins) * 60 + secs) * 10 + tenth;
    assert(tenths / 36_000 == hours);
    assert(tenths / 600 == hours * 60 + mins);
    assert(tenths / 10 == (hours * 60 + mins) * 60 + secs);
    assert((hours * 60 + mins) % 60 == mins);
    assert(((hours * 60 + mins) * 60 + secs) % 60 == secs);
}

/// The number of units that digits behind the point stand for, where the first one counts
/// `unit` of them.
pub open spec fn fraction(s: Seq<char>, unit: int) -> int
    decreases s.len(),
{
    if s.len() == 0 {
        0
    } else {
        (s[0] as int - '0' as int) * unit + fraction(s.drop_first(), unit / 10)
    }
}

/// Whether dividing the number by ten, again and again, leaves one in the end.
pub open spec fn is_power_of_ten(n: nat) -> bool
    decreases n,
{
    n == 1 || (n > 0 && n % 10 == 0 && is_power_of_ten(n / 10))
}

proof fn lemma_fraction(n: nat, unit: nat)
    requires
        is_power_of_ten(unit),
        n < 10 * unit,
    ensures
        ({
            let s = fmt_duration::fraction_digits(n, unit);
            &&& fraction(s, unit as int) == n
            &&& n > 0 ==> is_number(s) && s.last() != '0'
            &&& n == 0 ==> s.len() == 0
        }),
    decreases unit,
{
    if n > 0 {
        let rest = fmt_duration::fraction_digits(n % unit, unit / 10);
        let s = fmt_duration::fraction_digits(n, unit);
        let d = n / unit;
        vstd::arithmetic::div_mod::lemma_fundamental_div_mod(n as int, unit as int);
        assert(d < 10) by (nonlinear_arith)
            requires
                n < 10 * unit,
                n == unit * d + n % unit,
                n % unit >= 0,
                unit > 0,
        ;
        assert(d * unit == unit * d) by (nonlinear_arith);
        assert(s.drop_first() =~= rest);
        assert(s[0] == text::digit(d));
        if unit == 1 {
            assert(n % unit == 0);
            assert(rest.len() == 0);
            assert(fraction(rest, 0) == 0);
        } else {
            lemma_fraction(n % unit, unit / 10);
        }
        if n % unit == 0 {
            assert(rest.len() == 0);
            assert(d > 0) by (nonlinear_arith)
                requires
                    n == unit * d,
                    n > 0,
            ;
        } else {
            assert(s.last() == rest.last());
            assert forall|i: int| 0 <= i < s.len() implies '0' <= #[trigger] s[i] <= '9' by {
                if i > 0 {
                    assert(s[i] == rest[i - 1]);
                }
            }
        }
    }
}

/// Whether the text is a number of whole units and, behind a point, of parts of them without
/// trailing zeros, that comes to `n` in all.
pub open spec fn comes_to(s: Seq<char>, unit: nat, n: nat) -> bool {
    ||| is_number(s) && number(s) * unit == n
    ||| exists|point: int|
        0 < point < s.len() - 1 && #[trigger] s[point] == '.' && is_number(s.take(point))
            && is_number(s.skip(point + 1)) && s.last() != '0' && number(s.take(point)) * unit
            + fraction(s.skip(point + 1), unit as int / 10) == n
}

/// An exact duration is shown in the largest unit that it fills, and comes to itself.
pub proof fn law_exact_durations_come_to_themselves(ns: nat)
    ensures
        ({
            let shown = fmt_duration::exact_text(ns);
            let n = shown.len() as int;
            &&& ns < 1_000 ==> shown == text::decimal(ns) + "ns"@
            &&& 1_000 <= ns < 1_000_000 ==> shown.skip(n - 2) == "µs"@ && comes_to(
                shown.take(n - 2),
                1_000,
                ns,
            )
            &&& 1_000_000 <= ns < 1_000_000_000 ==> shown.skip(n - 2) == "ms"@ && comes_to(
                shown.take(n - 2),
                1_000_000,
                ns,
            )
            &&& 1_000_000_000 <= ns ==> shown.skip(n - 1) == "s"@ && comes_to(
                shown.take(n - 1),
                1_000_000_000,
                ns,
            )
        }),
{
    reveal_strlit("µs");
    reveal_strlit("ms");
    reveal_strlit("s");
    let shown = fmt_duration::exact_text(ns);
    let n = shown.len() as int;
    reveal_with_fuel(is_power_of_ten, 10);
    if 1_000_000_000 <= ns {
        lemma_with_fraction(ns / 1_000_000_000, ns % 1_000_000_000, 100_000_000);
        assert(shown.take(n - 1) =~= fmt_duration::with_fraction(
            ns / 1_000_000_000,
            ns % 1_000_000_000,
            100_000_000,
        ));
        assert(shown.skip(n - 1) =~= "s"@);
    } else if 1_000_000 <= ns {
        lemma_with_fraction(ns / 1_000_000, ns % 1_000_000, 100_000);
        assert(shown.take(n - 2) =~= fmt_duration::with_fraction(
            ns / 1_000_000,
            ns % 1_000_000,
            100_000,
        ));
        assert(shown.skip(n - 2) =~= "ms"@);
    } else if 1_000 <= ns {
        lemma_with_fraction(ns / 1_000, ns % 1_000, 100);
        assert(shown.take(n - 2) =~= fmt_duration::with_fraction(ns / 1_000, ns % 1_000, 100));
        assert(shown.skip(n - 2) =~= "µs"@);
    }
}

proof fn lemma_with_fraction(whole: nat, rest: nat, unit: nat)
    requires
        is_power_of_ten(unit),
        rest < 10 * unit,
    ensures
        comes_to(
            fmt_duration::with_fraction(whole, rest, unit),
            10 * unit,
            whole * (10 * unit) + rest,
        ),
{
    let s = fmt_duration::with_fraction(whole, rest, unit);
    law_decimal_reads_back(whole);
    lemma_fraction(rest, unit);
    if rest > 0 {
        reveal_strlit(".");
        let point = text::decimal(whole).len() as int;
        assert(s[point] == '.');
        assert(s.take(point) =~= text::decimal(whole));
        assert(s.skip(point + 1) =~= fmt_duration::fraction_digits(rest, unit));
        assert(s.last() == fmt_duration::fraction_digits(rest, unit).last());
        assert((10 * unit) as int / 10 == unit);
    }
}

} // verus!
