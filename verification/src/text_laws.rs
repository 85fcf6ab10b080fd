//! Laws of texts: what a text of a span says, read back.

use crate::hms::{decimal, digit, hms_string, two_digits};
use crate::time::Duration;
use vstd::prelude::*;

verus! {

/// Whether a character is one of the ten digits.
pub open spec fn is_digit(c: char) -> bool {
    '0' as int <= c as int <= '9' as int
}

/// The number that a text of digits says in base ten.
pub open spec fn number(text: Seq<char>) -> nat
    decreases text.len(),
{
    if text.len() == 0 {
        0
    } else {
        number(text.drop_last()) * 10 + (text.last() as int - '0' as int) as nat
    }
}

/// Whether a text holds digits only, and says `n` in base ten.
pub open spec fn says(text: Seq<char>, n: nat) -> bool {
    &&& text.len() > 0
    &&& forall|i: int| 0 <= i < text.len() ==> is_digit(#[trigger] text[i])
    &&& number(text) == n
}

/// Whether a text says `n` in base ten, without leading zeros.
pub open spec fn says_plainly(text: Seq<char>, n: nat) -> bool {
    &&& says(text, n)
    &&& text.len() > 1 ==> text[0] != '0'
}

/// The ten digits are different characters, and each says its value.
pub proof fn law_digits_differ(a: nat, b: nat)
    requires
        a < 10,
        b < 10,
    ensures
        is_digit(digit(a)),
        says(seq![digit(a)], a),
        digit(a) == digit(b) <==> a == b,
{
    reveal_with_fuel(number, 2);
    assert(seq![digit(a)].drop_last() =~= Seq::empty());
}

/// A number in decimal says that number when it is read back, and has no leading zeros.
pub proof fn law_decimal_reads_back(n: nat)
    ensures
        says_plainly(decimal(n), n),
    decreases n,
{
    if n < 10 {
        law_digits_differ(n, n);
    } else {
        law_decimal_reads_back(n / 10);
        let shorter = decimal(n / 10);
        let text = decimal(n);
        assert(text.drop_last() =~= shorter);
        assert(text.last() == digit(n % 10));
        assert forall|i: int| 0 <= i < text.len() implies is_digit(#[trigger] text[i]) by {
            if i < shorter.len() {
                assert(text[i] == shorter[i]);
            }
        }
        assert(text[0] == shorter[0]);
        assert(n < 100 ==> shorter =~= seq![digit(n / 10)]);
        assert(shorter[0] != '0') by {
            if shorter.len() == 1 {
                assert(shorter.drop_last() =~= Seq::empty());
                reveal_with_fuel(number, 2);
            }
        }
    }
}

/// Numbers below a hundred have two digits, of which the first may be a zero.
pub proof fn law_two_digits_read_back(n: nat)
    requires
        n < 100,
    ensures
        says(two_digits(n), n),
        two_digits(n).len() == 2,
{
    law_decimal_reads_back(n);
    let text = two_digits(n);
    reveal_with_fuel(number, 3);
    reveal_with_fuel(decimal, 3);
    if n < 10 {
        assert(text =~= seq!['0', digit(n)]);
        assert(text.drop_last() =~= seq!['0']);
        assert(seq!['0'].drop_last() =~= Seq::empty());
    } else {
        assert(decimal(n / 10) =~= seq![digit(n / 10)]);
        assert(text =~= seq![digit(n / 10), digit(n % 10)]);
    }
}

/// Whether `text` is `n` in two digits, and the letter of a unit.
pub open spec fn field(text: Seq<char>, n: nat, unit: char) -> bool {
    &&& text.len() == 3
    &&& says(text.take(2), n)
    &&& text[2] == unit
}

/// What the text of a span is made of: nothing but "ZERO" for no time at all; the whole
/// milliseconds of less than a second; and otherwise hours, where there are any, minutes, where
/// there are any or hours before them, and seconds. The numbers say together how many whole
/// seconds, or milliseconds, the span has.
pub proof fn law_text_says_the_span(duration: Duration, text: String)
    requires
        call_ensures(hms_string, (duration,), text),
    ensures
        duration@ == 0 ==> text@ == seq!['Z', 'E', 'R', 'O'],
        0 < duration@ < 1_000_000_000 ==> exists|millis: Seq<char>| #[trigger]
            says_plainly(millis, duration@ / 1_000_000) && text@ == millis + seq!['m', 's'],
        1_000_000_000 <= duration@ < 60_000_000_000 ==> field(
            text@,
            duration@ / 1_000_000_000,
            's',
        ),
        60_000_000_000 <= duration@ < 3_600_000_000_000 ==> exists|m: Seq<char>, s: Seq<char>|
            {
                &&& #[trigger] field(m, duration@ / 60_000_000_000, 'm')
                &&& #[trigger] field(s, duration@ / 1_000_000_000 % 60, 's')
                &&& text@ == m + s
            },
        3_600_000_000_000 <= duration@ ==> exists|h: Seq<char>, m: Seq<char>, s: Seq<char>|
            {
                &&& #[trigger] says_plainly(h, duration@ / 3_600_000_000_000)
                &&& #[trigger] field(m, duration@ / 60_000_000_000 % 60, 'm')
                &&& #[trigger] field(s, duration@ / 1_000_000_000 % 60, 's')
                &&& text@ == h + seq!['H'] + m + s
            },
{
    reveal_strlit("ZERO");
    reveal_strlit("ms");
    reveal_strlit("H");
    reveal_strlit("m");
    reveal_strlit("s");
    let secs = duration@ / 1_000_000_000;
    assert("ZERO"@ =~= seq!['Z', 'E', 'R', 'O']);
    assert("ms"@ =~= seq!['m', 's']);
    assert("H"@ =~= seq!['H']);
    law_decimal_reads_back(duration@ / 1_000_000);
    law_two_digits_read_back(secs % 60);
    law_two_digits_read_back(secs / 60 % 60);
    law_decimal_reads_back(secs / 3600);
    let s = two_digits(secs % 60) + "s"@;
    let m = two_digits(secs / 60 % 60) + "m"@;
    let h = decimal(secs / 3600);
    assert(s.take(2) =~= two_digits(secs % 60));
    assert(m.take(2) =~= two_digits(secs / 60 % 60));
    assert(secs / 60 == duration@ / 60_000_000_000);
    assert(secs / 3600 == duration@ / 3_600_000_000_000);
    assert(secs % 3600 / 60 == secs / 60 % 60);
    assert(field(s, secs % 60, 's'));
    assert(field(m, secs / 60 % 60, 'm'));
    if 0 < duration@ && secs == 0 {
        assert(says_plainly(h, 0));
    } else if 0 < secs && secs < 60 {
        assert(text@ =~= s);
    } else if 60 <= secs && secs < 3600 {
        assert(text@ =~= m + s);
    } else if 3600 <= secs {
        assert(text@ =~= h + seq!['H'] + m + s);
    }
}

/// The seconds that a text of hours, minutes and seconds has named, and the number that waits for
/// its unit.
pub open spec fn reading(text: Seq<char>) -> (nat, nat)
    decreases text.len(),
{
    if text.len() == 0 {
        (0, 0)
    } else {
        let (named, waiting) = reading(text.drop_last());
        let c = text.last();
        if is_digit(c) {
            (named, waiting * 10 + (c as int - '0' as int) as nat)
        } else if c == 'H' {
            (named + waiting * 3600, 0)
        } else if c == 'm' {
            (named + waiting * 60, 0)
        } else {
            (named + waiting, 0)
        }
    }
}

/// A number that is read after a unit waits for its own.
proof fn lemma_number_waits(before: Seq<char>, digits: Seq<char>)
    requires
        reading(before).1 == 0,
        forall|i: int| 0 <= i < digits.len() ==> is_digit(#[trigger] digits[i]),
    ensures
        reading(before + digits) == (reading(before).0, number(digits)),
    decreases digits.len(),
{
    let whole = before + digits;
    if digits.len() == 0 {
        assert(whole =~= before);
    } else {
        let fewer = digits.drop_last();
        assert forall|i: int| 0 <= i < fewer.len() implies is_digit(#[trigger] fewer[i]) by {
            assert(fewer[i] == digits[i]);
        }
        lemma_number_waits(before, fewer);
        assert(whole.drop_last() =~= before + fewer);
        assert(is_digit(digits[digits.len() - 1]));
        assert(whole.last() == digits.last());
    }
}

/// A number and its unit are read as so many seconds.
proof fn lemma_unit_counts(before: Seq<char>, digits: Seq<char>, unit: char, worth: nat)
    requires
        reading(before).1 == 0,
        forall|i: int| 0 <= i < digits.len() ==> is_digit(#[trigger] digits[i]),
        unit == 'H' && worth == 3600 || unit == 'm' && worth == 60 || unit == 's' && worth == 1,
    ensures
        reading(before + digits + seq![unit]) == (
            reading(before).0 + number(digits) * worth,
            0nat,
        ),
{
    lemma_number_waits(before, digits);
    let whole = before + digits + seq![unit];
    assert(whole.drop_last() =~= before + digits);
    assert(whole.last() == unit);
}

/// A number of two digits and its unit are read as so many seconds.
proof fn lemma_field_counts(before: Seq<char>, part: Seq<char>, n: nat, unit: char, worth: nat)
    requires
        reading(before).1 == 0,
        field(part, n, unit),
        unit == 'm' && worth == 60 || unit == 's' && worth == 1,
    ensures
        reading(before + part) == (reading(before).0 + n * worth, 0nat),
{
    lemma_unit_counts(before, part.take(2), unit, worth);
    assert(before + part.take(2) + seq![unit] =~= before + part);
}

/// Hours, minutes and seconds make up the whole.
proof fn lemma_units_add_up(nanos: nat)
    ensures
        nanos / 60_000_000_000 * 60 + nanos / 1_000_000_000 % 60 == nanos / 1_000_000_000,
        nanos / 3_600_000_000_000 * 3600 + nanos / 60_000_000_000 % 60 * 60 + nanos / 1_000_000_000
            % 60 == nanos / 1_000_000_000,
{
}

/// The text of a span of a second or more, read back unit by unit, names the whole seconds of
/// the span.
pub proof fn law_text_reads_back(duration: Duration, text: String)
    requires
        call_ensures(hms_string, (duration,), text),
        duration@ >= 1_000_000_000,
    ensures
        reading(text@) == (duration@ / 1_000_000_000, 0nat),
{
    law_text_says_the_span(duration, text);
    lemma_units_add_up(duration@);
    let none = Seq::<char>::empty();
    assert(reading(none) == (0nat, 0nat));
    if duration@ < 60_000_000_000 {
        lemma_field_counts(none, text@, duration@ / 1_000_000_000, 's', 1);
        assert(none + text@ =~= text@);
    } else if duration@ < 3_600_000_000_000 {
        let (m, s) = choose|m: Seq<char>, s: Seq<char>|
            {
                &&& #[trigger] field(m, duration@ / 60_000_000_000, 'm')
                &&& #[trigger] field(s, duration@ / 1_000_000_000 % 60, 's')
                &&& text@ == m + s
            };
        lemma_field_counts(none, m, duration@ / 60_000_000_000, 'm', 60);
        assert(none + m =~= m);
        lemma_field_counts(m, s, duration@ / 1_000_000_000 % 60, 's', 1);
    } else {
        let (h, m, s) = choose|h: Seq<char>, m: Seq<char>, s: Seq<char>|
            {
                &&& #[trigger] says_plainly(h, duration@ / 3_600_000_000_000)
                &&& #[trigger] field(m, duration@ / 60_000_000_000 % 60, 'm')
                &&& #[trigger] field(s, duration@ / 1_000_000_000 % 60, 's')
                &&& text@ == h + seq!['H'] + m + s
            };
        let hours = h + seq!['H'];
        lemma_unit_counts(none, h, 'H', 3600);
        assert(none + h + seq!['H'] =~= hours);
        lemma_field_counts(hours, m, duration@ / 60_000_000_000 % 60, 'm', 60);
        lemma_field_counts(hours + m, s, duration@ / 1_000_000_000 % 60, 's', 1);
    }
}

/// Texts tell spans of a second or more apart by their whole seconds, and by nothing else.
pub proof fn law_texts_tell_spans_apart(
    a: Duration,
    a_text: String,
    b: Duration,
    b_text: String,
)
    requires
        call_ensures(hms_string, (a,), a_text),
        call_ensures(hms_string, (b,), b_text),
        a@ >= 1_000_000_000,
        b@ >= 1_000_000_000,
    ensures
        a_text@ == b_text@ <==> a@ / 1_000_000_000 == b@ / 1_000_000_000,
{
    law_text_reads_back(a, a_text);
    law_text_reads_back(b, b_text);
}

/// The text of a span of seconds names those seconds.
pub proof fn law_seconds_are_named(secs: u64, duration: Duration, text: String)
    requires
        secs > 0,
        call_ensures(Duration::from_secs, (secs,), duration),
        call_ensures(hms_string, (duration,), text),
    ensures
        reading(text@) == (secs as nat, 0nat),
{
    law_text_reads_back(duration, text);
}

} // verus!
