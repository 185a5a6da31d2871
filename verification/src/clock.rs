//! Decimal and clock text (`MM:SS`) of whole numbers of seconds.

use vstd::prelude::*;

verus! {

/// Whether `c` is one of the ASCII digits `0` to `9`.
pub open spec fn is_digit(c: char) -> bool {
    0x30 <= (c as u32) <= 0x39
}

/// The value of an ASCII digit.
pub open spec fn digit_value(c: char) -> nat {
    ((c as u32) - 0x30) as nat
}

/// The value of a run of ASCII digits, read in base ten.
pub open spec fn digits_value(d: Seq<char>) -> nat
    decreases d.len(),
{
    if d.len() == 0 {
        0
    } else {
        digits_value(d.drop_last()) * 10 + digit_value(d.last())
    }
}

/// The character of a decimal digit.
pub open spec fn digit_char(d: nat) -> char {
    if d == 0 {
        '0'
    } else if d == 1 {
        '1'
    } else if d == 2 {
        '2'
    } else if d == 3 {
        '3'
    } else if d == 4 {
        '4'
    } else if d == 5 {
        '5'
    } else if d == 6 {
        '6'
    } else if d == 7 {
        '7'
    } else if d == 8 {
        '8'
    } else {
        '9'
    }
}

/// The decimal text of `n`, without sign and without leading zeros.
pub open spec fn decimal(n: nat) -> Seq<char>
    decreases n,
{
    if n < 10 {
        seq![digit_char(n)]
    } else {
        decimal(n / 10).push(digit_char(n % 10))
    }
}

/// The decimal text of `n`, padded with one zero when `n` has a single digit.
pub open spec fn padded(n: nat) -> Seq<char> {
    if n < 10 {
        seq!['0'] + decimal(n)
    } else {
        decimal(n)
    }
}

/// The clock text of a number of seconds: minutes, a colon, seconds.
pub open spec fn clock_text(seconds: nat) -> Seq<char> {
    padded(seconds / 60) + seq![':'] + padded(seconds % 60)
}

/// The one-character text of a decimal digit.
fn digit_text(d: u64) -> (s: &'static str)
    requires
        d < 10,
    ensures
        s@ == seq![digit_char(d as nat)],
{
    if d == 0 {
        proof { reveal_strlit("0"); }
        "0"
    } else if d == 1 {
        proof { reveal_strlit("1"); }
        "1"
    } else if d == 2 {
        proof { reveal_strlit("2"); }
        "2"
    } else if d == 3 {
        proof { reveal_strlit("3"); }
        "3"
    } else if d == 4 {
        proof { reveal_strlit("4"); }
        "4"
    } else if d == 5 {
        proof { reveal_strlit("5"); }
        "5"
    } else if d == 6 {
        proof { reveal_strlit("6"); }
        "6"
    } else if d == 7 {
        proof { reveal_strlit("7"); }
        "7"
    } else if d == 8 {
        proof { reveal_strlit("8"); }
        "8"
    } else {
        proof { reveal_strlit("9"); }
        "9"
    }
}

/// Writes `n` in decimal.
pub fn decimal_text(n: u64) -> (s: String)
    ensures
        s@ == decimal(n as nat),
    decreases n,
{
    if n < 10 {
        String::from_str(digit_text(n))
    } else {
        let mut s = decimal_text(n / 10);
        s.append(digit_text(n % 10));
        s
    }
}

/// Writes `n` in decimal, with a leading zero when it has one digit.
pub fn padded_text(n: u64) -> (s: String)
    ensures
        s@ == padded(n as nat),
{
    if n < 10 {
        proof { reveal_strlit("0"); }
        let s = String::from_str("0");
        s.concat(digit_text(n))
    } else {
        decimal_text(n)
    }
}

/// The clock text `MM:SS` of a length given in whole seconds; the minutes
/// take more than two digits where they need them.
pub fn duration_to_string(seconds: u64) -> (s: String)
    ensures
        s@ == clock_text(seconds as nat),
{
    let minutes_text = padded_text(seconds / 60);
    let seconds_text = padded_text(seconds % 60);
    proof { reveal_strlit(":"); }
    let with_colon = minutes_text.concat(":");
    with_colon.concat(seconds_text.as_str())
}

/// Appending a digit multiplies the value by ten and adds the digit.
pub proof fn lemma_digits_value_push(d: Seq<char>, c: char)
    ensures
        digits_value(d.push(c)) == digits_value(d) * 10 + digit_value(c),
{
    assert(d.push(c).drop_last() =~= d);
}

/// The value of a run of digits is at least that of each of its prefixes.
pub proof fn lemma_digits_value_prefix_bound(d: Seq<char>, k: int)
    requires
        0 <= k <= d.len(),
    ensures
        digits_value(d.take(k)) <= digits_value(d),
    decreases d.len() - k,
{
    if k < d.len() {
        lemma_digits_value_prefix_bound(d, k + 1);
        assert(d.take(k + 1).drop_last() =~= d.take(k));
    } else {
        assert(d.take(k) =~= d);
    }
}



/// The character of a digit is an ASCII digit of that value.
proof fn lemma_digit_char_value(d: nat)
    requires
        d < 10,
    ensures
        is_digit(digit_char(d)),
        digit_value(digit_char(d)) == d,
        digit_char(d) != '+',
{
    assert(('0' as u32) == 0x30);
    assert(('1' as u32) == 0x31);
    assert(('2' as u32) == 0x32);
    assert(('3' as u32) == 0x33);
    assert(('4' as u32) == 0x34);
    assert(('5' as u32) == 0x35);
    assert(('6' as u32) == 0x36);
    assert(('7' as u32) == 0x37);
    assert(('8' as u32) == 0x38);
    assert(('9' as u32) == 0x39);
}

/// The decimal text of a number is a nonempty run of digits that does not
/// begin with `+` and reads back as the number.
pub proof fn lemma_decimal_reads_back(n: nat)
    ensures
        decimal(n).len() > 0,
        forall|i: int| 0 <= i < decimal(n).len() ==> is_digit(#[trigger] decimal(n)[i]),
        decimal(n)[0] != '+',
        digits_value(decimal(n)) == n,
    decreases n,
{
    lemma_digit_char_value(n % 10);
    assert(digits_value(Seq::<char>::empty()) == 0);
    if n < 10 {
        assert(seq![digit_char(n)].drop_last() =~= Seq::<char>::empty());
    } else {
        lemma_decimal_reads_back(n / 10);
        let d = decimal(n / 10);
        assert(decimal(n).drop_last() =~= d);
        assert(decimal(n).last() == digit_char(n % 10));
        assert(n == (n / 10) * 10 + n % 10);
        assert forall|i: int| 0 <= i < decimal(n).len() implies is_digit(#[trigger] decimal(n)[i]) by {
            if i < d.len() {
                assert(decimal(n)[i] == d[i]);
            }
        }
    }
}

/// The padded text of a number below one hundred has two digits.
proof fn lemma_padded_two_digits(n: nat)
    requires
        n < 100,
    ensures
        padded(n).len() == 2,
        forall|i: int| 0 <= i < 2 ==> is_digit(#[trigger] padded(n)[i]),
        digits_value(padded(n)) == n,
{
    lemma_decimal_reads_back(n);
    lemma_digit_char_value(0);
    if n < 10 {
        assert(padded(n) =~= seq!['0', digit_char(n)]);
        assert(padded(n).drop_last() =~= seq!['0']);
        assert(seq!['0'].drop_last() =~= Seq::<char>::empty());
        assert(digits_value(Seq::<char>::empty()) == 0);
        assert(digits_value(seq!['0']) == 0);
    } else {
        assert(decimal(n / 10) =~= seq![digit_char(n / 10)]);
    }
}

/// The clock text of a length names it: the digits before the colon are
/// the whole minutes, the two digits after it the seconds left over.
pub proof fn lemma_clock_text_reads_back(seconds: nat)
    ensures
        clock_text(seconds).len() >= 5,
        clock_text(seconds)[clock_text(seconds).len() - 3] == ':',
        ({
            let t = clock_text(seconds);
            let minutes = t.take(t.len() - 3);
            let rest = t.skip(t.len() - 2);
            &&& forall|i: int| 0 <= i < minutes.len() ==> is_digit(#[trigger] minutes[i])
            &&& forall|i: int| 0 <= i < rest.len() ==> is_digit(#[trigger] rest[i])
            &&& digits_value(rest) < 60
            &&& digits_value(minutes) * 60 + digits_value(rest) == seconds
        }),
{
    let m = seconds / 60;
    let s = seconds % 60;
    lemma_padded_two_digits(s);
    lemma_decimal_reads_back(m);
    let t = clock_text(seconds);
    let pm = padded(m);
    assert(pm.len() >= 2) by {
        if m >= 10 {
            assert(decimal(m / 10).len() > 0) by {
                lemma_decimal_reads_back(m / 10);
            }
        }
    }
    assert(t.take(t.len() - 3) =~= pm);
    assert(t.skip(t.len() - 2) =~= padded(s));
    assert(t[t.len() - 3] == ':');
    if m < 10 {
        lemma_padded_two_digits(m);
    } else {
        assert(pm == decimal(m));
    }
}

} // verus!
