//! Decimal digits and the textual forms of integers, decimals and flags.
use vstd::prelude::*;

verus! {

pub const TRUE_TEXT: &'static str = "true";

pub const FALSE_TEXT: &'static str = "false";

pub const TRUE_TITLE: &'static str = "True";

pub const FALSE_TITLE: &'static str = "False";

pub const TRUE_UPPER: &'static str = "TRUE";

pub const FALSE_UPPER: &'static str = "FALSE";

pub open spec fn is_digit(c: char) -> bool {
    c == '0' || c == '1' || c == '2' || c == '3' || c == '4' || c == '5' || c == '6' || c == '7'
        || c == '8' || c == '9'
}

pub open spec fn digit_value(c: char) -> int {
    if c == '1' {
        1
    } else if c == '2' {
        2
    } else if c == '3' {
        3
    } else if c == '4' {
        4
    } else if c == '5' {
        5
    } else if c == '6' {
        6
    } else if c == '7' {
        7
    } else if c == '8' {
        8
    } else if c == '9' {
        9
    } else {
        0
    }
}

pub open spec fn digit_char(d: int) -> char {
    if d == 1 {
        '1'
    } else if d == 2 {
        '2'
    } else if d == 3 {
        '3'
    } else if d == 4 {
        '4'
    } else if d == 5 {
        '5'
    } else if d == 6 {
        '6'
    } else if d == 7 {
        '7'
    } else if d == 8 {
        '8'
    } else if d == 9 {
        '9'
    } else {
        '0'
    }
}

pub open spec fn all_digits(s: Seq<char>) -> bool {
    forall|i: int| 0 <= i < s.len() ==> is_digit(#[trigger] s[i])
}

/// The value of a string of decimal digits, most significant first.
pub open spec fn digits_value(s: Seq<char>) -> int
    decreases s.len(),
{
    if s.len() == 0 {
        0
    } else {
        digits_value(s.drop_last()) * 10 + digit_value(s.last())
    }
}

/// The integer an integer literal denotes: digits, with an optional leading minus.
pub open spec fn integer_of(s: Seq<char>) -> Option<int> {
    if s.len() > 1 && s[0] == '-' && all_digits(s.skip(1)) {
        Some(-digits_value(s.skip(1)))
    } else if s.len() > 0 && all_digits(s) {
        Some(digits_value(s))
    } else {
        None
    }
}

pub open spec fn fits_i64(n: int) -> bool {
    i64::MIN <= n <= i64::MAX
}

/// Decimal digits of a natural number, without leading zeros.
pub open spec fn nat_text(n: nat) -> Seq<char>
    decreases n,
{
    if n < 10 {
        seq![digit_char(n as int)]
    } else {
        nat_text(n / 10).push(digit_char((n % 10) as int))
    }
}

/// The canonical text of an integer.
pub open spec fn int_text(n: int) -> Seq<char> {
    if n < 0 {
        seq!['-'] + nat_text((-n) as nat)
    } else {
        nat_text(n as nat)
    }
}

pub open spec fn count_digits(s: Seq<char>) -> nat
    decreases s.len(),
{
    if s.len() == 0 {
        0
    } else {
        count_digits(s.drop_last()) + if is_digit(s.last()) {
            1nat
        } else {
            0nat
        }
    }
}

pub open spec fn count_points(s: Seq<char>) -> nat
    decreases s.len(),
{
    if s.len() == 0 {
        0
    } else {
        count_points(s.drop_last()) + if s.last() == '.' {
            1nat
        } else {
            0nat
        }
    }
}

pub open spec fn unsigned_part(s: Seq<char>) -> Seq<char> {
    if s.len() > 0 && s[0] == '-' {
        s.skip(1)
    } else {
        s
    }
}

/// A decimal literal: an optional minus, then digits with at most one point
/// among them, and at least one digit.
pub open spec fn is_decimal(s: Seq<char>) -> bool {
    let b = unsigned_part(s);
    count_digits(b) >= 1 && count_points(b) <= 1 && count_digits(b) + count_points(b) == b.len()
}

/// The boolean a flag cell spells, in lower, title or upper case.
pub open spec fn flag_of(s: Seq<char>) -> Option<bool> {
    if s == TRUE_TEXT@ || s == TRUE_TITLE@ || s == TRUE_UPPER@ {
        Some(true)
    } else if s == FALSE_TEXT@ || s == FALSE_TITLE@ || s == FALSE_UPPER@ {
        Some(false)
    } else {
        None
    }
}

/// The canonical spelling of a flag.
pub open spec fn flag_text(b: bool) -> Seq<char> {
    if b {
        TRUE_TEXT@
    } else {
        FALSE_TEXT@
    }
}

pub proof fn lemma_nat_text(n: nat)
    ensures
        nat_text(n).len() > 0,
        all_digits(nat_text(n)),
        digits_value(nat_text(n)) == n,
    decreases n,
{
    if n >= 10 {
        lemma_nat_text(n / 10);
        let t = nat_text(n);
        assert(t.drop_last() =~= nat_text(n / 10));
        assert forall|i: int| 0 <= i < t.len() implies is_digit(#[trigger] t[i]) by {
            if i < t.len() - 1 {
                assert(t[i] == nat_text(n / 10)[i]);
            }
        }
        assert(digit_value(digit_char((n % 10) as int)) == n % 10);
        assert((n / 10) * 10 + n % 10 == n);
        assert(t.last() == digit_char((n % 10) as int));
        assert(digits_value(t) == digits_value(t.drop_last()) * 10 + digit_value(t.last()));
    } else {
        let t = nat_text(n);
        assert(t.drop_last() =~= Seq::<char>::empty());
        assert(digits_value(t) == digits_value(t.drop_last()) * 10 + digit_value(t.last()));
        assert(digit_value(digit_char(n as int)) == n);
    }
}

/// Reading back the canonical text of an integer gives the integer.
pub proof fn lemma_int_text_round_trip(n: int)
    ensures
        integer_of(int_text(n)) == Some(n),
        int_text(n).len() > 0,
{
    if n < 0 {
        let m = (-n) as nat;
        lemma_nat_text(m);
        assert((seq!['-'] + nat_text(m)).skip(1) =~= nat_text(m));
    } else {
        lemma_nat_text(n as nat);
        assert(is_digit(nat_text(n as nat)[0]));
    }
}

pub proof fn lemma_flag_round_trip(b: bool)
    ensures
        flag_of(flag_text(b)) == Some(b),
        flag_text(b).len() > 0,
{
    reveal_strlit("true");
    reveal_strlit("false");
    reveal_strlit("True");
    reveal_strlit("TRUE");
    assert(TRUE_TEXT@.len() == 4);
    assert(TRUE_TITLE@.len() == 4);
    assert(TRUE_UPPER@.len() == 4);
    assert(FALSE_TEXT@.len() == 5);
}

/// The value of a decimal digit, if `c` is one.
pub fn digit_of(c: char) -> (r: Option<u8>)
    ensures
        r is Some <==> is_digit(c),
        r matches Some(d) ==> d as int == digit_value(c) && d < 10,
{
    if c == '0' {
        Some(0)
    } else if c == '1' {
        Some(1)
    } else if c == '2' {
        Some(2)
    } else if c == '3' {
        Some(3)
    } else if c == '4' {
        Some(4)
    } else if c == '5' {
        Some(5)
    } else if c == '6' {
        Some(6)
    } else if c == '7' {
        Some(7)
    } else if c == '8' {
        Some(8)
    } else if c == '9' {
        Some(9)
    } else {
        None
    }
}

fn digit_text(d: u64) -> (r: &'static str)
    requires
        d < 10,
    ensures
        r@ == seq![digit_char(d as int)],
{
    if d == 0 {
        proof { reveal_strlit("0"); }
        "0"
    } else if d == 1 {
        proof { reveal_strlit("1"); }
        "1"
    } else if d == 2 {
        proof { reveal_strlit("2"); }
        "2"
    } else if d == 3 {
        proof { reveal_strlit("3"); }
        "3"
    } else if d == 4 {
        proof { reveal_strlit("4"); }
        "4"
    } else if d == 5 {
        proof { reveal_strlit("5"); }
        "5"
    } else if d == 6 {
        proof { reveal_strlit("6"); }
        "6"
    } else if d == 7 {
        proof { reveal_strlit("7"); }
        "7"
    } else if d == 8 {
        proof { reveal_strlit("8"); }
        "8"
    } else {
        proof { reveal_strlit("9"); }
        "9"
    }
}

fn push_nat_text(out: &mut String, n: u64)
    ensures
        final(out)@ == old(out)@ + nat_text(n as nat),
    decreases n,
{
    if n >= 10 {
        push_nat_text(out, n / 10);
    }
    out.append(digit_text(n % 10));
    proof {
        if n >= 10 {
            assert(old(out)@ + nat_text((n / 10) as nat) + seq![digit_char((n % 10) as int)]
                =~= old(out)@ + nat_text(n as nat));
        } else {
            assert(old(out)@ + seq![digit_char((n % 10) as int)] =~= old(out)@ + nat_text(n as nat));
        }
    }
}

/// The canonical text of an integer: its digits, after a minus if negative.
pub fn format_integer(n: i64) -> (r: String)
    ensures
        r@ == int_text(n as int),
{
    let mut out = String::new();
    if n < 0 {
        out.append("-");
        proof { reveal_strlit("-"); }
        let m: u64 = (0i128 - n as i128) as u64;
        push_nat_text(&mut out, m);
        assert(out@ =~= int_text(n as int));
    } else {
        push_nat_text(&mut out, n as u64);
        assert(out@ =~= int_text(n as int));
    }
    out
}

pub proof fn lemma_digits_value_nonneg(s: Seq<char>)
    ensures
        digits_value(s) >= 0,
    decreases s.len(),
{
    if s.len() > 0 {
        lemma_digits_value_nonneg(s.drop_last());
    }
}

/// Whether two strings hold the same characters.
pub fn text_equals(a: &str, b: &str) -> (r: bool)
    ensures
        r == (a@ == b@),
{
    let n = a.unicode_len();
    if n != b.unicode_len() {
        return false;
    }
    let mut i: usize = 0;
    while i < n
        invariant
            n == a@.len(),
            n == b@.len(),
            i <= n,
            forall|j: int| 0 <= j < i ==> a@[j] == b@[j],
        decreases n - i,
    {
        if a.get_char(i) != b.get_char(i) {
            return false;
        }
        i = i + 1;
    }
    assert(a@ =~= b@);
    true
}

/// The integer a cell spells, when it is an integer literal that fits in `i64`.
pub fn parse_integer(s: &str) -> (r: Option<i64>)
    ensures
        r is Some <==> (integer_of(s@) is Some && fits_i64(integer_of(s@)->0)),
        r matches Some(v) ==> integer_of(s@) == Some(v as int),
{
    let len = s.unicode_len();
    if len == 0 {
        return None;
    }
    let negative = s.get_char(0) == '-';
    let start: usize = if negative {
        1
    } else {
        0
    };
    if start == len {
        return None;
    }
    let cap: u128 = 9223372036854775809;
    let mut acc: u128 = 0;
    let mut i: usize = start;
    while i < len
        invariant
            len == s@.len(),
            start < len,
            start <= i <= len,
            negative == (s@[0] == '-'),
            start == (if negative { 1int } else { 0int }),
            cap == 9223372036854775809,
            all_digits(s@.subrange(start as int, i as int)),
            digits_value(s@.subrange(start as int, i as int)) >= 0,
            acc as int == (if digits_value(s@.subrange(start as int, i as int)) < cap {
                digits_value(s@.subrange(start as int, i as int))
            } else {
                cap as int
            }),
        decreases len - i,
    {
        let c = s.get_char(i);
        let sub = Ghost(s@.subrange(start as int, i as int));
        let next = Ghost(s@.subrange(start as int, i + 1));
        match digit_of(c) {
            None => {
                proof {
                    assert(s@.skip(start as int)[i - start] == c);
                    assert(!all_digits(s@.skip(start as int)));
                    if !negative {
                        assert(s@.skip(0) =~= s@);
                    } else {
                        assert(!is_digit(s@[0]));
                    }
                }
                return None;
            },
            Some(d) => {
                proof {
                    assert(next@.drop_last() =~= sub@);
                    assert(next@.last() == c);
                    assert(digits_value(next@) == digits_value(sub@) * 10 + d);
                    let dv = digits_value(sub@);
                    if dv >= cap {
                        assert(dv * 10 + d >= cap) by (nonlinear_arith)
                            requires
                                dv >= cap,
                                d >= 0,
                                cap > 0,
                        ;
                    }
                    assert forall|j: int| 0 <= j < next@.len() implies is_digit(#[trigger] next@[j]) by {
                        if j < sub@.len() {
                            assert(next@[j] == sub@[j]);
                        }
                    }
                }
                let grown = acc * 10 + d as u128;
                acc = if grown < cap {
                    grown
                } else {
                    cap
                };
                i = i + 1;
            },
        }
    }
    proof {
        assert(s@.subrange(start as int, len as int) =~= s@.skip(start as int));
        if !negative {
            assert(s@.skip(0) =~= s@);
        }
    }
    if negative {
        if acc <= 9223372036854775808 {
            Some((0i128 - acc as i128) as i64)
        } else {
            None
        }
    } else {
        if acc <= 9223372036854775807 {
            Some(acc as i64)
        } else {
            None
        }
    }
}

/// Whether a cell spells a decimal literal.
pub fn check_decimal(s: &str) -> (r: bool)
    ensures
        r == is_decimal(s@),
{
    let len = s.unicode_len();
    let start: usize = if len > 0 && s.get_char(0) == '-' {
        1
    } else {
        0
    };
    let mut digits: usize = 0;
    let mut points: usize = 0;
    let mut i: usize = start;
    while i < len
        invariant
            len == s@.len(),
            start <= i <= len,
            start <= 1,
            digits as int == count_digits(s@.subrange(start as int, i as int)),
            points as int == count_points(s@.subrange(start as int, i as int)),
            digits + points <= i - start,
        decreases len - i,
    {
        let c = s.get_char(i);
        let sub = Ghost(s@.subrange(start as int, i as int));
        let next = Ghost(s@.subrange(start as int, i + 1));
        proof {
            assert(next@.drop_last() =~= sub@);
            assert(next@.last() == c);
        }
        if digit_of(c).is_some() {
            digits = digits + 1;
        } else if c == '.' {
            points = points + 1;
        }
        i = i + 1;
    }
    proof {
        assert(s@.subrange(start as int, len as int) =~= unsigned_part(s@));
    }
    digits >= 1 && points <= 1 && digits + points == len - start
}

/// The flag a cell spells, if it spells one.
pub fn parse_flag(s: &str) -> (r: Option<bool>)
    ensures
        r == flag_of(s@),
{
    if text_equals(s, TRUE_TEXT) || text_equals(s, TRUE_TITLE) || text_equals(s, TRUE_UPPER) {
        Some(true)
    } else if text_equals(s, FALSE_TEXT) || text_equals(s, FALSE_TITLE) || text_equals(
        s,
        FALSE_UPPER,
    ) {
        Some(false)
    } else {
        None
    }
}

} // verus!
