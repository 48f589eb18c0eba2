//! Decimal strings for counters and identifiers.
//!
//! Room ids, the `time_limit_seconds` cache field and the `in_room_players`
//! counter all travel as decimal strings. This module gives the mathematical
//! meaning of such strings and verified conversions in both directions.

use vstd::prelude::*;
use vstd::string::StringExecFns;
use vstd::string::StrSliceExecFns;

verus! {

/// A decimal digit character.
pub open spec fn is_digit_char(c: char) -> bool {
    '0' as u32 <= c as u32 && c as u32 <= '9' as u32
}

/// Numeric value of a digit character.
pub open spec fn digit_val(c: char) -> nat {
    (c as u32 - '0' as u32) as nat
}

/// Every character of the sequence is a decimal digit.
pub open spec fn all_digits(s: Seq<char>) -> bool {
    forall|i: int| 0 <= i < s.len() ==> is_digit_char(#[trigger] s[i])
}

/// Value of a digit sequence read most significant digit first.
pub open spec fn decimal_value(s: Seq<char>) -> nat
    decreases s.len(),
{
    if s.len() == 0 {
        0
    } else {
        decimal_value(s.drop_last()) * 10 + digit_val(s.last())
    }
}

/// The digit character for a value below ten.
pub open spec fn digit_char(d: nat) -> char {
    if d == 0 {
        '0'
    } else if d == 1 {
        '1'
    } else if d == 2 {
        '2'
    } else if d == 3 {
        '3'
    } else if d == 4 {
        '4'
    } else if d == 5 {
        '5'
    } else if d == 6 {
        '6'
    } else if d == 7 {
        '7'
    } else if d == 8 {
        '8'
    } else {
        '9'
    }
}

/// Canonical decimal rendering of a natural number: no sign, no leading
/// zero except for the number zero itself.
pub open spec fn spec_decimal(n: nat) -> Seq<char>
    decreases n,
{
    if n < 10 {
        seq![digit_char(n)]
    } else {
        spec_decimal(n / 10) + seq![digit_char(n % 10)]
    }
}

/// A single digit rendered as a string slice.
fn digit_str(d: u32) -> (r: &'static str)
    requires
        d < 10,
    ensures
        r@ == seq![digit_char(d as nat)],
{
    proof {
        reveal_strlit("0");
        reveal_strlit("1");
        reveal_strlit("2");
        reveal_strlit("3");
        reveal_strlit("4");
        reveal_strlit("5");
        reveal_strlit("6");
        reveal_strlit("7");
        reveal_strlit("8");
        reveal_strlit("9");
    }
    if d == 0 {
        proof { assert("0"@ =~= seq![digit_char(0)]); }
        "0"
    } else if d == 1 {
        proof { assert("1"@ =~= seq![digit_char(1)]); }
        "1"
    } else if d == 2 {
        proof { assert("2"@ =~= seq![digit_char(2)]); }
        "2"
    } else if d == 3 {
        proof { assert("3"@ =~= seq![digit_char(3)]); }
        "3"
    } else if d == 4 {
        proof { assert("4"@ =~= seq![digit_char(4)]); }
        "4"
    } else if d == 5 {
        proof { assert("5"@ =~= seq![digit_char(5)]); }
        "5"
    } else if d == 6 {
        proof { assert("6"@ =~= seq![digit_char(6)]); }
        "6"
    } else if d == 7 {
        proof { assert("7"@ =~= seq![digit_char(7)]); }
        "7"
    } else if d == 8 {
        proof { assert("8"@ =~= seq![digit_char(8)]); }
        "8"
    } else {
        proof { assert("9"@ =~= seq![digit_char(9)]); }
        "9"
    }
}

/// Render a counter as its canonical decimal string.
pub fn u32_to_decimal(n: u32) -> (s: String)
    ensures
        s@ == spec_decimal(n as nat),
    decreases n,
{
    if n < 10 {
        digit_str(n).to_owned()
    } else {
        proof {
            assert(n / 10 < n) by (nonlinear_arith)
                requires n >= 10;
        }
        let mut s = u32_to_decimal(n / 10);
        s.append(digit_str(n % 10));
        s
    }
}

/// The digit value of a character, if it is one.
fn digit_of(c: char) -> (r: Option<u32>)
    ensures
        is_digit_char(c) ==> r == Some(digit_val(c) as u32),
        !is_digit_char(c) ==> r is None,
{
    let u = c as u32;
    if 48 <= u && u <= 57 {
        Some(u - 48)
    } else {
        None
    }
}

proof fn lemma_take_step(s: Seq<char>, i: int)
    requires
        0 <= i < s.len(),
    ensures
        s.take(i + 1).drop_last() =~= s.take(i),
        s.take(i + 1).last() == s[i],
{
}

/// Among digit strings, the value of a prefix never exceeds the value of
/// the whole string.
proof fn lemma_decimal_prefix_le(s: Seq<char>, i: int)
    requires
        0 <= i <= s.len(),
        all_digits(s),
    ensures
        decimal_value(s.take(i)) <= decimal_value(s),
    decreases s.len() - i,
{
    if i < s.len() {
        lemma_take_step(s, i);
        assert(decimal_value(s.take(i + 1)) == decimal_value(s.take(i)) * 10 + digit_val(s[i]));
        assert(decimal_value(s.take(i)) <= decimal_value(s.take(i)) * 10) by (nonlinear_arith);
        lemma_decimal_prefix_le(s, i + 1);
    } else {
        assert(s.take(i) =~= s);
    }
}

/// Parse a decimal string as an unsigned counter value.
///
/// Succeeds exactly on non-empty all-digit strings whose value fits the
/// counter type; leading zeros are accepted, signs are not.
pub fn parse_u32_decimal(s: &str) -> (r: Option<u32>)
    ensures
        (s@.len() > 0 && all_digits(s@) && decimal_value(s@) <= u32::MAX) ==> r == Some(
            decimal_value(s@) as u32,
        ),
        !(s@.len() > 0 && all_digits(s@) && decimal_value(s@) <= u32::MAX) ==> r is None,
{
    let len = s.unicode_len();
    if len == 0 {
        return None;
    }
    let mut i: usize = 0;
    let mut v: u32 = 0;
    while i < len
        invariant
            0 <= i <= len,
            len == s@.len(),
            all_digits(s@.take(i as int)),
            v as nat == decimal_value(s@.take(i as int)),
        decreases len - i,
    {
        let c = s.get_char(i);
        proof {
            lemma_take_step(s@, i as int);
        }
        match digit_of(c) {
            None => {
                assert(!all_digits(s@));
                return None;
            },
            Some(d) => {
                if v > (u32::MAX - d) / 10 {
                    // the value of the prefix read so far already overflows
                    proof {
                        assert(v as nat * 10 + d as nat > u32::MAX) by (nonlinear_arith)
                            requires
                                d < 10,
                                v as nat > (u32::MAX as nat - d as nat) / 10,
                        ;
                        if all_digits(s@) {
                            lemma_decimal_prefix_le(s@, i as int + 1);
                            assert(decimal_value(s@) > u32::MAX);
                        }
                    }
                    return None;
                }
                proof {
                    assert(v as nat * 10 + d as nat <= u32::MAX) by (nonlinear_arith)
                        requires
                            d < 10,
                            v as nat <= (u32::MAX as nat - d as nat) / 10,
                    ;
                }
                v = v * 10 + d;
            },
        }
        i = i + 1;
    }
    proof {
        assert(s@.take(len as int) =~= s@);
    }
    Some(v)
}

/// Rendering a value and reading the string back yields the value again,
/// and the rendering is a non-empty digit string.
pub proof fn lemma_decimal_round_trip(n: nat)
    ensures
        spec_decimal(n).len() >= 1,
        all_digits(spec_decimal(n)),
        decimal_value(spec_decimal(n)) == n,
    decreases n,
{
    if n < 10 {
        let s = seq![digit_char(n)];
        assert(s.drop_last() =~= Seq::<char>::empty());
        assert(decimal_value(s.drop_last()) == 0);
        assert(s.last() == digit_char(n));
        assert(decimal_value(s) == digit_val(digit_char(n)));
    } else {
        assert(n / 10 < n) by (nonlinear_arith)
            requires n >= 10;
        lemma_decimal_round_trip(n / 10);
        let p = spec_decimal(n / 10);
        let s = p + seq![digit_char(n % 10)];
        assert(s.drop_last() =~= p);
        assert(s.last() == digit_char(n % 10));
        assert(decimal_value(s) == decimal_value(p) * 10 + digit_val(digit_char(n % 10)));
        assert((n / 10) * 10 + n % 10 == n) by (nonlinear_arith);
        assert(forall|i: int| 0 <= i < s.len() ==> is_digit_char(#[trigger] s[i])) by {
            assert(forall|i: int| 0 <= i < p.len() ==> is_digit_char(#[trigger] p[i]));
        }
    }
}

} // verus!
