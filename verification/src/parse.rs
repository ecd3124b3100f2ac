use vstd::prelude::*;

verus! {

// ---------------------------------------------------------------------------
// The literal grammars of the scalar target types, as mathematical functions
// on character sequences. A scalar part is read entirely as text and then
// parsed against the target type's standard literal grammar: an optional sign
// followed by one or more decimal digits for the integer types, exactly
// `true` or `false` for booleans, exactly one character for characters. No
// partial tolerance: anything else is rejected.
// ---------------------------------------------------------------------------
/// A decimal digit.
pub open spec fn is_digit(c: char) -> bool {
    '0' <= c && c <= '9'
}

/// The numeric value of one decimal digit.
pub open spec fn digit_value(c: char) -> int {
    c as int - '0' as int
}

/// Every character is a decimal digit.
pub open spec fn all_digits(s: Seq<char>) -> bool {
    forall|i: int| 0 <= i < s.len() ==> is_digit(#[trigger] s[i])
}

/// The number denoted by a digit sequence, most significant digit first.
pub open spec fn dec_value(s: Seq<char>) -> int
    decreases s.len(),
{
    if s.len() == 0 {
        0
    } else {
        dec_value(s.drop_last()) * 10 + digit_value(s.last())
    }
}

/// A non-empty run of decimal digits.
pub open spec fn digits_ok(s: Seq<char>) -> bool {
    s.len() > 0 && all_digits(s)
}

/// The digits of an unsigned literal: an optional leading `+` is dropped.
pub open spec fn unsigned_body(s: Seq<char>) -> Seq<char> {
    if s.len() > 0 && s[0] == '+' {
        s.drop_first()
    } else {
        s
    }
}

/// What `u64` text parsing returns: the denoted number exactly when the text
/// matches the unsigned literal grammar and the number fits.
pub open spec fn spec_parse_u64(s: Seq<char>) -> Option<u64> {
    let d = unsigned_body(s);
    if digits_ok(d) && dec_value(d) <= u64::MAX {
        Some(dec_value(d) as u64)
    } else {
        None
    }
}

/// What `i64` text parsing returns: the denoted number exactly when the text
/// matches the signed literal grammar and the number fits.
pub open spec fn spec_parse_i64(s: Seq<char>) -> Option<i64> {
    if s.len() > 0 && s[0] == '-' {
        let d = s.drop_first();
        if digits_ok(d) && -dec_value(d) >= i64::MIN {
            Some((-dec_value(d)) as i64)
        } else {
            None
        }
    } else {
        let d = unsigned_body(s);
        if digits_ok(d) && dec_value(d) <= i64::MAX {
            Some(dec_value(d) as i64)
        } else {
            None
        }
    }
}

/// What boolean text parsing returns: exactly `true` or `false`.
pub open spec fn spec_parse_bool(s: Seq<char>) -> Option<bool> {
    if s == seq!['t', 'r', 'u', 'e'] {
        Some(true)
    } else if s == seq!['f', 'a', 'l', 's', 'e'] {
        Some(false)
    } else {
        None
    }
}

/// What character text parsing returns: the text's single character.
pub open spec fn spec_parse_char(s: Seq<char>) -> Option<char> {
    if s.len() == 1 {
        Some(s[0])
    } else {
        None
    }
}

// ---------------------------------------------------------------------------
// Facts about the denoted number.
// ---------------------------------------------------------------------------
/// A digit sequence denotes a non-negative number.
pub proof fn lemma_dec_value_nonneg(s: Seq<char>)
    requires
        all_digits(s),
    ensures
        dec_value(s) >= 0,
    decreases s.len(),
{
    if s.len() > 0 {
        assert(is_digit(s[s.len() - 1]));
        lemma_dec_value_nonneg(s.drop_last());
    }
}

/// Reading one more digit multiplies the prefix value by ten and adds it.
pub proof fn lemma_dec_value_take_succ(s: Seq<char>, i: int)
    requires
        0 <= i < s.len(),
    ensures
        dec_value(s.take(i + 1)) == dec_value(s.take(i)) * 10 + digit_value(s[i]),
{
    assert(s.take(i + 1).drop_last() =~= s.take(i));
    assert(s.take(i + 1).last() == s[i]);
}

/// A digit sequence denotes at least what any of its prefixes denotes.
pub proof fn lemma_dec_value_take_le(s: Seq<char>, i: int)
    requires
        all_digits(s),
        0 <= i <= s.len(),
    ensures
        dec_value(s.take(i)) <= dec_value(s),
    decreases s.len() - i,
{
    if i < s.len() {
        assert(all_digits(s.take(i)));
        lemma_dec_value_nonneg(s.take(i));
        lemma_dec_value_take_succ(s, i);
        assert(is_digit(s[i]));
        lemma_dec_value_take_le(s, i + 1);
    } else {
        assert(s.take(i) =~= s);
    }
}

// ---------------------------------------------------------------------------
// The executable parsers, each pinned to its grammar.
// ---------------------------------------------------------------------------
/// Parses the digits of `s` from `start` to the end as one decimal number.
///
/// Returns the denoted number exactly when that range is a non-empty run of
/// digits whose value fits in `u64`.
fn parse_digits(s: &str, start: usize) -> (r: Option<u64>)
    requires
        start as int <= s@.len(),
    ensures
        ({
            let d = s@.subrange(start as int, s@.len() as int);
            match r {
                Some(v) => digits_ok(d) && dec_value(d) == v,
                None => !(digits_ok(d) && dec_value(d) <= u64::MAX),
            }
        }),
{
    let ghost d = s@.subrange(start as int, s@.len() as int);
    let n = s.unicode_len();
    if start >= n {
        return None;
    }
    let mut acc: u64 = 0;
    let mut i: usize = start;
    while i < n
        invariant
            start <= i <= n,
            n == s@.len(),
            start < n,
            d == s@.subrange(start as int, s@.len() as int),
            all_digits(d.take(i - start)),
            acc == dec_value(d.take(i - start)),
        decreases n - i,
    {
        let c = s.get_char(i);
        let u = c as u32;
        proof {
            assert(d[i - start] == s@[i as int]);
        }
        if u < 48 || u > 57 {
            proof {
                assert(!is_digit(d[i - start]));
            }
            return None;
        }
        let dig = (u - 48) as u64;
        proof {
            lemma_dec_value_take_succ(d, i - start);
            assert(digit_value(d[i - start]) == dig);
        }
        let stepped = match acc.checked_mul(10) {
            Some(x) => x.checked_add(dig),
            None => None,
        };
        match stepped {
            Some(x) => {
                acc = x;
            },
            None => {
                proof {
                    assert(dec_value(d.take(i - start + 1)) > u64::MAX);
                    if all_digits(d) {
                        lemma_dec_value_take_le(d, i - start + 1);
                    }
                }
                return None;
            },
        }
        i = i + 1;
    }
    proof {
        assert(d.take(n - start) =~= d);
    }
    Some(acc)
}

/// Parses `s` as a `u64` literal: an optional `+`, then decimal digits.
pub fn parse_u64(s: &str) -> (r: Option<u64>)
    ensures
        r == spec_parse_u64(s@),
{
    let n = s.unicode_len();
    let start: usize = if n > 0 && s.get_char(0) == '+' {
        1
    } else {
        0
    };
    proof {
        assert(unsigned_body(s@) =~= s@.subrange(start as int, s@.len() as int));
    }
    parse_digits(s, start)
}

/// Parses `s` as an `i64` literal: an optional sign, then decimal digits.
pub fn parse_i64(s: &str) -> (r: Option<i64>)
    ensures
        r == spec_parse_i64(s@),
{
    let n = s.unicode_len();
    if n > 0 && s.get_char(0) == '-' {
        proof {
            assert(s@.drop_first() =~= s@.subrange(1, s@.len() as int));
        }
        let ghost d = s@.drop_first();
        match parse_digits(s, 1) {
            Some(m) => {
                if m <= 9223372036854775808u64 {
                    if m == 9223372036854775808u64 {
                        Some(i64::MIN)
                    } else {
                        Some(-(m as i64))
                    }
                } else {
                    None
                }
            },
            None => {
                proof {
                    if digits_ok(d) && -dec_value(d) >= i64::MIN {
                        lemma_dec_value_nonneg(d);
                    }
                }
                None
            },
        }
    } else {
        let start: usize = if n > 0 && s.get_char(0) == '+' {
            1
        } else {
            0
        };
        proof {
            assert(unsigned_body(s@) =~= s@.subrange(start as int, s@.len() as int));
        }
        let ghost d = unsigned_body(s@);
        match parse_digits(s, start) {
            Some(m) => {
                if m <= i64::MAX as u64 {
                    Some(m as i64)
                } else {
                    None
                }
            },
            None => {
                proof {
                    if digits_ok(d) && dec_value(d) <= i64::MAX {
                        lemma_dec_value_nonneg(d);
                    }
                }
                None
            },
        }
    }
}

/// Parses `s` as a boolean literal: exactly `true` or `false`.
pub fn parse_bool(s: &str) -> (r: Option<bool>)
    ensures
        r == spec_parse_bool(s@),
{
    let n = s.unicode_len();
    if n == 4 && s.get_char(0) == 't' && s.get_char(1) == 'r' && s.get_char(2) == 'u' && s.get_char(
        3,
    ) == 'e' {
        proof {
            assert(s@ =~= seq!['t', 'r', 'u', 'e']);
        }
        Some(true)
    } else if n == 5 && s.get_char(0) == 'f' && s.get_char(1) == 'a' && s.get_char(2) == 'l'
        && s.get_char(3) == 's' && s.get_char(4) == 'e' {
        proof {
            assert(s@ =~= seq!['f', 'a', 'l', 's', 'e']);
        }
        Some(false)
    } else {
        proof {
            let t = seq!['t', 'r', 'u', 'e'];
            let f = seq!['f', 'a', 'l', 's', 'e'];
            assert(s@ != t && s@ != f) by {
                if s@ == t {
                    assert(s@.len() == 4);
                    assert(s@[0] == 't' && s@[1] == 'r' && s@[2] == 'u' && s@[3] == 'e');
                }
                if s@ == f {
                    assert(s@.len() == 5);
                    assert(s@[0] == 'f' && s@[1] == 'a' && s@[2] == 'l' && s@[3] == 's' && s@[4]
                        == 'e');
                }
            }
        }
        None
    }
}

/// Parses `s` as a character literal: the text's single character.
pub fn parse_char(s: &str) -> (r: Option<char>)
    ensures
        r == spec_parse_char(s@),
{
    let n = s.unicode_len();
    if n == 1 {
        Some(s.get_char(0))
    } else {
        None
    }
}

// ---------------------------------------------------------------------------
// Round-trip law: text matching a scalar grammar converts to exactly the
// semantic value its digits denote.
// ---------------------------------------------------------------------------
/// Unsigned round-trip: on grammar-matching text the parsed value is the
/// number the digits denote.
pub proof fn lemma_unsigned_literal_round_trip(s: Seq<char>)
    requires
        digits_ok(unsigned_body(s)),
        dec_value(unsigned_body(s)) <= u64::MAX,
    ensures
        spec_parse_u64(s) == Some(dec_value(unsigned_body(s)) as u64),
        spec_parse_u64(s)->Some_0 as int == dec_value(unsigned_body(s)),
{
    lemma_dec_value_nonneg(unsigned_body(s));
}

/// Signed round-trip: on grammar-matching text the parsed value is the
/// signed number the literal denotes.
pub proof fn lemma_signed_literal_round_trip(s: Seq<char>)
    requires
        s.len() > 0,
        s[0] == '-',
        digits_ok(s.drop_first()),
        -dec_value(s.drop_first()) >= i64::MIN,
    ensures
        spec_parse_i64(s) == Some((-dec_value(s.drop_first())) as i64),
        spec_parse_i64(s)->Some_0 as int == -dec_value(s.drop_first()),
{
    lemma_dec_value_nonneg(s.drop_first());
}

} // verus!
