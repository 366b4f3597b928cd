//! Decimal rendering and parsing of unsigned integers, used for pin
//! offsets in reports and for index path segments of requests.

use vstd::prelude::*;

verus! {

/// The character for one decimal digit value.
pub open spec fn digit_char(d: nat) -> char {
    if d == 0 {
        '0'
    } else if d == 1 {
        '1'
    } else if d == 2 {
        '2'
    } else if d == 3 {
        '3'
    } else if d == 4 {
        '4'
    } else if d == 5 {
        '5'
    } else if d == 6 {
        '6'
    } else if d == 7 {
        '7'
    } else if d == 8 {
        '8'
    } else {
        '9'
    }
}

/// The usual decimal rendering of `n`, without leading zeros
/// (a single `'0'` for zero itself).
pub open spec fn dec_str(n: nat) -> Seq<char>
    decreases n,
{
    if n < 10 {
        seq![digit_char(n)]
    } else {
        dec_str(n / 10).push(digit_char(n % 10))
    }
}

fn digit_text(d: u32) -> (s: &'static str)
    requires
        d < 10,
    ensures
        s@ == seq![digit_char(d as nat)],
{
    let s: &'static str = if d == 0 {
        "0"
    } else if d == 1 {
        "1"
    } else if d == 2 {
        "2"
    } else if d == 3 {
        "3"
    } else if d == 4 {
        "4"
    } else if d == 5 {
        "5"
    } else if d == 6 {
        "6"
    } else if d == 7 {
        "7"
    } else if d == 8 {
        "8"
    } else {
        "9"
    };
    proof {
        reveal_strlit("0");
        reveal_strlit("1");
        reveal_strlit("2");
        reveal_strlit("3");
        reveal_strlit("4");
        reveal_strlit("5");
        reveal_strlit("6");
        reveal_strlit("7");
        reveal_strlit("8");
        reveal_strlit("9");
        assert(s@ =~= seq![digit_char(d as nat)]);
    }
    s
}

/// Renders `n` in decimal.
pub fn u32_text(n: u32) -> (s: String)
    ensures
        s@ == dec_str(n as nat),
    decreases n,
{
    if n < 10 {
        String::from_str(digit_text(n))
    } else {
        let mut s = u32_text(n / 10);
        s.append(digit_text(n % 10));
        proof {
            assert(s@ =~= dec_str(n as nat));
        }
        s
    }
}

/// Whether `c` is an ASCII decimal digit.
pub open spec fn is_dec_digit(c: char) -> bool {
    '0' <= c && c <= '9'
}

/// Whether every character of `s` is an ASCII decimal digit.
pub open spec fn all_dec_digits(s: Seq<char>) -> bool {
    forall|i: int| 0 <= i < s.len() ==> is_dec_digit(s[i])
}

/// The numeric value of one digit character.
pub open spec fn digit_val(c: char) -> int {
    c as int - '0' as int
}

/// The number a digit string denotes; meaningful when `all_dec_digits(s)`.
pub open spec fn dec_val(s: Seq<char>) -> int
    decreases s.len(),
{
    if s.len() == 0 {
        0
    } else {
        dec_val(s.drop_last()) * 10 + digit_val(s.last())
    }
}

proof fn lemma_dec_val_nonneg(s: Seq<char>)
    requires
        all_dec_digits(s),
    ensures
        dec_val(s) >= 0,
    decreases s.len(),
{
    if s.len() > 0 {
        lemma_dec_val_nonneg(s.drop_last());
    }
}

/// A digit string denotes at least what any of its prefixes denotes.
proof fn lemma_dec_val_prefix(s: Seq<char>, i: int)
    requires
        all_dec_digits(s),
        0 <= i <= s.len(),
    ensures
        dec_val(s.subrange(0, i)) <= dec_val(s),
    decreases s.len() - i,
{
    if i == s.len() {
        assert(s.subrange(0, i) =~= s);
    } else {
        let p = s.subrange(0, i);
        let q = s.subrange(0, i + 1);
        assert(q.drop_last() =~= p);
        lemma_dec_val_nonneg(p);
        assert(dec_val(q) == dec_val(p) * 10 + digit_val(q.last()));
        lemma_dec_val_prefix(s, i + 1);
    }
}

/// Parses a path segment as a non-negative decimal index: every character
/// must be a digit, the segment must be non-empty, and the value must fit
/// in `usize`. Anything else is rejected.
pub fn parse_index(s: &str) -> (r: Option<usize>)
    ensures
        r is Some <==> (s@.len() > 0 && all_dec_digits(s@) && dec_val(s@) <= usize::MAX),
        r is Some ==> r->0 == dec_val(s@),
{
    let n = s.unicode_len();
    if n == 0 {
        return None;
    }
    let mut acc: usize = 0;
    let mut i: usize = 0;
    while i < n
        invariant
            0 <= i <= n,
            n == s@.len(),
            all_dec_digits(s@.subrange(0, i as int)),
            acc == dec_val(s@.subrange(0, i as int)),
        decreases n - i,
    {
        let c = s.get_char(i);
        if c < '0' || c > '9' {
            proof {
                assert(!is_dec_digit(s@[i as int]));
            }
            return None;
        }
        let d: u32 = (c as u32) - 48;
        proof {
            assert(d == digit_val(s@[i as int]));
            assert(s@.subrange(0, i + 1 as int).drop_last() =~= s@.subrange(0, i as int));
        }
        if acc > (usize::MAX - (d as usize)) / 10 {
            proof {
                let p = s@.subrange(0, i + 1 as int);
                assert(dec_val(p) == acc * 10 + d);
                assert(acc * 10 + d > usize::MAX) by {
                    assert(acc >= (usize::MAX - d) / 10 + 1);
                    assert(((usize::MAX - d) / 10 + 1) * 10 >= usize::MAX - d + 1) by (nonlinear_arith);
                    assert(acc * 10 >= ((usize::MAX - d) / 10 + 1) * 10) by (nonlinear_arith)
                        requires
                            acc >= (usize::MAX - d) / 10 + 1,
                    ;
                }
                if all_dec_digits(s@) {
                    lemma_dec_val_prefix(s@, i + 1 as int);
                }
            }
            return None;
        }
        acc = acc * 10 + (d as usize);
        i = i + 1;
    }
    proof {
        assert(s@.subrange(0, n as int) =~= s@);
    }
    Some(acc)
}

} // verus!
