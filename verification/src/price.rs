//! Prices as fixed-point numbers of micro-units, and the decimal-field parser
//! that produces them. A price field is an optional minus sign, one to ten
//! integer digits, and optionally a dot followed by one to six fractional
//! digits; market prices can go negative, so the sign is accepted.

use vstd::prelude::*;
use vstd::string::StrSliceExecFns;
use crate::digits::{all_digits, char_digit, digits_val, is_digit_char, lemma_digits_val_bound,
    pow10};

verus! {

/// Strict bound on the magnitude of a price in micro-units: ten integer
/// digits and six fractional digits always fit below it.
pub const PRICE_MICRO_BOUND: i64 = 10000000000000000;

/// A price in millionths of the source unit.
#[derive(PartialEq, Eq, Structural, Clone, Copy, Debug)]
pub struct PriceMicro {
    pub micro: i64,
}

impl PriceMicro {
    /// The magnitude stays below the parser's fixed-point bound.
    pub open spec fn wf(self) -> bool {
        -PRICE_MICRO_BOUND < self.micro < PRICE_MICRO_BOUND
    }
}

/// The first index at or after `i` holding a dot, or -1 if there is none.
pub open spec fn find_dot(s: Seq<char>, i: int) -> int
    decreases s.len() - i,
    when 0 <= i <= s.len()
{
    if i >= s.len() {
        -1
    } else if s[i] == '.' {
        i
    } else {
        find_dot(s, i + 1)
    }
}

/// Whether an unsigned decimal price field is well formed.
pub open spec fn valid_unsigned_price(s: Seq<char>) -> bool {
    let d = find_dot(s, 0);
    if d == -1 {
        1 <= s.len() <= 10 && all_digits(s)
    } else {
        &&& 1 <= d <= 10
        &&& 1 <= s.len() - d - 1 <= 6
        &&& all_digits(s.subrange(0, d))
        &&& all_digits(s.subrange(d + 1, s.len() as int))
    }
}

/// The micro-unit value of a well-formed unsigned decimal price field.
pub open spec fn unsigned_price_micro(s: Seq<char>) -> int {
    let d = find_dot(s, 0);
    if d == -1 {
        digits_val(s) * 1000000
    } else {
        digits_val(s.subrange(0, d)) * 1000000 + digits_val(
            s.subrange(d + 1, s.len() as int),
        ) * pow10((6 - (s.len() - d - 1)) as nat)
    }
}

/// Whether a price field, with its optional sign, is well formed.
pub open spec fn valid_price_str(s: Seq<char>) -> bool {
    if s.len() > 0 && s[0] == '-' {
        valid_unsigned_price(s.subrange(1, s.len() as int))
    } else {
        valid_unsigned_price(s)
    }
}

/// The signed micro-unit value of a well-formed price field.
pub open spec fn price_micro_from_str(s: Seq<char>) -> int {
    if s.len() > 0 && s[0] == '-' {
        -unsigned_price_micro(s.subrange(1, s.len() as int))
    } else {
        unsigned_price_micro(s)
    }
}

/// Skipping over dot-free characters does not change the first dot found.
proof fn lemma_find_dot_skip(s: Seq<char>, a: int, b: int)
    requires
        0 <= a <= b <= s.len(),
        forall|k: int| a <= k < b ==> s[k] != '.',
    ensures
        find_dot(s, a) == find_dot(s, b),
    decreases b - a,
{
    if a < b {
        lemma_find_dot_skip(s, a + 1, b);
    }
}

/// The first dot at or after `i` is never found earlier than `i`.
proof fn lemma_find_dot_ge(s: Seq<char>, i: int)
    requires
        0 <= i <= s.len(),
    ensures
        find_dot(s, i) == -1 || i <= find_dot(s, i) < s.len(),
    decreases s.len() - i,
{
    if i < s.len() && s[i] != '.' {
        lemma_find_dot_ge(s, i + 1);
    }
}

/// The small powers of ten, spelled out.
proof fn lemma_pow10_vals()
    ensures
        pow10(0) == 1,
        pow10(1) == 10,
        pow10(2) == 100,
        pow10(3) == 1000,
        pow10(4) == 10000,
        pow10(5) == 100000,
        pow10(6) == 1000000,
        pow10(10) == 10000000000,
{
    assert(pow10(0) == 1);
    assert(pow10(1) == 10);
    assert(pow10(2) == 100);
    assert(pow10(3) == 1000);
    assert(pow10(4) == 10000);
    assert(pow10(5) == 100000);
    assert(pow10(6) == 1000000);
    assert(pow10(7) == 10000000);
    assert(pow10(8) == 100000000);
    assert(pow10(9) == 1000000000);
    assert(pow10(10) == 10000000000);
}

/// Powers of ten multiply by adding exponents.
proof fn lemma_pow10_add(a: nat, b: nat)
    ensures
        pow10(a + b) == pow10(a) * pow10(b),
    decreases a,
{
    if a == 0 {
    } else {
        lemma_pow10_add((a - 1) as nat, b);
        assert(pow10(a + b) == 10 * pow10((a + b - 1) as nat));
        assert(pow10(a) * pow10(b) == 10 * (pow10((a - 1) as nat) * pow10(b)))
            by (nonlinear_arith)
            requires
                pow10(a) == 10 * pow10((a - 1) as nat),
        ;
    }
}

/// Ten to a smaller power is no larger.
proof fn lemma_pow10_le(a: nat, b: nat)
    requires
        a <= b,
    ensures
        pow10(a) <= pow10(b),
        pow10(a) >= 1,
    decreases b,
{
    if a < b {
        lemma_pow10_le(a, (b - 1) as nat);
    } else if b > 0 {
        lemma_pow10_le((a - 1) as nat, (b - 1) as nat);
    }
}

/// Parses a decimal price field into micro-units; `None` exactly on
/// malformed or out-of-range text.
pub fn parse_price(s: &str) -> (r: Option<PriceMicro>)
    ensures
        r is Some <==> valid_price_str(s@),
        r is Some ==> r->Some_0.micro as int == price_micro_from_str(s@) && r->Some_0.wf(),
{
    let n = s.unicode_len();
    let neg = n > 0 && s.get_char(0) == '-';
    let start: usize = if neg {
        1
    } else {
        0
    };
    let ghost t = s@.subrange(start as int, n as int);
    proof {
        assert(t =~= (if s@.len() > 0 && s@[0] == '-' {
            s@.subrange(1, s@.len() as int)
        } else {
            s@
        }));
        lemma_pow10_vals();
    }
    // Integer part: one to ten digits before the dot or the end.
    let mut i: usize = start;
    let mut acc: i64 = 0;
    while i < n && s.get_char(i) != '.'
        invariant
            start <= i <= n,
            n == s@.len(),
            start == if neg { 1int } else { 0int },
            t == s@.subrange(start as int, n as int),
            valid_price_str(s@) == valid_unsigned_price(t),
            i - start <= 10,
            forall|k: int| 0 <= k < i - start ==> is_digit_char(#[trigger] t[k]) && t[k] != '.',
            acc as int == digits_val(t.subrange(0, i - start)),
            0 <= acc < 10000000000,
        decreases n - i,
    {
        let c = s.get_char(i);
        let d = match char_digit(c) {
            Some(d) => d,
            None => {
                proof {
                    lemma_find_dot_skip(t, 0, i - start + 1);
                    lemma_find_dot_ge(t, i - start + 1);
                    assert(t.len() == n - start);
                    assert(!is_digit_char(t[i - start]));
                    let fd = find_dot(t, 0);
                    if fd == -1 {
                        assert(!all_digits(t));
                    } else {
                        assert(i - start + 1 <= fd < t.len());
                        assert(t.subrange(0, fd)[i - start] == t[i - start]);
                        assert(!all_digits(t.subrange(0, fd)));
                    }
                }
                return None;
            },
        };
        if i - start == 10 {
            proof {
                lemma_find_dot_skip(t, 0, i - start + 1);
                lemma_find_dot_ge(t, i - start + 1);
            }
            return None;
        }
        proof {
            lemma_pow10_vals();
            assert(t.subrange(0, i - start + 1).drop_last() =~= t.subrange(0, i - start));
            assert(t.subrange(0, i - start + 1).last() == t[i - start]);
            assert forall|x: int| 0 <= x < i - start + 1 implies is_digit_char(
                #[trigger] t.subrange(0, i - start + 1)[x],
            ) by {
                assert(t.subrange(0, i - start + 1)[x] == t[x]);
            }
            lemma_digits_val_bound(t.subrange(0, i - start + 1));
            lemma_pow10_le(t.subrange(0, i - start + 1).len(), 10);
        }
        acc = acc * 10 + d as i64;
        i = i + 1;
    }
    let int_len = i - start;
    if int_len == 0 {
        proof {
            lemma_find_dot_ge(t, 0);
        }
        return None;
    }
    proof {
        lemma_find_dot_skip(t, 0, int_len as int);
        assert(t.subrange(0, int_len as int) =~= t.subrange(0, int_len as int));
    }
    if i == n {
        // No fractional part.
        proof {
            assert(find_dot(t, 0) == -1);
            assert(t.subrange(0, int_len as int) =~= t);
            assert(valid_unsigned_price(t));
        }
        let micro = acc * 1000000;
        let v = if neg {
            -micro
        } else {
            micro
        };
        return Some(PriceMicro { micro: v });
    }
    // A dot: one to six fractional digits follow.
    proof {
        assert(t[i - start] == '.');
        assert(find_dot(t, 0) == i - start);
    }
    let dot = i;
    let mut j: usize = i + 1;
    let mut frac: i64 = 0;
    while j < n
        invariant
            dot + 1 <= j <= n,
            n == s@.len(),
            start == if neg { 1int } else { 0int },
            start <= dot < n,
            t == s@.subrange(start as int, n as int),
            valid_price_str(s@) == valid_unsigned_price(t),
            find_dot(t, 0) == dot - start,
            int_len == dot - start,
            1 <= int_len <= 10,
            acc as int == digits_val(t.subrange(0, int_len as int)),
            0 <= acc < 10000000000,
            j - dot - 1 <= 6,
            forall|k: int| 0 <= k < j - dot - 1 ==> is_digit_char(
                #[trigger] t.subrange(int_len as int + 1, t.len() as int)[k],
            ),
            frac as int == digits_val(
                t.subrange(int_len as int + 1, t.len() as int).subrange(0, j - dot - 1),
            ),
            0 <= frac < 1000000,
            all_digits(t.subrange(0, int_len as int)),
        decreases n - j,
    {
        let ghost fp = t.subrange(int_len as int + 1, t.len() as int);
        let c = s.get_char(j);
        let d = match char_digit(c) {
            Some(d) => d,
            None => {
                proof {
                    assert(fp[j - dot - 1] == t[j - start]);
                    assert(!valid_unsigned_price(t));
                }
                return None;
            },
        };
        if j - dot - 1 == 6 {
            proof {
                assert(t.len() == n - start);
                assert(t.len() - (dot - start) - 1 >= 7);
                assert(!valid_unsigned_price(t));
            }
            return None;
        }
        proof {
            lemma_pow10_vals();
            assert(fp.subrange(0, j - dot).drop_last() =~= fp.subrange(0, j - dot - 1));
            assert(fp[j - dot - 1] == t[j - start]);
            assert(fp.subrange(0, j - dot).last() == fp[j - dot - 1]);
            assert forall|x: int| 0 <= x < j - dot implies is_digit_char(
                #[trigger] fp.subrange(0, j - dot)[x],
            ) by {
                assert(fp.subrange(0, j - dot)[x] == fp[x]);
            }
            lemma_digits_val_bound(fp.subrange(0, j - dot));
            lemma_pow10_le(fp.subrange(0, j - dot).len(), 6);
        }
        frac = frac * 10 + d as i64;
        j = j + 1;
    }
    let frac_len = n - dot - 1;
    if frac_len == 0 {
        proof {
            assert(!valid_unsigned_price(t));
        }
        return None;
    }
    let ghost fp = t.subrange(int_len as int + 1, t.len() as int);
    proof {
        assert(fp.subrange(0, frac_len as int) =~= fp);
        assert(valid_unsigned_price(t));
        lemma_digits_val_bound(fp);
    }
    let scaled: i64 = if frac_len == 1 {
        frac * 100000
    } else if frac_len == 2 {
        frac * 10000
    } else if frac_len == 3 {
        frac * 1000
    } else if frac_len == 4 {
        frac * 100
    } else if frac_len == 5 {
        frac * 10
    } else {
        frac
    };
    proof {
        lemma_pow10_vals();
        assert(t.len() == n - start);
        assert(fp.len() == frac_len);
        assert(frac as int == digits_val(fp));
        if frac_len == 1 {
            assert(pow10((6 - fp.len()) as nat) == 100000);
        } else if frac_len == 2 {
            assert(pow10((6 - fp.len()) as nat) == 10000);
        } else if frac_len == 3 {
            assert(pow10((6 - fp.len()) as nat) == 1000);
        } else if frac_len == 4 {
            assert(pow10((6 - fp.len()) as nat) == 100);
        } else if frac_len == 5 {
            assert(pow10((6 - fp.len()) as nat) == 10);
        } else {
            assert(pow10((6 - fp.len()) as nat) == 1);
        }
        assert(scaled as int == digits_val(fp) * pow10((6 - fp.len()) as nat));
        assert(scaled < 1000000) by {
            lemma_pow10_le(fp.len(), 6);
            assert(digits_val(fp) * pow10((6 - fp.len()) as nat) + pow10((6 - fp.len()) as nat)
                <= pow10(fp.len()) * pow10((6 - fp.len()) as nat)) by (nonlinear_arith)
                requires
                    digits_val(fp) + 1 <= pow10(fp.len()),
                    pow10((6 - fp.len()) as nat) > 0,
            ;
            lemma_pow10_add(fp.len(), (6 - fp.len()) as nat);
        }
    }
    let micro = acc * 1000000 + scaled;
    let v = if neg {
        -micro
    } else {
        micro
    };
    Some(PriceMicro { micro: v })
}

} // verus!
