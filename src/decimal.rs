//! Signed decimal numbers read from text such as `"-0.00012345"`.
use vstd::prelude::*;
use vstd::string::StrSliceExecFns;
use crate::text::{is_digit, digit_value, pow10};

verus! {

/// Largest mantissa plus one: eighteen digits are kept.
pub const MANTISSA_LIMIT: u64 = 1_000_000_000_000_000_000;

/// Most digits allowed after the point.
pub const MAX_SCALE: u32 = 18;

/// The number `(-1)^negative * mantissa / 10^scale`.
#[derive(Clone, Copy, Debug, PartialEq, Eq)]
pub struct Decimal {
    pub negative: bool,
    pub mantissa: u64,
    pub scale: u32,
}

impl Decimal {
    pub open spec fn wf(&self) -> bool {
        self.mantissa < MANTISSA_LIMIT && self.scale <= MAX_SCALE
    }

    /// The mantissa with its sign.
    pub open spec fn signed(&self) -> int {
        if self.negative {
            -(self.mantissa as int)
        } else {
            self.mantissa as int
        }
    }

    /// Whether the number is below zero.
    pub open spec fn below_zero(&self) -> bool {
        self.negative && self.mantissa > 0
    }

    pub open spec fn is_zero(&self) -> bool {
        self.mantissa == 0
    }

    pub fn below_zero_exec(&self) -> (r: bool)
        ensures
            r == self.below_zero(),
    {
        self.negative && self.mantissa > 0
    }

    /// The number zero.
    pub fn zero() -> (r: Decimal)
        ensures
            r.wf(),
            r.is_zero(),
            !r.negative,
            r.scale == 0,
    {
        Decimal { negative: false, mantissa: 0, scale: 0 }
    }
}

pub open spec fn all_digits(s: Seq<char>) -> bool {
    forall|i: int| 0 <= i < s.len() ==> is_digit(#[trigger] s[i])
}

/// The number written by a run of digits (zero for none).
pub open spec fn digits_number(s: Seq<char>) -> nat
    decreases s.len(),
{
    if s.len() == 0 {
        0
    } else {
        digits_number(s.drop_last()) * 10 + digit_value(s.last())
    }
}

/// Length of a leading `-` or `+`.
pub open spec fn sign_len(s: Seq<char>) -> int {
    if s.len() > 0 && (s[0] == '-' || s[0] == '+') {
        1
    } else {
        0
    }
}

/// `body` has its one point at `k`, digits elsewhere and at least one digit.
pub open spec fn point_at(body: Seq<char>, k: int) -> bool {
    &&& 0 <= k < body.len()
    &&& body.len() >= 2
    &&& body[k] == '.'
    &&& all_digits(body.take(k))
    &&& all_digits(body.skip(k + 1))
}

pub open spec fn bounded_decimal(negative: bool, mantissa: nat, scale: nat) -> Option<Decimal> {
    if mantissa < MANTISSA_LIMIT && scale <= MAX_SCALE {
        Some(Decimal { negative, mantissa: mantissa as u64, scale: scale as u32 })
    } else {
        None
    }
}

/// The decimal that `s` writes: an optional sign, digits, and at most one
/// point with at least one digit around it. Longer mantissas and more
/// fractional digits than the limits allow are not read.
pub open spec fn decimal_of(s: Seq<char>) -> Option<Decimal> {
    let negative = s.len() > 0 && s[0] == '-';
    let body = s.skip(sign_len(s));
    if body.len() > 0 && all_digits(body) {
        bounded_decimal(negative, digits_number(body), 0)
    } else if exists|k: int| point_at(body, k) {
        let k = choose|k: int| point_at(body, k);
        bounded_decimal(negative, digits_number(body.take(k) + body.skip(k + 1)), (body.len() - k - 1) as nat)
    } else {
        None
    }
}

proof fn lemma_digits_push(s: Seq<char>, c: char)
    ensures
        digits_number(s.push(c)) == digits_number(s) * 10 + digit_value(c),
{
    assert(s.push(c).drop_last() =~= s);
}

/// Reads a decimal from text.
pub fn parse_decimal(s: &str) -> (r: Option<Decimal>)
    ensures
        r == decimal_of(s@),
        r matches Some(d) ==> d.wf(),
{
    let n = s.unicode_len();
    let mut negative = false;
    let mut start: usize = 0;
    if n > 0 {
        let c0 = s.get_char(0);
        if c0 == '-' {
            negative = true;
            start = 1;
        } else if c0 == '+' {
            start = 1;
        }
    }
    let ghost body = s@.skip(start as int);
    assert(start as int == sign_len(s@));
    let mut i: usize = start;
    let mut m: u64 = 0;
    let mut too_long = false;
    let mut point: Option<usize> = None;
    while i < n
        invariant
            n == s@.len(),
            start <= i <= n,
            start as int == sign_len(s@),
            body == s@.skip(start as int),
            m < MANTISSA_LIMIT,
            point matches None ==> {
                &&& all_digits(s@.subrange(start as int, i as int))
                &&& !too_long ==> m == digits_number(s@.subrange(start as int, i as int))
                &&& too_long ==> digits_number(s@.subrange(start as int, i as int)) >= MANTISSA_LIMIT
            },
            point matches Some(k) ==> {
                &&& start <= k < i
                &&& s@[k as int] == '.'
                &&& all_digits(s@.subrange(start as int, k as int))
                &&& all_digits(s@.subrange(k + 1, i as int))
                &&& !too_long ==> m == digits_number(
                    s@.subrange(start as int, k as int) + s@.subrange(k + 1, i as int),
                )
                &&& too_long ==> digits_number(
                    s@.subrange(start as int, k as int) + s@.subrange(k + 1, i as int),
                ) >= MANTISSA_LIMIT
            },
        decreases n - i,
    {
        let c = s.get_char(i);
        let ghost prev = i;
        if c == '.' {
            if point.is_some() {
                proof {
                    let k = point->Some_0;
                    assert(!point_at(body, (i - start) as int)) by {
                        assert(body.take((i - start) as int)[(k - start) as int] == '.');
                    }
                    assert forall|j: int| !point_at(body, j) by {
                        if point_at(body, j) {
                            if j < (i - start) as int {
                                assert(body.skip(j + 1)[(i - start) as int - j - 1] == '.');
                            } else {
                                assert(body.take(j)[(k - start) as int] == '.');
                            }
                        }
                    }
                    assert(body[(i - start) as int] == '.');
                    assert(!all_digits(body));
                }
                return None;
            }
            point = Some(i);
            proof {
                assert(s@.subrange(i + 1, i + 1) =~= Seq::<char>::empty());
                assert(s@.subrange(start as int, i as int) + s@.subrange(i + 1, i + 1)
                    =~= s@.subrange(start as int, i as int));
            }
        } else if '0' <= c && c <= '9' {
            let d = (c as u32 - 48) as u64;
            let ghost old_digits = match point {
                None => s@.subrange(start as int, i as int),
                Some(k) => s@.subrange(start as int, k as int) + s@.subrange(k + 1, i as int),
            };
            proof {
                lemma_digits_push(old_digits, c);
                match point {
                    None => {
                        assert(s@.subrange(start as int, i + 1) =~= old_digits.push(c));
                    },
                    Some(k) => {
                        assert(s@.subrange(start as int, k as int) + s@.subrange(k + 1, i + 1)
                            =~= old_digits.push(c));
                    },
                }
            }
            if !too_long {
                if m > (MANTISSA_LIMIT - 1 - d) / 10 {
                    too_long = true;
                } else {
                    m = m * 10 + d;
                }
            }
        } else {
            proof {
                assert(body[(i - start) as int] == c);
                assert(!all_digits(body));
                assert forall|j: int| !point_at(body, j) by {
                    if point_at(body, j) && j != (i - start) as int {
                        if j < (i - start) as int {
                            assert(body.skip(j + 1)[(i - start) as int - j - 1] == c);
                        } else {
                            assert(body.take(j)[(i - start) as int] == c);
                        }
                    }
                }
            }
            return None;
        }
        i = i + 1;
    }
    proof {
        assert(s@.subrange(start as int, n as int) =~= body);
    }
    match point {
        None => {
            if i == start || too_long {
                return None;
            }
            Some(Decimal { negative, mantissa: m, scale: 0 })
        },
        Some(k) => {
            let ghost kb = (k - start) as int;
            proof {
                assert(body.take(kb) =~= s@.subrange(start as int, k as int));
                assert(body.skip(kb + 1) =~= s@.subrange(k + 1, n as int));
                assert(body[kb] == '.');
                assert(!all_digits(body));
            }
            if n - start < 2 {
                proof {
                    assert forall|j: int| !point_at(body, j) by {}
                }
                return None;
            }
            proof {
                assert(point_at(body, kb));
                let kc = choose|j: int| point_at(body, j);
                if kc < kb {
                    assert(body.skip(kc + 1)[kb - kc - 1] == '.');
                } else if kc > kb {
                    assert(body.take(kc)[kb] == '.');
                }
                assert(kc == kb);
            }
            let scale = n - k - 1;
            if too_long || scale > MAX_SCALE as usize {
                return None;
            }
            Some(Decimal { negative, mantissa: m, scale: scale as u32 })
        },
    }
}

} // verus!
