//! Numbers, held exactly as the decimal digits that were written.
use vstd::prelude::*;

use crate::chars::is_digit;
use crate::tokenizer::{lemma_run_bound, run_end, run_len, slice_chars, Run};

verus! {

/// A decimal number: a sign, the digits before the point and the digits after
/// it. Leading zeros of the integer part and trailing zeros of the fraction
/// are dropped, and zero is never negative, so that equal numbers have equal
/// representations.
#[derive(Debug, Clone, PartialEq, Eq)]
pub struct AbabaNumber {
    pub negative: bool,
    pub int_digits: Vec<u8>,
    pub frac_digits: Vec<u8>,
}

/// The mathematical content of a number.
pub struct NumberModel {
    pub negative: bool,
    pub int_digits: Seq<u8>,
    pub frac_digits: Seq<u8>,
}

impl View for AbabaNumber {
    type V = NumberModel;

    open spec fn view(&self) -> NumberModel {
        NumberModel {
            negative: self.negative,
            int_digits: self.int_digits@,
            frac_digits: self.frac_digits@,
        }
    }
}

pub open spec fn digit_value(c: char) -> u8 {
    (c as u32 - '0' as u32) as u8
}

pub open spec fn digit_values(s: Seq<char>) -> Seq<u8> {
    s.map_values(|c: char| digit_value(c))
}

/// The number of zero digits at the end of `s`.
pub open spec fn trailing_zeros(s: Seq<char>) -> nat
    decreases s.len(),
{
    if s.len() > 0 && s.last() == '0' {
        1 + trailing_zeros(s.drop_last())
    } else {
        0
    }
}

/// The text of a number token with its `_` separators removed.
pub open spec fn without_separators(raw: Seq<char>) -> Seq<char> {
    raw.filter(|c: char| c != '_')
}

/// The number that the text of a number token denotes, if it is well formed.
///
/// Once the `_` separators are removed, the text must be an optional `-`,
/// then digits with at most one `.` among them, and at least one digit in all
/// (`12`, `-1.5`, `3.`, `-.25`).
pub open spec fn number_of(raw: Seq<char>) -> Option<NumberModel> {
    signed_number(without_separators(raw))
}

/// The number that `t`, free of separators, denotes.
pub open spec fn signed_number(t: Seq<char>) -> Option<NumberModel> {
    let neg = t.len() > 0 && t[0] == '-';
    unsigned_number(
        neg,
        if neg {
            t.drop_first()
        } else {
            t
        },
    )
}

/// The number that `body`, after its sign, denotes.
pub open spec fn unsigned_number(neg: bool, body: Seq<char>) -> Option<NumberModel> {
    let d = run_len(body, Run::Digit) as int;
    let frac = if d < body.len() {
        body.skip(d + 1)
    } else {
        Seq::empty()
    };
    let well_formed = (d == body.len() || (body[d] == '.' && run_len(frac, Run::Digit)
        == frac.len())) && d + frac.len() >= 1;
    if !well_formed {
        None
    } else {
        let a = body.take(d);
        let a = a.skip(run_len(a, Run::Zero) as int);
        let f = frac.take(frac.len() - trailing_zeros(frac));
        Some(
            NumberModel {
                negative: neg && (a.len() > 0 || f.len() > 0),
                int_digits: digit_values(a),
                frac_digits: digit_values(f),
            },
        )
    }
}

/// The value of a sequence of decimal digits.
pub open spec fn digits_value(ds: Seq<u8>) -> nat
    decreases ds.len(),
{
    if ds.len() == 0 {
        0
    } else {
        digits_value(ds.drop_last()) * 10 + ds.last() as nat
    }
}

impl NumberModel {
    /// The digits are decimal digits and the representation is the canonical one.
    pub open spec fn wf(self) -> bool {
        &&& forall|i: int| 0 <= i < self.int_digits.len() ==> #[trigger] self.int_digits[i] < 10
        &&& forall|i: int| 0 <= i < self.frac_digits.len() ==> #[trigger] self.frac_digits[i] < 10
        &&& self.int_digits.len() > 0 ==> self.int_digits[0] != 0
        &&& self.frac_digits.len() > 0 ==> self.frac_digits.last() != 0
        &&& self.negative ==> (self.int_digits.len() > 0 || self.frac_digits.len() > 0)
    }

    /// The magnitude of the integer part.
    pub open spec fn whole(self) -> nat {
        digits_value(self.int_digits)
    }

    /// The number rounded toward zero.
    pub open spec fn truncated(self) -> int {
        if self.negative {
            -(self.whole() as int)
        } else {
            self.whole() as int
        }
    }

    /// The number lies in `[min, max]`, where `min <= 0 <= max`. A fraction is
    /// present exactly when the digits after the point are not empty, so the
    /// number passes a bound iff its integer part does, and an equal integer
    /// part passes only with no fraction.
    pub open spec fn within(self, min: int, max: int) -> bool {
        let has_fraction = self.frac_digits.len() > 0;
        if self.negative {
            self.whole() < -min || (self.whole() == -min && !has_fraction)
        } else {
            self.whole() < max || (self.whole() == max && !has_fraction)
        }
    }
}

proof fn lemma_digits_value_grows(ds: Seq<u8>, i: int)
    requires
        0 <= i <= ds.len(),
    ensures
        digits_value(ds.take(i)) <= digits_value(ds),
    decreases ds.len() - i,
{
    if i < ds.len() {
        lemma_digits_value_grows(ds, i + 1);
        assert(ds.take(i + 1).drop_last() =~= ds.take(i));
    } else {
        assert(ds.take(i) =~= ds);
    }
}

proof fn lemma_trailing_zeros(s: Seq<char>, e: int)
    requires
        0 <= e <= s.len(),
        forall|j: int| e <= j < s.len() ==> #[trigger] s[j] == '0',
        e == 0 || s[e - 1] != '0',
    ensures
        trailing_zeros(s) == s.len() - e,
    decreases s.len(),
{
    if s.len() > e {
        lemma_trailing_zeros(s.drop_last(), e);
    }
}

pub proof fn lemma_trailing_zeros_zero(s: Seq<char>)
    requires
        s.len() == 0 || s.last() != '0',
    ensures
        trailing_zeros(s) == 0,
{
}

/// The value of `ds`, if it is at most `u64::MAX`.
pub fn magnitude(ds: &Vec<u8>) -> (r: Option<u64>)
    ensures
        match r {
            Some(m) => m == digits_value(ds@),
            None => digits_value(ds@) > u64::MAX,
        },
{
    let mut acc: u64 = 0;
    let mut i: usize = 0;
    while i < ds.len()
        invariant
            i <= ds@.len(),
            acc == digits_value(ds@.take(i as int)),
        decreases ds@.len() - i,
    {
        assert(ds@.take(i + 1).drop_last() =~= ds@.take(i as int));
        let next: u128 = acc as u128 * 10 + ds[i] as u128;
        if next > u64::MAX as u128 {
            proof {
                lemma_digits_value_grows(ds@, i + 1);
            }
            return None;
        }
        acc = next as u64;
        i = i + 1;
    }
    assert(ds@.take(i as int) =~= ds@);
    Some(acc)
}

fn values_of(chars: &Vec<char>, from: usize, to: usize) -> (r: Vec<u8>)
    requires
        from <= to <= chars@.len(),
        forall|j: int| from <= j < to ==> is_digit(#[trigger] chars@[j]),
    ensures
        r@ == digit_values(chars@.subrange(from as int, to as int)),
        forall|i: int| 0 <= i < r@.len() ==> #[trigger] r@[i] < 10,
{
    let mut r: Vec<u8> = Vec::new();
    let mut i = from;
    while i < to
        invariant
            from <= i <= to <= chars@.len(),
            forall|j: int| from <= j < to ==> is_digit(#[trigger] chars@[j]),
            r@ == digit_values(chars@.subrange(from as int, i as int)),
            forall|k: int| 0 <= k < r@.len() ==> #[trigger] r@[k] < 10,
        decreases to - i,
    {
        let c = chars[i];
        assert(is_digit(chars@[i as int]));
        r.push((c as u32 - '0' as u32) as u8);
        i = i + 1;
        assert(r@ =~= digit_values(chars@.subrange(from as int, i as int)));
    }
    r
}

/// The text with every `_` removed.
fn strip_separators(raw: &Vec<char>) -> (r: Vec<char>)
    ensures
        r@ == without_separators(raw@),
{
    let mut r: Vec<char> = Vec::new();
    let mut i: usize = 0;
    while i < raw.len()
        invariant
            i <= raw@.len(),
            r@ == without_separators(raw@.take(i as int)),
        decreases raw@.len() - i,
    {
        proof {
            reveal_with_fuel(Seq::filter, 1);
            assert(raw@.take(i + 1).drop_last() =~= raw@.take(i as int));
        }
        if raw[i] != '_' {
            r.push(raw[i]);
        }
        i = i + 1;
    }
    assert(raw@.take(i as int) =~= raw@);
    r
}

impl AbabaNumber {
    /// The number that a number token's text denotes; `None` where the text
    /// is not a well-formed decimal number.
    #[verifier::rlimit(100)]
    pub fn from_text(raw: &Vec<char>) -> (r: Option<AbabaNumber>)
        ensures
            match r {
                Some(n) => number_of(raw@) == Some(n@) && n@.wf(),
                None => number_of(raw@) is None,
            },
    {
        let t = strip_separators(raw);
        let neg = t.len() > 0 && t[0] == '-';
        let b: usize = if neg {
            1
        } else {
            0
        };
        let ghost body = if neg {
            t@.drop_first()
        } else {
            t@
        };
        assert(body =~= t@.skip(b as int));
        let d_end = run_end(&t, b, Run::Digit);
        proof {
            lemma_run_bound(body, Run::Digit);
        }
        let mut f_start = d_end;
        let mut f_end = d_end;
        if d_end < t.len() {
            if t[d_end] != '.' {
                return None;
            }
            f_start = d_end + 1;
            f_end = run_end(&t, f_start, Run::Digit);
            proof {
                assert(body.skip(d_end - b + 1) =~= t@.skip(f_start as int));
                lemma_run_bound(t@.skip(f_start as int), Run::Digit);
            }
            if f_end < t.len() {
                return None;
            }
        }
        let ghost frac = if d_end < t.len() {
            body.skip(d_end - b + 1)
        } else {
            Seq::empty()
        };
        assert(frac =~= t@.subrange(f_start as int, f_end as int));
        if d_end - b + (f_end - f_start) < 1 {
            return None;
        }
        // the integer part without leading zeros
        let z = run_end(&t, b, Run::Zero);
        let ghost a = body.take(d_end - b);
        proof {
            lemma_run_bound(body, Run::Zero);
            lemma_run_bound(a, Run::Zero);
            assert forall|j: int| b <= j < d_end implies is_digit(#[trigger] t@[j]) by {
                assert(t@[j] == body[j - b]);
            }
            assert forall|j: int| f_start <= j < f_end implies is_digit(#[trigger] t@[j]) by {
                assert(t@[j] == t@.skip(f_start as int)[j - f_start]);
            }
            assert(run_len(a, Run::Zero) == z - b) by {
                assert forall|j: int| 0 <= j < z - b implies (#[trigger] a[j]) == '0' by {
                    assert(a[j] == body[j]);
                }
                if z - b < a.len() {
                    assert(a[z - b] == body[z - b]);
                }
                crate::tokenizer::lemma_run_len(a, Run::Zero, z - b);
            }
        }
        let z = if z > d_end {
            d_end
        } else {
            z
        };
        // the fraction without trailing zeros
        let mut e = f_end;
        while e > f_start && t[e - 1] == '0'
            invariant
                f_start <= e <= f_end <= t@.len(),
                forall|j: int| e <= j < f_end ==> #[trigger] t@[j] == '0',
            decreases e,
        {
            e = e - 1;
        }
        proof {
            lemma_trailing_zeros(frac, e - f_start);
        }
        let int_digits = values_of(&t, z, d_end);
        let frac_digits = values_of(&t, f_start, e);
        let ghost a2 = a.skip(run_len(a, Run::Zero) as int);
        assert(a2 =~= t@.subrange(z as int, d_end as int));
        assert(frac.take(frac.len() - trailing_zeros(frac)) =~= t@.subrange(f_start as int, e as int));
        let negative = neg && (int_digits.len() > 0 || frac_digits.len() > 0);
        let n = AbabaNumber { negative, int_digits, frac_digits };
        proof {
            if n.int_digits@.len() > 0 {
                assert(t@[z as int] != '0');
            }
            if n.frac_digits@.len() > 0 {
                assert(t@[e - 1] != '0');
            }
        }
        Some(n)
    }

    /// The number rounded toward zero, if it lies within `[min, max]`.
    pub fn to_integer(&self, min: i128, max: i128) -> (r: Option<i128>)
        requires
            -(u64::MAX as int) <= min <= 0 <= max <= u64::MAX,
        ensures
            match r {
                Some(x) => self@.within(min as int, max as int) && x == self@.truncated(),
                None => !self@.within(min as int, max as int),
            },
    {
        let m = match magnitude(&self.int_digits) {
            Some(m) => m as i128,
            None => return None,
        };
        let has_fraction = self.frac_digits.len() > 0;
        if self.negative {
            if m < -min || (m == -min && !has_fraction) {
                Some(-m)
            } else {
                None
            }
        } else {
            if m < max || (m == max && !has_fraction) {
                Some(m)
            } else {
                None
            }
        }
    }
}

} // verus!
