use vstd::prelude::*;
use vstd::string::StringSliceAdditionalSpecFns;

use crate::text::{
    all_digits, all_digits_in, ascii_chars, decimal_text, digits_value, digits_value_in, find_byte,
    find_byte_in, lemma_digits_value_bound, lemma_find_byte_bounds, lemma_pow10_positive,
    padded_text, pow10, push_char, push_decimal, push_padded, is_ascii_bytes, is_ascii_digit,
    lemma_decimal_text, lemma_encode_ascii, lemma_find_byte, lemma_padded_text,
};

verus! {

/// Atomic units in one SMD.
pub const ATOMIC_UNITS_PER_SMD: u64 = 100_000_000;

/// Why an amount operation or amount text was refused.
#[derive(Debug, Clone, Copy, PartialEq, Eq, Structural)]
pub enum AmountError {
    /// The result does not fit in 64 bits of atomic units.
    Overflow,
    /// A subtraction would go below zero.
    InsufficientBalance,
    /// The text is not a non-negative decimal number.
    Invalid,
    /// The fractional part is empty, not decimal, or longer than eight digits.
    TooManyDecimals,
}

/// An SMD amount counted in atomic units (1 SMD = 10^8 atomic units).
#[derive(Debug, Clone, Copy, Default, PartialEq, Eq, PartialOrd, Ord, Structural)]
pub struct Amount(u64);

impl Amount {
    /// The zero amount.
    pub fn zero() -> (amount: Amount)
        ensures
            amount.atomic_spec() == 0,
    {
        Amount(0)
    }

    pub fn from_atomic(atomic: u64) -> (amount: Amount)
        ensures
            amount.atomic_spec() == atomic,
    {
        Amount(atomic)
    }

    /// The number of atomic units this amount holds.
    pub closed spec fn atomic_spec(self) -> u64 {
        self.0
    }

    /// The amount of `atomic` atomic units.
    pub closed spec fn from_atomic_spec(atomic: u64) -> Amount {
        Amount(atomic)
    }

    /// An amount is the amount of its atomic units.
    pub broadcast proof fn lemma_from_atomic(atomic: u64)
        ensures
            #[trigger] Amount::from_atomic_spec(atomic).atomic_spec() == atomic,
    {
    }

    /// Two amounts with the same atomic count are the same amount.
    pub broadcast proof fn lemma_atomic_determines(a: Amount, b: Amount)
        ensures
            #[trigger] a.atomic_spec() == #[trigger] b.atomic_spec() <==> a == b,
    {
    }

    #[verifier::when_used_as_spec(atomic_spec)]
    pub fn atomic(self) -> (value: u64)
        ensures
            value == self.atomic_spec(),
    {
        self.0
    }

    pub fn checked_add(self, other: Amount) -> (sum: Result<Amount, AmountError>)
        ensures
            sum is Ok <==> self.atomic() + other.atomic() <= u64::MAX,
            sum matches Ok(total) ==> total.atomic() == self.atomic() + other.atomic(),
            sum matches Err(error) ==> error == AmountError::Overflow,
    {
        match self.0.checked_add(other.0) {
            Some(value) => Ok(Amount(value)),
            None => Err(AmountError::Overflow),
        }
    }

    pub fn checked_sub(self, other: Amount) -> (difference: Result<Amount, AmountError>)
        ensures
            difference is Ok <==> other.atomic() <= self.atomic(),
            difference matches Ok(rest) ==> rest.atomic() == self.atomic() - other.atomic(),
            difference matches Err(error) ==> error == AmountError::InsufficientBalance,
    {
        match self.0.checked_sub(other.0) {
            Some(value) => Ok(Amount(value)),
            None => Err(AmountError::InsufficientBalance),
        }
    }
}

/// The canonical text of an amount of `n` atomic units: whole SMD, a dot,
/// and exactly eight fractional digits.
pub open spec fn amount_text(n: nat) -> Seq<u8> {
    decimal_text(n / 100_000_000) + seq![46u8] + padded_text(n % 100_000_000, 8)
}

/// What parsing the text `s` gives: the atomic units it denotes, or why it is refused.
/// The text is a run of decimal digits, optionally followed by a dot and one
/// to eight further digits; leading zeros are allowed.
pub open spec fn parse_amount_text(s: Seq<u8>) -> Result<u64, AmountError> {
    let d = find_byte(s, 46);
    let whole = s.subrange(0, d);
    let has_fraction = d < s.len();
    let fraction = s.subrange(d + 1, s.len() as int);
    if s.len() == 0 || s[0] == 45 || s[0] == 43 {
        Err(AmountError::Invalid)
    } else if (has_fraction && find_byte(fraction, 46) < fraction.len()) || whole.len() == 0
        || !all_digits(whole) {
        Err(AmountError::Invalid)
    } else if digits_value(whole) * 100_000_000 > u64::MAX {
        Err(AmountError::Overflow)
    } else if has_fraction && (fraction.len() == 0 || fraction.len() > 8 || !all_digits(
        fraction,
    )) {
        Err(AmountError::TooManyDecimals)
    } else {
        let fractional = if has_fraction {
            digits_value(fraction) * pow10((8 - fraction.len()) as nat)
        } else {
            0
        };
        let total = digits_value(whole) * 100_000_000 + fractional;
        if total > u64::MAX {
            Err(AmountError::Overflow)
        } else {
            Ok(total as u64)
        }
    }
}

fn pow10_u64(k: u64) -> (p: u64)
    requires
        k <= 8,
    ensures
        p == pow10(k as nat),
        p <= 100_000_000,
{
    let mut p: u64 = 1;
    let mut i: u64 = 0;
    proof {
        reveal_with_fuel(pow10, 9);
    }
    while i < k
        invariant
            i <= k <= 8,
            p == pow10(i as nat),
            p <= pow10(i as nat),
            p * pow10((8 - i) as nat) == 100_000_000,
        decreases k - i,
    {
        assert(pow10((8 - i) as nat) == 10 * pow10((8 - i - 1) as nat));
        assert(pow10((i + 1) as nat) == 10 * pow10(i as nat));
        proof {
            lemma_pow10_positive((8 - i - 1) as nat);
        }
        assert(p * 10 <= 100_000_000) by (nonlinear_arith)
            requires
                p * (10 * pow10((8 - i - 1) as nat)) == 100_000_000,
                pow10((8 - i - 1) as nat) >= 1,
        ;
        assert((p * 10) * pow10((8 - i - 1) as nat) == 100_000_000) by (nonlinear_arith)
            requires
                p * (10 * pow10((8 - i - 1) as nat)) == 100_000_000,
        ;
        p = p * 10;
        i = i + 1;
    }
    assert(pow10(0) == 1);
    proof {
        lemma_pow10_positive((8 - k) as nat);
    }
    assert(p <= 100_000_000) by (nonlinear_arith)
        requires
            p * pow10((8 - k) as nat) == 100_000_000,
            pow10((8 - k) as nat) >= 1,
    ;
    p
}

impl Amount {
    /// The amount as text: whole SMD, a dot, and exactly eight fractional digits
    /// (for example `"12.84000000"`).
    pub fn to_decimal_string(&self) -> (text: String)
        ensures
            text@ == ascii_chars(amount_text(self.atomic() as nat)),
    {
        let mut text = String::new();
        push_decimal(&mut text, self.0 / ATOMIC_UNITS_PER_SMD);
        push_char(&mut text, '.');
        push_padded(&mut text, self.0 % ATOMIC_UNITS_PER_SMD, 8);
        proof {
            let n = self.0 as nat;
            assert(ascii_chars(amount_text(n)) =~= ascii_chars(decimal_text(n / 100_000_000))
                + seq!['.'] + ascii_chars(padded_text(n % 100_000_000, 8)));
        }
        text
    }

    /// Parses decimal SMD text with at most eight fractional digits, exactly
    /// and without floating point.
    pub fn parse_text(input: &str) -> (amount: Result<Amount, AmountError>)
        ensures
            amount matches Ok(a) ==> parse_amount_text(input.spec_bytes()) == Ok::<
                u64,
                AmountError,
            >(a.atomic()),
            amount matches Err(e) ==> parse_amount_text(input.spec_bytes()) == Err::<
                u64,
                AmountError,
            >(e),
    {
        let bytes = input.as_bytes();
        let ghost s = bytes@;
        let n = bytes.len();
        if n == 0 || bytes[0] == 45 || bytes[0] == 43 {
            return Err(AmountError::Invalid);
        }
        let d = find_byte_in(bytes, 0, n, 46);
        assert(s.subrange(0, n as int) =~= s);
        proof {
            lemma_find_byte_bounds(s, 46);
        }
        if d < n {
            let second = find_byte_in(bytes, d + 1, n, 46);
            if second < n - d - 1 {
                return Err(AmountError::Invalid);
            }
        }
        if d == 0 || !all_digits_in(bytes, 0, d) {
            return Err(AmountError::Invalid);
        }
        let ghost whole = s.subrange(0, d as int);
        let whole_value = match digits_value_in(bytes, 0, d) {
            Some(v) => v,
            None => {
                return Err(AmountError::Overflow);
            },
        };
        let whole_atomic = match whole_value.checked_mul(ATOMIC_UNITS_PER_SMD) {
            Some(v) => v,
            None => {
                return Err(AmountError::Overflow);
            },
        };
        let mut fractional: u64 = 0;
        if d < n {
            let len = n - d - 1;
            if len == 0 || len > 8 || !all_digits_in(bytes, d + 1, n) {
                return Err(AmountError::TooManyDecimals);
            }
            let ghost fraction = s.subrange(d + 1, n as int);
            proof {
                lemma_digits_value_bound(fraction);
                lemma_pow10_positive((8 - len) as nat);
                reveal_with_fuel(pow10, 9);
                lemma_pow10_add(len as nat, (8 - len) as nat);
                assert(pow10(len as nat) <= 100_000_000) by (nonlinear_arith)
                    requires
                        pow10(len as nat) * pow10((8 - len) as nat) == 100_000_000,
                        pow10((8 - len) as nat) >= 1,
                ;
            }
            let f = match digits_value_in(bytes, d + 1, n) {
                Some(v) => v,
                None => {
                    return Err(AmountError::Overflow);
                },
            };
            let scale = pow10_u64(8 - len as u64);
            proof {
                lemma_pow10_positive((8 - len) as nat);
                reveal_with_fuel(pow10, 9);
                assert(pow10(8) == 100_000_000);
                assert(pow10(len as nat) * pow10((8 - len) as nat) == pow10(8)) by {
                    lemma_pow10_add(len as nat, (8 - len) as nat);
                }
                assert(f * scale < 100_000_000) by (nonlinear_arith)
                    requires
                        f < pow10(len as nat),
                        scale == pow10((8 - len) as nat),
                        scale >= 1,
                        pow10(len as nat) * pow10((8 - len) as nat) == 100_000_000,
                ;
            }
            fractional = f * scale;
        }
        match whole_atomic.checked_add(fractional) {
            Some(total) => Ok(Amount(total)),
            None => Err(AmountError::Overflow),
        }
    }
}

/// Well-formed amount text: one or more digits `w`, then, when `dotted`, a
/// dot and one to eight digits `f`, and nothing else.
pub open spec fn amount_form(s: Seq<u8>, w: Seq<u8>, f: Seq<u8>, dotted: bool) -> bool {
    &&& w.len() >= 1
    &&& all_digits(w)
    &&& if dotted {
        &&& 1 <= f.len() <= 8
        &&& all_digits(f)
        &&& s == w + seq![46u8] + f
    } else {
        &&& f.len() == 0
        &&& s == w
    }
}

/// The atomic units that amount text `w.f` denotes.
pub open spec fn amount_value(w: Seq<u8>, f: Seq<u8>) -> int {
    (digits_value(w) * 100_000_000 + digits_value(f) * pow10((8 - f.len()) as nat)) as int
}

/// Amount text is accepted exactly when it has the form `w` or `w.f` (one or
/// more digits, then a dot and one to eight digits) and its value fits in 64
/// bits; it then denotes that value. Every accepted text has that form.
pub proof fn law_amount_text(s: Seq<u8>, w: Seq<u8>, f: Seq<u8>, dotted: bool)
    ensures
        amount_form(s, w, f, dotted) ==> (parse_amount_text(s) is Ok <==> amount_value(w, f) <= u64::MAX),
        amount_form(s, w, f, dotted) && amount_value(w, f) <= u64::MAX ==> parse_amount_text(s)
            == Ok::<u64, AmountError>(amount_value(w, f) as u64),
        parse_amount_text(s) is Ok ==> exists|w2: Seq<u8>, f2: Seq<u8>, d2: bool| amount_form(s, w2, f2, d2),
{
    if amount_form(s, w, f, dotted) {
        assert forall|j: int| 0 <= j < w.len() implies s[j] != 46u8 by {
            assert(s[j] == w[j]);
            assert(is_ascii_digit(w[j]));
        }
        assert forall|j: int| 0 <= j < f.len() implies f[j] != 46u8 by {
            assert(is_ascii_digit(f[j]));
        }
        assert(s[0] == w[0] && is_ascii_digit(w[0]));
        if dotted {
            assert(s[w.len() as int] == 46u8);
            lemma_find_byte(s, 46, w.len() as int);
            assert(s.subrange(0, w.len() as int) =~= w);
            assert(s.subrange(w.len() as int + 1, s.len() as int) =~= f);
            lemma_find_byte(f, 46, f.len() as int);
        } else {
            lemma_find_byte(s, 46, s.len() as int);
            assert(s.subrange(0, s.len() as int) =~= w);
            assert(digits_value(f) == 0) by {
                assert(f =~= Seq::<u8>::empty());
            }
        }
        assert(pow10(0) == 1);
        assert(digits_value(f) * pow10((8 - f.len()) as nat) >= 0) by (nonlinear_arith);
    }
    if parse_amount_text(s) is Ok {
        lemma_find_byte_bounds(s, 46);
        let d = find_byte(s, 46);
        let whole = s.subrange(0, d);
        let fraction = s.subrange(d + 1, s.len() as int);
        if d < s.len() {
            assert(s =~= whole + seq![46u8] + fraction);
            assert(amount_form(s, whole, fraction, true));
        } else {
            assert(s =~= whole);
            assert(amount_form(s, whole, Seq::<u8>::empty(), false));
        }
    }
}

/// Formatting an amount and parsing the text again gives back the same amount.
pub proof fn law_text_round_trip(a: Amount)
    ensures
        parse_amount_text(vstd::utf8::encode_utf8(ascii_chars(amount_text(a.atomic() as nat))))
            == Ok::<u64, AmountError>(a.atomic()),
{
    let n = a.atomic() as nat;
    let w = n / 100_000_000;
    let f = n % 100_000_000;
    let wt = decimal_text(w);
    let ft = padded_text(f, 8);
    let t = amount_text(n);
    lemma_decimal_text(w);
    lemma_padded_text(f, 8);
    assert(t =~= wt + seq![46u8] + ft);
    assert forall|i: int| 0 <= i < t.len() implies #[trigger] t[i] < 128 by {
        if i < wt.len() {
            assert(t[i] == wt[i]);
            assert(is_ascii_digit(wt[i]));
        } else if i > wt.len() {
            assert(t[i] == ft[i - wt.len() - 1]);
            assert(is_ascii_digit(ft[i - wt.len() - 1]));
        }
    }
    assert(is_ascii_bytes(t));
    lemma_encode_ascii(t);
    assert forall|j: int| 0 <= j < wt.len() implies t[j] != 46 by {
        assert(t[j] == wt[j]);
        assert(is_ascii_digit(wt[j]));
    }
    lemma_find_byte(t, 46, wt.len() as int);
    assert(t.subrange(0, wt.len() as int) =~= wt);
    assert(t.subrange(wt.len() as int + 1, t.len() as int) =~= ft);
    assert forall|j: int| 0 <= j < 8 implies ft[j] != 46 by {
        assert(is_ascii_digit(ft[j]));
    }
    lemma_find_byte(ft, 46, 8);
    reveal_with_fuel(pow10, 9);
    assert(pow10(8) == 100_000_000);
    assert(pow10(0) == 1);
    assert(w * 100_000_000 + f == n);
    assert(t[0] == wt[0]);
    assert(is_ascii_digit(wt[0]));
    let d = find_byte(t, 46);
    assert(d == wt.len());
    assert(d < t.len());
    let whole = t.subrange(0, d);
    let fraction = t.subrange(d + 1, t.len() as int);
    assert(whole == wt);
    assert(fraction == ft);
    assert(digits_value(whole) == w);
    assert(digits_value(fraction) == f);
    assert(w * 100_000_000 <= n);
    assert(fraction.len() == 8);
    let z = (8 - fraction.len()) as nat;
    assert(z == 0);
    assert(pow10(z) == 1);
    assert(digits_value(fraction) * pow10(z) == f) by (nonlinear_arith)
        requires
            pow10(z) == 1,
            digits_value(fraction) == f,
    ;
}

pub proof fn lemma_pow10_add(a: nat, b: nat)
    ensures
        pow10(a) * pow10(b) == pow10(a + b),
    decreases a,
{
    if a > 0 {
        lemma_pow10_add((a - 1) as nat, b);
        assert(pow10(a + b) == 10 * pow10((a + b - 1) as nat));
        assert((a - 1) as nat + b == (a + b - 1) as nat);
        assert(pow10(a) * pow10(b) == 10 * (pow10((a - 1) as nat) * pow10(b))) by (nonlinear_arith)
            requires
                pow10(a) == 10 * pow10((a - 1) as nat),
        ;
        assert(pow10(a) * pow10(b) == 10 * pow10((a + b - 1) as nat));
    } else {
        assert(pow10(0) == 1);
        assert(a + b == b);
    }
}

impl core::str::FromStr for Amount {
    type Err = AmountError;

    fn from_str(value: &str) -> (amount: Result<Amount, AmountError>)
        ensures
            amount matches Ok(a) ==> parse_amount_text(value.spec_bytes()) == Ok::<u64, AmountError>(a.atomic()),
            amount matches Err(e) ==> parse_amount_text(value.spec_bytes()) == Err::<u64, AmountError>(e),
    {
        Amount::parse_text(value)
    }
}

} // verus!
