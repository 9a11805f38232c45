use vstd::prelude::*;

verus! {

/// ASCII code of `'0'`.
pub open spec fn digit_byte(d: int) -> u8 {
    (48 + d) as u8
}

pub open spec fn is_ascii_digit(b: u8) -> bool {
    48 <= b && b <= 57
}

pub open spec fn all_digits(s: Seq<u8>) -> bool {
    forall|i: int| 0 <= i < s.len() ==> is_ascii_digit(#[trigger] s[i])
}

/// The value of a string of decimal digits, most significant first.
pub open spec fn digits_value(s: Seq<u8>) -> nat
    decreases s.len(),
{
    if s.len() == 0 {
        0
    } else {
        digits_value(s.drop_last()) * 10 + (s.last() - 48) as nat
    }
}

pub open spec fn pow10(k: nat) -> nat
    decreases k,
{
    if k == 0 {
        1
    } else {
        10 * pow10((k - 1) as nat)
    }
}

/// Shortest decimal text of `n` (no leading zeros; `0` is `"0"`).
pub open spec fn decimal_text(n: nat) -> Seq<u8>
    decreases n,
{
    if n < 10 {
        seq![digit_byte(n as int)]
    } else {
        decimal_text(n / 10).push(digit_byte((n % 10) as int))
    }
}

/// The last `width` decimal digits of `n`, zero padded.
pub open spec fn padded_text(n: nat, width: nat) -> Seq<u8>
    decreases width,
{
    if width == 0 {
        seq![]
    } else {
        padded_text(n / 10, (width - 1) as nat).push(digit_byte((n % 10) as int))
    }
}

/// The characters of ASCII bytes.
pub open spec fn ascii_chars(b: Seq<u8>) -> Seq<char> {
    b.map_values(|x: u8| x as char)
}

/// Index of the first occurrence of `b` in `s`, or `s.len()` when there is none.
pub open spec fn find_byte(s: Seq<u8>, b: u8) -> int
    decreases s.len(),
{
    if s.len() == 0 {
        0
    } else if s[0] == b {
        0
    } else {
        1 + find_byte(s.drop_first(), b)
    }
}

pub proof fn lemma_find_byte(s: Seq<u8>, b: u8, i: int)
    requires
        0 <= i <= s.len(),
        forall|j: int| 0 <= j < i ==> s[j] != b,
        i == s.len() || s[i] == b,
    ensures
        find_byte(s, b) == i,
    decreases s.len(),
{
    if s.len() > 0 && i > 0 {
        assert forall|j: int| 0 <= j < i - 1 implies s.drop_first()[j] != b by {
            assert(s.drop_first()[j] == s[j + 1]);
        }
        lemma_find_byte(s.drop_first(), b, i - 1);
    }
}

pub proof fn lemma_find_byte_bounds(s: Seq<u8>, b: u8)
    ensures
        0 <= find_byte(s, b) <= s.len(),
        find_byte(s, b) < s.len() ==> s[find_byte(s, b)] == b,
        forall|j: int| 0 <= j < find_byte(s, b) ==> s[j] != b,
    decreases s.len(),
{
    if s.len() > 0 && s[0] != b {
        lemma_find_byte_bounds(s.drop_first(), b);
        assert forall|j: int| 0 <= j < find_byte(s, b) implies s[j] != b by {
            if j > 0 {
                assert(s[j] == s.drop_first()[j - 1]);
            }
        }
    }
}

pub proof fn lemma_digits_value_bound(s: Seq<u8>)
    requires
        all_digits(s),
    ensures
        digits_value(s) < pow10(s.len()),
    decreases s.len(),
{
    if s.len() > 0 {
        let p = s.drop_last();
        assert(all_digits(p)) by {
            assert forall|i: int| 0 <= i < p.len() implies is_ascii_digit(#[trigger] p[i]) by {
                assert(p[i] == s[i]);
            }
        }
        lemma_digits_value_bound(p);
        assert(is_ascii_digit(s[s.len() - 1]));
        let d = (s.last() - 48) as nat;
        let v = digits_value(p);
        let q = pow10(p.len());
        assert(v * 10 + d < q * 10) by (nonlinear_arith)
            requires
                v < q,
                d < 10,
        ;
    }
}

pub proof fn lemma_digits_prefix_le(s: Seq<u8>, k: int)
    requires
        all_digits(s),
        0 <= k <= s.len(),
    ensures
        digits_value(s.subrange(0, k)) <= digits_value(s),
    decreases s.len() - k,
{
    if k < s.len() {
        lemma_digits_prefix_le(s, k + 1);
        let t = s.subrange(0, k + 1);
        assert(t.drop_last() =~= s.subrange(0, k));
        assert(is_ascii_digit(s[k]));
    } else {
        assert(s.subrange(0, k) =~= s);
    }
}

pub proof fn lemma_decimal_text(n: nat)
    ensures
        all_digits(decimal_text(n)),
        decimal_text(n).len() >= 1,
        digits_value(decimal_text(n)) == n,
    decreases n,
{
    if n < 10 {
        let t = decimal_text(n);
        assert(t.drop_last() =~= Seq::<u8>::empty());
        assert(t.last() == digit_byte(n as int));
        assert(digits_value(t) == digits_value(t.drop_last()) * 10 + (t.last() - 48) as nat);
        assert(digits_value(Seq::<u8>::empty()) == 0);
    }
    if n >= 10 {
        lemma_decimal_text(n / 10);
        let t = decimal_text(n);
        assert(t.drop_last() =~= decimal_text(n / 10));
        assert(t.last() == digit_byte((n % 10) as int));
        assert((t.last() - 48) as nat == n % 10);
        assert(digits_value(t) == digits_value(t.drop_last()) * 10 + (t.last() - 48) as nat);
        assert(digits_value(t) == (n / 10) * 10 + n % 10);
        assert forall|i: int| 0 <= i < t.len() implies is_ascii_digit(#[trigger] t[i]) by {
            if i < t.len() - 1 {
                assert(t[i] == decimal_text(n / 10)[i]);
            }
        }
    }
}

pub proof fn lemma_padded_text(n: nat, width: nat)
    ensures
        all_digits(padded_text(n, width)),
        padded_text(n, width).len() == width,
        digits_value(padded_text(n, width)) == n % pow10(width),
    decreases width,
{
    if width > 0 {
        let w1 = (width - 1) as nat;
        lemma_padded_text(n / 10, w1);
        let t = padded_text(n, width);
        assert(t.drop_last() =~= padded_text(n / 10, w1));
        assert forall|i: int| 0 <= i < t.len() implies is_ascii_digit(#[trigger] t[i]) by {
            if i < t.len() - 1 {
                assert(t[i] == padded_text(n / 10, w1)[i]);
            }
        }
        let p = pow10(w1);
        assert(p > 0) by {
            lemma_pow10_positive(w1);
        }
        vstd::arithmetic::div_mod::lemma_mod_breakdown(n as int, 10, p as int);
        assert(((n / 10) % p) * 10 + n % 10 == n % (10 * p)) by (nonlinear_arith)
            requires
                (n as int) % (10 * (p as int)) == 10 * (((n as int) / 10) % (p as int)) + (n as int) % 10,
                p > 0,
        ;
    }
}

pub proof fn lemma_pow10_positive(k: nat)
    ensures
        pow10(k) >= 1,
    decreases k,
{
    if k > 0 {
        lemma_pow10_positive((k - 1) as nat);
    }
}

pub open spec fn is_ascii_bytes(b: Seq<u8>) -> bool {
    forall|i: int| 0 <= i < b.len() ==> #[trigger] b[i] < 128
}

/// The UTF-8 encoding of ASCII characters is their bytes.
pub proof fn lemma_encode_ascii(b: Seq<u8>)
    requires
        is_ascii_bytes(b),
    ensures
        vstd::utf8::encode_utf8(ascii_chars(b)) == b,
    decreases b.len(),
{
    if b.len() > 0 {
        let c = ascii_chars(b);
        let rest = b.drop_first();
        assert(c.drop_first() =~= ascii_chars(rest));
        assert(is_ascii_bytes(rest)) by {
            assert forall|i: int| 0 <= i < rest.len() implies #[trigger] rest[i] < 128 by {
                assert(rest[i] == b[i + 1]);
            }
        }
        lemma_encode_ascii(rest);
        let x = b[0];
        assert(x < 128);
        let u = (x as char) as u32;
        assert(u == x as u32);
        assert(u & 0x7f == u) by (bit_vector)
            requires
                u < 128,
        ;
        assert(vstd::utf8::encode_scalar(u) =~= seq![x]);
        assert(b =~= seq![x] + rest);
    }
}

/// `String::push`: appends one character.
#[verifier::external_body]
pub(crate) fn push_char(text: &mut String, c: char)
    ensures
        final(text)@ == old(text)@.push(c),
{
    text.push(c);
}

/// Appends the shortest decimal text of `n`.
pub fn push_decimal(text: &mut String, n: u64)
    ensures
        final(text)@ == old(text)@ + ascii_chars(decimal_text(n as nat)),
    decreases n,
{
    if n >= 10 {
        push_decimal(text, n / 10);
    }
    let digit = (48 + (n % 10) as u8) as char;
    push_char(text, digit);
    proof {
        let t = decimal_text(n as nat);
        if n >= 10 {
            assert(ascii_chars(t) =~= ascii_chars(decimal_text((n / 10) as nat)).push(digit));
        } else {
            assert(ascii_chars(t) =~= seq![digit]);
        }
    }
}

/// Appends the last `width` decimal digits of `n`, zero padded.
pub fn push_padded(text: &mut String, n: u64, width: u32)
    ensures
        final(text)@ == old(text)@ + ascii_chars(padded_text(n as nat, width as nat)),
    decreases width,
{
    if width > 0 {
        push_padded(text, n / 10, width - 1);
        let digit = (48 + (n % 10) as u8) as char;
        push_char(text, digit);
        assert(ascii_chars(padded_text(n as nat, width as nat)) =~= ascii_chars(
            padded_text((n / 10) as nat, (width - 1) as nat),
        ).push(digit));
    } else {
        assert(ascii_chars(padded_text(n as nat, width as nat)) =~= Seq::<char>::empty());
    }
}

/// Index of the first `needle` in `bytes[start..end]`, relative to `start`,
/// or `end - start` when there is none.
pub fn find_byte_in(bytes: &[u8], start: usize, end: usize, needle: u8) -> (index: usize)
    requires
        start <= end <= bytes@.len(),
    ensures
        index == find_byte(bytes@.subrange(start as int, end as int), needle),
        index <= end - start,
{
    let ghost s = bytes@.subrange(start as int, end as int);
    let mut i = start;
    while i < end && bytes[i] != needle
        invariant
            start <= i <= end <= bytes@.len(),
            s == bytes@.subrange(start as int, end as int),
            forall|j: int| 0 <= j < i - start ==> s[j] != needle,
        decreases end - i,
    {
        i = i + 1;
    }
    proof {
        lemma_find_byte(s, needle, (i - start) as int);
    }
    i - start
}

/// Whether every byte of `bytes[start..end]` is an ASCII digit.
pub fn all_digits_in(bytes: &[u8], start: usize, end: usize) -> (ok: bool)
    requires
        start <= end <= bytes@.len(),
    ensures
        ok == all_digits(bytes@.subrange(start as int, end as int)),
{
    let ghost s = bytes@.subrange(start as int, end as int);
    let mut i = start;
    while i < end
        invariant
            start <= i <= end <= bytes@.len(),
            s == bytes@.subrange(start as int, end as int),
            forall|j: int| 0 <= j < i - start ==> is_ascii_digit(#[trigger] s[j]),
        decreases end - i,
    {
        if bytes[i] < 48 || bytes[i] > 57 {
            assert(!is_ascii_digit(s[i - start]));
            return false;
        }
        i = i + 1;
    }
    true
}

/// The value of the decimal digits `bytes[start..end]`, or `None` when it
/// exceeds `u64::MAX`.
pub fn digits_value_in(bytes: &[u8], start: usize, end: usize) -> (value: Option<u64>)
    requires
        start <= end <= bytes@.len(),
        all_digits(bytes@.subrange(start as int, end as int)),
    ensures
        value is Some <==> digits_value(bytes@.subrange(start as int, end as int)) <= u64::MAX,
        value matches Some(v) ==> v == digits_value(bytes@.subrange(start as int, end as int)),
{
    let ghost s = bytes@.subrange(start as int, end as int);
    let mut v: u64 = 0;
    let mut i = start;
    assert(s.subrange(0, 0) =~= Seq::<u8>::empty());
    while i < end
        invariant
            start <= i <= end <= bytes@.len(),
            s == bytes@.subrange(start as int, end as int),
            all_digits(s),
            v == digits_value(s.subrange(0, (i - start) as int)),
        decreases end - i,
    {
        let ghost k = (i - start) as int;
        assert(s.subrange(0, k + 1).drop_last() =~= s.subrange(0, k));
        assert(s[k] == bytes@[i as int]);
        assert(is_ascii_digit(s[k]));
        let d = (bytes[i] - 48) as u64;
        match v.checked_mul(10) {
            Some(m) => match m.checked_add(d) {
                Some(next) => {
                    v = next;
                },
                None => {
                    proof {
                        lemma_digits_prefix_le(s, k + 1);
                    }
                    return None;
                },
            },
            None => {
                proof {
                    lemma_digits_prefix_le(s, k + 1);
                }
                return None;
            },
        }
        i = i + 1;
    }
    assert(s.subrange(0, (end - start) as int) =~= s);
    Some(v)
}


/// The text of bytes below 128.
pub fn ascii_string(bytes: &[u8]) -> (text: String)
    requires
        forall|i: int| 0 <= i < bytes@.len() ==> bytes@[i] < 128,
    ensures
        text@ == ascii_chars(bytes@),
{
    let mut text = String::new();
    let mut i: usize = 0;
    while i < bytes.len()
        invariant
            i <= bytes@.len(),
            forall|j: int| 0 <= j < bytes@.len() ==> bytes@[j] < 128,
            text@ == ascii_chars(bytes@.subrange(0, i as int)),
        decreases bytes@.len() - i,
    {
        let c = bytes[i] as char;
        push_char(&mut text, c);
        assert(ascii_chars(bytes@.subrange(0, i + 1)) =~= ascii_chars(
            bytes@.subrange(0, i as int),
        ).push(c));
        i = i + 1;
    }
    assert(bytes@.subrange(0, bytes@.len() as int) =~= bytes@);
    text
}

} // verus!
