//! Compact JSON text of the records that are signed and hashed, written
//! byte for byte as serde_json writes them.

use vstd::prelude::*;
use vstd::string::StringSliceAdditionalSpecFns;

use crate::text::{decimal_text, pow10};

verus! {

/// The escape of one byte inside a JSON string.
pub open spec fn json_escape(b: u8) -> Seq<u8> {
    if b == 34 {
        seq![92u8, 34u8]
    } else if b == 92 {
        seq![92u8, 92u8]
    } else if b == 8 {
        seq![92u8, 98u8]
    } else if b == 12 {
        seq![92u8, 102u8]
    } else if b == 10 {
        seq![92u8, 110u8]
    } else if b == 13 {
        seq![92u8, 114u8]
    } else if b == 9 {
        seq![92u8, 116u8]
    } else if b < 32 {
        seq![92u8, 117u8, 48u8, 48u8, crate::codec::hex_digit_lower(b as int / 16), crate::codec::hex_digit_lower(b as int % 16)]
    } else {
        seq![b]
    }
}

/// The escaped contents of a JSON string.
pub open spec fn json_escaped(s: Seq<u8>) -> Seq<u8>
    decreases s.len(),
{
    if s.len() == 0 {
        Seq::empty()
    } else {
        json_escaped(s.drop_last()) + json_escape(s.last())
    }
}

/// A JSON string: the escaped bytes in double quotes.
pub open spec fn json_string(s: Seq<u8>) -> Seq<u8> {
    seq![34u8] + json_escaped(s) + seq![34u8]
}

/// A JSON number for an unsigned integer.
pub open spec fn json_number(n: nat) -> Seq<u8> {
    decimal_text(n)
}

/// A JSON boolean.
pub open spec fn json_bool(b: bool) -> Seq<u8> {
    if b {
        "true".spec_bytes()
    } else {
        "false".spec_bytes()
    }
}

/// The key of an object member: the quoted name and a colon.
pub open spec fn json_key(name: Seq<u8>) -> Seq<u8> {
    json_string(name) + seq![58u8]
}

/// Appends the escape of one byte.
fn push_escape(out: &mut Vec<u8>, b: u8)
    ensures
        final(out)@ == old(out)@ + json_escape(b),
{
    let ghost start = out@;
    if b == 34 {
        out.push(92);
        out.push(34);
    } else if b == 92 {
        out.push(92);
        out.push(92);
    } else if b == 8 {
        out.push(92);
        out.push(98);
    } else if b == 12 {
        out.push(92);
        out.push(102);
    } else if b == 10 {
        out.push(92);
        out.push(110);
    } else if b == 13 {
        out.push(92);
        out.push(114);
    } else if b == 9 {
        out.push(92);
        out.push(116);
    } else if b < 32 {
        out.push(92);
        out.push(117);
        out.push(48);
        out.push(48);
        let high = b / 16;
        let low = b % 16;
        out.push(if high < 10 { 48 + high } else { 87 + high });
        out.push(if low < 10 { 48 + low } else { 87 + low });
    } else {
        out.push(b);
    }
    assert(out@ =~= start + json_escape(b));
}

/// Appends a JSON string of the bytes of `s`.
pub fn push_json_string(out: &mut Vec<u8>, s: &str)
    ensures
        final(out)@ == old(out)@ + json_string(s.spec_bytes()),
{
    let bytes = s.as_bytes();
    let ghost start = out@;
    out.push(34);
    let mut i: usize = 0;
    assert(bytes@.subrange(0, 0) =~= Seq::<u8>::empty());
    while i < bytes.len()
        invariant
            i <= bytes@.len(),
            out@ == start + seq![34u8] + json_escaped(bytes@.subrange(0, i as int)),
        decreases bytes@.len() - i,
    {
        push_escape(out, bytes[i]);
        assert(bytes@.subrange(0, i + 1).drop_last() =~= bytes@.subrange(0, i as int));
        i = i + 1;
    }
    out.push(34);
    assert(bytes@.subrange(0, bytes@.len() as int) =~= bytes@);
    assert(out@ =~= start + json_string(s.spec_bytes()));
}

/// Appends a JSON number.
pub fn push_json_number(out: &mut Vec<u8>, n: u64)
    ensures
        final(out)@ == old(out)@ + json_number(n as nat),
    decreases n,
{
    if n >= 10 {
        push_json_number(out, n / 10);
    }
    let ghost before = out@;
    out.push(48 + (n % 10) as u8);
    proof {
        if n >= 10 {
            assert(decimal_text(n as nat) == decimal_text((n / 10) as nat).push(crate::text::digit_byte((n % 10) as int)));
        }
        assert(out@ =~= old(out)@ + json_number(n as nat));
    }
}

/// Appends a JSON boolean.
pub fn push_json_bool(out: &mut Vec<u8>, b: bool)
    ensures
        final(out)@ == old(out)@ + json_bool(b),
{
    if b {
        crate::bytes::push_str_bytes(out, "true");
    } else {
        crate::bytes::push_str_bytes(out, "false");
    }
}

/// Appends an object member's key: the quoted name and a colon.
pub fn push_json_key(out: &mut Vec<u8>, name: &str)
    ensures
        final(out)@ == old(out)@ + json_key(name.spec_bytes()),
{
    push_json_string(out, name);
    out.push(58);
    assert(final(out)@ =~= old(out)@ + json_key(name.spec_bytes()));
}


/// Escaping takes at most six bytes per byte.
pub proof fn lemma_escaped_len(s: Seq<u8>)
    ensures
        json_escaped(s).len() <= 6 * s.len(),
    decreases s.len(),
{
    if s.len() > 0 {
        lemma_escaped_len(s.drop_last());
    }
}

/// UTF-8 takes at most four bytes per character.
pub proof fn lemma_utf8_len(c: Seq<char>)
    ensures
        vstd::utf8::encode_utf8(c).len() <= 4 * c.len(),
    decreases c.len(),
{
    if c.len() > 0 {
        lemma_utf8_len(c.drop_first());
    }
}

/// A JSON string of text takes at most 24 bytes per character and its quotes.
pub proof fn lemma_text_string_len(c: Seq<char>)
    ensures
        json_string(vstd::utf8::encode_utf8(c)).len() <= 24 * c.len() + 2,
{
    lemma_utf8_len(c);
    lemma_escaped_len(vstd::utf8::encode_utf8(c));
}

/// A JSON string of bytes takes at most six bytes per byte and its quotes.
pub proof fn lemma_string_len(s: Seq<u8>)
    ensures
        json_string(s).len() <= 6 * s.len() + 2,
{
    lemma_escaped_len(s);
}

/// Decimal text of a number below `10^k` has at most `k` digits.
pub proof fn lemma_decimal_len(n: nat, k: nat)
    requires
        1 <= k,
        n < pow10(k),
    ensures
        decimal_text(n).len() <= k,
    decreases n,
{
    if n >= 10 {
        let j = (k - 1) as nat;
        assert(pow10(k) == 10 * pow10(j));
        if j == 0 {
            assert(pow10(0) == 1);
        } else {
            let p = pow10(j);
            assert(n / 10 < p) by (nonlinear_arith)
                requires
                    n < 10 * p,
                    n >= 10,
            ;
            lemma_decimal_len(n / 10, j);
        }
    }
}

/// A JSON number of a 64-bit value has at most 20 digits.
pub proof fn lemma_number_len(n: u64)
    ensures
        json_number(n as nat).len() <= 20,
{
    assert(pow10(20) == 100_000_000_000_000_000_000nat) by {
        reveal_with_fuel(pow10, 21);
    }
    lemma_decimal_len(n as nat, 20);
}
} // verus!
