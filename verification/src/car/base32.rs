//! RFC 4648 base32 (lowercase alphabet) decoding and the multibase `b` prefix.
use vstd::prelude::*;
use crate::car::error::{CarError, CarFault};

verus! {

/// The 5-bit value of a lowercase base32 symbol.
pub open spec fn base32_symbol_value(c: char) -> Option<u8> {
    if 'a' <= c && c <= 'z' {
        Some((c as u32 - 'a' as u32) as u8)
    } else if '2' <= c && c <= '7' {
        Some((26 + (c as u32 - '2' as u32)) as u8)
    } else {
        None
    }
}

/// The symbol values of an input, with `=` padding skipped; `None` when some
/// other character is outside the alphabet.
pub open spec fn base32_symbols(s: Seq<char>) -> Option<Seq<u8>>
    decreases s.len(),
{
    if s.len() == 0 {
        Some(Seq::empty())
    } else {
        match base32_symbols(s.drop_last()) {
            None => None,
            Some(vals) => if s.last() == '=' {
                Some(vals)
            } else {
                match base32_symbol_value(s.last()) {
                    Some(v) => Some(vals.push(v)),
                    None => None,
                }
            },
        }
    }
}

/// The first character of `s` that is neither `=` nor a base32 symbol.
pub open spec fn first_bad_symbol(s: Seq<char>) -> Option<char>
    decreases s.len(),
{
    if s.len() == 0 {
        None
    } else if s[0] == '=' || base32_symbol_value(s[0]) is Some {
        first_bad_symbol(s.drop_first())
    } else {
        Some(s[0])
    }
}

/// The number whose big-endian base-32 digits are `vals`.
pub open spec fn base32_number(vals: Seq<u8>) -> nat
    decreases vals.len(),
{
    if vals.len() == 0 {
        0
    } else {
        base32_number(vals.drop_last()) * 32 + vals.last() as nat
    }
}

/// The whole bytes held by the bit string of `vals` (5 bits per symbol, most
/// significant first); trailing bits that do not fill a byte are left out.
pub open spec fn base32_bytes(vals: Seq<u8>) -> Seq<u8> {
    let total = 5 * vals.len();
    Seq::new(
        total / 8,
        |k: int| ((base32_number(vals) / vstd::arithmetic::power2::pow2((total - 8 * k - 8) as nat)) % 256) as u8,
    )
}

/// The trailing bits that do not fill a byte are all zero.
pub open spec fn base32_padding_ok(vals: Seq<u8>) -> bool {
    base32_number(vals) % vstd::arithmetic::power2::pow2(((5 * vals.len()) % 8) as nat) == 0
}

/// What decoding `s` yields: the bytes of its bit string, or an error when a
/// character is outside the alphabet or the leftover bits are not zero.
pub open spec fn spec_decode_base32(s: Seq<char>) -> Result<Seq<u8>, CarFault> {
    match base32_symbols(s) {
        None => Err(CarFault::HeaderMsg("Invalid base32 character: "@ + seq![
            crate::text::utf8_lead_byte(first_bad_symbol(s)->Some_0) as char,
        ])),
        Some(vals) => if base32_padding_ok(vals) {
            Ok(base32_bytes(vals))
        } else {
            Err(CarFault::HeaderMsg("Invalid base32 padding"@))
        },
    }
}

proof fn lemma_symbols_prefix_none(s: Seq<char>, k: int)
    requires
        0 <= k <= s.len(),
        base32_symbols(s.take(k)) is None,
    ensures
        base32_symbols(s) is None,
    decreases s.len() - k,
{
    if k < s.len() {
        assert(s.take(k + 1).drop_last() =~= s.take(k));
        lemma_symbols_prefix_none(s, k + 1);
    } else {
        assert(s.take(k) =~= s);
    }
}

proof fn lemma_shift_in(a: nat, v: nat, b: nat)
    requires
        v < 32,
    ensures
        ((a % vstd::arithmetic::power2::pow2(b)) * 32 + v) == (a * 32 + v) % vstd::arithmetic::power2::pow2(b + 5),
        (a % vstd::arithmetic::power2::pow2(b)) * 32 + v < vstd::arithmetic::power2::pow2(b + 5),
{
    vstd::arithmetic::power2::lemma_pow2_adds(b, 5);
    vstd::arithmetic::power2::lemma_pow2_pos(b);
    vstd::arithmetic::power2::lemma2_to64();
    let q = a / vstd::arithmetic::power2::pow2(b);
    let r = a % vstd::arithmetic::power2::pow2(b);
    assert(a == q * vstd::arithmetic::power2::pow2(b) + r) by {
        vstd::arithmetic::div_mod::lemma_fundamental_div_mod(a as int, vstd::arithmetic::power2::pow2(b) as int);
    }
    assert(r < vstd::arithmetic::power2::pow2(b));
    assert(a * 32 + v == q * vstd::arithmetic::power2::pow2(b + 5) + (r * 32 + v)) by (nonlinear_arith)
        requires
            a == q * vstd::arithmetic::power2::pow2(b) + r,
            vstd::arithmetic::power2::pow2(b + 5) == vstd::arithmetic::power2::pow2(b) * 32,
    ;
    assert(r * 32 + v < vstd::arithmetic::power2::pow2(b + 5)) by (nonlinear_arith)
        requires
            r < vstd::arithmetic::power2::pow2(b),
            v < 32,
            vstd::arithmetic::power2::pow2(b + 5) == vstd::arithmetic::power2::pow2(b) * 32,
    ;
    vstd::arithmetic::div_mod::lemma_fundamental_div_mod_converse(
        (a * 32 + v) as int,
        vstd::arithmetic::power2::pow2(b + 5) as int,
        q as int,
        (r * 32 + v) as int,
    );
}

proof fn lemma_shift_keeps_high(a: nat, v: nat, e: nat)
    requires
        v < 32,
    ensures
        (a * 32 + v) / vstd::arithmetic::power2::pow2(e + 5) == a / vstd::arithmetic::power2::pow2(e),
{
    vstd::arithmetic::power2::lemma_pow2_adds(e, 5);
    vstd::arithmetic::power2::lemma_pow2_pos(e);
    vstd::arithmetic::power2::lemma2_to64();
    vstd::arithmetic::div_mod::lemma_fundamental_div_mod_converse((a * 32 + v) as int, 32, a as int, v as int);
    vstd::arithmetic::div_mod::lemma_div_denominator((a * 32 + v) as int, 32, vstd::arithmetic::power2::pow2(e) as int);
    assert(32 * vstd::arithmetic::power2::pow2(e) == vstd::arithmetic::power2::pow2(e + 5));
}

proof fn lemma_byte_of(x: nat, a: nat)
    ensures
        (x % vstd::arithmetic::power2::pow2(a + 8)) / vstd::arithmetic::power2::pow2(a) == (x / vstd::arithmetic::power2::pow2(a)) % 256,
        (x % vstd::arithmetic::power2::pow2(a + 8)) % vstd::arithmetic::power2::pow2(a) == x % vstd::arithmetic::power2::pow2(a),
{
    vstd::arithmetic::power2::lemma_pow2_adds(a, 8);
    vstd::arithmetic::power2::lemma_pow2_pos(a);
    vstd::arithmetic::power2::lemma2_to64();
    vstd::arithmetic::div_mod::lemma_mod_breakdown(x as int, vstd::arithmetic::power2::pow2(a) as int, 256);
    let hi = (x / vstd::arithmetic::power2::pow2(a)) % 256;
    let lo = x % vstd::arithmetic::power2::pow2(a);
    assert(lo < vstd::arithmetic::power2::pow2(a));
    vstd::arithmetic::div_mod::lemma_fundamental_div_mod_converse(
        (x % vstd::arithmetic::power2::pow2(a + 8)) as int,
        vstd::arithmetic::power2::pow2(a) as int,
        hi as int,
        lo as int,
    );
    vstd::arithmetic::div_mod::lemma_mod_mod(x as int, vstd::arithmetic::power2::pow2(a) as int, 256);
}

proof fn lemma_bytes_extend(vals: Seq<u8>, v: u8)
    requires
        v < 32,
    ensures
        forall|k: int|
            0 <= k < base32_bytes(vals).len() ==> #[trigger] base32_bytes(vals.push(v))[k]
                == base32_bytes(vals)[k],
        base32_bytes(vals.push(v)).len() == (5 * vals.len() + 5) / 8,
        base32_number(vals.push(v)) == base32_number(vals) * 32 + v,
{
    let nv = vals.push(v);
    assert(nv.drop_last() =~= vals);
    assert forall|k: int| 0 <= k < base32_bytes(vals).len() implies #[trigger] base32_bytes(
        nv,
    )[k] == base32_bytes(vals)[k] by {
        let e = (5 * vals.len() - 8 * k - 8) as nat;
        assert(5 * nv.len() - 8 * k - 8 == e + 5);
        lemma_shift_keeps_high(base32_number(vals), v as nat, e);
    }
}

/// Decodes lowercase RFC 4648 base32, skipping `=` padding; fails on a
/// character outside the alphabet or on non-zero leftover bits.
pub fn decode_base32(input: &str) -> (r: Result<Vec<u8>, CarError>)
    ensures
        match spec_decode_base32(input@) {
            Ok(bytes) => r matches Ok(v) && v@ == bytes,
            Err(f) => r matches Err(e) && e.shows(f),
        },
{
    let chars = crate::text::chars_of(input);
    let mut output: Vec<u8> = Vec::new();
    let mut buffer: u64 = 0;
    let mut bits: u64 = 0;
    let mut unit: u64 = 1;
    let ghost mut vals: Seq<u8> = Seq::empty();
    let mut i: usize = 0;
    assert(chars@.skip(0) =~= chars@);
    proof { vstd::arithmetic::power2::lemma2_to64(); }
    while i < chars.len()
        invariant
            i <= chars@.len(),
            chars@ == input@,
            base32_symbols(chars@.take(i as int)) == Some(vals),
            first_bad_symbol(chars@) == first_bad_symbol(chars@.skip(i as int)),
            forall|j: int| 0 <= j < vals.len() ==> #[trigger] vals[j] < 32,
            bits < 8,
            bits == (5 * vals.len()) % 8,
            unit == vstd::arithmetic::power2::pow2(bits as nat),
            buffer == base32_number(vals) % vstd::arithmetic::power2::pow2(bits as nat),
            output@ == base32_bytes(vals),
        decreases chars@.len() - i,
    {
        let c = chars[i];
        assert(chars@.take(i + 1).drop_last() =~= chars@.take(i as int));
        assert(chars@.skip(i as int).drop_first() =~= chars@.skip(i + 1));
        assert(chars@.skip(i as int)[0] == c);
        if c == '=' {
            i = i + 1;
            continue;
        }
        let value: u8 = if 'a' <= c && c <= 'z' {
            ((c as u32) - ('a' as u32)) as u8
        } else if '2' <= c && c <= '7' {
            (26 + ((c as u32) - ('2' as u32))) as u8
        } else {
            proof {
                lemma_symbols_prefix_none(chars@, i + 1);
            }
            let bad = crate::text::utf8_lead_byte_exec(c) as char;
            let mut detail = String::new();
            crate::text::push_char(&mut detail, bad);
            return Err(CarError::header_with("Invalid base32 character: ", detail));
        };
        proof {
            lemma_shift_in(base32_number(vals), value as nat, bits as nat);
            lemma_bytes_extend(vals, value);
            vstd::arithmetic::power2::lemma_pow2_adds(bits as nat, 5);
            vstd::arithmetic::power2::lemma2_to64();
            vstd::arithmetic::power2::lemma2_to64();
            if bits + 5 < 12 {
                vstd::arithmetic::power2::lemma_pow2_strictly_increases((bits + 5) as nat, 12);
            }
        }
        let ghost old_vals = vals;
        proof {
            vals = vals.push(value);
        }
        buffer = buffer * 32 + value as u64;
        bits = bits + 5;
        unit = unit * 32;
        if bits >= 8 {
            bits = bits - 8;
            proof {
                vstd::arithmetic::power2::lemma_pow2_adds(bits as nat, 8);
                vstd::arithmetic::power2::lemma2_to64();
                lemma_byte_of(base32_number(vals), bits as nat);
                vstd::arithmetic::power2::lemma_pow2_pos(bits as nat);
            }
            unit = unit / 256;
            let byte = (buffer / unit) as u8;
            buffer = buffer % unit;
            output.push(byte);
            proof {
                assert((5 * vals.len() - 8 * (5 * old_vals.len() / 8) - 8) == bits);
                assert(output@ =~= base32_bytes(vals));
            }
        } else {
            assert(output@ =~= base32_bytes(vals));
        }
        i = i + 1;
    }
    assert(chars@.take(chars@.len() as int) =~= chars@);
    if bits > 0 && buffer != 0 {
        return Err(CarError::header("Invalid base32 padding"));
    }
    proof {
        vstd::arithmetic::power2::lemma2_to64();
    }
    Ok(output)
}

/// What decoding a multibase string yields: base32 after a `b` prefix.
pub open spec fn spec_decode_multibase(s: Seq<char>) -> Result<Seq<u8>, CarFault> {
    if s.len() == 0 {
        Err(CarFault::HeaderMsg("Empty multibase string"@))
    } else if s[0] == 'b' {
        spec_decode_base32(s.drop_first())
    } else {
        Err(CarFault::HeaderMsg("Unsupported multibase prefix: "@ + seq![s[0]]))
    }
}

/// Decodes a multibase string; only the `b` (base32) prefix is supported.
pub fn decode_multibase(input: &str) -> (r: Result<Vec<u8>, CarError>)
    ensures
        match spec_decode_multibase(input@) {
            Ok(bytes) => r matches Ok(v) && v@ == bytes,
            Err(f) => r matches Err(e) && e.shows(f),
        },
{
    let n = input.unicode_len();
    if n == 0 {
        return Err(CarError::header("Empty multibase string"));
    }
    let prefix = input.get_char(0);
    if prefix != 'b' {
        let mut detail = String::new();
        crate::text::push_char(&mut detail, prefix);
        return Err(CarError::header_with("Unsupported multibase prefix: ", detail));
    }
    let encoded = input.substring_char(1, n);
    assert(encoded@ =~= input@.drop_first());
    decode_base32(encoded)
}

} // verus!
