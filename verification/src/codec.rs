//! Byte-level primitives of the record format: variable-length unsigned
//! integers (seven value bits per byte, least significant group first) and
//! fixed-width little-endian integers.
//!
//! Every encoder appends to a byte vector and is specified by a spec-level
//! encoding function; every decoder reads from a slice at a cursor and is
//! specified by a spec-level decoding function, so that what a decoder
//! accepts, and with which error it rejects the rest, is pinned down exactly.

use vstd::prelude::*;

verus! {

/// Why decoding a stored record failed.
#[derive(Clone, Copy, Debug, PartialEq, Eq, Structural)]
pub enum FormatError {
    /// The stream ended in the middle of a frame.
    Truncated,
    /// A frame held a value the format cannot represent: reserved bits, a
    /// non-canonical integer encoding, or a counter that left `u64` range.
    Invalid,
}

/// 256 raised to `n`; the number of byte strings of length `n`.
pub open spec fn pow256(n: nat) -> nat
    decreases n,
{
    if n == 0 {
        1
    } else {
        256 * pow256((n - 1) as nat)
    }
}

pub proof fn lemma_pow256_positive(n: nat)
    ensures
        pow256(n) >= 1,
    decreases n,
{
    if n > 0 {
        lemma_pow256_positive((n - 1) as nat);
    }
}

pub proof fn lemma_pow256_increases(m: nat, n: nat)
    requires
        m <= n,
    ensures
        pow256(m) <= pow256(n),
    decreases n,
{
    if m < n {
        lemma_pow256_increases(m, (n - 1) as nat);
        lemma_pow256_positive((n - 1) as nat);
    }
}

pub proof fn lemma_pow256_16_is_u128()
    ensures
        pow256(8) == 0x1_0000_0000_0000_0000,
        pow256(16) == 0x1_0000_0000_0000_0000_0000_0000_0000_0000,
{
    reveal_with_fuel(pow256, 17);
}

// ---------------------------------------------------------------------------
// Fixed-width little-endian integers
// ---------------------------------------------------------------------------

/// The `n` low-order bytes of `v`, least significant first.
pub open spec fn le_enc(v: nat, n: nat) -> Seq<u8>
    decreases n,
{
    if n == 0 {
        Seq::empty()
    } else {
        seq![(v % 256) as u8] + le_enc(v / 256, (n - 1) as nat)
    }
}

/// The value of a little-endian byte string.
pub open spec fn le_val(s: Seq<u8>) -> nat
    decreases s.len(),
{
    if s.len() == 0 {
        0nat
    } else {
        (s[0] + 256 * le_val(s.skip(1))) as nat
    }
}

pub proof fn lemma_le_enc_len(v: nat, n: nat)
    ensures
        le_enc(v, n).len() == n,
    decreases n,
{
    if n > 0 {
        lemma_le_enc_len(v / 256, (n - 1) as nat);
    }
}

pub proof fn lemma_le_val_bound(s: Seq<u8>)
    ensures
        le_val(s) < pow256(s.len() as nat),
    decreases s.len(),
{
    if s.len() > 0 {
        lemma_le_val_bound(s.skip(1));
    }
}

/// Round trip: the value of the `n`-byte encoding of `v` is `v` again,
/// provided `v` fits in `n` bytes.
pub proof fn lemma_le_enc_val(v: nat, n: nat)
    requires
        v < pow256(n),
    ensures
        le_val(le_enc(v, n)) == v,
    decreases n,
{
    if n == 0 {
    } else {
        lemma_le_enc_val(v / 256, (n - 1) as nat);
        lemma_le_enc_len(v / 256, (n - 1) as nat);
        let e = le_enc(v, n);
        assert(e.skip(1) =~= le_enc(v / 256, (n - 1) as nat));
    }
}

/// Converse round trip: every byte string is the encoding of its value.
pub proof fn lemma_le_val_enc(s: Seq<u8>)
    ensures
        le_enc(le_val(s), s.len() as nat) =~= s,
    decreases s.len(),
{
    if s.len() > 0 {
        lemma_le_val_enc(s.skip(1));
        let v = le_val(s);
        assert(v == s[0] + 256 * le_val(s.skip(1)));
        assert(v % 256 == s[0] && v / 256 == le_val(s.skip(1))) by (nonlinear_arith)
            requires
                v == s[0] + 256 * le_val(s.skip(1)),
                0 <= s[0] < 256,
        ;
        assert(le_enc(v, s.len() as nat).skip(1) =~= le_enc(v / 256, (s.len() - 1) as nat));
        assert(le_enc(le_val(s.skip(1)), s.skip(1).len() as nat) =~= s.skip(1));
    }
}

/// Appends the `n` low-order bytes of `v`, least significant first.
pub fn write_le(out: &mut Vec<u8>, v: u128, n: usize)
    ensures
        final(out)@ == old(out)@ + le_enc(v as nat, n as nat),
{
    let mut x: u128 = v;
    let mut i: usize = 0;
    while i < n
        invariant
            i <= n,
            out@ + le_enc(x as nat, (n - i) as nat) == old(out)@ + le_enc(v as nat, n as nat),
        decreases n - i,
    {
        proof {
            assert(le_enc(x as nat, (n - i) as nat) == seq![(x as nat % 256) as u8] + le_enc(
                x as nat / 256,
                (n - i - 1) as nat,
            ));
        }
        let b: u8 = (x % 256) as u8;
        out.push(b);
        proof {
            assert(out@ + le_enc((x / 256) as nat, (n - (i + 1)) as nat) =~= old(out)@ + le_enc(
                v as nat,
                n as nat,
            ));
        }
        x = x / 256;
        i = i + 1;
    }
    proof {
        assert(out@ =~= old(out)@ + le_enc(v as nat, n as nat));
    }
}

/// Reads `n` bytes at the cursor as a little-endian integer. Fails with
/// `Truncated`, leaving the cursor alone, exactly when fewer than `n` bytes
/// remain.
pub fn read_le(s: &[u8], pos: &mut usize, n: usize) -> (r: Result<u128, FormatError>)
    requires
        n <= 16,
    ensures
        match r {
            Ok(v) => *old(pos) + n <= s@.len() && *final(pos) == *old(pos) + n && v as nat
                == le_val(s@.subrange(*old(pos) as int, *old(pos) + n)),
            Err(e) => e == FormatError::Truncated && *old(pos) + n > s@.len() && *final(pos)
                == *old(pos),
        },
{
    if *pos > s.len() || s.len() - *pos < n {
        return Err(FormatError::Truncated);
    }
    let ghost start = *pos as int;
    let mut acc: u128 = 0;
    let mut i: usize = n;
    while i > 0
        invariant
            i <= n,
            n <= 16,
            start + n <= s@.len(),
            s@.len() <= usize::MAX,
            0 <= start,
            *pos == start,
            acc as nat == le_val(s@.subrange(start + i, start + n)),
            (acc as nat) < pow256((n - i) as nat),
        decreases i,
    {
        i = i - 1;
        proof {
            assert(start + i < s@.len());
        }
        let b: u8 = s[*pos + i];
        proof {
            let tail = s@.subrange(start + i + 1, start + n);
            let whole = s@.subrange(start + i, start + n);
            assert(whole.skip(1) =~= tail);
            assert(whole[0] == s@[start + i]);
            lemma_pow256_increases((n - i - 1) as nat, 15);
            lemma_pow256_16_is_u128();
            lemma_pow256_increases(15, 16);
            assert(acc * 256 + b < 256 * pow256((n - i - 1) as nat)) by (nonlinear_arith)
                requires
                    (acc as nat) < pow256((n - i - 1) as nat),
                    0 <= b < 256,
            ;
        }
        acc = acc * 256 + b as u128;
    }
    proof {
        assert(s@.subrange(start, start + n) =~= s@.subrange(start + i, start + n));
    }
    *pos = *pos + n;
    Ok(acc)
}

// ---------------------------------------------------------------------------
// Variable-length unsigned integers
// ---------------------------------------------------------------------------

/// The variable-length encoding of `v`: seven value bits per byte, least
/// significant group first, the high bit marking a continuation.
pub open spec fn uint_enc(v: u64) -> Seq<u8>
    decreases v,
{
    if v < 128 {
        seq![v as u8]
    } else {
        seq![(v % 128 + 128) as u8] + uint_enc(v / 128)
    }
}

/// What reading a variable-length integer yields at position `i`, carrying
/// the value `acc` and place value `mult` of the groups read so far: the
/// value and the position after it, or the error. Rejected are truncation,
/// values outside `u64`, and non-canonical encodings (a trailing zero group,
/// or more than ten bytes).
pub open spec fn dec_uint_at(s: Seq<u8>, i: int, acc: int, mult: int) -> Result<
    (u64, int),
    FormatError,
>
    decreases s.len() - i,
{
    if i < 0 || i >= s.len() {
        Err(FormatError::Truncated)
    } else {
        let b = s[i] as int;
        let low = b % 128;
        let v = acc + low * mult;
        if v >= 0x1_0000_0000_0000_0000 {
            Err(FormatError::Invalid)
        } else if b < 128 {
            if low == 0 && mult > 1 {
                Err(FormatError::Invalid)
            } else {
                Ok((v as u64, i + 1))
            }
        } else if mult > 0x100_0000_0000_0000 {
            Err(FormatError::Invalid)
        } else {
            dec_uint_at(s, i + 1, v, mult * 128)
        }
    }
}

/// What reading a variable-length integer at position `i` yields.
pub open spec fn dec_uint(s: Seq<u8>, i: int) -> Result<(u64, int), FormatError> {
    dec_uint_at(s, i, 0, 1)
}

/// Appends the variable-length encoding of `v`.
pub fn write_uint(out: &mut Vec<u8>, v: u64)
    ensures
        final(out)@ == old(out)@ + uint_enc(v),
{
    let mut x: u64 = v;
    while x >= 128
        invariant
            out@ + uint_enc(x) == old(out)@ + uint_enc(v),
        decreases x,
    {
        let b: u8 = (x % 128 + 128) as u8;
        out.push(b);
        proof {
            assert(out@ + uint_enc(x / 128) =~= old(out)@ + uint_enc(v));
        }
        x = x / 128;
    }
    out.push(x as u8);
    proof {
        assert(out@ =~= old(out)@ + uint_enc(v));
    }
}

/// Reads a variable-length integer at the cursor; the result and the final
/// cursor are exactly what `dec_uint` says of the bytes.
pub fn read_uint(s: &[u8], pos: &mut usize) -> (r: Result<u64, FormatError>)
    requires
        *old(pos) <= s@.len(),
    ensures
        match r {
            Ok(v) => *final(pos) <= s@.len() && dec_uint(s@, *old(pos) as int) == Ok::<
                (u64, int),
                FormatError,
            >((v, *final(pos) as int)),
            Err(e) => dec_uint(s@, *old(pos) as int) == Err::<(u64, int), FormatError>(e),
        },
{
    let ghost start = *pos as int;
    let mut acc: u64 = 0;
    let mut mult: u64 = 1;
    loop
        invariant
            start == *old(pos) as int,
            start <= *pos <= s@.len(),
            1 <= mult <= 0x8000_0000_0000_0000,
            dec_uint(s@, start) == dec_uint_at(s@, *pos as int, acc as int, mult as int),
        decreases s@.len() - *pos,
    {
        let ghost i = *pos as int;
        if *pos >= s.len() {
            proof {
                assert(dec_uint_at(s@, i, acc as int, mult as int) == Err::<
                    (u64, int),
                    FormatError,
                >(FormatError::Truncated));
            }
            return Err(FormatError::Truncated);
        }
        let b: u8 = s[*pos];
        let low: u64 = (b % 128) as u64;
        proof {
            assert(s@[i] == b);
            assert((low as u128) * (mult as u128) <= 127 * 0x8000_0000_0000_0000)
                by (nonlinear_arith)
                requires
                    low <= 127,
                    mult <= 0x8000_0000_0000_0000,
            ;
        }
        let wide: u128 = acc as u128 + (low as u128) * (mult as u128);
        if wide >= 0x1_0000_0000_0000_0000 {
            return Err(FormatError::Invalid);
        }
        let v: u64 = wide as u64;
        if b < 128 {
            if low == 0 && mult > 1 {
                return Err(FormatError::Invalid);
            }
            *pos = *pos + 1;
            return Ok(v);
        }
        if mult > 0x100_0000_0000_0000 {
            return Err(FormatError::Invalid);
        }
        *pos = *pos + 1;
        acc = v;
        mult = mult * 128;
    }
}

/// A successful read of a variable-length integer moves the cursor forward
/// and stays inside the string.
pub proof fn lemma_dec_uint_advance(s: Seq<u8>, i: int)
    ensures
        dec_uint(s, i) matches Ok(r) ==> i < r.1 <= s.len(),
{
    lemma_dec_uint_at_advance(s, i, 0, 1);
}

proof fn lemma_dec_uint_at_advance(s: Seq<u8>, i: int, acc: int, mult: int)
    ensures
        dec_uint_at(s, i, acc, mult) matches Ok(r) ==> i < r.1 <= s.len(),
    decreases s.len() - i,
{
    if 0 <= i && i < s.len() {
        let b = s[i] as int;
        let low = b % 128;
        let v = acc + low * mult;
        if v < 0x1_0000_0000_0000_0000 && b >= 128 && mult <= 0x100_0000_0000_0000 {
            lemma_dec_uint_at_advance(s, i + 1, v, mult * 128);
        }
    }
}

/// Round trip: wherever the encoding of `v` sits in a byte string, decoding
/// there yields `v` and stops right after it.
/// 128 raised to `k`; the place value of the `k`-th group of a
/// variable-length integer.
pub open spec fn pow128(k: nat) -> nat
    decreases k,
{
    if k == 0 {
        1
    } else {
        128 * pow128((k - 1) as nat)
    }
}

proof fn lemma_pow128_values()
    ensures
        pow128(8) == 0x100_0000_0000_0000,
        pow128(9) == 0x8000_0000_0000_0000,
        forall|k: nat| 9 < k ==> #[trigger] pow128(k) > pow128(9),
{
    reveal_with_fuel(pow128, 10);
    assert forall|k: nat| 9 < k implies #[trigger] pow128(k) > pow128(9) by {
        lemma_pow128_grows(9, k);
    }
}

proof fn lemma_pow128_grows(m: nat, k: nat)
    requires
        m < k,
    ensures
        pow128(m) < pow128(k),
    decreases k,
{
    if m + 1 < k {
        lemma_pow128_grows(m, (k - 1) as nat);
    }
    assert(pow128((k - 1) as nat) >= 1) by {
        lemma_pow128_positive((k - 1) as nat);
    }
}

proof fn lemma_pow128_positive(k: nat)
    ensures
        pow128(k) >= 1,
    decreases k,
{
    if k > 0 {
        lemma_pow128_positive((k - 1) as nat);
    }
}

pub proof fn lemma_uint_roundtrip(s: Seq<u8>, i: int, v: u64)
    requires
        0 <= i,
        i + uint_enc(v).len() <= s.len(),
        s.subrange(i, i + uint_enc(v).len()) == uint_enc(v),
    ensures
        dec_uint(s, i) == Ok::<(u64, int), FormatError>((v, i + uint_enc(v).len())),
{
    assert(pow128(0) == 1);
    lemma_uint_roundtrip_at(s, i, v, 0, 0);
}

proof fn lemma_uint_roundtrip_at(s: Seq<u8>, i: int, v: u64, acc: int, k: nat)
    requires
        0 <= i,
        i + uint_enc(v).len() <= s.len(),
        s.subrange(i, i + uint_enc(v).len()) == uint_enc(v),
        k <= 9,
        0 <= acc,
        acc + v * pow128(k) < 0x1_0000_0000_0000_0000,
        k > 0 ==> v > 0,
    ensures
        dec_uint_at(s, i, acc, pow128(k) as int) == Ok::<(u64, int), FormatError>(
            ((acc + v * pow128(k)) as u64, i + uint_enc(v).len()),
        ),
    decreases v,
{
    let e = uint_enc(v);
    let mult = pow128(k) as int;
    lemma_pow128_positive(k);
    lemma_pow128_values();
    if k < 9 {
        lemma_pow128_grows(k, 9);
    }
    assert(s[i] == e[0]);
    if v < 128 {
        assert(e =~= seq![v as u8]);
        assert(s[i] == v as u8);
        assert((s[i] as int) % 128 == v as int);
        assert(k > 0 ==> mult > 1) by {
            if k > 0 {
                lemma_pow128_grows(0, k);
            }
        }
    } else {
        let b = (v % 128 + 128) as u8;
        assert(e == seq![b] + uint_enc(v / 128));
        assert(s[i] == b);
        let low = (s[i] as int) % 128;
        assert(low == v as int % 128);
        let acc2 = acc + low * mult;
        let mult2 = mult * 128;
        assert(mult2 == pow128((k + 1) as nat));
        // ten groups cover all of u64, so a value with a continuation here
        // still fits
        assert(k + 1 <= 9) by {
            if k + 1 > 9 {
                assert(k == 9);
                assert(v * mult >= 128 * mult) by (nonlinear_arith)
                    requires
                        v >= 128,
                        mult >= 1,
                ;
            }
        }
        assert(acc2 + (v / 128) * mult2 == acc + v * mult) by (nonlinear_arith)
            requires
                low == v as int % 128,
                acc2 == acc + low * mult,
                mult2 == mult * 128,
                v >= 0,
        ;
        assert(acc2 <= acc + v * mult) by (nonlinear_arith)
            requires
                1 <= mult,
                0 <= acc,
                0 <= low <= v,
                acc2 == acc + low * mult,
        ;
        assert(mult <= 0x100_0000_0000_0000) by {
            if k < 8 {
                lemma_pow128_grows(k, 8);
            }
        }
        let sub = s.subrange(i + 1, i + 1 + uint_enc(v / 128).len());
        assert(sub =~= uint_enc(v / 128)) by {
            assert forall|j: int| 0 <= j < uint_enc(v / 128).len() implies sub[j] == uint_enc(
                v / 128,
            )[j] by {
                assert(sub[j] == s[i + 1 + j]);
                assert(s[i + 1 + j] == s.subrange(i, i + e.len())[1 + j]);
            }
        }
        lemma_uint_roundtrip_at(s, i + 1, v / 128, acc2, (k + 1) as nat);
    }
}

} // verus!
