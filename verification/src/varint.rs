use crate::error::Error;
use crate::reader::Reader;
use vstd::prelude::*;

verus! {

// ---------------------------------------------------------------------------
// Wire-level model of base-128 variable-length integers.
//
// An encoded value is a sequence of 7-bit groups, least-significant group
// first; every byte has its high bit set except the last one.  The three
// spec functions below read such a sequence from the front: whether a
// terminated varint starts there, the value it denotes, and how many bytes
// it occupies.
// ---------------------------------------------------------------------------

/// 128 raised to `k`: the weight of the `k`-th 7-bit group.
pub open spec fn pow128(k: nat) -> nat
    decreases k,
{
    if k == 0 {
        1
    } else {
        128 * pow128((k - 1) as nat)
    }
}

/// The canonical encoding of `v` as a varint.
pub open spec fn varint_enc(v: nat) -> Seq<u8>
    decreases v,
{
    if v < 128 {
        seq![v as u8]
    } else {
        seq![(128 + v % 128) as u8] + varint_enc(v / 128)
    }
}

/// Does a terminated varint (a byte with its high bit clear, possibly
/// after continuation bytes) start at the front of `s`?
pub open spec fn varint_terminated(s: Seq<u8>) -> bool
    decreases s.len(),
{
    s.len() > 0 && (s[0] < 128 || varint_terminated(s.drop_first()))
}

/// The value denoted by the varint at the front of `s`.
pub open spec fn varint_value(s: Seq<u8>) -> nat
    decreases s.len(),
{
    if s.len() == 0 {
        0
    } else if s[0] < 128 {
        s[0] as nat
    } else {
        (s[0] - 128) as nat + 128 * varint_value(s.drop_first())
    }
}

/// The number of bytes the varint at the front of `s` occupies.
pub open spec fn varint_size(s: Seq<u8>) -> nat
    decreases s.len(),
{
    if s.len() == 0 {
        0
    } else if s[0] < 128 {
        1
    } else {
        1 + varint_size(s.drop_first())
    }
}

// ---------------------------------------------------------------------------
// Facts about the model.
// ---------------------------------------------------------------------------

pub proof fn lemma_pow128_pos(k: nat)
    ensures
        pow128(k) >= 1,
    decreases k,
{
    if k > 0 {
        lemma_pow128_pos((k - 1) as nat);
    }
}

/// One encoded byte group per power: `v < 128^k` takes at most `k` bytes.
pub proof fn lemma_varint_enc_len_bound(v: nat, k: nat)
    requires
        k >= 1,
        v < pow128(k),
    ensures
        1 <= varint_enc(v).len() <= k,
    decreases v,
{
    if v >= 128 {
        assert(k >= 2) by {
            if k == 1 {
                assert(pow128(1nat) == 128);
            }
        }
        assert(v / 128 < pow128((k - 1) as nat)) by (nonlinear_arith)
            requires
                v < pow128(k),
                pow128(k) == 128 * pow128((k - 1) as nat),
        {}
        lemma_varint_enc_len_bound(v / 128, (k - 1) as nat);
    }
}

/// Any value a `u64` can hold encodes to at most ten bytes.
pub proof fn lemma_varint_enc_len_le_10(v: nat)
    requires
        v <= u64::MAX,
    ensures
        1 <= varint_enc(v).len() <= 10,
{
    assert(pow128(10nat) > u64::MAX) by {
        reveal_with_fuel(pow128, 11);
    }
    lemma_varint_enc_len_bound(v, 10nat);
}

/// Round trip: reading the encoding of `v`, whatever follows it, yields
/// `v` again and consumes exactly the encoding.
pub proof fn lemma_varint_round_trip(v: nat, rest: Seq<u8>)
    ensures
        varint_terminated(varint_enc(v) + rest),
        varint_value(varint_enc(v) + rest) == v,
        varint_size(varint_enc(v) + rest) == varint_enc(v).len(),
    decreases v,
{
    let s = varint_enc(v) + rest;
    if v < 128 {
        assert(s[0] == v as u8);
        assert(s.len() >= 1);
    } else {
        let b: u8 = (128 + v % 128) as u8;
        assert(s[0] == b);
        assert(b >= 128);
        lemma_varint_round_trip(v / 128, rest);
        assert(s.drop_first() =~= varint_enc(v / 128) + rest);
        assert((b - 128) as nat + 128 * varint_value(varint_enc(v / 128) + rest) == v % 128 + 128
            * (v / 128));
        assert(v % 128 + 128 * (v / 128) == v) by (nonlinear_arith);
    }
}

/// A terminated varint never claims more bytes than the stream holds.
pub proof fn lemma_varint_size_le_len(s: Seq<u8>)
    requires
        varint_terminated(s),
    ensures
        1 <= varint_size(s) <= s.len(),
    decreases s.len(),
{
    if s[0] >= 128 {
        lemma_varint_size_le_len(s.drop_first());
    }
}

// ---------------------------------------------------------------------------
// The zig-zag transform for signed scalars.
// ---------------------------------------------------------------------------

/// Zig-zag maps 0, -1, 1, -2, 2, ... to 0, 1, 2, 3, 4, ..., so that
/// small-magnitude negatives keep short varint encodings.
pub open spec fn zigzag_spec(v: int) -> nat {
    if v >= 0 {
        (2 * v) as nat
    } else {
        (-2 * v - 1) as nat
    }
}

/// The inverse of the zig-zag mapping.
pub open spec fn unzigzag_spec(n: nat) -> int {
    if n % 2 == 0 {
        (n / 2) as int
    } else {
        -((n / 2) as int) - 1
    }
}

/// Zig-zag round trip: the inverse undoes the mapping on every value.
pub proof fn lemma_zigzag_round_trip(v: int)
    ensures
        unzigzag_spec(zigzag_spec(v)) == v,
{
}

/// Applies the zig-zag transform to a signed value.
pub fn zigzag_i64(v: i64) -> (r: u64)
    ensures
        r as nat == zigzag_spec(v as int),
{
    if v >= 0 {
        (v as u64) * 2
    } else {
        let m: u64 = (-(v + 1)) as u64;
        m * 2 + 1
    }
}

/// Undoes the zig-zag transform.
pub fn unzigzag_i64(r: u64) -> (v: i64)
    ensures
        v as int == unzigzag_spec(r as nat),
{
    let half: u64 = r / 2;
    if r % 2 == 0 {
        half as i64
    } else {
        -(half as i64) - 1
    }
}

// ---------------------------------------------------------------------------
// Executable encoder.
// ---------------------------------------------------------------------------

/// Appends the varint encoding of `v` to `out`.
pub fn write_varint_u64(out: &mut Vec<u8>, v: u64)
    ensures
        final(out)@ == old(out)@ + varint_enc(v as nat),
{
    let mut x: u64 = v;
    loop
        invariant
            out@ + varint_enc(x as nat) == old(out)@ + varint_enc(v as nat),
        decreases x,
    {
        if x < 128 {
            out.push(x as u8);
            assert(out@ =~= old(out)@ + varint_enc(v as nat));
            return ;
        } else {
            let b: u8 = (128 + (x % 128)) as u8;
            out.push(b);
            proof {
                assert(varint_enc(x as nat) == seq![b] + varint_enc((x as nat) / 128));
                assert(out@ + varint_enc((x / 128) as nat) =~= old(out)@ + varint_enc(v as nat));
            }
            x = x / 128;
        }
    }
}

/// The byte length of the varint encoding of `v`, without encoding it.
pub fn size_varint_u64(v: u64) -> (r: u32)
    ensures
        r as nat == varint_enc(v as nat).len(),
        1 <= r <= 10,
{
    proof {
        lemma_varint_enc_len_le_10(v as nat);
    }
    let mut x: u64 = v;
    let mut n: u32 = 1;
    loop
        invariant
            1 <= n <= 10,
            varint_enc(v as nat).len() == n - 1 + varint_enc(x as nat).len(),
        decreases x,
    {
        if x < 128 {
            assert(varint_enc(x as nat).len() == 1);
            return n;
        } else {
            proof {
                lemma_varint_enc_len_le_10(v as nat);
                lemma_varint_enc_len_le_10((x / 128) as nat);
            }
            x = x / 128;
            n = n + 1;
        }
    }
}

// ---------------------------------------------------------------------------
// Executable decoder.
// ---------------------------------------------------------------------------

/// What decoding one varint for a target that holds values up to `max`
/// does to the reader and returns, stated over the readable bytes.
pub open spec fn read_varint_ok(
    pre: Reader,
    post: Reader,
    r: Result<u64, Error>,
    max: nat,
) -> bool {
    &&& post.wf()
    &&& post.spec_bytes() == pre.spec_bytes()
    &&& post.spec_end() == pre.spec_end()
    &&& if !varint_terminated(pre.avail()) {
        &&& r == Err::<u64, Error>(Error::Truncated)
        &&& post.spec_pos() == pre.spec_end()
    } else {
        &&& post.spec_pos() == pre.spec_pos() + varint_size(pre.avail())
        &&& if varint_value(pre.avail()) <= max {
            r == Ok::<u64, Error>(varint_value(pre.avail()) as u64)
        } else {
            r == Err::<u64, Error>(Error::Overflow)
        }
    }
}

/// Decodes one varint into a `u64`.
///
/// The stream ending before the final group is `Truncated`; a value
/// beyond `u64::MAX` is `Overflow`.  Either way the cursor moves past
/// whatever was read, so an overflowing varint is still consumed whole.
pub fn read_varint_u64(reader: &mut Reader) -> (r: Result<u64, Error>)
    requires
        old(reader).wf(),
    ensures
        read_varint_ok(*old(reader), *final(reader), r, u64::MAX as nat),
{
    let ghost s = old(reader).avail();
    let ghost pos0 = old(reader).spec_pos();
    let mut value: u64 = 0;
    let mut mult: u64 = 1;
    let mut beyond: bool = false;
    let mut too_big: bool = false;
    let ghost mut k: nat = 0nat;
    let ghost mut acc: nat = 0nat;
    proof {
        assert(pow128(0nat) == 1);
        assert(varint_value(s) == 0 + 1 * varint_value(s)) by (nonlinear_arith);
    }
    loop
        invariant
            reader.wf(),
            reader.spec_bytes() == old(reader).spec_bytes(),
            reader.spec_end() == old(reader).spec_end(),
            pos0 == old(reader).spec_pos(),
            s == old(reader).avail(),
            reader.spec_pos() == pos0 + k,
            varint_terminated(s) == varint_terminated(reader.avail()),
            varint_value(s) == acc + pow128(k) * varint_value(reader.avail()),
            varint_size(s) == k + varint_size(reader.avail()),
            !beyond ==> mult == pow128(k),
            beyond ==> pow128(k) > u64::MAX,
            !too_big ==> acc == value,
            too_big ==> acc > u64::MAX,
            acc < pow128(k),
        decreases reader.spec_end() - reader.spec_pos(),
    {
        let ghost prev = reader.avail();
        let ghost acc0 = acc;
        match reader.read_byte() {
            None => {
                assert(!varint_terminated(prev));
                return Err(Error::Truncated);
            },
            Some(b) => {
                proof {
                    assert(prev.len() > 0);
                    assert(prev[0] == b);
                    assert(reader.avail() =~= prev.drop_first());
                    lemma_pow128_pos(k);
                }
                let g: u64 = (b % 128) as u64;
                proof {
                    acc = acc0 + (g as nat) * pow128(k);
                    assert(acc < 128 * pow128(k)) by (nonlinear_arith)
                        requires
                            acc0 < pow128(k),
                            (g as nat) <= 127,
                            pow128(k) >= 1,
                            acc == acc0 + (g as nat) * pow128(k),
                    {}
                }
                if !too_big && g != 0 {
                    if beyond {
                        too_big = true;
                        proof {
                            assert(acc > u64::MAX) by (nonlinear_arith)
                                requires
                                    pow128(k) > u64::MAX,
                                    g >= 1,
                                    acc == acc0 + (g as nat) * pow128(k),
                            {}
                        }
                    } else {
                        match g.checked_mul(mult) {
                            None => {
                                too_big = true;
                                proof {
                                    assert(acc > u64::MAX) by (nonlinear_arith)
                                        requires
                                            (g as nat) * (mult as nat) > u64::MAX,
                                            mult == pow128(k),
                                            acc == acc0 + (g as nat) * pow128(k),
                                    {}
                                }
                            },
                            Some(gm) => {
                                proof {
                                    assert(gm == (g as nat) * pow128(k));
                                }
                                match value.checked_add(gm) {
                                    None => {
                                        too_big = true;
                                        assert(acc == value + gm);
                                    },
                                    Some(nv) => {
                                        value = nv;
                                        assert(acc == value);
                                    },
                                }
                            },
                        }
                    }
                } else {
                    proof {
                        if g == 0 {
                            assert((0nat) * pow128(k) == 0) by (nonlinear_arith);
                            assert(acc == acc0);
                        } else {
                            assert(acc >= acc0) by (nonlinear_arith)
                                requires
                                    acc == acc0 + (g as nat) * pow128(k),
                            {}
                        }
                    }
                }
                if b < 128 {
                    proof {
                        assert(varint_terminated(prev));
                        assert(varint_size(prev) == 1);
                        assert(varint_value(prev) == b as nat);
                        assert(b as nat == g as nat);
                        assert(varint_value(s) == acc0 + pow128(k) * (g as nat));
                        assert(acc0 + pow128(k) * (g as nat) == acc) by (nonlinear_arith)
                            requires
                                acc == acc0 + (g as nat) * pow128(k),
                        {}
                        assert(varint_size(s) == k + 1);
                        assert(varint_terminated(s));
                    }
                    if too_big {
                        return Err(Error::Overflow);
                    } else {
                        return Ok(value);
                    }
                }
                proof {
                    assert(b >= 128);
                    assert(varint_terminated(prev) == varint_terminated(prev.drop_first()));
                    assert(varint_value(prev) == ((b - 128) as nat) + 128 * varint_value(
                        prev.drop_first(),
                    ));
                    assert((b - 128) as nat == g as nat);
                    assert(varint_size(prev) == 1 + varint_size(prev.drop_first()));
                    let rest = varint_value(prev.drop_first());
                    assert(varint_value(s) == acc0 + pow128(k) * ((g as nat) + 128 * rest));
                    assert(acc0 + pow128(k) * ((g as nat) + 128 * rest) == (acc0 + (g as nat)
                        * pow128(k)) + (128 * pow128(k)) * rest) by (nonlinear_arith);
                    assert(pow128(k + 1) == 128 * pow128(k));
                    assert(varint_value(s) == acc + pow128(k + 1) * rest);
                }
                if !beyond {
                    match mult.checked_mul(128) {
                        None => {
                            beyond = true;
                            proof {
                                assert(pow128(k + 1) > u64::MAX);
                            }
                        },
                        Some(m) => {
                            mult = m;
                            proof {
                                assert(mult == pow128(k + 1));
                            }
                        },
                    }
                } else {
                    proof {
                        assert(pow128(k + 1) >= pow128(k)) by (nonlinear_arith)
                            requires
                                pow128(k + 1) == 128 * pow128(k),
                                pow128(k) >= 1,
                        {}
                    }
                }
                proof {
                    k = k + 1nat;
                }
            },
        }
    }
}

/// Decodes one varint into a `u32`; values beyond `u32::MAX` are `Overflow`.
pub fn read_varint_u32(reader: &mut Reader) -> (r: Result<u32, Error>)
    requires
        old(reader).wf(),
    ensures
        read_varint_ok(
            *old(reader),
            *final(reader),
            match r {
                Ok(v) => Ok(v as u64),
                Err(e) => Err(e),
            },
            u32::MAX as nat,
        ),
{
    match read_varint_u64(reader) {
        Ok(v) => {
            if v <= u32::MAX as u64 {
                Ok(v as u32)
            } else {
                Err(Error::Overflow)
            }
        },
        Err(e) => Err(e),
    }
}

/// Decodes one varint into a `u16`; values beyond `u16::MAX` are `Overflow`.
pub fn read_varint_u16(reader: &mut Reader) -> (r: Result<u16, Error>)
    requires
        old(reader).wf(),
    ensures
        read_varint_ok(
            *old(reader),
            *final(reader),
            match r {
                Ok(v) => Ok(v as u64),
                Err(e) => Err(e),
            },
            u16::MAX as nat,
        ),
{
    match read_varint_u64(reader) {
        Ok(v) => {
            if v <= u16::MAX as u64 {
                Ok(v as u16)
            } else {
                Err(Error::Overflow)
            }
        },
        Err(e) => Err(e),
    }
}

/// Decodes one varint into a `u8`; values beyond `u8::MAX` are `Overflow`.
pub fn read_varint_u8(reader: &mut Reader) -> (r: Result<u8, Error>)
    requires
        old(reader).wf(),
    ensures
        read_varint_ok(
            *old(reader),
            *final(reader),
            match r {
                Ok(v) => Ok(v as u64),
                Err(e) => Err(e),
            },
            u8::MAX as nat,
        ),
{
    match read_varint_u64(reader) {
        Ok(v) => {
            if v <= u8::MAX as u64 {
                Ok(v as u8)
            } else {
                Err(Error::Overflow)
            }
        },
        Err(e) => Err(e),
    }
}

/// Reads one varint and discards it, whatever value it denotes.
pub fn skip_varint(reader: &mut Reader) -> (r: Result<(), Error>)
    requires
        old(reader).wf(),
    ensures
        final(reader).wf(),
        final(reader).spec_bytes() == old(reader).spec_bytes(),
        final(reader).spec_end() == old(reader).spec_end(),
        if varint_terminated(old(reader).avail()) {
            &&& r == Ok::<(), Error>(())
            &&& final(reader).spec_pos() == old(reader).spec_pos() + varint_size(
                old(reader).avail(),
            )
        } else {
            &&& r == Err::<(), Error>(Error::Truncated)
            &&& final(reader).spec_pos() == old(reader).spec_end()
        },
{
    let ghost s = old(reader).avail();
    let ghost pos0 = old(reader).spec_pos();
    let ghost mut k: nat = 0nat;
    loop
        invariant
            reader.wf(),
            reader.spec_bytes() == old(reader).spec_bytes(),
            reader.spec_end() == old(reader).spec_end(),
            pos0 == old(reader).spec_pos(),
            s == old(reader).avail(),
            reader.spec_pos() == pos0 + k,
            varint_terminated(s) == varint_terminated(reader.avail()),
            varint_size(s) == k + varint_size(reader.avail()),
        decreases reader.spec_end() - reader.spec_pos(),
    {
        let ghost prev = reader.avail();
        match reader.read_byte() {
            None => {
                return Err(Error::Truncated);
            },
            Some(b) => {
                proof {
                    assert(prev[0] == b);
                    assert(reader.avail() =~= prev.drop_first());
                    k = k + 1nat;
                }
                if b < 128 {
                    return Ok(());
                }
            },
        }
    }
}

} // verus!
