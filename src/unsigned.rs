//! Unsigned base-128 varints.
//!
//! A value is written seven bits at a time, least significant group first;
//! every byte but the last has its high bit set.
use crate::decoder::DecodeError;
use vstd::prelude::*;

verus! {

/// The varint bytes of `x`.
pub open spec fn spec_varint(x: nat) -> Seq<u8>
    decreases x,
{
    if x < 128 {
        seq![x as u8]
    } else {
        seq![(x % 128 + 128) as u8] + spec_varint(x / 128)
    }
}

/// `128` to the power `i`.
pub open spec fn pow128(i: nat) -> nat
    decreases i,
{
    if i == 0 {
        1
    } else {
        128 * pow128((i - 1) as nat)
    }
}

/// The seven payload bits of a varint byte.
pub open spec fn low7(b: u8) -> nat {
    (b % 128) as nat
}

/// The value of the first `k` bytes of `s`, read as base-128 digits, least significant first.
pub open spec fn digits_value(s: Seq<u8>, k: nat) -> nat
    decreases k,
{
    if k == 0 {
        0
    } else {
        digits_value(s, (k - 1) as nat) + low7(s[k - 1]) * pow128((k - 1) as nat)
    }
}

/// One past the index of the first byte at or after `i` whose high bit is clear.
pub open spec fn varint_end_from(s: Seq<u8>, i: nat) -> Option<nat>
    decreases s.len() - i,
{
    if i >= s.len() {
        None
    } else if s[i as int] < 128 {
        Some(i + 1)
    } else {
        varint_end_from(s, i + 1)
    }
}

/// How a varint decoder that accepts values up to `max` reads the front of `s`:
/// the value and the number of bytes read; `DecodeOutOfBounds` when no byte
/// ends the varint; `AddOverflow` when the value exceeds `max`.
pub open spec fn spec_decode_varint(s: Seq<u8>, max: nat) -> Result<(nat, nat), DecodeError> {
    match varint_end_from(s, 0) {
        None => Err(DecodeError::DecodeOutOfBounds),
        Some(n) => if digits_value(s, n) <= max {
            Ok((digits_value(s, n), n))
        } else {
            Err(DecodeError::AddOverflow)
        },
    }
}

pub proof fn lemma_varint_len_pos(x: nat)
    ensures
        spec_varint(x).len() >= 1,
        pow128((spec_varint(x).len() - 1) as nat) <= x || x == 0,
    decreases x,
{
    if x >= 128 {
        lemma_varint_len_pos(x / 128);
        let k = (spec_varint(x / 128).len() - 1) as nat;
        assert(pow128(k + 1) == 128 * pow128(k));
        assert(128 * pow128(k) <= x) by (nonlinear_arith)
            requires
                pow128(k) <= x / 128,
                x >= 128,
        ;
    }
}

proof fn lemma_pow128_mono(i: nat, j: nat)
    requires
        i <= j,
    ensures
        1 <= pow128(i) <= pow128(j),
    decreases j,
{
    if j > 0 {
        if i < j {
            lemma_pow128_mono(i, (j - 1) as nat);
        } else {
            lemma_pow128_mono(0, (j - 1) as nat);
        }
    }
}

/// A `u64` takes at most ten varint bytes.
pub proof fn lemma_varint_len_u64(x: nat)
    requires
        x <= u64::MAX,
    ensures
        1 <= spec_varint(x).len() <= 10,
{
    lemma_varint_len_pos(x);
    reveal_with_fuel(pow128, 11);
    if spec_varint(x).len() > 10 {
        lemma_pow128_mono(10, (spec_varint(x).len() - 1) as nat);
    }
}

proof fn lemma_digits_prefix(s: Seq<u8>, t: Seq<u8>, k: nat)
    requires
        k <= s.len(),
    ensures
        digits_value(s + t, k) == digits_value(s, k),
    decreases k,
{
    if k > 0 {
        lemma_digits_prefix(s, t, (k - 1) as nat);
        assert((s + t)[k - 1] == s[k - 1]);
    }
}

proof fn lemma_digits_cons(b: u8, t: Seq<u8>, k: nat)
    requires
        k <= t.len(),
    ensures
        digits_value(seq![b] + t, k + 1) == low7(b) + 128 * digits_value(t, k),
    decreases k,
{
    let s = seq![b] + t;
    if k == 0 {
        assert(s[0] == b);
        assert(pow128(0) == 1);
        assert(digits_value(s, 0) == 0);
        assert(digits_value(t, 0) == 0);
        assert(digits_value(s, 1) == digits_value(s, 0) + low7(s[0]) * pow128(0));
    } else {
        lemma_digits_cons(b, t, (k - 1) as nat);
        assert(s[k as int] == t[k - 1]);
        assert(digits_value(t, k) == digits_value(t, (k - 1) as nat) + low7(t[k - 1]) * pow128(
            (k - 1) as nat,
        ));
        assert(pow128(k) == 128 * pow128((k - 1) as nat));
        assert(digits_value(s, k + 1) == digits_value(s, k) + low7(t[k - 1]) * pow128(k));
        assert(low7(t[k - 1]) * pow128(k) == 128 * (low7(t[k - 1]) * pow128((k - 1) as nat)))
            by (nonlinear_arith)
            requires
                pow128(k) == 128 * pow128((k - 1) as nat),
        ;
    }
}

proof fn lemma_end_cons(b: u8, t: Seq<u8>, i: nat)
    requires
        b >= 128,
    ensures
        varint_end_from(seq![b] + t, i + 1) == (match varint_end_from(t, i) {
            Some(n) => Some(n + 1),
            None => None::<nat>,
        }),
    decreases t.len() - i,
{
    let s = seq![b] + t;
    if i < t.len() {
        assert(s[i + 1 as int] == t[i as int]);
        if t[i as int] >= 128 {
            lemma_end_cons(b, t, i + 1);
        }
    }
}

proof fn lemma_end_prefix(s: Seq<u8>, t: Seq<u8>, i: nat)
    requires
        varint_end_from(s, i) is Some,
    ensures
        varint_end_from(s + t, i) == varint_end_from(s, i),
    decreases s.len() - i,
{
    assert((s + t)[i as int] == s[i as int]);
    if s[i as int] >= 128 {
        lemma_end_prefix(s, t, i + 1);
    }
}

/// Reading the varint of `x` back, with anything after it, gives `x` and its length.
pub proof fn lemma_varint_round_trip(x: nat, rest: Seq<u8>)
    ensures
        varint_end_from(spec_varint(x) + rest, 0) == Some(spec_varint(x).len()),
        digits_value(spec_varint(x) + rest, spec_varint(x).len()) == x,
        forall|max: nat|
            x <= max ==> #[trigger] spec_decode_varint(spec_varint(x) + rest, max) == Ok::<
                (nat, nat),
                DecodeError,
            >((x, spec_varint(x).len())),
{
    lemma_varint_alone(x);
    lemma_end_prefix(spec_varint(x), rest, 0);
    lemma_digits_prefix(spec_varint(x), rest, spec_varint(x).len());
}

proof fn lemma_varint_alone(x: nat)
    ensures
        varint_end_from(spec_varint(x), 0) == Some(spec_varint(x).len()),
        digits_value(spec_varint(x), spec_varint(x).len()) == x,
    decreases x,
{
    let s = spec_varint(x);
    if x < 128 {
        assert(s[0] == x as u8);
        reveal_with_fuel(varint_end_from, 2);
        assert(pow128(0) == 1);
        assert(digits_value(s, 0) == 0);
        assert(digits_value(s, 1) == digits_value(s, 0) + low7(s[0]) * pow128(0));
    } else {
        let b = (x % 128 + 128) as u8;
        let t = spec_varint(x / 128);
        lemma_varint_alone(x / 128);
        assert(s == seq![b] + t);
        assert(s[0] == b);
        lemma_end_cons(b, t, 0);
        lemma_digits_cons(b, t, t.len());
        assert(low7(b) == x % 128);
    }
}

/// The size `varint_size` gives is the number of bytes `encode_varint` appends.
pub proof fn lemma_varint_size_is_length(x: u64, before: Seq<u8>, after: Seq<u8>, size: nat)
    requires
        size == spec_varint(x as nat).len(),
        after == before + spec_varint(x as nat),
    ensures
        after.len() == before.len() + size,
{
}

/// Number of varint bytes of `x`.
pub fn varint_size(x: u64) -> (r: usize)
    ensures
        r == spec_varint(x as nat).len(),
        1 <= r <= 10,
{
    proof {
        lemma_varint_len_u64(x as nat);
    }
    let mut v: u64 = x;
    let mut n: usize = 1;
    while v >= 128
        invariant
            n + spec_varint(v as nat).len() == spec_varint(x as nat).len() + 1,
            spec_varint(x as nat).len() <= 10,
        decreases v,
    {
        proof {
            lemma_varint_len_pos((v / 128) as nat);
        }
        v = v / 128;
        n = n + 1;
    }
    n
}

/// Appends the varint bytes of `x` to `out`.
pub fn encode_varint(x: u64, out: &mut Vec<u8>)
    ensures
        final(out)@ == old(out)@ + spec_varint(x as nat),
{
    let mut v: u64 = x;
    while v >= 128
        invariant
            out@ + spec_varint(v as nat) == old(out)@ + spec_varint(x as nat),
        decreases v,
    {
        let b: u8 = (v % 128 + 128) as u8;
        proof {
            assert(spec_varint(v as nat) == seq![b] + spec_varint((v / 128) as nat));
            assert(out@.push(b) + spec_varint((v / 128) as nat) == out@ + (seq![b] + spec_varint(
                (v / 128) as nat,
            )));
        }
        out.push(b);
        v = v / 128;
    }
    proof {
        assert(out@.push(v as u8) == out@ + spec_varint(v as nat));
    }
    out.push(v as u8);
}

proof fn lemma_pow128_big(i: nat)
    requires
        i >= 10,
    ensures
        pow128(i) >= pow128(10),
        pow128(10) == 0x400000000000000000,
    decreases i,
{
    reveal_with_fuel(pow128, 11);
    if i > 10 {
        lemma_pow128_big((i - 1) as nat);
    }
}

proof fn lemma_digits_monotone(s: Seq<u8>, j: nat, k: nat)
    requires
        j <= k,
    ensures
        digits_value(s, j) <= digits_value(s, k),
    decreases k,
{
    if j < k {
        lemma_digits_monotone(s, j, (k - 1) as nat);
    }
}

/// Reads a varint from `buf[*pos..bound]`, accepting values up to `max`, and
/// moves `pos` past it on success.
pub fn decode_varint(buf: &[u8], pos: &mut usize, bound: usize, max: u64) -> (r: Result<
    u64,
    DecodeError,
>)
    requires
        *old(pos) <= bound <= buf@.len(),
    ensures
        *old(pos) <= *final(pos) <= bound,
        spec_decode_varint(buf@.subrange(*old(pos) as int, bound as int), max as nat) == (match r {
            Ok(v) => Ok((v as nat, (*final(pos) - *old(pos)) as nat)),
            Err(e) => Err::<(nat, nat), DecodeError>(e),
        }),
{
    let ghost s = buf@.subrange(*old(pos) as int, bound as int);
    let start: usize = *pos;
    let mut p: usize = start;
    let mut acc: u64 = 0;
    let mut scale: u128 = 1;
    let mut overflow: bool = false;
    proof {
        reveal_with_fuel(pow128, 11);
    }
    loop
        invariant
            start == *old(pos),
            *pos == *old(pos),
            start <= p <= bound <= buf@.len(),
            s == buf@.subrange(start as int, bound as int),
            forall|j: int| 0 <= j < p - start ==> s[j] >= 128,
            varint_end_from(s, (p - start) as nat) == varint_end_from(s, 0),
            p - start < 10 ==> scale == pow128((p - start) as nat),
            p - start < 10 ==> scale <= pow128(9),
            pow128(9) == 0x8000000000000000,
            p - start >= 10 ==> scale == pow128(10),
            !overflow ==> acc == digits_value(s, (p - start) as nat) && acc <= max,
            overflow ==> digits_value(s, (p - start) as nat) > max,
            pow128(10) == 0x400000000000000000,
        decreases bound - p,
    {
        if p >= bound {
            return Err(DecodeError::DecodeOutOfBounds);
        }
        let b: u8 = buf[p];
        let ghost i = (p - start) as nat;
        assert(s[i as int] == b);
        let low: u8 = b % 128;
        assert(digits_value(s, i + 1) == digits_value(s, i) + low7(b) * pow128(i));
        assert(low7(b) == low as nat);
        if !overflow && low != 0 {
            if p - start >= 10 {
                proof {
                    lemma_pow128_big(i);
                    assert(low7(b) * pow128(i) >= pow128(i)) by (nonlinear_arith)
                        requires
                            low7(b) >= 1,
                    ;
                }
                overflow = true;
            } else {
                assert((low as u128) * scale <= 127 * 0x8000000000000000u128) by (nonlinear_arith)
                    requires
                        low < 128,
                        scale <= 0x8000000000000000u128,
                ;
                let add: u128 = (low as u128) * scale;
                assert(add == low7(b) * pow128(i));
                let w: u128 = acc as u128 + add;
                if w > max as u128 {
                    overflow = true;
                } else {
                    acc = w as u64;
                }
            }
        }
        proof {
            if overflow {
                lemma_digits_monotone(s, i, i + 1);
            }
            if low == 0 {
                assert(low7(b) * pow128(i) == 0) by (nonlinear_arith)
                    requires
                        low7(b) == 0,
                ;
            }
        }
        if p - start < 10 {
            proof {
                if i + 1 < 10 {
                    lemma_pow128_mono(i + 1, 9);
                }
            }
            scale = scale * 128;
        }
        p = p + 1;
        if b < 128 {
            assert(varint_end_from(s, i) == Some(i + 1));
            if overflow {
                *pos = p;
                return Err(DecodeError::AddOverflow);
            }
            *pos = p;
            return Ok(acc);
        }
    }
}

} // verus!

verus! {

/// An unsigned integer that can be written as a varint.
pub trait EncodeSize {
    /// The integer's value.
    spec fn spec_value(&self) -> nat;

    /// Number of bytes `encode_raw` writes.
    fn size(&self) -> (r: usize)
        ensures
            r == spec_varint(self.spec_value()).len(),
            1 <= r <= 10,
    ;

    /// Appends the varint bytes of the value to `out`.
    fn encode_raw(&self, out: &mut Vec<u8>)
        ensures
            final(out)@ == old(out)@ + spec_varint(self.spec_value()),
    ;
}

impl EncodeSize for u8 {
    open spec fn spec_value(&self) -> nat {
        *self as nat
    }

    fn size(&self) -> (r: usize) {
        varint_size(*self as u64)
    }

    fn encode_raw(&self, out: &mut Vec<u8>) {
        encode_varint(*self as u64, out)
    }
}

impl EncodeSize for u16 {
    open spec fn spec_value(&self) -> nat {
        *self as nat
    }

    fn size(&self) -> (r: usize) {
        varint_size(*self as u64)
    }

    fn encode_raw(&self, out: &mut Vec<u8>) {
        encode_varint(*self as u64, out)
    }
}

impl EncodeSize for u32 {
    open spec fn spec_value(&self) -> nat {
        *self as nat
    }

    fn size(&self) -> (r: usize) {
        varint_size(*self as u64)
    }

    fn encode_raw(&self, out: &mut Vec<u8>) {
        encode_varint(*self as u64, out)
    }
}

impl EncodeSize for u64 {
    open spec fn spec_value(&self) -> nat {
        *self as nat
    }

    fn size(&self) -> (r: usize) {
        varint_size(*self)
    }

    fn encode_raw(&self, out: &mut Vec<u8>) {
        encode_varint(*self, out)
    }
}

impl EncodeSize for usize {
    open spec fn spec_value(&self) -> nat {
        *self as nat
    }

    fn size(&self) -> (r: usize) {
        varint_size(*self as u64)
    }

    fn encode_raw(&self, out: &mut Vec<u8>) {
        encode_varint(*self as u64, out)
    }
}

} // verus!

verus! {

proof fn lemma_end_bound(s: Seq<u8>, i: nat)
    ensures
        varint_end_from(s, i) is Some ==> varint_end_from(s, i)->Some_0 <= s.len(),
    decreases s.len() - i,
{
    if i < s.len() && s[i as int] >= 128 {
        lemma_end_bound(s, i + 1);
    }
}

/// A varint decode reads no more than it is given.
pub proof fn lemma_decode_varint_len(s: Seq<u8>, max: nat)
    ensures
        spec_decode_varint(s, max) is Ok ==> spec_decode_varint(s, max)->Ok_0.1 <= s.len(),
{
    lemma_end_bound(s, 0);
}

} // verus!
