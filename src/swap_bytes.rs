//! Byte order of fixed-width integers.
use vstd::prelude::*;

verus! {

/// The `n` little-endian bytes of `x` (its value modulo `256^n`).
pub open spec fn le_bytes(x: nat, n: nat) -> Seq<u8>
    decreases n,
{
    if n == 0 {
        Seq::empty()
    } else {
        seq![(x % 256) as u8] + le_bytes(x / 256, (n - 1) as nat)
    }
}

/// The value of little-endian bytes.
pub open spec fn from_le(s: Seq<u8>) -> nat
    decreases s.len(),
{
    if s.len() == 0 {
        0
    } else {
        s[0] as nat + 256 * from_le(s.drop_first())
    }
}

/// `256` to the power `n`.
pub open spec fn pow256(n: nat) -> nat
    decreases n,
{
    if n == 0 {
        1
    } else {
        256 * pow256((n - 1) as nat)
    }
}

pub proof fn lemma_le_bytes_len(x: nat, n: nat)
    ensures
        le_bytes(x, n).len() == n,
    decreases n,
{
    if n > 0 {
        lemma_le_bytes_len(x / 256, (n - 1) as nat);
    }
}

/// Reading the `n` bytes of `x` back gives `x`, when it fits in `n` bytes.
pub proof fn lemma_from_le_le_bytes(x: nat, n: nat)
    requires
        x < pow256(n),
    ensures
        from_le(le_bytes(x, n)) == x,
    decreases n,
{
    if n > 0 {
        let s = le_bytes(x, n);
        lemma_le_bytes_len(x / 256, (n - 1) as nat);
        assert(s.drop_first() == le_bytes(x / 256, (n - 1) as nat));
        assert(x / 256 < pow256((n - 1) as nat)) by {
            assert(pow256(n) == 256 * pow256((n - 1) as nat));
        }
        lemma_from_le_le_bytes(x / 256, (n - 1) as nat);
    }
}

/// Writing the value of `s` back on `s.len()` bytes gives `s`.
pub proof fn lemma_le_bytes_from_le(s: Seq<u8>)
    ensures
        le_bytes(from_le(s), s.len()) == s,
        from_le(s) < pow256(s.len()),
    decreases s.len(),
{
    if s.len() > 0 {
        let t = s.drop_first();
        lemma_le_bytes_from_le(t);
        let x = from_le(s);
        assert(x % 256 == s[0] as nat);
        assert(x / 256 == from_le(t));
        assert(le_bytes(x, s.len()) == seq![s[0]] + t);
        assert(s == seq![s[0]] + t);
        assert(pow256(s.len()) == 256 * pow256(t.len()));
    }
}

/// Appends the `n` little-endian bytes of `x` to `out`.
pub fn push_le_bytes(x: u64, n: usize, out: &mut Vec<u8>)
    ensures
        final(out)@ == old(out)@ + le_bytes(x as nat, n as nat),
{
    let mut v: u64 = x;
    let mut i: usize = 0;
    while i < n
        invariant
            i <= n,
            out@ + le_bytes(v as nat, (n - i) as nat) == old(out)@ + le_bytes(x as nat, n as nat),
        decreases n - i,
    {
        let b: u8 = (v % 256) as u8;
        proof {
            assert(le_bytes(v as nat, (n - i) as nat) == seq![b] + le_bytes(
                (v / 256) as nat,
                (n - i - 1) as nat,
            ));
            assert(out@.push(b) + le_bytes((v / 256) as nat, (n - i - 1) as nat) == out@ + (seq![b]
                + le_bytes((v / 256) as nat, (n - i - 1) as nat)));
        }
        out.push(b);
        v = v / 256;
        i = i + 1;
    }
    assert(out@ + le_bytes(v as nat, 0) == out@);
}

/// The value whose `n` little-endian bytes are those of `x` in reverse order.
pub open spec fn spec_swap(x: nat, n: nat) -> nat {
    from_le(le_bytes(x, n).reverse())
}

/// Swapping the byte order twice gives the value back.
pub proof fn lemma_swap_involution(x: nat, n: nat)
    requires
        x < pow256(n),
    ensures
        spec_swap(spec_swap(x, n), n) == x,
        spec_swap(x, n) < pow256(n),
{
    let r = le_bytes(x, n).reverse();
    lemma_le_bytes_len(x, n);
    lemma_le_bytes_from_le(r);
    assert(r.reverse() == le_bytes(x, n));
    lemma_from_le_le_bytes(x, n);
}

/// An integer whose byte order can be reversed.
pub trait SwapBytes: Sized {
    /// The integer's value.
    spec fn spec_value(&self) -> nat;

    /// Its width in bytes.
    spec fn spec_width() -> nat;

    /// The integer with the same bytes in reverse order.
    fn swap_bytes(&self) -> (r: Self)
        ensures
            r.spec_value() == spec_swap(self.spec_value(), Self::spec_width()),
    ;
}

/// Reverses the `n` low bytes of `x`.
fn swap_u64(x: u64, n: usize) -> (r: u64)
    requires
        1 <= n <= 8,
        x < pow256(n as nat),
    ensures
        r == spec_swap(x as nat, n as nat),
{
    proof {
        reveal_with_fuel(pow256, 9);
        lemma_le_bytes_len(x as nat, n as nat);
    }
    let ghost bytes = le_bytes(x as nat, n as nat);
    let mut v: u64 = x;
    let mut r: u64 = 0;
    let mut i: usize = 0;
    while i < n
        invariant
            1 <= n <= 8,
            i <= n,
            bytes == le_bytes(x as nat, n as nat),
            bytes.len() == n,
            le_bytes(v as nat, (n - i) as nat) == bytes.subrange(i as int, n as int),
            r == from_le(bytes.subrange(0, i as int).reverse()),
            r < pow256(i as nat),
            pow256(8) == 0x10000000000000000,
        decreases n - i,
    {
        let b: u64 = v % 256;
        proof {
            let pre = bytes.subrange(0, i as int);
            let pre1 = bytes.subrange(0, i + 1);
            assert(bytes[i as int] == b as u8) by {
                assert(le_bytes(v as nat, (n - i) as nat)[0] == (v as nat % 256) as u8);
            }
            assert(pre1.reverse() == seq![b as u8] + pre.reverse());
            assert((seq![b as u8] + pre.reverse()).drop_first() == pre.reverse());
            assert(le_bytes(v as nat, (n - i) as nat).drop_first() == le_bytes(
                (v / 256) as nat,
                (n - i - 1) as nat,
            ));
            assert(bytes.subrange(i as int, n as int).drop_first() == bytes.subrange(
                i + 1,
                n as int,
            ));
            assert(pow256((i + 1) as nat) == 256 * pow256(i as nat));
            assert(b + 256 * r < pow256((i + 1) as nat)) by (nonlinear_arith)
                requires
                    b < 256,
                    r < pow256(i as nat),
                    pow256((i + 1) as nat) == 256 * pow256(i as nat),
            ;
            lemma_pow256_mono((i + 1) as nat, 8);
        }
        r = b + 256 * r;
        v = v / 256;
        i = i + 1;
    }
    assert(bytes.subrange(0, n as int) == bytes);
    r
}

proof fn lemma_pow256_mono(i: nat, j: nat)
    requires
        i <= j,
    ensures
        pow256(i) <= pow256(j),
    decreases j,
{
    if i < j {
        lemma_pow256_mono(i, (j - 1) as nat);
    }
}

impl SwapBytes for u16 {
    open spec fn spec_value(&self) -> nat {
        *self as nat
    }

    open spec fn spec_width() -> nat {
        2
    }

    fn swap_bytes(&self) -> (r: u16) {
        proof {
            reveal_with_fuel(pow256, 3);
            lemma_swap_involution(*self as nat, 2);
        }
        swap_u64(*self as u64, 2) as u16
    }
}

impl SwapBytes for u32 {
    open spec fn spec_value(&self) -> nat {
        *self as nat
    }

    open spec fn spec_width() -> nat {
        4
    }

    fn swap_bytes(&self) -> (r: u32) {
        proof {
            reveal_with_fuel(pow256, 5);
            lemma_swap_involution(*self as nat, 4);
        }
        swap_u64(*self as u64, 4) as u32
    }
}

impl SwapBytes for u64 {
    open spec fn spec_value(&self) -> nat {
        *self as nat
    }

    open spec fn spec_width() -> nat {
        8
    }

    fn swap_bytes(&self) -> (r: u64) {
        proof {
            reveal_with_fuel(pow256, 9);
        }
        swap_u64(*self, 8)
    }
}

} // verus!
