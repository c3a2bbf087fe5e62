//! Byte strings as numbers: little- and big-endian layouts of integers, and
//! the helpers that lay them out in a buffer.

use vstd::prelude::*;

verus! {

/// `256^n` as a natural number.
pub open spec fn pow256(n: nat) -> nat
    decreases n,
{
    if n == 0 {
        1
    } else {
        256 * pow256((n - 1) as nat)
    }
}

/// The number that a byte string spells when read little-endian.
pub open spec fn le_value(bytes: Seq<u8>) -> nat
    decreases bytes.len(),
{
    if bytes.len() == 0 {
        0
    } else {
        bytes[0] as nat + 256 * le_value(bytes.drop_first())
    }
}

/// The `n` low bytes of `x`, least significant first.
pub open spec fn le_bytes(x: nat, n: nat) -> Seq<u8>
    decreases n,
{
    if n == 0 {
        Seq::empty()
    } else {
        le_bytes(x / 256, (n - 1) as nat).insert(0, (x % 256) as u8)
    }
}

/// The `n` low bytes of `x`, most significant first.
pub open spec fn be_bytes(x: nat, n: nat) -> Seq<u8> {
    le_bytes(x, n).reverse()
}

/// The little-endian layout of `n` bytes has `n` bytes.
pub proof fn lemma_le_bytes_len(x: nat, n: nat)
    ensures
        le_bytes(x, n).len() == n,
    decreases n,
{
    if n > 0 {
        lemma_le_bytes_len(x / 256, (n - 1) as nat);
    }
}

/// A byte string spells a number below `256^len`.
pub proof fn lemma_le_value_bound(bytes: Seq<u8>)
    ensures
        le_value(bytes) < pow256(bytes.len()),
    decreases bytes.len(),
{
    if bytes.len() > 0 {
        lemma_le_value_bound(bytes.drop_first());
    }
}

/// Byte strings of one length that spell the same number are equal.
pub proof fn lemma_le_value_injective(a: Seq<u8>, b: Seq<u8>)
    requires
        a.len() == b.len(),
        le_value(a) == le_value(b),
    ensures
        a == b,
    decreases a.len(),
{
    if a.len() == 0 {
        assert(a =~= b);
    } else {
        let ra = le_value(a.drop_first());
        let rb = le_value(b.drop_first());
        assert(a[0] == b[0] && ra == rb) by (nonlinear_arith)
            requires
                a[0] as nat + 256 * ra == b[0] as nat + 256 * rb,
                a[0] < 256,
                b[0] < 256,
        ;
        lemma_le_value_injective(a.drop_first(), b.drop_first());
        assert(a =~= seq![a[0]] + a.drop_first());
        assert(b =~= seq![b[0]] + b.drop_first());
    }
}

/// A string of zero bytes spells zero.
pub proof fn lemma_le_value_zeros(bytes: Seq<u8>)
    requires
        forall|i: int| 0 <= i < bytes.len() ==> bytes[i] == 0,
    ensures
        le_value(bytes) == 0,
    decreases bytes.len(),
{
    if bytes.len() > 0 {
        lemma_le_value_zeros(bytes.drop_first());
    }
}

/// The little-endian bytes of a number spell it back, as far as they reach.
pub proof fn lemma_le_value_of_le_bytes(x: nat, n: nat)
    ensures
        le_value(le_bytes(x, n)) == x % pow256(n),
    decreases n,
{
    if n == 0 {
    } else {
        let rest = le_bytes(x / 256, (n - 1) as nat);
        let s = le_bytes(x, n);
        lemma_le_value_of_le_bytes(x / 256, (n - 1) as nat);
        assert(s.drop_first() =~= rest);
        let p = pow256((n - 1) as nat);
        lemma_pow256_positive((n - 1) as nat);
        vstd::arithmetic::div_mod::lemma_mod_breakdown(x as int, 256, p as int);
    }
}

/// Powers of 256 are positive.
pub proof fn lemma_pow256_positive(n: nat)
    ensures
        pow256(n) > 0,
    decreases n,
{
    if n > 0 {
        lemma_pow256_positive((n - 1) as nat);
    }
}

/// The first powers of 256 that the integer widths reach.
pub proof fn lemma_pow256_values()
    ensures
        pow256(8) == 0x1_0000_0000_0000_0000,
        pow256(16) == 0x1_0000_0000_0000_0000_0000_0000_0000_0000,
        pow256(31) == 0x100000000000000000000000000000000000000000000000000000000000000,
{
    reveal_with_fuel(pow256, 17);
    assert(pow256(16) == 0x100000000000000000000000000000000);
    lemma_pow256_add(16, 15);
    assert(pow256(15) == 0x1000000000000000000000000000000);
}

/// Powers of 256 multiply.
pub proof fn lemma_pow256_add(a: nat, b: nat)
    ensures
        pow256(a + b) == pow256(a) * pow256(b),
    decreases b,
{
    if b == 0 {
        assert(pow256(a) * 1 == pow256(a)) by (nonlinear_arith);
    } else {
        lemma_pow256_add(a, (b - 1) as nat);
        let pa = pow256(a);
        let pb = pow256((b - 1) as nat);
        assert(pow256(a + b) == 256 * pow256((a + b - 1) as nat));
        assert((a + (b - 1) as nat) == (a + b - 1) as nat);
        assert(256 * (pa * pb) == pa * (256 * pb)) by (nonlinear_arith);
    }
}

/// Appends the `n` low bytes of `x` to `buf`, least significant first.
pub fn append_le(buf: &mut Vec<u8>, x: u128, n: usize)
    requires
        n <= 16,
    ensures
        final(buf)@ == old(buf)@ + le_bytes(x as nat, n as nat),
{
    let ghost start = buf@;
    let mut rest: u128 = x;
    let mut i: usize = 0;
    proof {
        assert(buf@ =~= start + le_bytes_prefix(x as nat, 0));
    }
    while i < n
        invariant
            i <= n,
            buf@ == start + le_bytes_prefix(x as nat, i as nat),
            rest as nat == shifted(x as nat, i as nat),
        decreases n - i,
    {
        let b: u8 = (rest % 256) as u8;
        buf.push(b);
        rest = rest / 256;
        i = i + 1;
        proof {
            assert(buf@ =~= start + le_bytes_prefix(x as nat, i as nat));
        }
    }
    proof {
        lemma_le_bytes_prefix_all(x as nat, n as nat);
    }
}

/// Appends the `n` low bytes of `x` to `buf`, most significant first.
pub fn append_be(buf: &mut Vec<u8>, x: u128, n: usize)
    requires
        n <= 16,
    ensures
        final(buf)@ == old(buf)@ + be_bytes(x as nat, n as nat),
{
    let ghost start = buf@;
    let mut le: Vec<u8> = Vec::new();
    append_le(&mut le, x, n);
    proof {
        lemma_le_bytes_len(x as nat, n as nat);
        assert(le@ =~= le_bytes(x as nat, n as nat));
    }
    let mut i: usize = n;
    while i > 0
        invariant
            i <= n,
            le@ == le_bytes(x as nat, n as nat),
            le@.len() == n,
            buf@ == start + le@.reverse().subrange(0, n - i),
        decreases i,
    {
        i = i - 1;
        buf.push(le[i]);
        proof {
            assert(buf@ =~= start + le@.reverse().subrange(0, n - i));
        }
    }
    proof {
        assert(le@.reverse().subrange(0, n as int) =~= le@.reverse());
    }
}

/// Appends a byte string to `buf`.
pub fn append_bytes(buf: &mut Vec<u8>, bytes: &[u8])
    ensures
        final(buf)@ == old(buf)@ + bytes@,
{
    let ghost start = buf@;
    let mut i: usize = 0;
    proof {
        assert(buf@ =~= start + bytes@.subrange(0, 0));
    }
    while i < bytes.len()
        invariant
            i <= bytes.len(),
            buf@ == start + bytes@.subrange(0, i as int),
        decreases bytes.len() - i,
    {
        buf.push(bytes[i]);
        i = i + 1;
        proof {
            assert(buf@ =~= start + bytes@.subrange(0, i as int));
        }
    }
    proof {
        assert(bytes@.subrange(0, bytes@.len() as int) =~= bytes@);
    }
}

/// Whether two byte strings are equal.
pub fn bytes_equal(a: &[u8], b: &[u8]) -> (r: bool)
    ensures
        r == (a@ == b@),
{
    if a.len() != b.len() {
        return false;
    }
    let mut i: usize = 0;
    while i < a.len()
        invariant
            i <= a.len(),
            a.len() == b.len(),
            forall|j: int| 0 <= j < i ==> a@[j] == b@[j],
        decreases a.len() - i,
    {
        if a[i] != b[i] {
            return false;
        }
        i = i + 1;
    }
    proof {
        assert(a@ =~= b@);
    }
    true
}

/// `x` with its `i` low bytes dropped.
spec fn shifted(x: nat, i: nat) -> nat
    decreases i,
{
    if i == 0 {
        x
    } else {
        shifted(x, (i - 1) as nat) / 256
    }
}

/// The first `i` little-endian bytes of `x`.
spec fn le_bytes_prefix(x: nat, i: nat) -> Seq<u8>
    decreases i,
{
    if i == 0 {
        Seq::empty()
    } else {
        le_bytes_prefix(x, (i - 1) as nat).push((shifted(x, (i - 1) as nat) % 256) as u8)
    }
}

/// The prefix of a number's bytes is its lowest byte, then the prefix of the
/// bytes of the rest.
proof fn lemma_le_bytes_prefix_shift(x: nat, i: nat)
    ensures
        le_bytes_prefix(x, i + 1) == le_bytes_prefix(x / 256, i).insert(0, (x % 256) as u8),
        shifted(x, i + 1) == shifted(x / 256, i),
    decreases i,
{
    if i == 0 {
        assert(le_bytes_prefix(x, 0) =~= Seq::<u8>::empty());
        assert(le_bytes_prefix(x, 1) =~= Seq::<u8>::empty().push((x % 256) as u8));
        assert(le_bytes_prefix(x / 256, 0).insert(0, (x % 256) as u8) =~= le_bytes_prefix(x, 1));
        assert(shifted(x, 1) == shifted(x, 0) / 256);
    } else {
        lemma_le_bytes_prefix_shift(x, (i - 1) as nat);
        let b = (shifted(x, i) % 256) as u8;
        assert(le_bytes_prefix(x, i + 1) == le_bytes_prefix(x, i).push(b));
        assert(le_bytes_prefix(x / 256, i) == le_bytes_prefix(x / 256, (i - 1) as nat).push(
            (shifted(x / 256, (i - 1) as nat) % 256) as u8,
        ));
        assert(le_bytes_prefix(x / 256, (i - 1) as nat).insert(0, (x % 256) as u8).push(b)
            =~= le_bytes_prefix(x / 256, (i - 1) as nat).push(b).insert(0, (x % 256) as u8));
    }
}

/// The prefix of full length is the little-endian layout.
proof fn lemma_le_bytes_prefix_all(x: nat, n: nat)
    ensures
        le_bytes_prefix(x, n) == le_bytes(x, n),
    decreases n,
{
    if n > 0 {
        lemma_le_bytes_prefix_all(x / 256, (n - 1) as nat);
        lemma_le_bytes_prefix_shift(x, (n - 1) as nat);
    }
}

} // verus!
