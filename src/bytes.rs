use vstd::arithmetic::div_mod::{lemma_fundamental_div_mod, lemma_fundamental_div_mod_converse};
use vstd::prelude::*;

verus! {

/// `256^n`.
pub open spec fn pow256(n: nat) -> nat
    decreases n,
{
    if n == 0 {
        1
    } else {
        256 * pow256((n - 1) as nat)
    }
}

/// The number that a little-endian byte string denotes.
pub open spec fn le_value(s: Seq<u8>) -> nat
    decreases s.len(),
{
    if s.len() == 0 {
        0
    } else {
        s[0] as nat + 256 * le_value(s.drop_first())
    }
}

/// The `n` low-order bytes of `v`, least significant first.
pub open spec fn le_bytes(v: nat, n: nat) -> Seq<u8>
    decreases n,
{
    if n == 0 {
        Seq::empty()
    } else {
        seq![(v % 256) as u8] + le_bytes(v / 256, (n - 1) as nat)
    }
}

pub proof fn lemma_pow256_values()
    ensures
        pow256(8) == 0x1_0000_0000_0000_0000,
        pow256(16) == 0x1_0000_0000_0000_0000_0000_0000_0000_0000,
{
    reveal_with_fuel(pow256, 17);
}

pub proof fn lemma_pow256_mono(a: nat, b: nat)
    requires
        a <= b,
    ensures
        pow256(a) <= pow256(b),
    decreases b,
{
    if a < b {
        lemma_pow256_mono(a, (b - 1) as nat);
    }
}

pub proof fn lemma_le_bytes_len(v: nat, n: nat)
    ensures
        le_bytes(v, n).len() == n,
    decreases n,
{
    if n > 0 {
        lemma_le_bytes_len(v / 256, (n - 1) as nat);
    }
}

pub proof fn lemma_le_value_bound(s: Seq<u8>)
    ensures
        le_value(s) < pow256(s.len()),
    decreases s.len(),
{
    if s.len() > 0 {
        lemma_le_value_bound(s.drop_first());
        let w = le_value(s.drop_first());
        let p = pow256((s.len() - 1) as nat);
        assert(s[0] as nat + 256 * w < 256 * p) by (nonlinear_arith)
            requires
                w < p,
                s[0] < 256,
        ;
    }
}

/// Writing a value below `256^n` as `n` bytes and reading them back gives it.
pub proof fn lemma_le_value_of_bytes(v: nat, n: nat)
    requires
        v < pow256(n),
    ensures
        le_value(le_bytes(v, n)) == v,
    decreases n,
{
    if n > 0 {
        let p = pow256((n - 1) as nat);
        assert(v / 256 < p) by (nonlinear_arith)
            requires
                v < 256 * p,
        ;
        lemma_le_value_of_bytes(v / 256, (n - 1) as nat);
        let s = le_bytes(v, n);
        assert(s.drop_first() =~= le_bytes(v / 256, (n - 1) as nat));
        assert(v == v % 256 + 256 * (v / 256)) by (nonlinear_arith);
    }
}

/// Reading bytes as a number and writing it back with as many bytes gives them.
pub proof fn lemma_le_bytes_of_value(s: Seq<u8>)
    ensures
        le_bytes(le_value(s), s.len()) == s,
    decreases s.len(),
{
    if s.len() > 0 {
        let t = s.drop_first();
        let w = le_value(t);
        let v = le_value(s);
        lemma_le_bytes_of_value(t);
        let b = s[0] as nat;
        assert(v % 256 == b && v / 256 == w) by (nonlinear_arith)
            requires
                v == b + 256 * w,
                b < 256,
        ;
        assert(le_bytes(v, s.len()) =~= s);
    }
}

/// The bytes of `a + b * 256^k`, for `a` below `256^k`, are those of `a`
/// followed by those of `b`.
pub proof fn lemma_le_bytes_split(a: nat, b: nat, k: nat, m: nat)
    requires
        a < pow256(k),
    ensures
        le_bytes(a + b * pow256(k), k + m) == le_bytes(a, k) + le_bytes(b, m),
    decreases k,
{
    if k == 0 {
        assert(le_bytes(a, 0) + le_bytes(b, m) =~= le_bytes(b, m));
    } else {
        let p = pow256((k - 1) as nat);
        let c = b * p;
        assert(b * pow256(k) == 256 * c) by (nonlinear_arith)
            requires
                pow256(k) == 256 * p,
                c == b * p,
        ;
        let v = a + b * pow256(k);
        lemma_fundamental_div_mod(a as int, 256);
        lemma_fundamental_div_mod_converse(v as int, 256, (a / 256 + c) as int, (a % 256) as int);
        assert(a / 256 < p) by (nonlinear_arith)
            requires
                a < 256 * p,
        ;
        lemma_le_bytes_split(a / 256, b, (k - 1) as nat, m);
        assert((k + m - 1) as nat == (k - 1) as nat + m);
        assert(le_bytes(v, k + m) =~= le_bytes(a, k) + le_bytes(b, m));
    }
}

/// Appends the `n` low-order bytes of `v` to `out`, least significant first.
pub fn push_le(out: &mut Vec<u8>, v: u128, n: usize)
    ensures
        final(out)@ == old(out)@ + le_bytes(v as nat, n as nat),
{
    let ghost start = old(out)@;
    let mut rest: u128 = v;
    let mut i: usize = 0;
    while i < n
        invariant
            i <= n,
            start + le_bytes(v as nat, n as nat) == out@ + le_bytes(rest as nat, (n - i) as nat),
        decreases n - i,
    {
        let b: u8 = (rest % 256) as u8;
        proof {
            let tail = le_bytes((rest / 256) as nat, (n - i - 1) as nat);
            assert(le_bytes(rest as nat, (n - i) as nat) == seq![b] + tail);
            assert(out@ + (seq![b] + tail) =~= out@.push(b) + tail);
        }
        out.push(b);
        rest = rest / 256;
        i = i + 1;
    }
    assert(out@ + le_bytes(rest as nat, 0) =~= out@);
}

/// Reads the `n` bytes of `s` at `off` as a little-endian number.
pub fn read_le(s: &[u8], off: usize, n: usize) -> (r: u128)
    requires
        n <= 16,
        off + n <= s@.len(),
    ensures
        r as nat == le_value(s@.subrange(off as int, off + n)),
        (r as nat) < pow256(n as nat),
{
    proof {
        lemma_pow256_values();
    }
    let len = s.len();
    let mut acc: u128 = 0;
    let mut i: usize = n;
    while i > 0
        invariant
            i <= n <= 16,
            off + n <= s@.len() == len,
            acc as nat == le_value(s@.subrange(off + i, off + n)),
            (acc as nat) < pow256((n - i) as nat),
            pow256(16) == 0x1_0000_0000_0000_0000_0000_0000_0000_0000,
        decreases i,
    {
        let b = s[off + (i - 1)];
        proof {
            let p = pow256((n - i) as nat);
            lemma_pow256_mono((n - i + 1) as nat, 16);
            assert(acc * 256 + b < 256 * p) by (nonlinear_arith)
                requires
                    acc < p,
                    b < 256,
            ;
            let t = s@.subrange(off + i - 1, off + n);
            assert(t.drop_first() =~= s@.subrange(off + i, off + n));
        }
        acc = acc * 256 + b as u128;
        i = i - 1;
    }
    acc
}

} // verus!
