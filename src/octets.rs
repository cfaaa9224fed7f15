//! Big-endian integers as octet sequences, and IP addresses as plain values.
use vstd::prelude::*;

verus! {

/// The `n` low-order octets of `x`, most significant first.
pub open spec fn be_octets(x: nat, n: nat) -> Seq<u8>
    decreases n,
{
    if n == 0 {
        Seq::empty()
    } else {
        be_octets(x / 256, (n - 1) as nat).push((x % 256) as u8)
    }
}

/// The unsigned integer that a big-endian octet sequence denotes.
pub open spec fn be_value(s: Seq<u8>) -> nat
    decreases s.len(),
{
    if s.len() == 0 {
        0
    } else {
        be_value(s.drop_last()) * 256 + s.last() as nat
    }
}

pub open spec fn pow256(n: nat) -> nat
    decreases n,
{
    if n == 0 {
        1
    } else {
        256 * pow256((n - 1) as nat)
    }
}

pub broadcast proof fn lemma_be_octets_len(x: nat, n: nat)
    ensures
        #[trigger] be_octets(x, n).len() == n,
    decreases n,
{
    if n > 0 {
        lemma_be_octets_len(x / 256, (n - 1) as nat);
    }
}

/// Reading back `n` octets written from `x < 256^n` gives `x`.
pub proof fn lemma_be_round_trip(x: nat, n: nat)
    requires
        x < pow256(n),
    ensures
        be_value(be_octets(x, n)) == x,
    decreases n,
{
    if n > 0 {
        let m = (n - 1) as nat;
        assert(x / 256 < pow256(m)) by (nonlinear_arith)
            requires
                x < 256 * pow256(m),
        ;
        lemma_be_round_trip(x / 256, m);
        let s = be_octets(x, n);
        assert(s.drop_last() =~= be_octets(x / 256, m));
        assert(x == (x / 256) * 256 + x % 256) by (nonlinear_arith);
    }
}

pub proof fn lemma_be_value_bound(s: Seq<u8>)
    ensures
        be_value(s) < pow256(s.len()),
    decreases s.len(),
{
    if s.len() > 0 {
        lemma_be_value_bound(s.drop_last());
        let a = be_value(s.drop_last());
        let p = pow256((s.len() - 1) as nat);
        let c = s.last() as nat;
        assert(a * 256 + c < 256 * p) by (nonlinear_arith)
            requires
                a < p,
                c < 256,
        ;
    }
}

/// Reads `n` (at most 8) octets from `start` as a big-endian integer.
pub fn read_be(b: &[u8], start: usize, n: usize) -> (r: u64)
    requires
        n <= 8,
        start + n <= b@.len(),
    ensures
        r as nat == be_value(b@.subrange(start as int, start + n)),
{
    let mut acc: u64 = 0;
    let mut i: usize = start;
    proof {
        lemma_pow256_values();
        assert(b@.subrange(start as int, start as int) =~= Seq::<u8>::empty());
    }
    let len = b.len();
    assert(start + n <= len);
    let end = start + n;
    while i < end
        invariant
            end == start + n,
            start <= i <= start + n,
            start + n <= b@.len(),
            n <= 8,
            acc as nat == be_value(b@.subrange(start as int, i as int)),
            pow256(8) == 0x1_0000_0000_0000_0000,
        decreases end - i,
    {
        proof {
            let s = b@.subrange(start as int, i + 1);
            assert(s.drop_last() =~= b@.subrange(start as int, i as int));
            lemma_be_value_bound(s);
            lemma_pow256_mono(s.len(), 8);
        }
        acc = acc * 256 + b[i] as u64;
        i = i + 1;
    }
    acc
}

/// Reads `n` (at most 16) octets from `start` as a big-endian integer.
pub fn read_be_wide(b: &[u8], start: usize, n: usize) -> (r: u128)
    requires
        n <= 16,
        start + n <= b@.len(),
    ensures
        r as nat == be_value(b@.subrange(start as int, start + n)),
{
    let mut acc: u128 = 0;
    let mut i: usize = start;
    proof {
        lemma_pow256_values();
        assert(b@.subrange(start as int, start as int) =~= Seq::<u8>::empty());
    }
    let len = b.len();
    assert(start + n <= len);
    let end = start + n;
    while i < end
        invariant
            end == start + n,
            start <= i <= start + n,
            start + n <= b@.len(),
            n <= 16,
            acc as nat == be_value(b@.subrange(start as int, i as int)),
            pow256(16) == 0x1_0000_0000_0000_0000_0000_0000_0000_0000,
        decreases end - i,
    {
        proof {
            let s = b@.subrange(start as int, i + 1);
            assert(s.drop_last() =~= b@.subrange(start as int, i as int));
            lemma_be_value_bound(s);
            lemma_pow256_mono(s.len(), 16);
        }
        acc = acc * 256 + b[i] as u128;
        i = i + 1;
    }
    acc
}

pub proof fn lemma_pow256_mono(a: nat, b: nat)
    requires
        a <= b,
    ensures
        pow256(a) <= pow256(b),
    decreases b,
{
    if a < b {
        lemma_pow256_mono(a, (b - 1) as nat);
    }
}

pub proof fn lemma_pow256_values()
    ensures
        pow256(1) == 0x100,
        pow256(2) == 0x1_0000,
        pow256(4) == 0x1_0000_0000,
        pow256(8) == 0x1_0000_0000_0000_0000,
        pow256(16) == 0x1_0000_0000_0000_0000_0000_0000_0000_0000,
{
    reveal_with_fuel(pow256, 17);
}

/// Writes the `n` low-order octets of `x`, most significant first.
pub fn be_bytes(x: u128, n: usize) -> (r: Vec<u8>)
    ensures
        r@ == be_octets(x as nat, n as nat),
{
    let mut v: Vec<u8> = Vec::new();
    let mut cur: u128 = x;
    let mut i: usize = 0;
    while i < n
        invariant
            i <= n,
            be_octets(x as nat, n as nat) == be_octets(cur as nat, (n - i) as nat) + v@,
        decreases n - i,
    {
        let b = (cur % 256) as u8;
        let ghost old_v = v@;
        let ghost old_cur = cur;
        v.insert(0, b);
        cur = cur / 256;
        assert(v@ =~= seq![b] + old_v);
        assert(be_octets(old_cur as nat, (n - i) as nat) == be_octets(cur as nat, (n - i - 1) as nat).push(b));
        assert(be_octets(cur as nat, (n - i - 1) as nat).push(b) + old_v =~= be_octets(cur as nat, (n - i - 1) as nat) + v@);
        i = i + 1;
    }
    v
}

/// An IPv4 or IPv6 address held as its numeric value.
#[derive(Debug, Clone, Copy, PartialEq, Eq, Structural, PartialOrd, Ord, Hash)]
pub enum IpAddress {
    V4(u32),
    V6(u128),
}

/// Octets of an address in network order.
pub open spec fn ip_octets(a: IpAddress) -> Seq<u8> {
    match a {
        IpAddress::V4(x) => be_octets(x as nat, 4),
        IpAddress::V6(x) => be_octets(x as nat, 16),
    }
}

impl IpAddress {
    /// An IPv4 address from its four octets.
    pub fn v4(a: u8, b: u8, c: u8, d: u8) -> (r: IpAddress)
        ensures
            r == IpAddress::V4((a as nat * 0x100_0000 + b as nat * 0x1_0000 + c as nat * 0x100 + d as nat) as u32),
    {
        IpAddress::V4(((a as u32) * 0x100_0000 + (b as u32) * 0x1_0000 + (c as u32) * 0x100 + d as u32))
    }

    /// The octets of the address in network order (4 or 16 of them).
    pub fn octets(&self) -> (r: Vec<u8>)
        ensures
            r@ == ip_octets(*self),
    {
        match self {
            IpAddress::V4(x) => be_bytes(*x as u128, 4),
            IpAddress::V6(x) => be_bytes(*x, 16),
        }
    }

}

} // verus!
