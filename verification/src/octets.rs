//! Byte strings: big-endian numbers, prefixes and copies.
use vstd::prelude::*;

verus! {

/// 256 to the power `n`.
pub open spec fn pow256(n: nat) -> nat
    decreases n,
{
    if n == 0 {
        1
    } else {
        256 * pow256((n - 1) as nat)
    }
}

/// The number that a big-endian byte string stands for.
pub open spec fn be_nat(s: Seq<u8>) -> nat
    decreases s.len(),
{
    if s.len() == 0 {
        0
    } else {
        256 * be_nat(s.drop_last()) + s.last() as nat
    }
}

/// The last `n` big-endian bytes of a number.
pub open spec fn be_bytes(v: nat, n: nat) -> Seq<u8>
    decreases n,
{
    if n == 0 {
        Seq::empty()
    } else {
        be_bytes(v / 256, (n - 1) as nat).push((v % 256) as u8)
    }
}

/// Writing a number that fits and reading it back gives the number.
pub proof fn lemma_be_nat_of_bytes(v: nat, n: nat)
    requires
        v < pow256(n),
    ensures
        be_bytes(v, n).len() == n,
        be_nat(be_bytes(v, n)) == v,
    decreases n,
{
    if n > 0 {
        assert(v / 256 < pow256((n - 1) as nat));
        lemma_be_nat_of_bytes(v / 256, (n - 1) as nat);
        assert(be_bytes(v, n).drop_last() =~= be_bytes(v / 256, (n - 1) as nat));
    }
}

/// Reading a byte string and writing the number again gives the bytes.
pub proof fn lemma_be_bytes_of_nat(s: Seq<u8>)
    ensures
        be_nat(s) < pow256(s.len()),
        be_bytes(be_nat(s), s.len()) == s,
    decreases s.len(),
{
    if s.len() > 0 {
        let d = s.drop_last();
        lemma_be_bytes_of_nat(d);
        let v = be_nat(d);
        let x = s.last() as nat;
        let w = be_nat(s);
        let p = pow256(d.len());
        assert(d.len() == s.len() - 1);
        assert(w == 256 * v + x);
        assert(w < 256 * p);
        assert(pow256(s.len()) == 256 * p);
        assert(w / 256 == v && w % 256 == x);
        assert(be_bytes(w, s.len()) == be_bytes(v, d.len()).push(x as u8));
        assert(s =~= d.push(s.last()));
    } else {
        assert(be_bytes(be_nat(s), 0) =~= s);
    }
}

/// The length of written bytes.
pub proof fn lemma_be_bytes_len(v: nat, n: nat)
    ensures
        be_bytes(v, n).len() == n,
    decreases n,
{
    if n > 0 {
        lemma_be_bytes_len(v / 256, (n - 1) as nat);
    }
}

/// The sizes that are read and written here.
pub proof fn lemma_pow256()
    ensures
        pow256(1) == 256,
        pow256(2) == 0x10000,
        pow256(4) == 0x1_0000_0000,
        pow256(8) == 0x1_0000_0000_0000_0000,
{
    reveal_with_fuel(pow256, 9);
}

/// Longer byte strings allow larger numbers.
pub proof fn lemma_pow256_mono(a: nat, b: nat)
    requires
        a <= b,
    ensures
        pow256(a) <= pow256(b),
    decreases b,
{
    if a < b {
        lemma_pow256_mono(a, (b - 1) as nat);
    }
}

/// Appends the last `n` big-endian bytes of `v`.
pub fn push_be(out: &mut Vec<u8>, v: u64, n: usize)
    ensures
        final(out)@ == old(out)@ + be_bytes(v as nat, n as nat),
    decreases n,
{
    if n == 0 {
        proof {
            assert(out@ + be_bytes(v as nat, 0) =~= out@);
        }
        return ;
    }
    push_be(out, v / 256, n - 1);
    out.push((v % 256) as u8);
    proof {
        assert(out@ =~= old(out)@ + be_bytes(v as nat, n as nat));
    }
}

/// Reads the big-endian number in `s[from..to]`.
pub fn read_be(s: &[u8], from: usize, to: usize) -> (r: u64)
    requires
        from <= to <= s@.len(),
        to - from <= 8,
    ensures
        r == be_nat(s@.subrange(from as int, to as int)),
{
    let mut v: u64 = 0;
    let mut i: usize = from;
    proof {
        lemma_pow256();
        assert(s@.subrange(from as int, from as int) =~= Seq::<u8>::empty());
    }
    while i < to
        invariant
            from <= i <= to <= s@.len(),
            to - from <= 8,
            v == be_nat(s@.subrange(from as int, i as int)),
            pow256(8) == 0x1_0000_0000_0000_0000,
        decreases to - i,
    {
        let ghost t = s@.subrange(from as int, i as int + 1);
        proof {
            assert(t.drop_last() =~= s@.subrange(from as int, i as int));
            assert(t.last() == s@[i as int]);
            lemma_be_bytes_of_nat(t);
            lemma_pow256_mono(t.len(), 8);
            assert(be_nat(t) == 256 * v + s@[i as int]);
        }
        v = v * 256 + s[i] as u64;
        i = i + 1;
    }
    v
}

/// Appends `s[from..to]`.
pub fn push_range(out: &mut Vec<u8>, s: &[u8], from: usize, to: usize)
    requires
        from <= to <= s@.len(),
    ensures
        final(out)@ == old(out)@ + s@.subrange(from as int, to as int),
{
    let mut i: usize = from;
    proof {
        assert(out@ + s@.subrange(from as int, from as int) =~= out@);
    }
    while i < to
        invariant
            from <= i <= to <= s@.len(),
            out@ == old(out)@ + s@.subrange(from as int, i as int),
        decreases to - i,
    {
        out.push(s[i]);
        proof {
            assert(out@ =~= old(out)@ + s@.subrange(from as int, i as int + 1));
        }
        i = i + 1;
    }
}

/// A copy of `s[from..to]`.
pub fn sub_bytes(s: &[u8], from: usize, to: usize) -> (r: Vec<u8>)
    requires
        from <= to <= s@.len(),
    ensures
        r@ == s@.subrange(from as int, to as int),
{
    let mut r: Vec<u8> = Vec::new();
    push_range(&mut r, s, from, to);
    proof {
        assert(r@ =~= s@.subrange(from as int, to as int));
    }
    r
}

/// A copy of a byte slice.
pub fn copy_bytes(s: &[u8]) -> (r: Vec<u8>)
    ensures
        r@ == s@,
{
    let r = sub_bytes(s, 0, s.len());
    proof {
        assert(r@ =~= s@);
    }
    r
}

/// Appends all of `s`.
pub fn push_bytes(out: &mut Vec<u8>, s: &[u8])
    ensures
        final(out)@ == old(out)@ + s@,
{
    push_range(out, s, 0, s.len());
    proof {
        assert(s@.subrange(0, s@.len() as int) =~= s@);
    }
}

/// Whether `s` begins with `p`.
pub open spec fn has_prefix(s: Seq<u8>, p: Seq<u8>) -> bool {
    p.len() <= s.len() && s.take(p.len() as int) == p
}

/// Whether a byte string begins with `p`.
pub fn bytes_start_with(s: &[u8], p: &[u8]) -> (r: bool)
    ensures
        r == has_prefix(s@, p@),
{
    if s.len() < p.len() {
        return false;
    }
    let mut i: usize = 0;
    while i < p.len()
        invariant
            i <= p@.len() <= s@.len(),
            forall|j: int| 0 <= j < i ==> s@[j] == #[trigger] p@[j],
        decreases p@.len() - i,
    {
        if s[i] != p[i] {
            proof {
                assert(s@.take(p@.len() as int)[i as int] == s@[i as int]);
            }
            return false;
        }
        i = i + 1;
    }
    proof {
        assert(s@.take(p@.len() as int) =~= p@);
    }
    true
}

/// Whether two byte strings are equal.
pub fn same_bytes(a: &[u8], b: &[u8]) -> (r: bool)
    ensures
        r == (a@ == b@),
{
    if a.len() != b.len() {
        return false;
    }
    let r = bytes_start_with(a, b);
    proof {
        assert(a@.take(b@.len() as int) =~= a@);
    }
    r
}

/// The number that a little-endian byte string stands for.
pub open spec fn le_nat(s: Seq<u8>) -> nat
    decreases s.len(),
{
    if s.len() == 0 {
        0
    } else {
        s[0] as nat + 256 * le_nat(s.skip(1))
    }
}

/// A little-endian number is smaller than its length allows.
pub proof fn lemma_le_nat_bound(s: Seq<u8>)
    ensures
        le_nat(s) < pow256(s.len()),
    decreases s.len(),
{
    if s.len() > 0 {
        lemma_le_nat_bound(s.skip(1));
    }
}

/// Reads the little-endian number in `s[from..to]`.
pub fn read_le(s: &[u8], from: usize, to: usize) -> (r: u64)
    requires
        from <= to <= s@.len(),
        to - from <= 8,
    ensures
        r == le_nat(s@.subrange(from as int, to as int)),
{
    let mut v: u64 = 0;
    let mut i: usize = to;
    proof {
        lemma_pow256();
        assert(s@.subrange(to as int, to as int) =~= Seq::<u8>::empty());
    }
    while i > from
        invariant
            from <= i <= to <= s@.len(),
            to - from <= 8,
            v == le_nat(s@.subrange(i as int, to as int)),
            pow256(8) == 0x1_0000_0000_0000_0000,
        decreases i,
    {
        let ghost t = s@.subrange(i - 1, to as int);
        proof {
            assert(t.skip(1) =~= s@.subrange(i as int, to as int));
            assert(t[0] == s@[i - 1]);
            lemma_le_nat_bound(t);
            lemma_pow256_mono(t.len(), 8);
        }
        i = i - 1;
        v = v * 256 + s[i] as u64;
    }
    v
}

/// Little-endian numbers have their lowest byte first, and bytes behind count from where they
/// stand.
pub proof fn law_little_endian_numbers(a: u8, b: u8, rest: Seq<u8>)
    ensures
        le_nat(Seq::empty()) == 0,
        le_nat(seq![a]) == a,
        le_nat(seq![a, b]) == a + 256 * b,
        le_nat(seq![a, b] + rest) == a + 256 * b + 65536 * le_nat(rest),
{
    let none = Seq::<u8>::empty();
    reveal_with_fuel(le_nat, 3);
    assert(seq![b].skip(1) =~= none);
    assert(le_nat(seq![b]) == b);
    assert(seq![a].skip(1) =~= none);
    assert(seq![a, b].skip(1) =~= seq![b]);
    let s = seq![a, b] + rest;
    assert(s.skip(1) =~= seq![b] + rest);
    assert(s.skip(1).skip(1) =~= rest);
}

/// A byte string begins with a prefix exactly where it is the prefix and something behind,
/// be it nothing.
pub proof fn law_prefixes_are_found(p: Seq<u8>, rest: Seq<u8>, s: Seq<u8>)
    ensures
        has_prefix(p + rest, p),
        has_prefix(p, p),
        has_prefix(s, p) ==> s == p + s.skip(p.len() as int),
        s.len() < p.len() ==> !has_prefix(s, p),
{
    assert((p + rest).take(p.len() as int) =~= p);
    assert(p.take(p.len() as int) =~= p);
    if has_prefix(s, p) {
        assert(s =~= s.take(p.len() as int) + s.skip(p.len() as int));
    }
}

} // verus!
