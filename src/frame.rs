use vstd::prelude::*;

verus! {

/// The unsigned integer that `s` writes in big-endian order.
pub open spec fn be_value(s: Seq<u8>) -> nat
    decreases s.len(),
{
    if s.len() == 0 {
        0
    } else {
        be_value(s.drop_last()) * 256 + s.last() as nat
    }
}

/// The total size, header included, that the header of the outer DER element
/// at the start of `b` declares.
///
/// The header is one identifier octet in the low tag number form, then a
/// definite length: one octet below 128 (the short form), or one octet
/// `128 + n` followed by `n` octets holding the length in big-endian order.
/// `None` where `b` ends inside that header or the identifier uses the high
/// tag number form.
pub open spec fn declared_size(b: Seq<u8>) -> Option<int> {
    if b.len() < 2 || b[0] % 32 == 31 {
        None
    } else if b[1] < 128 {
        Some(2 + b[1] as int)
    } else {
        let n = b[1] as int - 128;
        if b.len() < 2 + n {
            None
        } else {
            Some(2 + n + be_value(b.subrange(2, 2 + n)))
        }
    }
}

/// `b` is exactly one DER element: its outer header declares the length of
/// `b` itself, with nothing missing and nothing after it.
pub open spec fn is_single_element(b: Seq<u8>) -> bool {
    declared_size(b) == Some(b.len() as int)
}

/// A prefix of a byte string never has a larger big-endian value.
pub proof fn lemma_be_value_prefix_le(s: Seq<u8>, k: int)
    requires
        0 <= k <= s.len(),
    ensures
        be_value(s.subrange(0, k)) <= be_value(s),
    decreases s.len(),
{
    if k == s.len() {
        assert(s.subrange(0, k) =~= s);
    } else {
        let d = s.drop_last();
        lemma_be_value_prefix_le(d, k);
        assert(d.subrange(0, k) =~= s.subrange(0, k));
    }
}

/// Bytes appended after a complete header leave the declared size unchanged.
pub proof fn lemma_declared_size_extend(b: Seq<u8>, extra: Seq<u8>)
    requires
        declared_size(b) is Some,
    ensures
        declared_size(b + extra) == declared_size(b),
{
    let c = b + extra;
    if b[1] >= 128 {
        let n = b[1] as int - 128;
        assert(c.subrange(2, 2 + n) =~= b.subrange(2, 2 + n));
    }
}

/// Every proper prefix of a single DER element falls short of the size that
/// its header declares, or ends inside the header.
pub proof fn lemma_declared_size_truncate(b: Seq<u8>, i: int)
    requires
        is_single_element(b),
        0 <= i < b.len(),
    ensures
        !is_single_element(b.subrange(0, i)),
{
    let t = b.subrange(0, i);
    if i >= 2 && b[1] >= 128 {
        let n = b[1] as int - 128;
        if i >= 2 + n {
            assert(t.subrange(2, 2 + n) =~= b.subrange(2, 2 + n));
        }
    }
}

/// Tells whether `b` is exactly one DER element, by its outer header alone.
pub fn is_single_der_element(b: &[u8]) -> (r: bool)
    ensures
        r == is_single_element(b@),
{
    let len = b.len();
    if len < 2 || b[0] % 32 == 31 {
        return false;
    }
    let first = b[1];
    if first < 128 {
        return len == 2 + first as usize;
    }
    let n = (first - 128) as usize;
    if len < 2 + n {
        return false;
    }
    let ghost digits = b@.subrange(2, 2 + n as int);
    let mut v: u128 = 0;
    let mut i: usize = 0;
    while i < n
        invariant
            i <= n,
            2 + n <= len,
            len == b@.len(),
            b@[0] % 32 != 31,
            b@[1] == first,
            first >= 128,
            n == first - 128,
            digits == b@.subrange(2, 2 + n as int),
            v as nat == be_value(digits.subrange(0, i as int)),
            v <= len,
        decreases n - i,
    {
        assert(v * 256 <= 0xffff_ffff_ffff_ffffu128 * 256) by (nonlinear_arith)
            requires
                v <= 0xffff_ffff_ffff_ffffu128,
        ;
        let next: u128 = v * 256 + b[2 + i] as u128;
        proof {
            assert(digits.subrange(0, i + 1).drop_last() =~= digits.subrange(0, i as int));
            assert(digits[i as int] == b@[2 + i as int]);
            assert(be_value(digits.subrange(0, i + 1)) == next as nat);
        }
        if next > len as u128 {
            proof {
                lemma_be_value_prefix_le(digits, i + 1);
            }
            return false;
        }
        v = next;
        i = i + 1;
    }
    proof {
        assert(digits.subrange(0, n as int) =~= digits);
    }
    len as u128 == 2 + n as u128 + v
}

} // verus!
