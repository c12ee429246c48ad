//! Base-128 variable-length integers: the length prefix of every record
//! on the wire.
//!
//! A value is emitted least-significant group first; every byte except the
//! last has its high bit set.

use vstd::prelude::*;

verus! {

/// The encoding of `n`, least-significant seven bits first.
pub open spec fn varint_enc(n: nat) -> Seq<u8>
    decreases n,
{
    if n < 128 {
        seq![n as u8]
    } else {
        seq![(128 + (n % 128)) as u8] + varint_enc(n / 128)
    }
}

/// Decode a varint from the front of `s`: the value and the number of
/// bytes consumed, or `None` if `s` ends inside the varint.
pub open spec fn varint_dec(s: Seq<u8>) -> Option<(nat, nat)>
    decreases s.len(),
{
    if s.len() == 0 {
        None
    } else if s[0] < 128 {
        Some((s[0] as nat, 1))
    } else {
        match varint_dec(s.drop_first()) {
            Some(pair) => Some((((s[0] - 128) + 128 * pair.0) as nat, pair.1 + 1)),
            None => None,
        }
    }
}

/// Decoding undoes encoding and consumes exactly the encoded bytes,
/// whatever follows them.
pub proof fn lemma_varint_round_trip(n: nat, rest: Seq<u8>)
    ensures
        varint_dec(varint_enc(n) + rest) == Some((n, varint_enc(n).len())),
    decreases n,
{
    let s = varint_enc(n) + rest;
    if n < 128 {
        assert(s[0] == n as u8);
    } else {
        lemma_varint_round_trip(n / 128, rest);
        assert(s[0] == (128 + (n % 128)) as u8);
        assert(s.drop_first() =~= varint_enc(n / 128) + rest);
        assert((s[0] - 128) + 128 * ((n / 128) as int) == n) by {
            assert(n % 128 + 128 * (n / 128) == n) by (nonlinear_arith);
        };
    }
}

/// Decoding fails exactly when every remaining byte carries the
/// continuation bit: the buffer ended inside the varint.
pub proof fn lemma_varint_dec_none_iff(s: Seq<u8>)
    ensures
        varint_dec(s) is None <==> forall|i: int| 0 <= i < s.len() ==> s[i] >= 128,
    decreases s.len(),
{
    if s.len() == 0 {
    } else if s[0] < 128 {
        assert(!(s[0] >= 128));
    } else {
        lemma_varint_dec_none_iff(s.drop_first());
        let t = s.drop_first();
        assert(forall|i: int| 0 <= i < t.len() ==> t[i] == s[i + 1]);
        if varint_dec(s) is None {
            assert forall|i: int| 0 <= i < s.len() implies s[i] >= 128 by {
                if i > 0 {
                    assert(s[i] == t[i - 1]);
                }
            }
        } else {
            let j = choose|i: int| 0 <= i < t.len() && !(t[i] >= 128);
            assert(s[j + 1] < 128);
        }
    }
}

/// True when every byte of `bytes` from `off` on has the continuation
/// bit set, so that no varint starting at `off` can terminate.
pub fn all_continuation(bytes: &Vec<u8>, off: usize) -> (r: bool)
    requires
        off <= bytes.len(),
    ensures
        r <==> forall|i: int| off <= i < bytes.len() ==> bytes@[i] >= 128,
{
    let mut i: usize = off;
    while i < bytes.len()
        invariant
            off <= i <= bytes.len(),
            forall|j: int| off <= j < i ==> bytes@[j] >= 128,
        decreases bytes.len() - i,
    {
        if bytes[i] < 128 {
            return false;
        }
        i = i + 1;
    }
    true
}

/// Append the varint encoding of `n` to `out`.
pub fn varint_write(out: &mut Vec<u8>, n: u64)
    ensures
        final(out)@ == old(out)@ + varint_enc(n as nat),
{
    let ghost prefix = out@;
    let mut cur: u64 = n;
    loop
        invariant_except_break
            prefix + varint_enc(n as nat) == out@ + varint_enc(cur as nat),
        ensures
            out@ == prefix + varint_enc(n as nat),
        decreases cur,
    {
        if cur < 128 {
            let ghost before = out@;
            out.push(cur as u8);
            proof {
                assert(varint_enc(cur as nat) =~= seq![cur as u8]);
                assert(before + varint_enc(cur as nat) =~= out@);
                assert(out@ =~= prefix + varint_enc(n as nat));
            }
            break;
        } else {
            let byte: u8 = 128 + (cur % 128) as u8;
            let ghost before = out@;
            out.push(byte);
            proof {
                assert(varint_enc(cur as nat) =~= seq![byte] + varint_enc((cur / 128) as nat));
                assert(before + varint_enc(cur as nat) =~= out@ + varint_enc((cur / 128) as nat));
                assert(prefix + varint_enc(n as nat) =~= out@ + varint_enc((cur / 128) as nat));
            }
            cur = cur / 128;
        }
    }
}

/// Decode a varint at offset `off` of `bytes`.  Returns the value and the
/// offset just past it.  `None` exactly when the buffer ends inside the
/// varint or the value does not fit in a `u64`.
pub fn varint_read(bytes: &Vec<u8>, off: usize) -> (r: Option<(u64, usize)>)
    requires
        off <= bytes.len(),
    ensures
        match r {
            Some(pair) => {
                &&& varint_dec(bytes@.skip(off as int)) == Some(
                    (pair.0 as nat, (pair.1 - off) as nat),
                )
                &&& off < pair.1 <= bytes.len()
            },
            None => match varint_dec(bytes@.skip(off as int)) {
                Some(pair) => pair.0 > u64::MAX,
                None => true,
            },
        },
    decreases bytes.len() - off,
{
    if off >= bytes.len() {
        proof {
            assert(bytes@.skip(off as int).len() == 0);
        }
        return None;
    }
    let b = bytes[off];
    let ghost s = bytes@.skip(off as int);
    proof {
        assert(s[0] == b);
    }
    if b < 128 {
        Some((b as u64, off + 1))
    } else {
        let tail = varint_read(bytes, off + 1);
        proof {
            assert(s.drop_first() =~= bytes@.skip(off as int + 1));
        }
        match tail {
            None => None,
            Some((v, end)) => {
                let low: u64 = (b - 128) as u64;
                if v > (u64::MAX - low) / 128 {
                    proof {
                        let inner = varint_dec(s.drop_first());
                        assert((s[0] - 128) + 128 * inner->Some_0.0 > u64::MAX) by (nonlinear_arith)
                            requires
                                inner->Some_0.0 == v as nat,
                                v as nat > ((u64::MAX - low) as nat) / 128,
                                s[0] == b,
                                low == b - 128,
                                128 <= b <= 255,
                        ;
                    }
                    None
                } else {
                    let value: u64 = low + 128 * v;
                    Some((value, end))
                }
            },
        }
    }
}

} // verus!
