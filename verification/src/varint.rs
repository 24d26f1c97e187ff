//! Base-128 variable-length integers, the scalar building block of the wire
//! format: each byte carries seven value bits, the high bit says whether more
//! bytes follow.

use vstd::prelude::*;

verus! {

/// The unique minimal base-128 encoding of `v`, least significant group
/// first; every byte but the last has its high bit set.
pub open spec fn varint(v: u64) -> Seq<u8>
    decreases v,
{
    if v < 128 {
        seq![v as u8]
    } else {
        seq![(v % 128 + 128) as u8] + varint((v / 128) as u64)
    }
}

/// `varint(v)` occupies bytes `i .. i + varint(v).len()` of `b`.
pub open spec fn varint_at(b: Seq<u8>, i: int, v: u64) -> bool {
    0 <= i && i + varint(v).len() <= b.len() && b.subrange(i, i + varint(v).len()) == varint(v)
}

proof fn lemma_varint_len(v: u64)
    ensures
        1 <= varint(v).len() <= 10,
    decreases v,
{
    if v >= 128 {
        lemma_varint_len(v / 128);
        if varint(v).len() == 11 {
            lemma_varint_len_bound(v, 10);
            assert(pow128(10) == 1180591620717411303424) by {
                reveal_with_fuel(pow128, 11);
            }
        }
    }
}

/// If `varint(v)` is longer than `k` bytes then `v` is at least `128^k`.
proof fn lemma_varint_len_bound(v: u64, k: nat)
    requires
        k >= 1,
        varint(v).len() > k,
    ensures
        v >= pow128(k),
    decreases k,
{
    assert(v >= 128) by {
        if v < 128 {
            assert(varint(v).len() == 1);
        }
    }
    assert(varint(v).len() == 1 + varint((v / 128) as u64).len());
    if k > 1 {
        lemma_varint_len_bound(v / 128, (k - 1) as nat);
        assert(pow128(k) == 128 * pow128((k - 1) as nat));
        assert(v >= 128 * pow128((k - 1) as nat)) by {
            assert(v / 128 >= pow128((k - 1) as nat));
            assert(v >= 128 * (v / 128));
            assert(128 * (v / 128) >= 128 * pow128((k - 1) as nat)) by (nonlinear_arith)
                requires
                    v / 128 >= pow128((k - 1) as nat),
            ;
        }
    } else {
        assert(pow128(1) == 128 * pow128(0));
    }
}

spec fn pow128(k: nat) -> int
    decreases k,
{
    if k == 0 {
        1
    } else {
        128 * pow128((k - 1) as nat)
    }
}

/// At one position only one value's encoding can start: the continuation
/// bits fix the length and the payload bits fix the value.
pub proof fn lemma_varint_prefix_free(b: Seq<u8>, i: int, v1: u64, v2: u64)
    requires
        varint_at(b, i, v1),
        varint_at(b, i, v2),
    ensures
        v1 == v2,
    decreases v1,
{
    assert(b[i] == varint(v1)[0]);
    assert(b[i] == varint(v2)[0]);
    if v1 < 128 {
        if v2 >= 128 {
            assert(varint(v2)[0] == (v2 % 128 + 128) as u8);
            assert(false);
        }
    } else {
        if v2 < 128 {
            assert(varint(v1)[0] == (v1 % 128 + 128) as u8);
            assert(false);
        } else {
            assert(varint(v1)[0] == (v1 % 128 + 128) as u8);
            assert(varint(v2)[0] == (v2 % 128 + 128) as u8);
            assert(v1 % 128 == v2 % 128);
            assert(varint_at(b, i + 1, (v1 / 128) as u64)) by {
                assert(b.subrange(i + 1, i + 1 + varint((v1 / 128) as u64).len())
                    =~= varint(v1).subrange(1, varint(v1).len() as int));
                assert(varint(v1).subrange(1, varint(v1).len() as int)
                    =~= varint((v1 / 128) as u64));
            }
            assert(varint_at(b, i + 1, (v2 / 128) as u64)) by {
                assert(b.subrange(i + 1, i + 1 + varint((v2 / 128) as u64).len())
                    =~= varint(v2).subrange(1, varint(v2).len() as int));
                assert(varint(v2).subrange(1, varint(v2).len() as int)
                    =~= varint((v2 / 128) as u64));
            }
            lemma_varint_prefix_free(b, i + 1, (v1 / 128) as u64, (v2 / 128) as u64);
            assert(v1 == v1 % 128 + 128 * (v1 / 128));
            assert(v2 == v2 % 128 + 128 * (v2 / 128));
        }
    }
}

/// Appends the encoding of `v` to `out`.
pub fn encode_varint(out: &mut Vec<u8>, v: u64)
    ensures
        final(out)@ == old(out)@ + varint(v),
    decreases v,
{
    if v < 128 {
        out.push(v as u8);
        assert(out@ =~= old(out)@ + varint(v));
    } else {
        out.push((v % 128 + 128) as u8);
        encode_varint(out, v / 128);
        assert(out@ =~= old(out)@ + varint(v));
    }
}

/// Reads the encoding that starts at `b[i]`, if any; `None` exactly when no
/// `u64`'s encoding lies there.
pub fn decode_varint(b: &Vec<u8>, i: usize) -> (r: Option<(u64, usize)>)
    requires
        i <= b@.len(),
    ensures
        match r {
            Some(p) => {
                &&& i < p.1 <= b@.len()
                &&& varint_at(b@, i as int, p.0)
                &&& p.1 - i == varint(p.0).len()
            },
            None => forall|v: u64| !varint_at(b@, i as int, v),
        },
    decreases b@.len() - i,
{
    if i >= b.len() {
        proof {
            assert forall|v: u64| !varint_at(b@, i as int, v) by {
                lemma_varint_len(v);
            }
        }
        return None;
    }
    let byte = b[i];
    if byte < 128 {
        proof {
            assert(b@.subrange(i as int, i + 1) =~= varint(byte as u64));
        }
        Some((byte as u64, i + 1))
    } else {
        match decode_varint(b, i + 1) {
            None => {
                proof {
                    assert forall|v: u64| !varint_at(b@, i as int, v) by {
                        if varint_at(b@, i as int, v) {
                            assert(b@[i as int] == varint(v)[0]);
                            if v < 128 {
                                assert(varint(v)[0] == v as u8);
                                assert(false);
                            } else {
                                assert(varint_at(b@, i + 1, (v / 128) as u64)) by {
                                    assert(b@.subrange(i + 1, i + 1 + varint((v / 128) as u64).len())
                                        =~= varint(v).subrange(1, varint(v).len() as int));
                                    assert(varint(v).subrange(1, varint(v).len() as int)
                                        =~= varint((v / 128) as u64));
                                }
                                assert(false);
                            }
                        }
                    }
                }
                None
            },
            Some((rest, j)) => {
                let c: u64 = (byte - 128) as u64;
                if rest == 0 || rest > (u64::MAX - c) / 128 {
                    proof {
                        assert forall|v: u64| !varint_at(b@, i as int, v) by {
                            if varint_at(b@, i as int, v) {
                                assert(b@[i as int] == varint(v)[0]);
                                if v < 128 {
                                    assert(varint(v)[0] == v as u8);
                                    assert(false);
                                } else {
                                    assert(varint_at(b@, i + 1, (v / 128) as u64)) by {
                                        assert(b@.subrange(i + 1, i + 1 + varint((v / 128) as u64).len())
                                            =~= varint(v).subrange(1, varint(v).len() as int));
                                        assert(varint(v).subrange(1, varint(v).len() as int)
                                            =~= varint((v / 128) as u64));
                                    }
                                    lemma_varint_prefix_free(b@, i + 1, rest, (v / 128) as u64);
                                    assert(rest == v / 128);
                                    assert(varint(v)[0] == (v % 128 + 128) as u8);
                                    assert(c == v % 128);
                                    assert(v == v % 128 + 128 * (v / 128));
                                    assert(rest >= 1 && rest <= (u64::MAX - c) / 128);
                                    assert(false);
                                }
                            }
                        }
                    }
                    None
                } else {
                    let v: u64 = c + 128 * rest;
                    proof {
                        assert(v % 128 == c && v / 128 == rest) by {
                            assert(v == c + 128 * rest);
                            assert(c < 128);
                        }
                        assert(varint_at(b@, i as int, v)) by {
                            assert(varint(v) =~= seq![(v % 128 + 128) as u8] + varint((v / 128) as u64));
                            assert(b@.subrange(i as int, i + varint(v).len())
                                =~= seq![byte] + b@.subrange(i + 1, j as int));
                            assert(b@.subrange(i + 1, j as int) == varint(rest));
                        }
                    }
                    Some((v, j))
                }
            },
        }
    }
}

} // verus!
