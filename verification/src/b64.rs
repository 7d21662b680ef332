//! Base64: the textual form of every serializable value is the base64
//! encoding of its compressed bytes. The encoding is the standard
//! alphabet with padding; decoding accepts only canonical encodings, so
//! that decoding the encoding of any byte string recovers it exactly.

use vstd::prelude::*;

verus! {

use vstd::arithmetic::div_mod::{
    lemma_fundamental_div_mod, lemma_fundamental_div_mod_converse, lemma_mod_bound,
    lemma_multiply_divide_lt,
};

/// The alphabet character (as an ASCII byte) of a sextet.
pub open spec fn spec_b64_char(s: nat) -> u8 {
    if s < 26 {
        (65 + s) as u8
    } else if s < 52 {
        (97 + s - 26) as u8
    } else if s < 62 {
        (48 + s - 52) as u8
    } else if s == 62 {
        43
    } else {
        47
    }
}

/// The sextet denoted by an ASCII byte, if it is in the alphabet.
pub open spec fn spec_b64_val(c: u8) -> Option<nat> {
    if 65 <= c <= 90 {
        Some((c - 65) as nat)
    } else if 97 <= c <= 122 {
        Some((c - 97 + 26) as nat)
    } else if 48 <= c <= 57 {
        Some((c - 48 + 52) as nat)
    } else if c == 43 {
        Some(62 as nat)
    } else if c == 47 {
        Some(63 as nat)
    } else {
        None
    }
}

/// The four characters encoding a full three-byte group.
pub open spec fn spec_b64_chunk3(b0: u8, b1: u8, b2: u8) -> Seq<u8> {
    seq![
        spec_b64_char(b0 as nat / 4),
        spec_b64_char((b0 as nat % 4) * 16 + b1 as nat / 16),
        spec_b64_char((b1 as nat % 16) * 4 + b2 as nat / 64),
        spec_b64_char(b2 as nat % 64),
    ]
}

/// The four characters encoding a trailing two-byte group.
pub open spec fn spec_b64_chunk2(b0: u8, b1: u8) -> Seq<u8> {
    seq![
        spec_b64_char(b0 as nat / 4),
        spec_b64_char((b0 as nat % 4) * 16 + b1 as nat / 16),
        spec_b64_char((b1 as nat % 16) * 4),
        61,
    ]
}

/// The four characters encoding a trailing one-byte group.
pub open spec fn spec_b64_chunk1(b0: u8) -> Seq<u8> {
    seq![spec_b64_char(b0 as nat / 4), spec_b64_char((b0 as nat % 4) * 16), 61, 61]
}

/// The base64 encoding of a byte string.
pub open spec fn spec_b64_encode(s: Seq<u8>) -> Seq<u8>
    decreases s.len(),
{
    if s.len() == 0 {
        Seq::<u8>::empty()
    } else if s.len() == 1 {
        spec_b64_chunk1(s[0])
    } else if s.len() == 2 {
        spec_b64_chunk2(s[0], s[1])
    } else {
        spec_b64_chunk3(s[0], s[1], s[2]) + spec_b64_encode(s.subrange(3, s.len() as int))
    }
}

/// The base64 decoding of a byte string: the unique byte string whose
/// canonical encoding it is, if any.
pub open spec fn spec_b64_decode(s: Seq<u8>) -> Option<Seq<u8>>
    decreases s.len(),
{
    if s.len() == 0 {
        Some(Seq::<u8>::empty())
    } else if s.len() < 4 {
        None
    } else if s.len() == 4 {
        spec_b64_decode_tail(s)
    } else {
        match (spec_b64_val(s[0]), spec_b64_val(s[1]), spec_b64_val(s[2]), spec_b64_val(s[3])) {
            (Some(v0), Some(v1), Some(v2), Some(v3)) => match spec_b64_decode(
                s.subrange(4, s.len() as int),
            ) {
                Some(rest) => Some(
                    seq![
                        (v0 * 4 + v1 / 16) as u8,
                        ((v1 % 16) * 16 + v2 / 4) as u8,
                        ((v2 % 4) * 64 + v3) as u8,
                    ] + rest,
                ),
                None => None,
            },
            _ => None,
        }
    }
}

/// The decoding of a final four-character group, honouring padding and
/// rejecting non-canonical trailing bits.
pub open spec fn spec_b64_decode_tail(s: Seq<u8>) -> Option<Seq<u8>> {
    match (spec_b64_val(s[0]), spec_b64_val(s[1])) {
        (Some(v0), Some(v1)) => if s[2] == 61 && s[3] == 61 {
            if v1 % 16 == 0 {
                Some(seq![(v0 * 4 + v1 / 16) as u8])
            } else {
                None
            }
        } else if s[3] == 61 {
            match spec_b64_val(s[2]) {
                Some(v2) => if v2 % 4 == 0 {
                    Some(seq![(v0 * 4 + v1 / 16) as u8, ((v1 % 16) * 16 + v2 / 4) as u8])
                } else {
                    None
                },
                None => None,
            }
        } else {
            match (spec_b64_val(s[2]), spec_b64_val(s[3])) {
                (Some(v2), Some(v3)) => Some(
                    seq![
                        (v0 * 4 + v1 / 16) as u8,
                        ((v1 % 16) * 16 + v2 / 4) as u8,
                        ((v2 % 4) * 64 + v3) as u8,
                    ],
                ),
                _ => None,
            }
        },
        _ => None,
    }
}

/// The alphabet map is inverted by the value map, and never produces a
/// padding character.
proof fn lemma_b64_char_val(s: nat)
    requires
        s < 64,
    ensures
        spec_b64_val(spec_b64_char(s)) == Some(s),
        spec_b64_char(s) != 61,
{
}

/// The sextets of a byte group are below 64, and the decoding formulas
/// invert the encoding formulas.
proof fn lemma_b64_group(b0: u8, b1: u8, b2: u8)
    ensures
        b0 as nat / 4 < 64,
        (b0 as nat % 4) * 16 + b1 as nat / 16 < 64,
        (b1 as nat % 16) * 4 + b2 as nat / 64 < 64,
        b2 as nat % 64 < 64,
        ((b0 as nat % 4) * 16 + b1 as nat / 16) / 16 == b0 as nat % 4,
        ((b0 as nat % 4) * 16 + b1 as nat / 16) % 16 == b1 as nat / 16,
        ((b1 as nat % 16) * 4 + b2 as nat / 64) / 4 == b1 as nat % 16,
        ((b1 as nat % 16) * 4 + b2 as nat / 64) % 4 == b2 as nat / 64,
        (b0 as nat / 4) * 4 + b0 as nat % 4 == b0,
        (b1 as nat / 16) * 16 + b1 as nat % 16 == b1,
        (b2 as nat / 64) * 64 + b2 as nat % 64 == b2,
{
    lemma_multiply_divide_lt(b0 as int, 4, 64);
    lemma_multiply_divide_lt(b1 as int, 16, 16);
    lemma_multiply_divide_lt(b2 as int, 64, 4);
    lemma_mod_bound(b0 as int, 4);
    lemma_mod_bound(b1 as int, 16);
    lemma_mod_bound(b2 as int, 64);
    lemma_fundamental_div_mod(b0 as int, 4);
    lemma_fundamental_div_mod(b1 as int, 16);
    lemma_fundamental_div_mod(b2 as int, 64);
    lemma_fundamental_div_mod_converse(
        ((b0 as int % 4) * 16 + b1 as int / 16),
        16,
        b0 as int % 4,
        b1 as int / 16,
    );
    lemma_fundamental_div_mod_converse(
        ((b1 as int % 16) * 4 + b2 as int / 64),
        4,
        b1 as int % 16,
        b2 as int / 64,
    );
}

/// Law: decoding inverts encoding — the canonical encoding of any byte
/// string decodes back to exactly that byte string.
pub proof fn lemma_b64_round_trip(b: Seq<u8>)
    ensures
        spec_b64_decode(spec_b64_encode(b)) == Some(b),
    decreases b.len(),
{
    let e = spec_b64_encode(b);
    if b.len() == 0 {
        assert(e =~= Seq::<u8>::empty());
    } else if b.len() == 1 {
        lemma_b64_group(b[0], 0, 0);
        lemma_b64_char_val(b[0] as nat / 4);
        lemma_b64_char_val((b[0] as nat % 4) * 16);
        assert(((b[0] as nat % 4) * 16) % 16 == 0) by {
            lemma_fundamental_div_mod_converse((b[0] as int % 4) * 16, 16, b[0] as int % 4, 0);
        }
        assert(((b[0] as nat % 4) * 16) / 16 == b[0] as nat % 4) by {
            lemma_fundamental_div_mod_converse((b[0] as int % 4) * 16, 16, b[0] as int % 4, 0);
        }
        match spec_b64_decode(e) {
            Some(d) => {
                assert(d =~= b);
            },
            None => {
                assert(false);
            },
        }
    } else if b.len() == 2 {
        lemma_b64_group(b[0], b[1], 0);
        lemma_b64_char_val(b[0] as nat / 4);
        lemma_b64_char_val((b[0] as nat % 4) * 16 + b[1] as nat / 16);
        lemma_b64_char_val((b[1] as nat % 16) * 4);
        assert(((b[1] as nat % 16) * 4) % 4 == 0 && ((b[1] as nat % 16) * 4) / 4 == b[1] as nat
            % 16) by {
            lemma_fundamental_div_mod_converse((b[1] as int % 16) * 4, 4, b[1] as int % 16, 0);
        }
        match spec_b64_decode(e) {
            Some(d) => {
                assert(d =~= b);
            },
            None => {
                assert(false);
            },
        }
    } else if b.len() == 3 {
        lemma_b64_group(b[0], b[1], b[2]);
        lemma_b64_char_val(b[0] as nat / 4);
        lemma_b64_char_val((b[0] as nat % 4) * 16 + b[1] as nat / 16);
        lemma_b64_char_val((b[1] as nat % 16) * 4 + b[2] as nat / 64);
        lemma_b64_char_val(b[2] as nat % 64);
        assert(b.subrange(3, b.len() as int).len() == 0);
        assert(spec_b64_encode(b.subrange(3, b.len() as int)) =~= Seq::<u8>::empty());
        assert(e =~= spec_b64_chunk3(b[0], b[1], b[2]));
        assert(e.len() == 4);
        match spec_b64_decode(e) {
            Some(d) => {
                assert(d =~= b);
            },
            None => {
                assert(false);
            },
        }
    } else {
        let rest = b.subrange(3, b.len() as int);
        lemma_b64_round_trip(rest);
        lemma_b64_group(b[0], b[1], b[2]);
        lemma_b64_char_val(b[0] as nat / 4);
        lemma_b64_char_val((b[0] as nat % 4) * 16 + b[1] as nat / 16);
        lemma_b64_char_val((b[1] as nat % 16) * 4 + b[2] as nat / 64);
        lemma_b64_char_val(b[2] as nat % 64);
        let er = spec_b64_encode(rest);
        assert(er.len() >= 4) by {
            lemma_encode_len(rest);
        }
        assert(e == spec_b64_chunk3(b[0], b[1], b[2]) + er);
        assert(e.len() > 4);
        assert(e.subrange(4, e.len() as int) =~= er);
        match spec_b64_decode(e) {
            Some(d) => {
                assert(d =~= b);
            },
            None => {
                assert(false);
            },
        }
    }
}

/// An encoding is empty or at least one group long, and its length is a
/// multiple of four.
pub proof fn lemma_encode_len(b: Seq<u8>)
    ensures
        b.len() == 0 ==> spec_b64_encode(b).len() == 0,
        b.len() > 0 ==> spec_b64_encode(b).len() >= 4,
    decreases b.len(),
{
    if b.len() > 3 {
        lemma_encode_len(b.subrange(3, b.len() as int));
    }
}

/// The alphabet character of a sextet.
fn b64_char(s: u8) -> (r: u8)
    requires
        s < 64,
    ensures
        r == spec_b64_char(s as nat),
{
    if s < 26 {
        65 + s
    } else if s < 52 {
        97 + s - 26
    } else if s < 62 {
        48 + s - 52
    } else if s == 62 {
        43
    } else {
        47
    }
}

/// The sextet of an ASCII byte, if it is in the alphabet.
fn b64_val(c: u8) -> (r: Option<u8>)
    ensures
        match r {
            Some(v) => spec_b64_val(c) == Some(v as nat) && v < 64,
            None => spec_b64_val(c) is None,
        },
{
    if 65 <= c && c <= 90 {
        Some(c - 65)
    } else if 97 <= c && c <= 122 {
        Some(c - 97 + 26)
    } else if 48 <= c && c <= 57 {
        Some(c - 48 + 52)
    } else if c == 43 {
        Some(62)
    } else if c == 47 {
        Some(63)
    } else {
        None
    }
}

/// I encode a byte string in base64.
pub fn b64_encode(input: &[u8]) -> (r: Vec<u8>)
    ensures
        r@ == spec_b64_encode(input@),
{
    let mut r: Vec<u8> = Vec::new();
    let mut i: usize = 0;
    proof {
        assert(input@.skip(0) =~= input@);
    }
    while input.len() - i > 2
        invariant
            i <= input@.len(),
            spec_b64_encode(input@) == r@ + spec_b64_encode(input@.skip(i as int)),
        decreases input@.len() - i,
    {
        let b0 = input[i];
        let b1 = input[i + 1];
        let b2 = input[i + 2];
        proof {
            lemma_b64_group(b0, b1, b2);
            assert(input@.skip(i as int)[0] == b0);
            assert(input@.skip(i as int).subrange(3, input@.skip(i as int).len() as int)
                =~= input@.skip(i + 3));
        }
        r.push(b64_char(b0 / 4));
        r.push(b64_char((b0 % 4) * 16 + b1 / 16));
        r.push(b64_char((b1 % 16) * 4 + b2 / 64));
        r.push(b64_char(b2 % 64));
        proof {
            assert(r@ =~= (r@.subrange(0, r@.len() - 4)) + spec_b64_chunk3(b0, b1, b2));
        }
        i = i + 3;
    }
    if input.len() - i == 1 {
        let b0 = input[i];
        proof {
            lemma_b64_group(b0, 0, 0);
            assert(input@.skip(i as int)[0] == b0);
        }
        r.push(b64_char(b0 / 4));
        r.push(b64_char((b0 % 4) * 16));
        r.push(61);
        r.push(61);
        proof {
            assert(r@ =~= (r@.subrange(0, r@.len() - 4)) + spec_b64_chunk1(b0));
        }
    } else if input.len() - i == 2 {
        let b0 = input[i];
        let b1 = input[i + 1];
        proof {
            lemma_b64_group(b0, b1, 0);
            assert(input@.skip(i as int)[0] == b0);
            assert(input@.skip(i as int)[1] == b1);
        }
        r.push(b64_char(b0 / 4));
        r.push(b64_char((b0 % 4) * 16 + b1 / 16));
        r.push(b64_char((b1 % 16) * 4));
        r.push(61);
        proof {
            assert(r@ =~= (r@.subrange(0, r@.len() - 4)) + spec_b64_chunk2(b0, b1));
        }
    } else {
        proof {
            assert(input@.skip(i as int) =~= Seq::<u8>::empty());
        }
    }
    r
}

/// I decode a base64 string; only the canonical encoding of a byte
/// string is accepted.
pub fn b64_decode(input: &[u8]) -> (r: Option<Vec<u8>>)
    ensures
        match r {
            Some(v) => spec_b64_decode(input@) == Some(v@),
            None => spec_b64_decode(input@) is None,
        },
{
    let mut out: Vec<u8> = Vec::new();
    let mut i: usize = 0;
    proof {
        assert(input@.skip(0) =~= input@);
        assert(out@ + input@.skip(0) =~= input@);
    }
    while input.len() - i > 4
        invariant
            i <= input@.len(),
            match spec_b64_decode(input@.skip(i as int)) {
                Some(tail) => spec_b64_decode(input@) == Some(out@ + tail),
                None => spec_b64_decode(input@) is None,
            },
        decreases input@.len() - i,
    {
        let v0 = match b64_val(input[i]) {
            Some(v) => v,
            None => {
                return None;
            },
        };
        let v1 = match b64_val(input[i + 1]) {
            Some(v) => v,
            None => {
                return None;
            },
        };
        let v2 = match b64_val(input[i + 2]) {
            Some(v) => v,
            None => {
                return None;
            },
        };
        let v3 = match b64_val(input[i + 3]) {
            Some(v) => v,
            None => {
                return None;
            },
        };
        proof {
            assert(input@.skip(i as int)[0] == input@[i as int]);
            assert(input@.skip(i as int)[1] == input@[i + 1]);
            assert(input@.skip(i as int)[2] == input@[i + 2]);
            assert(input@.skip(i as int)[3] == input@[i + 3]);
            assert(input@.skip(i as int).subrange(4, input@.skip(i as int).len() as int)
                =~= input@.skip(i + 4));
        }
        out.push(v0 * 4 + v1 / 16);
        out.push((v1 % 16) * 16 + v2 / 4);
        out.push((v2 % 4) * 64 + v3);
        proof {
            let chunk = seq![
                (v0 as nat * 4 + v1 as nat / 16) as u8,
                ((v1 as nat % 16) * 16 + v2 as nat / 4) as u8,
                ((v2 as nat % 4) * 64 + v3 as nat) as u8,
            ];
            assert(out@ =~= out@.subrange(0, out@.len() - 3) + chunk);
            match spec_b64_decode(input@.skip(i + 4)) {
                Some(tail2) => {
                    assert(spec_b64_decode(input@.skip(i as int)) == Some(chunk + tail2));
                    assert((out@.subrange(0, out@.len() - 3) + (chunk + tail2)) =~= out@
                        + tail2);
                },
                None => {},
            }
        }
        i = i + 4;
    }
    if input.len() - i == 4 {
        let v0 = match b64_val(input[i]) {
            Some(v) => v,
            None => {
                return None;
            },
        };
        let v1 = match b64_val(input[i + 1]) {
            Some(v) => v,
            None => {
                return None;
            },
        };
        proof {
            assert(input@.skip(i as int)[0] == input@[i as int]);
            assert(input@.skip(i as int)[1] == input@[i + 1]);
            assert(input@.skip(i as int)[2] == input@[i + 2]);
            assert(input@.skip(i as int)[3] == input@[i + 3]);
        }
        if input[i + 2] == 61 && input[i + 3] == 61 {
            if v1 % 16 != 0 {
                return None;
            }
            out.push(v0 * 4 + v1 / 16);
            proof {
                assert(out@ =~= out@.subrange(0, out@.len() - 1) + seq![
                    (v0 as nat * 4 + v1 as nat / 16) as u8,
                ]);
                match spec_b64_decode(input@.skip(i as int)) {
                    Some(tail) => {
                        assert((out@.subrange(0, out@.len() - 1) + tail) =~= out@);
                    },
                    None => {},
                }
            }
            Some(out)
        } else if input[i + 3] == 61 {
            let v2 = match b64_val(input[i + 2]) {
                Some(v) => v,
                None => {
                    return None;
                },
            };
            if v2 % 4 != 0 {
                return None;
            }
            out.push(v0 * 4 + v1 / 16);
            out.push((v1 % 16) * 16 + v2 / 4);
            proof {
                assert(out@ =~= out@.subrange(0, out@.len() - 2) + seq![
                    (v0 as nat * 4 + v1 as nat / 16) as u8,
                    ((v1 as nat % 16) * 16 + v2 as nat / 4) as u8,
                ]);
                match spec_b64_decode(input@.skip(i as int)) {
                    Some(tail) => {
                        assert((out@.subrange(0, out@.len() - 2) + tail) =~= out@);
                    },
                    None => {},
                }
            }
            Some(out)
        } else {
            let v2 = match b64_val(input[i + 2]) {
                Some(v) => v,
                None => {
                    return None;
                },
            };
            let v3 = match b64_val(input[i + 3]) {
                Some(v) => v,
                None => {
                    return None;
                },
            };
            out.push(v0 * 4 + v1 / 16);
            out.push((v1 % 16) * 16 + v2 / 4);
            out.push((v2 % 4) * 64 + v3);
            proof {
                assert(out@ =~= out@.subrange(0, out@.len() - 3) + seq![
                    (v0 as nat * 4 + v1 as nat / 16) as u8,
                    ((v1 as nat % 16) * 16 + v2 as nat / 4) as u8,
                    ((v2 as nat % 4) * 64 + v3 as nat) as u8,
                ]);
                match spec_b64_decode(input@.skip(i as int)) {
                    Some(tail) => {
                        assert((out@.subrange(0, out@.len() - 3) + tail) =~= out@);
                    },
                    None => {},
                }
            }
            Some(out)
        }
    } else if input.len() - i == 0 {
        proof {
            assert(input@.skip(i as int) =~= Seq::<u8>::empty());
            assert(out@ + Seq::<u8>::empty() =~= out@);
        }
        Some(out)
    } else {
        None
    }
}

} // verus!
