//! Prefixed integers (RFC 7541, section 5.1): an integer that starts in the
//! low `size` bits of a byte whose high bits hold flags, and continues, when
//! it does not fit there, in bytes of seven bits each, least significant
//! group first.
use vstd::prelude::*;
use crate::buf::write_u8;

verus! {

/// `2^size` for the prefix sizes 1 to 8.
pub open spec fn prefix_mult(size: u8) -> nat {
    if size == 1 {
        2
    } else if size == 2 {
        4
    } else if size == 3 {
        8
    } else if size == 4 {
        16
    } else if size == 5 {
        32
    } else if size == 6 {
        64
    } else if size == 7 {
        128
    } else {
        256
    }
}

/// The largest value that the prefix of a `size`-bit integer can hold; it
/// also marks that continuation bytes follow.
pub open spec fn prefix_max(size: u8) -> nat {
    (prefix_mult(size) - 1) as nat
}

/// A prefix size and flags that fit together in one byte.
pub open spec fn valid_prefix(size: u8, flags: u8) -> bool {
    &&& 1 <= size <= 8
    &&& flags * prefix_mult(size) < 256
}

/// The continuation bytes of the remainder `r`: seven bits per byte, least
/// significant group first, the high bit set on every byte but the last.
pub open spec fn spec_int_tail(r: nat) -> Seq<u8>
    decreases r,
{
    if r < 128 {
        seq![r as u8]
    } else {
        seq![(r % 128 + 128) as u8] + spec_int_tail(r / 128)
    }
}

/// The encoding of `value` with a `size`-bit prefix under `flags`.
pub open spec fn spec_encode_int(size: u8, flags: u8, value: nat) -> Seq<u8> {
    let head = flags * prefix_mult(size);
    if value < prefix_max(size) {
        seq![(head + value) as u8]
    } else {
        seq![(head + prefix_max(size)) as u8] + spec_int_tail((value - prefix_max(size)) as nat)
    }
}

/// Reads continuation bytes: the value they carry and how many there are,
/// or `None` when the input ends before a byte with the high bit clear.
pub open spec fn spec_decode_tail(s: Seq<u8>) -> Option<(nat, nat)>
    decreases s.len(),
{
    if s.len() == 0 {
        None
    } else if s[0] < 128 {
        Some((s[0] as nat, 1))
    } else {
        match spec_decode_tail(s.drop_first()) {
            Some((v, n)) => Some((((s[0] - 128) + 128 * v) as nat, n + 1)),
            None => None,
        }
    }
}

/// Reads a `size`-bit prefixed integer at the start of `s`: its flags, its
/// value and the number of bytes it takes, or `None` when `s` ends too soon.
pub open spec fn spec_decode_int(size: u8, s: Seq<u8>) -> Option<(nat, nat, nat)> {
    if s.len() == 0 {
        None
    } else {
        let flags = s[0] as nat / prefix_mult(size);
        let low = s[0] as nat % prefix_mult(size);
        if low < prefix_max(size) {
            Some((flags, low, 1))
        } else {
            match spec_decode_tail(s.drop_first()) {
                Some((v, n)) => Some((flags, prefix_max(size) + v, n + 1)),
                None => None,
            }
        }
    }
}

/// Errors in reading a prefixed integer.
#[derive(Debug, Clone, Copy, PartialEq, Eq, Structural)]
pub enum IntError {
    /// The input ends inside the integer.
    UnexpectedEnd,
    /// The integer does not fit in a `usize`.
    Overflow,
}

fn prefix_mult_exec(size: u8) -> (r: usize)
    requires
        1 <= size <= 8,
    ensures
        r == prefix_mult(size),
{
    if size == 1 {
        2
    } else if size == 2 {
        4
    } else if size == 3 {
        8
    } else if size == 4 {
        16
    } else if size == 5 {
        32
    } else if size == 6 {
        64
    } else if size == 7 {
        128
    } else {
        256
    }
}

proof fn lemma_tail_nonempty(r: nat)
    ensures
        spec_int_tail(r).len() >= 1,
    decreases r,
{
}

proof fn lemma_head_fits(size: u8, flags: u8)
    requires
        valid_prefix(size, flags),
    ensures
        flags * prefix_mult(size) + prefix_max(size) < 256,
{
    let m = prefix_mult(size);
    if size == 1 {
        assert(m == 2);
    } else if size == 2 {
        assert(m == 4);
    } else if size == 3 {
        assert(m == 8);
    } else if size == 4 {
        assert(m == 16);
    } else if size == 5 {
        assert(m == 32);
    } else if size == 6 {
        assert(m == 64);
    } else if size == 7 {
        assert(m == 128);
    } else {
        assert(m == 256);
    }
}

/// Writes `value` as a `size`-bit prefixed integer with `flags` above the
/// prefix.
pub fn encode(size: u8, flags: u8, value: usize, buf: &mut Vec<u8>)
    requires
        valid_prefix(size, flags),
        old(buf)@.len() + spec_encode_int(size, flags, value as nat).len() <= isize::MAX,
    ensures
        final(buf)@ == old(buf)@ + spec_encode_int(size, flags, value as nat),
{
    proof {
        lemma_head_fits(size, flags);
    }
    let mult = prefix_mult_exec(size);
    let max = mult - 1;
    let head = flags as usize * mult;
    if value < max {
        write_u8(buf, (head + value) as u8);
        return;
    }
    let ghost total = spec_encode_int(size, flags, value as nat);
    write_u8(buf, (head + max) as u8);
    let mut rest = value - max;
    assert(buf@ + spec_int_tail(rest as nat) =~= old(buf)@ + total);
    while rest >= 128
        invariant
            buf@ + spec_int_tail(rest as nat) == old(buf)@ + total,
            old(buf)@.len() + total.len() <= isize::MAX,
        decreases rest,
    {
        proof {
            lemma_tail_nonempty(rest as nat / 128);
            assert(spec_int_tail(rest as nat).len() >= 2);
            assert((buf@ + spec_int_tail(rest as nat)).len() == buf@.len() + spec_int_tail(
                rest as nat,
            ).len());
        }
        let ghost before = buf@;
        write_u8(buf, (rest % 128 + 128) as u8);
        rest = rest / 128;
        assert(buf@ + spec_int_tail(rest as nat) =~= old(buf)@ + total);
    }
    assert((buf@ + spec_int_tail(rest as nat)).len() == buf@.len() + spec_int_tail(
        rest as nat,
    ).len());
    write_u8(buf, rest as u8);
    assert(buf@ =~= old(buf)@ + total);
}

/// Folds a partially read tail: the bytes already read contributed `acc`,
/// the next byte weighs `pw`, and `k` bytes were read.
pub open spec fn lift(o: Option<(nat, nat)>, acc: nat, pw: nat, k: nat) -> Option<(nat, nat)> {
    match o {
        Some((v, n)) => Some((acc + pw * v, n + k)),
        None => None,
    }
}

proof fn lemma_tail_step(s: Seq<u8>, i: int, acc: nat, pw: nat, k: nat)
    requires
        0 <= i < s.len(),
        s[i] >= 128,
    ensures
        lift(spec_decode_tail(s.skip(i)), acc, pw, k) == lift(
            spec_decode_tail(s.skip(i + 1)),
            acc + pw * ((s[i] % 128) as nat),
            pw * 128,
            k + 1,
        ),
{
    assert(s.skip(i).drop_first() =~= s.skip(i + 1));
    assert(s.skip(i)[0] == s[i]);
    let d = (s[i] % 128) as nat;
    assert(d == s[i] - 128);
    match spec_decode_tail(s.skip(i + 1)) {
        Some((v, n)) => {
            assert(pw * (d + 128 * v) == pw * d + (pw * 128) * v) by (nonlinear_arith);
        },
        None => {},
    }
}

proof fn lemma_tail_last(s: Seq<u8>, i: int)
    requires
        0 <= i < s.len(),
        s[i] < 128,
    ensures
        spec_decode_tail(s.skip(i)) == Some((s[i] as nat, 1nat)),
{
    assert(s.skip(i)[0] == s[i]);
}

proof fn lemma_decode_tail_len(s: Seq<u8>)
    ensures
        spec_decode_tail(s) matches Some((v, n)) ==> 1 <= n <= s.len(),
    decreases s.len(),
{
    if s.len() > 0 && s[0] >= 128 {
        lemma_decode_tail_len(s.drop_first());
    }
}

/// A prefixed integer read from `s` takes at least one and at most
/// `s.len()` bytes.
pub proof fn lemma_decode_int_len(size: u8, s: Seq<u8>)
    ensures
        spec_decode_int(size, s) matches Some((f, v, n)) ==> 1 <= n <= s.len(),
{
    if s.len() > 0 {
        lemma_decode_tail_len(s.drop_first());
    }
}

/// Reads a `size`-bit prefixed integer at the start of `buf`: its flags, its
/// value and the number of bytes it takes.
pub fn decode(size: u8, buf: &[u8]) -> (res: Result<(u8, usize, usize), IntError>)
    requires
        1 <= size <= 8,
    ensures
        match spec_decode_int(size, buf@) {
            None => res == Err::<(u8, usize, usize), IntError>(IntError::UnexpectedEnd),
            Some((f, v, n)) => if v <= usize::MAX {
                res == Ok::<(u8, usize, usize), IntError>((f as u8, v as usize, n as usize))
            } else {
                res == Err::<(u8, usize, usize), IntError>(IntError::Overflow)
            },
        },
{
    proof {
        lemma_decode_int_len(size, buf@);
    }
    if buf.len() == 0 {
        return Err(IntError::UnexpectedEnd);
    }
    let mult = prefix_mult_exec(size);
    let first = buf[0];
    let flags = (first as usize / mult) as u8;
    let low = first as usize % mult;
    if low < mult - 1 {
        return Ok((flags, low, 1));
    }
    let ghost s = buf@;
    let ghost mut acc: nat = 0;
    let ghost mut gpw: nat = 1;
    let mut value: usize = mult - 1;
    let mut pw: usize = 1;
    let mut big = false;
    let mut overflow = false;
    let mut i: usize = 1;
    assert(s.skip(1) =~= s.drop_first());
    loop
        invariant
            1 <= i <= buf.len(),
            s == buf@,
            1 <= mult <= 256,
            mult == prefix_mult(size),
            flags == (s[0] as nat / prefix_mult(size)),
            low == s[0] as nat % prefix_mult(size),
            low == prefix_max(size),
            spec_decode_tail(s.drop_first()) == lift(
                spec_decode_tail(s.skip(i as int)),
                acc,
                gpw,
                (i - 1) as nat,
            ),
            !overflow ==> value == mult - 1 + acc,
            overflow ==> mult - 1 + acc > usize::MAX,
            !big ==> pw == gpw,
            big ==> gpw > usize::MAX,
            gpw >= 1,
        decreases buf.len() - i,
    {
        if i >= buf.len() {
            assert(s.skip(i as int) =~= Seq::<u8>::empty());
            return Err(IntError::UnexpectedEnd);
        }
        let b = buf[i];
        let digit = (b % 128) as usize;
        if digit != 0 {
            if big || overflow {
                proof {
                    assert(gpw * digit >= gpw) by (nonlinear_arith)
                        requires
                            digit >= 1,
                            gpw >= 1,
                    ;
                }
                overflow = true;
            } else if digit > (usize::MAX - value) / pw {
                proof {
                    assert(digit * pw > usize::MAX - value) by (nonlinear_arith)
                        requires
                            digit > (usize::MAX - value) / (pw as int),
                            pw >= 1,
                            value <= usize::MAX,
                    ;
                    assert(gpw * digit == digit * pw) by (nonlinear_arith)
                        requires
                            gpw == pw,
                    ;
                }
                overflow = true;
            } else {
                proof {
                    assert(digit * pw <= usize::MAX - value) by (nonlinear_arith)
                        requires
                            digit <= (usize::MAX - value) / (pw as int),
                            pw >= 1,
                            value <= usize::MAX,
                    ;
                    assert(gpw * digit == digit * pw) by (nonlinear_arith)
                        requires
                            gpw == pw,
                    ;
                }
                value = value + digit * pw;
            }
        }
        proof {
            if b >= 128 {
                lemma_tail_step(s, i as int, acc, gpw, (i - 1) as nat);
            } else {
                lemma_tail_last(s, i as int);
            }
            if digit == 0 {
                assert(gpw * digit == 0) by (nonlinear_arith)
                    requires
                        digit == 0,
                ;
            }
            acc = (acc + gpw * digit) as nat;
            if b >= 128 {
                assert(gpw * 128 >= 1) by (nonlinear_arith)
                    requires
                        gpw >= 1,
                ;
            }
        }
        i = i + 1;
        if b < 128 {
            assert(digit == b);
            if overflow {
                return Err(IntError::Overflow);
            } else {
                return Ok((flags, value, i));
            }
        }
        if !big {
            if pw > usize::MAX / 128 {
                assert(pw * 128 > usize::MAX) by (nonlinear_arith)
                    requires
                        pw > usize::MAX / 128,
                ;
                big = true;
            } else {
                pw = pw * 128;
            }
        } else {
            assert(gpw * 128 > usize::MAX) by (nonlinear_arith)
                requires
                    gpw > usize::MAX,
            ;
        }
        proof {
            gpw = gpw * 128;
        }
    }
}

proof fn lemma_tail_roundtrip(r: nat, rest: Seq<u8>)
    ensures
        spec_decode_tail(spec_int_tail(r) + rest) == Some((r, spec_int_tail(r).len())),
    decreases r,
{
    let s = spec_int_tail(r) + rest;
    if r < 128 {
        assert(s[0] == r as u8);
    } else {
        lemma_tail_roundtrip(r / 128, rest);
        assert(s.drop_first() =~= spec_int_tail(r / 128) + rest);
        assert(s[0] == (r % 128 + 128) as u8);
    }
}

/// The bytes of a prefixed integer (RFC 7541, section 5.1): a value below
/// the prefix's maximum is the one byte of the flags and the value; a
/// larger one fills the prefix with ones and follows it with the rest in
/// groups of seven bits, least significant first, the high bit set on every
/// byte but the last.
pub proof fn lemma_encode_int_wire(size: u8, flags: u8, value: nat)
    requires
        valid_prefix(size, flags),
    ensures
        ({
            let head = flags * prefix_mult(size);
            let max = prefix_max(size);
            &&& value < max ==> spec_encode_int(size, flags, value) == seq![(head + value) as u8]
            &&& max <= value < max + 128 ==> spec_encode_int(size, flags, value) == seq![
                (head + max) as u8,
                (value - max) as u8,
            ]
            &&& max + 128 <= value < max + 128 * 128 ==> spec_encode_int(size, flags, value)
                == seq![
                (head + max) as u8,
                ((value - max) % 128 + 128) as u8,
                ((value - max) / 128) as u8,
            ]
        }),
{
    let max = prefix_max(size);
    if max <= value < max + 128 {
        assert(spec_int_tail((value - max) as nat) =~= seq![(value - max) as u8]);
        assert(spec_encode_int(size, flags, value) =~= seq![
            (flags * prefix_mult(size) + max) as u8,
            (value - max) as u8,
        ]);
    }
    if max + 128 <= value < max + 128 * 128 {
        let r = (value - max) as nat;
        assert(r / 128 < 128);
        assert(spec_int_tail(r / 128) =~= seq![(r / 128) as u8]);
        assert(spec_encode_int(size, flags, value) =~= seq![
            (flags * prefix_mult(size) + max) as u8,
            (r % 128 + 128) as u8,
            (r / 128) as u8,
        ]);
    }
}

/// Reading back a prefixed integer gives the flags and the value it was
/// written with, and the number of bytes written, whatever follows it.
pub proof fn lemma_int_roundtrip(size: u8, flags: u8, value: nat, rest: Seq<u8>)
    requires
        valid_prefix(size, flags),
    ensures
        spec_decode_int(size, spec_encode_int(size, flags, value) + rest) == Some(
            (flags as nat, value, spec_encode_int(size, flags, value).len()),
        ),
{
    lemma_head_fits(size, flags);
    let m = prefix_mult(size);
    let enc = spec_encode_int(size, flags, value);
    let s = enc + rest;
    let head = flags * m;
    if value < prefix_max(size) {
        assert(s[0] == (head + value) as u8);
        vstd::arithmetic::div_mod::lemma_fundamental_div_mod_converse(
            (head + value) as int,
            m as int,
            flags as int,
            value as int,
        );
    } else {
        let r = (value - prefix_max(size)) as nat;
        assert(s[0] == (head + prefix_max(size)) as u8);
        vstd::arithmetic::div_mod::lemma_fundamental_div_mod_converse(
            (head + prefix_max(size)) as int,
            m as int,
            flags as int,
            prefix_max(size) as int,
        );
        assert(s.drop_first() =~= spec_int_tail(r) + rest);
        lemma_tail_roundtrip(r, rest);
    }
}

} // verus!
