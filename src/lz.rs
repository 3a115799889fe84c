//! The LZ-style token stream that carries every image payload.
use vstd::prelude::*;

use crate::error::DecodeError;

verus! {

/// Smaller of two naturals.
pub open spec fn min_nat(a: nat, b: nat) -> nat {
    if a < b {
        a
    } else {
        b
    }
}

/// Control word and input position after one control bit is taken: the word
/// shifts right, and once its marker bit (bit 8) is gone it is refilled from
/// the next input byte with the high byte set to `0xff`.
pub open spec fn next_control(input: Seq<u8>, ip: nat, control: u16) -> (nat, u16) {
    let c = control >> 1u16;
    if c & 0x100u16 == 0 {
        (ip + 1, (input[ip as int] as u16) | 0xff00u16)
    } else {
        (ip, c)
    }
}

/// Little-endian 16-bit word at `i`.
pub open spec fn word_at(input: Seq<u8>, i: int) -> u32 {
    (input[i] as u32) | ((input[i + 1] as u32) << 8u32)
}

/// A back-reference token at `ip`: the position after it, its run length and
/// its distance, or `None` when the token runs past the input.
///
/// Long form (bit 3 of the word clear): one more byte extends the word to
/// `tmp`; the length is `(((tmp bits 2..11) + 1) << 2 | (tmp bits 0..1)) + 4`,
/// that is the low twelve bits plus eight, and the distance is `tmp >> 12`.
/// Short form: length `(word & 7) + 4`, distance `word >> 4`.
pub open spec fn backref_token(input: Seq<u8>, ip: nat) -> Option<(nat, nat, nat)> {
    if ip + 2 > input.len() {
        None
    } else {
        let word = word_at(input, ip as int);
        if word & 8u32 == 0 {
            if ip + 3 > input.len() {
                None
            } else {
                let tmp = (word << 8u32) | (input[ip + 2 as int] as u32);
                Some((ip + 3, (tmp & 0xfffu32) as nat + 8, (tmp >> 12u32) as nat))
            }
        } else {
            Some((ip + 2, (word & 7u32) as nat + 4, (word >> 4u32) as nat))
        }
    }
}

/// `out` extended by `k` bytes, each copied from `dist` positions before it
/// (so a run may repeat bytes that it has just written).
pub open spec fn copy_back(out: Seq<u8>, dist: nat, k: nat) -> Seq<u8>
    decreases k,
{
    if k == 0 {
        out
    } else {
        let o = copy_back(out, dist, (k - 1) as nat);
        o.push(o[o.len() - dist])
    }
}

/// The output of decoding the token stream `input` into `size` bytes, from
/// input position `ip` with control word `control` and output so far `out`;
/// `None` where a read or a back-reference goes out of bounds.
/// Decoding stops as soon as `size` bytes are there, in the middle of a run if
/// need be.
pub open spec fn expand(input: Seq<u8>, size: nat, ip: nat, control: u16, out: Seq<u8>) -> Option<
    Seq<u8>,
>
    decreases input.len() - ip,
{
    if out.len() >= size {
        Some(out)
    } else {
        let (ip1, c1) = next_control(input, ip, control);
        if ip1 >= input.len() {
            None
        } else if c1 & 1u16 == 0 {
            let k = min_nat(input[ip1 as int] as nat, (size - out.len()) as nat);
            if ip1 + 1 + k > input.len() {
                None
            } else {
                expand(
                    input,
                    size,
                    ip1 + 1 + k,
                    c1,
                    out + input.subrange(ip1 + 1 as int, ip1 + 1 + k as int),
                )
            }
        } else {
            match backref_token(input, ip1) {
                None => None,
                Some((ip2, len, dist)) => {
                    if dist == 0 || dist > out.len() {
                        None
                    } else {
                        expand(
                            input,
                            size,
                            ip2,
                            c1,
                            copy_back(out, dist, min_nat(len, (size - out.len()) as nat)),
                        )
                    }
                },
            }
        }
    }
}

/// The result of decompressing `input` into `size` bytes.
pub open spec fn decompressed(input: Seq<u8>, size: nat) -> Option<Seq<u8>> {
    expand(input, size, 0, 0, seq![])
}

proof fn lemma_copy_back_len(out: Seq<u8>, dist: nat, k: nat)
    ensures
        copy_back(out, dist, k).len() == out.len() + k,
    decreases k,
{
    if k > 0 {
        lemma_copy_back_len(out, dist, (k - 1) as nat);
    }
}

proof fn lemma_expand_len(input: Seq<u8>, size: nat, ip: nat, control: u16, out: Seq<u8>)
    requires
        out.len() <= size,
    ensures
        expand(input, size, ip, control, out) matches Some(o) ==> o.len() == size,
    decreases input.len() - ip,
{
    if out.len() < size {
        let (ip1, c1) = next_control(input, ip, control);
        if ip1 < input.len() {
            if c1 & 1u16 == 0 {
                let k = min_nat(input[ip1 as int] as nat, (size - out.len()) as nat);
                if ip1 + 1 + k <= input.len() {
                    lemma_expand_len(
                        input,
                        size,
                        ip1 + 1 + k,
                        c1,
                        out + input.subrange(ip1 + 1 as int, ip1 + 1 + k as int),
                    );
                }
            } else {
                if let Some((ip2, len, dist)) = backref_token(input, ip1) {
                    if dist != 0 && dist <= out.len() {
                        let k = min_nat(len, (size - out.len()) as nat);
                        lemma_copy_back_len(out, dist, k);
                        lemma_expand_len(input, size, ip2, c1, copy_back(out, dist, k));
                    }
                }
            }
        }
    }
}

/// Whatever the input, a successful decompression yields exactly the declared
/// number of bytes.
pub proof fn lemma_decompressed_has_declared_size(input: Seq<u8>, size: nat)
    ensures
        decompressed(input, size) matches Some(o) ==> o.len() == size,
{
    lemma_expand_len(input, size, 0, 0, seq![]);
}

/// A back-reference whose distance is zero or reaches before the start of the
/// output makes the whole stream corrupt, whatever follows it.
pub proof fn lemma_bad_distance_is_corrupt(
    input: Seq<u8>,
    size: nat,
    ip: nat,
    control: u16,
    out: Seq<u8>,
)
    requires
        out.len() < size,
        next_control(input, ip, control).0 < input.len(),
        next_control(input, ip, control).1 & 1u16 == 1,
        backref_token(input, next_control(input, ip, control).0) matches Some(
            t,
        ) && (t.2 == 0 || t.2 > out.len()),
    ensures
        expand(input, size, ip, control, out) is None,
{
}

/// Decompresses `input` into exactly `size_orig` bytes.
pub fn decompress(input: &[u8], size_orig: usize) -> (r: Result<Vec<u8>, DecodeError>)
    ensures
        match r {
            Ok(out) => decompressed(input@, size_orig as nat) == Some(out@) && out@.len()
                == size_orig,
            Err(e) => e == DecodeError::CorruptStream && decompressed(
                input@,
                size_orig as nat,
            ) is None,
        },
{
    let mut output: Vec<u8> = Vec::new();
    let mut ip: usize = 0;
    let mut control: u16 = 0;
    while output.len() < size_orig
        invariant
            ip <= input.len(),
            output.len() <= size_orig,
            expand(input@, size_orig as nat, ip as nat, control, output@) == decompressed(
                input@,
                size_orig as nat,
            ),
        decreases input.len() - ip,
    {
        let ghost ip0 = ip as nat;
        let ghost control0 = control;
        let ghost out0 = output@;
        control = control >> 1u16;
        if control & 0x100u16 == 0 {
            if ip >= input.len() {
                return Err(DecodeError::CorruptStream);
            }
            control = (input[ip] as u16) | 0xff00u16;
            ip = ip + 1;
        }
        assert(next_control(input@, ip0, control0) == (ip as nat, control));
        if ip >= input.len() {
            return Err(DecodeError::CorruptStream);
        }
        if control & 1u16 == 0 {
            let n = input[ip] as usize;
            ip = ip + 1;
            let room = size_orig - output.len();
            let k = if n < room {
                n
            } else {
                room
            };
            if k > input.len() - ip {
                return Err(DecodeError::CorruptStream);
            }
            let start = ip;
            let mut j: usize = 0;
            while j < k
                invariant
                    start <= input.len(),
                    k <= input.len() - start,
                    j <= k,
                    ip == start + j,
                    output@ == out0 + input@.subrange(start as int, start + j),
                decreases k - j,
            {
                output.push(input[ip]);
                ip = ip + 1;
                j = j + 1;
                assert(output@ =~= out0 + input@.subrange(start as int, start + j));
            }
        } else {
            if input.len() - ip < 2 {
                return Err(DecodeError::CorruptStream);
            }
            let word: u32 = (input[ip] as u32) | ((input[ip + 1] as u32) << 8u32);
            assert(word == word_at(input@, ip as int));
            let len: usize;
            let dist: usize;
            if word & 8u32 == 0 {
                if input.len() - ip < 3 {
                    return Err(DecodeError::CorruptStream);
                }
                let tmp: u32 = (word << 8u32) | (input[ip + 2] as u32);
                assert(tmp & 0xfffu32 <= 0xfff) by (bit_vector);
                len = ((tmp & 0xfffu32) + 8) as usize;
                dist = (tmp >> 12u32) as usize;
                ip = ip + 3;
            } else {
                assert(word & 7u32 <= 7) by (bit_vector);
                len = ((word & 7u32) + 4) as usize;
                dist = (word >> 4u32) as usize;
                ip = ip + 2;
            }
            if dist == 0 || dist > output.len() {
                return Err(DecodeError::CorruptStream);
            }
            let room = size_orig - output.len();
            let k = if len < room {
                len
            } else {
                room
            };
            let mut j: usize = 0;
            while j < k
                invariant
                    0 < dist <= out0.len(),
                    j <= k,
                    k <= size_orig - out0.len(),
                    output@.len() == out0.len() + j,
                    output@ == copy_back(out0, dist as nat, j as nat),
                decreases k - j,
            {
                let v = output[output.len() - dist];
                output.push(v);
                j = j + 1;
            }
        }
    }
    proof {
        lemma_expand_len(input@, size_orig as nat, 0, 0, seq![]);
    }
    Ok(output)
}

} // verus!
