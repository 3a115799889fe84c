//! The row-predictive delta filter.
use vstd::prelude::*;
use vstd::arithmetic::div_mod::{
    lemma_basic_div,
    lemma_mod_decreases,
    lemma_multiply_divide_lt,
};

use crate::error::DecodeError;

verus! {

/// `a - b` modulo 256.
pub open spec fn byte_sub(a: u8, b: u8) -> u8 {
    if a >= b {
        (a - b) as u8
    } else {
        (a - b + 256) as u8
    }
}

/// The value that a row mode predicts from the reconstructed byte one row up
/// and the one a pixel to the left: 1 takes the left, 2 the upper, 4 the
/// floor of their mean.
pub open spec fn predicted(mode: u8, above: u8, left: u8) -> u8 {
    if mode == 1 {
        left
    } else if mode == 2 {
        above
    } else {
        ((above as int + left as int) / 2) as u8
    }
}

/// A row mode that the filter knows.
pub open spec fn known_mode(mode: u8) -> bool {
    mode == 1 || mode == 2 || mode == 4
}

/// The reconstructed byte at flat index `i` of a delta-filtered buffer `enc`
/// with rows of `stride` bytes, pixels of `ch` bytes and one mode per row.
/// Modes 1 and 4 leave the first pixel of a row as it is; mode 2 uses every
/// byte's upper neighbour.
pub open spec fn unfiltered(enc: Seq<u8>, modes: Seq<u8>, stride: nat, ch: nat, i: nat) -> u8
    decreases i,
{
    if stride == 0 || ch == 0 {
        enc[i as int]
    } else {
        let m = modes[(i / stride) as int];
        let x = i % stride;
        let left = if x >= ch && i >= ch {
            unfiltered(enc, modes, stride, ch, (i - ch) as nat)
        } else {
            0
        };
        let above = if i >= stride {
            unfiltered(enc, modes, stride, ch, (i - stride) as nat)
        } else {
            0
        };
        if m == 2 || ((m == 1 || m == 4) && x >= ch) {
            byte_sub(predicted(m, above, left), enc[i as int])
        } else {
            enc[i as int]
        }
    }
}

/// Encoding a byte as its difference from the prediction and decoding it
/// again gives the byte back, for every mode, neighbours and value.
pub proof fn lemma_delta_round_trip(mode: u8, above: u8, left: u8, original: u8)
    ensures
        byte_sub(
            predicted(mode, above, left),
            byte_sub(predicted(mode, above, left), original),
        ) == original,
{
}

/// The delta encoding of byte `i` of `orig`: its difference from the value
/// that its row's mode predicts from the original neighbours, where
/// `unfiltered` reconstructs one, and the byte itself elsewhere.
pub open spec fn filtered(orig: Seq<u8>, modes: Seq<u8>, stride: nat, ch: nat, i: nat) -> u8 {
    if stride == 0 || ch == 0 {
        orig[i as int]
    } else {
        let m = modes[(i / stride) as int];
        let x = i % stride;
        let left = if x >= ch && i >= ch {
            orig[i - ch]
        } else {
            0
        };
        let above = if i >= stride {
            orig[i - stride]
        } else {
            0
        };
        if m == 2 || ((m == 1 || m == 4) && x >= ch) {
            byte_sub(predicted(m, above, left), orig[i as int])
        } else {
            orig[i as int]
        }
    }
}

/// The delta encoding of a whole buffer.
pub open spec fn encoded(orig: Seq<u8>, modes: Seq<u8>, stride: nat, ch: nat) -> Seq<u8> {
    Seq::new(orig.len(), |k: int| filtered(orig, modes, stride, ch, k as nat))
}

/// Reconstructing a delta-encoded buffer gives every original byte back,
/// whatever the modes and the bytes.
pub proof fn lemma_delta_buffer_round_trip(
    orig: Seq<u8>,
    modes: Seq<u8>,
    stride: nat,
    ch: nat,
    i: nat,
)
    requires
        i < orig.len(),
    ensures
        unfiltered(encoded(orig, modes, stride, ch), modes, stride, ch, i) == orig[i as int],
    decreases i,
{
    let enc = encoded(orig, modes, stride, ch);
    if stride > 0 && ch > 0 {
        let x = i % stride;
        if x >= ch && i >= ch {
            lemma_delta_buffer_round_trip(orig, modes, stride, ch, (i - ch) as nat);
        }
        if i >= stride {
            lemma_delta_buffer_round_trip(orig, modes, stride, ch, (i - stride) as nat);
        }
        let m = modes[(i / stride) as int];
        let left = if x >= ch && i >= ch {
            orig[i - ch]
        } else {
            0
        };
        let above = if i >= stride {
            orig[i - stride]
        } else {
            0
        };
        lemma_delta_round_trip(m, above, left, orig[i as int]);
    }
    assert(enc[i as int] == filtered(orig, modes, stride, ch, i));
}

/// Checks every row mode, then undoes the delta filter in place, row by row
/// from the top and left to right, on `height` rows of `width` pixels of
/// `channels` bytes. Fails, leaving `data` as it was, where a row mode is not
/// 1, 2 or 4. The first row must not use the upper neighbour (modes 2 and 4).
pub fn apply_delta_filter(
    data: &mut Vec<u8>,
    deltas: &[u8],
    width: usize,
    height: usize,
    channels: usize,
) -> (r: Result<(), DecodeError>)
    requires
        channels > 0,
        width * channels <= usize::MAX,
        height * (width * channels) <= old(data).len(),
        height <= deltas.len(),
        height > 0 ==> deltas[0] != 2 && deltas[0] != 4,
    ensures
        r is Err <==> exists|y: int| 0 <= y < height && !known_mode(#[trigger] deltas[y]),
        r is Err ==> r == Err::<(), DecodeError>(DecodeError::UnsupportedFilterMode) && final(data)@
            == old(data)@,
        r is Ok ==> final(data)@.len() == old(data)@.len(),
        r is Ok ==> forall|i: int|
            0 <= i < height * (width * channels) ==> #[trigger] final(data)@[i] == unfiltered(
                old(data)@,
                deltas@,
                (width * channels) as nat,
                channels as nat,
                i as nat,
            ),
        r is Ok ==> forall|i: int|
            height * (width * channels) <= i < old(data)@.len() ==> #[trigger] final(data)@[i]
                == old(data)@[i],
{
    let mut y: usize = 0;
    while y < height
        invariant
            y <= height,
            height <= deltas.len(),
            forall|k: int| 0 <= k < y ==> known_mode(#[trigger] deltas[k]),
        decreases height - y,
    {
        let m = deltas[y];
        if m != 1 && m != 2 && m != 4 {
            return Err(DecodeError::UnsupportedFilterMode);
        }
        y = y + 1;
    }
    let stride = width * channels;
    let n = height * stride;
    let ghost enc = data@;
    let mut i: usize = 0;
    while i < n
        invariant
            channels > 0,
            stride == width * channels,
            n == height * stride,
            n <= enc.len(),
            height <= deltas.len(),
            height > 0 ==> deltas[0] != 2 && deltas[0] != 4,
            forall|k: int| 0 <= k < height ==> known_mode(#[trigger] deltas[k]),
            i <= n,
            data@.len() == enc.len(),
            forall|k: int|
                0 <= k < i ==> #[trigger] data@[k] == unfiltered(
                    enc,
                    deltas@,
                    stride as nat,
                    channels as nat,
                    k as nat,
                ),
            forall|k: int| i <= k < enc.len() ==> #[trigger] data@[k] == enc[k],
        decreases n - i,
    {
        proof {
            lemma_multiply_divide_lt(i as int, stride as int, height as int);
            lemma_mod_decreases(i as nat, stride as nat);
            if i < stride {
                lemma_basic_div(i as int, stride as int);
            }
        }
        let row = i / stride;
        let x = i % stride;
        let m = deltas[row];
        let enc_i = data[i];
        if m == 2 || (x >= channels && (m == 1 || m == 4)) {
            let left: u8 = if x >= channels {
                data[i - channels]
            } else {
                0
            };
            let above: u8 = if i >= stride {
                data[i - stride]
            } else {
                0
            };
            let pred: u8 = if m == 1 {
                left
            } else if m == 2 {
                above
            } else {
                ((above as u16 + left as u16) / 2) as u8
            };
            data.set(i, pred.wrapping_sub(enc_i));
        }
        assert(data@[i as int] == unfiltered(
            enc,
            deltas@,
            stride as nat,
            channels as nat,
            i as nat,
        ));
        i = i + 1;
    }
    Ok(())
}

} // verus!
