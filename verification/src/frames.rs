//! Boards and action masks as bit planes.

use vstd::prelude::*;

use crate::bits::{bit_at, bytes_for, flag_at, lemma_pack_unique, pack_bits, set_bit};
use crate::codec_error::{CodecError, Fault};
use crate::episode::{F32Bits, F32_NEGATIVE_ZERO, F32_ONE};

verus! {

/// Whether a board element is 0 or 1.
pub open spec fn is_binary(bits: F32Bits) -> bool {
    bits == F32_ONE || bits == 0 || bits == F32_NEGATIVE_ZERO
}

/// The first board element from `i` on that is neither 0 nor 1.
pub open spec fn first_bad_element(board: Seq<F32Bits>, i: int) -> Option<int>
    decreases board.len() - i,
{
    if i >= board.len() {
        None
    } else if !is_binary(board[i]) {
        Some(i)
    } else {
        first_bad_element(board, i + 1)
    }
}

/// The fault of a board with an element that is neither 0 nor 1.
pub open spec fn board_fault(board: Seq<F32Bits>, step: int) -> Option<Fault> {
    match first_bad_element(board, 0) {
        Some(i) => Some(
            CodecError::BoardNotBinary { step: step as usize, index: i as usize, bits: board[i] },
        ),
        None => None,
    }
}

/// Channel `c` of a board as flags.
pub open spec fn plane(board: Seq<F32Bits>, c: int, positions: int) -> Seq<bool> {
    Seq::new(positions as nat, |p: int| board[c * positions + p] == F32_ONE)
}

/// The first `channels` channels of a board, each packed into bytes of its own.
pub open spec fn frame_bits(board: Seq<F32Bits>, channels: int, positions: int) -> Seq<u8>
    decreases channels,
{
    if channels <= 0 {
        Seq::empty()
    } else {
        frame_bits(board, channels - 1, positions) + pack_bits(plane(board, channels - 1, positions))
    }
}

/// The first mask entry from `i` on that is neither 0 nor 1.
pub open spec fn first_bad_entry(mask: Seq<i32>, i: int) -> Option<int>
    decreases mask.len() - i,
{
    if i >= mask.len() {
        None
    } else if mask[i] != 0 && mask[i] != 1 {
        Some(i)
    } else {
        first_bad_entry(mask, i + 1)
    }
}

/// The fault of a mask with an entry that is neither 0 nor 1.
pub open spec fn mask_fault(mask: Seq<i32>, step: int) -> Option<Fault> {
    match first_bad_entry(mask, 0) {
        Some(i) => Some(
            CodecError::MaskNotBinary { step: step as usize, index: i as usize, entry: mask[i] },
        ),
        None => None,
    }
}

/// A mask as flags.
pub open spec fn mask_flags(mask: Seq<i32>) -> Seq<bool> {
    Seq::new(mask.len(), |i: int| mask[i] == 1)
}

/// Whether a board element is 1; an error where it is neither 0 nor 1.
pub fn binary_flag(bits: F32Bits, step: usize, index: usize) -> (res: Result<bool, CodecError>)
    ensures
        res == if is_binary(bits) {
            Ok::<bool, CodecError>(bits == F32_ONE)
        } else {
            Err(CodecError::BoardNotBinary { step, index, bits })
        },
{
    if bits == F32_ONE {
        Ok(true)
    } else if bits == 0 || bits == F32_NEGATIVE_ZERO {
        Ok(false)
    } else {
        Err(CodecError::BoardNotBinary { step, index, bits })
    }
}

/// Whether a mask entry is 1; an error where it is neither 0 nor 1.
pub fn mask_flag(value: i32, step: usize, index: usize) -> (res: Result<bool, CodecError>)
    ensures
        res == if value == 0 || value == 1 {
            Ok::<bool, CodecError>(value == 1)
        } else {
            Err(CodecError::MaskNotBinary { step, index, entry: value })
        },
{
    if value == 1 {
        Ok(true)
    } else if value == 0 {
        Ok(false)
    } else {
        Err(CodecError::MaskNotBinary { step, index, entry: value })
    }
}

/// `n` zero bytes.
fn zeros(n: usize) -> (res: Vec<u8>)
    ensures
        res@.len() == n,
        forall|i: int| 0 <= i < 8 * n ==> !#[trigger] bit_at(res@, i),
{
    let mut out: Vec<u8> = Vec::new();
    let mut i: usize = 0;
    while i < n
        invariant
            i <= n,
            out@.len() == i,
            forall|k: int| 0 <= k < i ==> out@[k] == 0,
        decreases n - i,
    {
        out.push(0);
        i += 1;
    }
    proof {
        assert forall|k: int| 0 <= k < 8 * n implies !#[trigger] bit_at(out@, k) by {
            let s = (7 - k % 8) as u8;
            assert((0u8 >> s) & 1u8 == 0u8) by (bit_vector)
                requires
                    s <= 7,
            ;
            assert(out@[k / 8] == 0);
        }
    }
    out
}

fn byte_count(n: usize) -> (res: usize)
    ensures
        res == bytes_for(n as int),
{
    if n % 8 == 0 {
        n / 8
    } else {
        n / 8 + 1
    }
}

/// Packs one channel: the elements from `base` on.
fn pack_plane(board: &Vec<F32Bits>, c: usize, positions: usize, base: usize, step: usize) -> (res:
    Result<Vec<u8>, CodecError>)
    requires
        base == c * positions,
        base + positions <= board@.len(),
    ensures
        match res {
            Ok(bytes) => {
                &&& bytes@ == pack_bits(plane(board@, c as int, positions as int))
                &&& first_bad_element(board@, base as int) == first_bad_element(
                    board@,
                    base + positions,
                )
            },
            Err(e) => first_bad_element(board@, base as int) matches Some(i) && e@
                == (Fault::BoardNotBinary { step, index: i as usize, bits: board@[i] }),
        },
{
    let total: usize = board.len();
    let width: usize = byte_count(positions);
    let mut out = zeros(width);
    let ghost flags = plane(board@, c as int, positions as int);
    let mut p: usize = 0;
    while p < positions
        invariant
            p <= positions,
            base == c * positions,
            total == board@.len(),
            base + positions <= total,
            flags == plane(board@, c as int, positions as int),
            out@.len() == bytes_for(positions as int),
            first_bad_element(board@, base as int) == first_bad_element(board@, base + p),
            forall|i: int|
                0 <= i < 8 * out@.len() ==> #[trigger] bit_at(out@, i) == (i < p && flag_at(
                    flags,
                    i,
                )),
        decreases positions - p,
    {
        let k: usize = base + p;
        let set: bool = match binary_flag(board[k], step, k) {
            Ok(set) => set,
            Err(e) => {
                return Err(e);
            },
        };
        assert(flags[p as int] == set);
        set_bit(&mut out, p, set);
        p += 1;
    }
    proof {
        lemma_pack_unique(out@, flags);
    }
    Ok(out)
}

/// Packs a board: one bit plane per channel, each in bytes of its own. An element that is neither 0
/// nor 1 is an error.
pub fn pack_board_frame(
    board: &Vec<F32Bits>,
    channels: usize,
    positions: usize,
    step: usize,
) -> (res: Result<Vec<u8>, CodecError>)
    requires
        board@.len() == channels * positions,
    ensures
        match board_fault(board@, step as int) {
            Some(e) => res is Err && res->Err_0@ == e,
            None => res is Ok && res->Ok_0@ == frame_bits(
                board@,
                channels as int,
                positions as int,
            ),
        },
{
    let total: usize = board.len();
    let mut out: Vec<u8> = Vec::new();
    let mut c: usize = 0;
    let mut base: usize = 0;
    while c < channels
        invariant
            c <= channels,
            base == c * positions,
            total == board@.len(),
            base <= total,
            total == channels * positions,
            first_bad_element(board@, 0) == first_bad_element(board@, base as int),
            out@ == frame_bits(board@, c as int, positions as int),
        decreases channels - c,
    {
        assert(base + positions == (c + 1) * positions) by (nonlinear_arith)
            requires
                base == c * positions,
        ;
        assert((c + 1) * positions <= channels * positions) by (nonlinear_arith)
            requires
                c + 1 <= channels,
        ;
        match pack_plane(board, c, positions, base, step) {
            Ok(bytes) => {
                let mut bytes = bytes;
                out.append(&mut bytes);
            },
            Err(e) => {
                return Err(e);
            },
        }
        c += 1;
        base += positions;
    }
    Ok(out)
}

/// Packs an action mask. An entry that is neither 0 nor 1 is an error.
pub fn pack_mask(mask: &Vec<i32>, step: usize) -> (res: Result<Vec<u8>, CodecError>)
    ensures
        match mask_fault(mask@, step as int) {
            Some(e) => res is Err && res->Err_0@ == e,
            None => res is Ok && res->Ok_0@ == pack_bits(mask_flags(mask@)),
        },
{
    let n: usize = mask.len();
    let width: usize = byte_count(n);
    let mut out = zeros(width);
    let ghost flags = mask_flags(mask@);
    let mut i: usize = 0;
    while i < n
        invariant
            i <= n,
            n == mask@.len(),
            flags == mask_flags(mask@),
            out@.len() == bytes_for(n as int),
            first_bad_entry(mask@, 0) == first_bad_entry(mask@, i as int),
            forall|k: int|
                0 <= k < 8 * out@.len() ==> #[trigger] bit_at(out@, k) == (k < i && flag_at(
                    flags,
                    k,
                )),
        decreases n - i,
    {
        let set: bool = match mask_flag(mask[i], step, i) {
            Ok(set) => set,
            Err(e) => {
                return Err(e);
            },
        };
        set_bit(&mut out, i, set);
        i += 1;
    }
    proof {
        lemma_pack_unique(out@, flags);
    }
    Ok(out)
}

} // verus!
