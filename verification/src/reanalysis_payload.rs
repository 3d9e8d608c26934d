//! The positions of a task, as bytes.
//!
//! One byte for the version, a word for the number of positions, then every position: a word for the
//! length of its snapshot, the snapshot, one byte of flags, a word for the winner and a word for the
//! difference in health. The lowest flag says whether there is a winner, the next whether there is a
//! difference in health; what is absent is written as 0. Words are little-endian.

use vstd::prelude::*;

use crate::bits::{
    from_le32, law_le32_reads_back, le32, push_i32, push_u32, signed32, to_signed, twos_complement,
};
use crate::episode::F32Bits;
use crate::reanalysis::ReanalysisItem;

verus! {

/// The version of the layout.
pub const PAYLOAD_VERSION: u8 = 1;

/// Why a payload cannot be written or read.
#[derive(Clone, Copy, Debug, PartialEq, Eq, Structural)]
pub enum PayloadError {
    /// There is no version.
    Empty,
    /// The version is not the one that is known.
    UnknownVersion { version: u8 },
    /// The number of positions is cut off.
    NoCount,
    /// Position `item` is cut off.
    Truncated { item: usize },
    /// Bytes follow the last position.
    TrailingBytes { bytes: usize },
    /// There are more positions than 32 bits can count.
    TooManyItems { items: usize },
    /// A snapshot is longer than 32 bits can count.
    SnapshotTooLong { item: usize },
}

/// A position and how its game ended.
#[verifier::ext_equal]
pub struct ItemModel {
    pub snapshot: Seq<u8>,
    pub winner: Option<i32>,
    pub health_diff_red: Option<F32Bits>,
}

impl View for ReanalysisItem {
    type V = ItemModel;

    open spec fn view(&self) -> ItemModel {
        ItemModel {
            snapshot: self.snapshot@,
            winner: self.winner,
            health_diff_red: self.health_diff_red,
        }
    }
}

/// The positions as plain values.
pub open spec fn item_models(items: Seq<ReanalysisItem>) -> Seq<ItemModel> {
    items.map_values(|i: ReanalysisItem| i@)
}

/// The flags of a position.
pub open spec fn item_flags(m: ItemModel) -> u8 {
    if m.winner is Some && m.health_diff_red is Some {
        3
    } else if m.health_diff_red is Some {
        2
    } else if m.winner is Some {
        1
    } else {
        0
    }
}

/// The bytes of a position.
#[verifier::opaque]
pub open spec fn item_bytes(m: ItemModel) -> Seq<u8> {
    let winner = match m.winner {
        Some(w) => twos_complement(w) as u32,
        None => 0,
    };
    let health = match m.health_diff_red {
        Some(h) => h,
        None => 0,
    };
    le32(m.snapshot.len() as u32) + m.snapshot + seq![item_flags(m)] + le32(winner) + le32(health)
}

/// The bytes of all positions.
pub open spec fn items_bytes(ms: Seq<ItemModel>) -> Seq<u8>
    decreases ms.len(),
{
    if ms.len() == 0 {
        Seq::empty()
    } else {
        item_bytes(ms[0]) + items_bytes(ms.drop_first())
    }
}

/// The bytes of a payload.
pub open spec fn payload_bytes(ms: Seq<ItemModel>) -> Seq<u8> {
    seq![PAYLOAD_VERSION] + le32(ms.len() as u32) + items_bytes(ms)
}

/// The position at the start of `s`, and what follows it.
#[verifier::opaque]
pub open spec fn read_item(s: Seq<u8>) -> Option<(ItemModel, Seq<u8>)> {
    let n = from_le32(s);
    if s.len() < 4 || s.len() < 4 + n + 9 {
        None
    } else {
        let flags = s[4 + n];
        let m = ItemModel {
            snapshot: s.subrange(4, 4 + n),
            winner: if flags % 2 == 1 {
                Some(signed32(from_le32(s.skip(5 + n))) as i32)
            } else {
                None
            },
            health_diff_red: if (flags / 2) % 2 == 1 {
                Some(from_le32(s.skip(9 + n)) as F32Bits)
            } else {
                None
            },
        };
        Some((m, s.skip(13 + n)))
    }
}

/// `count` more positions from the start of `s`, after those in `done`, and what follows them.
pub open spec fn read_items(s: Seq<u8>, done: Seq<ItemModel>, count: int) -> Result<
    (Seq<ItemModel>, Seq<u8>),
    PayloadError,
>
    decreases count,
{
    if count <= 0 {
        Ok((done, s))
    } else {
        match read_item(s) {
            Some((m, rest)) => read_items(rest, done.push(m), count - 1),
            None => Err(PayloadError::Truncated { item: done.len() as usize }),
        }
    }
}

/// What a payload says.
pub open spec fn read_payload(s: Seq<u8>) -> Result<Seq<ItemModel>, PayloadError> {
    if s.len() == 0 {
        Err(PayloadError::Empty)
    } else if s[0] != PAYLOAD_VERSION {
        Err(PayloadError::UnknownVersion { version: s[0] })
    } else if s.len() < 5 {
        Err(PayloadError::NoCount)
    } else {
        match read_items(s.skip(5), Seq::empty(), from_le32(s.skip(1))) {
            Ok((ms, rest)) => if rest.len() > 0 {
                Err(PayloadError::TrailingBytes { bytes: rest.len() as usize })
            } else {
                Ok(ms)
            },
            Err(e) => Err(e),
        }
    }
}

proof fn lemma_items_push(ms: Seq<ItemModel>, m: ItemModel)
    ensures
        items_bytes(ms.push(m)) == items_bytes(ms) + item_bytes(m),
    decreases ms.len(),
{
    if ms.len() == 0 {
        reveal_with_fuel(items_bytes, 2);
        assert(ms.push(m).drop_first() =~= Seq::empty());
        assert(items_bytes(ms.push(m)) =~= items_bytes(ms) + item_bytes(m));
    } else {
        lemma_items_push(ms.drop_first(), m);
        assert(ms.push(m).drop_first() =~= ms.drop_first().push(m));
        assert(items_bytes(ms.push(m)) =~= items_bytes(ms) + item_bytes(m));
    }
}

proof fn lemma_word_then(w: u32, rest: Seq<u8>)
    ensures
        from_le32(le32(w) + rest) == w,
{
    law_le32_reads_back(w);
    let s = le32(w) + rest;
    assert(s[0] == le32(w)[0] && s[1] == le32(w)[1] && s[2] == le32(w)[2] && s[3] == le32(w)[3]);
}

proof fn lemma_item_layout(m: ItemModel, winner: u32, health: u32, rest: Seq<u8>)
    requires
        m.snapshot.len() <= u32::MAX,
    ensures
        ({
            let n = m.snapshot.len() as int;
            let s = le32(n as u32) + m.snapshot + seq![item_flags(m)] + le32(winner) + le32(health)
                + rest;
            &&& s.len() == 13 + n + rest.len()
            &&& from_le32(s) == n
            &&& s.subrange(4, 4 + n) == m.snapshot
            &&& s[4 + n] == item_flags(m)
            &&& from_le32(s.skip(5 + n)) == winner
            &&& from_le32(s.skip(9 + n)) == health
            &&& s.skip(13 + n) == rest
        }),
{
    let n = m.snapshot.len() as int;
    let flags = seq![item_flags(m)];
    let s = le32(n as u32) + m.snapshot + flags + le32(winner) + le32(health) + rest;
    let after = m.snapshot + flags + le32(winner) + le32(health) + rest;
    assert(s =~= le32(n as u32) + after);
    lemma_word_then(n as u32, after);
    assert(s.subrange(4, 4 + n) =~= m.snapshot);
    assert(s.skip(5 + n) =~= le32(winner) + (le32(health) + rest));
    lemma_word_then(winner, le32(health) + rest);
    assert(s.skip(9 + n) =~= le32(health) + rest);
    lemma_word_then(health, rest);
    assert(s.skip(13 + n) =~= rest);
}

proof fn lemma_read_parts(s: Seq<u8>, m: ItemModel, winner: u32, health: u32, rest: Seq<u8>)
    requires
        ({
            let n = m.snapshot.len() as int;
            &&& s.len() == 13 + n + rest.len()
            &&& from_le32(s) == n
            &&& s.subrange(4, 4 + n) == m.snapshot
            &&& s[4 + n] == item_flags(m)
            &&& from_le32(s.skip(5 + n)) == winner
            &&& from_le32(s.skip(9 + n)) == health
            &&& s.skip(13 + n) == rest
        }),
        m.winner matches Some(w) ==> winner == twos_complement(w),
        m.health_diff_red matches Some(h) ==> health == h,
    ensures
        read_item(s) == Some((m, rest)),
{
    reveal(read_item);
    let flags = item_flags(m);
    assert((flags % 2 == 1) == (m.winner is Some));
    assert(((flags / 2) % 2 == 1) == (m.health_diff_red is Some));
}

proof fn lemma_read_item(m: ItemModel, rest: Seq<u8>)
    requires
        m.snapshot.len() <= u32::MAX,
    ensures
        read_item(item_bytes(m) + rest) == Some((m, rest)),
{
    let winner = match m.winner {
        Some(w) => twos_complement(w) as u32,
        None => 0,
    };
    let health = match m.health_diff_red {
        Some(h) => h,
        None => 0,
    };
    let s = le32(m.snapshot.len() as u32) + m.snapshot + seq![item_flags(m)] + le32(winner) + le32(
        health,
    ) + rest;
    assert(item_bytes(m) + rest == s) by {
        reveal(item_bytes);
    }
    lemma_item_layout(m, winner, health, rest);
    lemma_read_parts(s, m, winner, health, rest);
}

proof fn lemma_read_items(ms: Seq<ItemModel>, done: Seq<ItemModel>, rest: Seq<u8>)
    requires
        forall|i: int| 0 <= i < ms.len() ==> (#[trigger] ms[i]).snapshot.len() <= u32::MAX,
    ensures
        read_items(items_bytes(ms) + rest, done, ms.len() as int) == Ok::<
            (Seq<ItemModel>, Seq<u8>),
            PayloadError,
        >((done + ms, rest)),
    decreases ms.len(),
{
    if ms.len() == 0 {
        assert(items_bytes(ms) + rest =~= rest);
        assert(done + ms =~= done);
    } else {
        let tail = ms.drop_first();
        assert forall|i: int| 0 <= i < tail.len() implies (#[trigger] tail[i]).snapshot.len()
            <= u32::MAX by {
            assert(tail[i] == ms[i + 1]);
        }
        assert(ms[0].snapshot.len() <= u32::MAX);
        assert(items_bytes(ms) + rest =~= item_bytes(ms[0]) + (items_bytes(tail) + rest));
        lemma_read_item(ms[0], items_bytes(tail) + rest);
        lemma_read_items(tail, done.push(ms[0]), rest);
        assert(done.push(ms[0]) + tail =~= done + ms);
    }
}

/// Reading a payload gives back the positions that were written.
pub proof fn law_payload_reads_back(ms: Seq<ItemModel>)
    requires
        ms.len() <= u32::MAX,
        forall|i: int| 0 <= i < ms.len() ==> (#[trigger] ms[i]).snapshot.len() <= u32::MAX,
    ensures
        read_payload(payload_bytes(ms)) == Ok::<Seq<ItemModel>, PayloadError>(ms),
{
    let s = payload_bytes(ms);
    let none = Seq::<u8>::empty();
    assert(s.skip(1) =~= le32(ms.len() as u32) + items_bytes(ms));
    lemma_word_then(ms.len() as u32, items_bytes(ms));
    assert(s.skip(5) =~= items_bytes(ms) + none);
    lemma_read_items(ms, Seq::empty(), none);
    assert(Seq::<ItemModel>::empty() + ms =~= ms);
}

/// The first position from `i` on whose snapshot is too long.
pub open spec fn first_too_long(ms: Seq<ItemModel>, i: int) -> Option<int>
    decreases ms.len() - i,
{
    if i >= ms.len() {
        None
    } else if ms[i].snapshot.len() > u32::MAX {
        Some(i)
    } else {
        first_too_long(ms, i + 1)
    }
}

/// Writes positions as a payload. More positions, or a longer snapshot, than 32 bits can count is an
/// error.
pub fn encode_payload(items: &Vec<ReanalysisItem>) -> (res: Result<Vec<u8>, PayloadError>)
    ensures
        ({
            let ms = item_models(items@);
            if ms.len() > u32::MAX {
                res == Err::<Vec<u8>, PayloadError>(
                    (PayloadError::TooManyItems { items: ms.len() as usize }),
                )
            } else {
                match first_too_long(ms, 0) {
                    Some(i) => res == Err::<Vec<u8>, PayloadError>(
                        (PayloadError::SnapshotTooLong { item: i as usize }),
                    ),
                    None => res is Ok && res->Ok_0@ == payload_bytes(ms),
                }
            }
        }),
{
    let n: usize = items.len();
    let ghost ms = item_models(items@);
    if n > u32::MAX as usize {
        return Err(PayloadError::TooManyItems { items: n });
    }
    let mut out: Vec<u8> = Vec::new();
    out.push(PAYLOAD_VERSION);
    push_u32(&mut out, n as u32);
    let mut i: usize = 0;
    assert(ms.take(0) =~= Seq::empty());
    assert(out@ =~= seq![PAYLOAD_VERSION] + le32(n as u32) + items_bytes(ms.take(0)));
    while i < n
        invariant
            i <= n,
            n == items@.len(),
            n <= u32::MAX,
            ms == item_models(items@),
            first_too_long(ms, 0) == first_too_long(ms, i as int),
            out@ == seq![PAYLOAD_VERSION] + le32(n as u32) + items_bytes(ms.take(i as int)),
        decreases n - i,
    {
        let ghost m = ms[i as int];
        let ghost so_far = out@;
        let length: usize = items[i].snapshot.len();
        if length > u32::MAX as usize {
            return Err(PayloadError::SnapshotTooLong { item: i });
        }
        push_u32(&mut out, length as u32);
        out.extend_from_slice(items[i].snapshot.as_slice());
        assert(out@ =~= so_far + le32(length as u32) + m.snapshot);
        let flags: u8 = match (items[i].winner, items[i].health_diff_red) {
            (Some(_), Some(_)) => 3,
            (None, Some(_)) => 2,
            (Some(_), None) => 1,
            (None, None) => 0,
        };
        out.push(flags);
        match items[i].winner {
            Some(winner) => push_i32(&mut out, winner),
            None => push_u32(&mut out, 0),
        }
        match items[i].health_diff_red {
            Some(health) => push_u32(&mut out, health),
            None => push_u32(&mut out, 0),
        }
        proof {
            reveal(item_bytes);
            assert(out@ =~= so_far + item_bytes(m));
            lemma_items_push(ms.take(i as int), m);
            assert(ms.take(i as int).push(m) =~= ms.take(i + 1));
            assert(out@ =~= seq![PAYLOAD_VERSION] + le32(n as u32) + items_bytes(ms.take(i + 1)));
        }
        i += 1;
    }
    assert(ms.take(n as int) =~= ms);
    Ok(out)
}

fn word_from(bytes: &Vec<u8>, at: usize) -> (res: u32)
    requires
        at + 4 <= bytes@.len(),
    ensures
        res == from_le32(bytes@.skip(at as int)),
{
    let total: usize = bytes.len();
    assert(total == bytes@.len());
    let ghost s = bytes@.skip(at as int);
    assert(s[0] == bytes@[at as int] && s[1] == bytes@[at + 1] && s[2] == bytes@[at + 2] && s[3]
        == bytes@[at + 3]);
    bytes[at] as u32 + 256 * (bytes[at + 1] as u32) + 65536 * (bytes[at + 2] as u32) + 16777216 * (
    bytes[at + 3] as u32)
}

/// Reads a payload. Anything that is not exactly a payload of the known version is an error.
pub fn decode_payload(bytes: &Vec<u8>) -> (res: Result<Vec<ReanalysisItem>, PayloadError>)
    ensures
        match read_payload(bytes@) {
            Ok(ms) => res is Ok && item_models(res->Ok_0@) == ms,
            Err(e) => res == Err::<Vec<ReanalysisItem>, PayloadError>(e),
        },
{
    let total: usize = bytes.len();
    if total == 0 {
        return Err(PayloadError::Empty);
    }
    if bytes[0] != PAYLOAD_VERSION {
        return Err(PayloadError::UnknownVersion { version: bytes[0] });
    }
    if total < 5 {
        return Err(PayloadError::NoCount);
    }
    let count: u32 = word_from(bytes, 1);
    let mut items: Vec<ReanalysisItem> = Vec::new();
    let mut at: usize = 5;
    let mut left: u32 = count;
    assert(item_models(items@) =~= Seq::empty());
    while left > 0
        invariant
            total == bytes@.len(),
            5 <= at <= total,
            read_items(bytes@.skip(5), Seq::empty(), count as int) == read_items(
                bytes@.skip(at as int),
                item_models(items@),
                left as int,
            ),
            read_payload(bytes@) == match read_items(bytes@.skip(5), Seq::empty(), count as int) {
                Ok((ms, rest)) => if rest.len() > 0 {
                    Err(PayloadError::TrailingBytes { bytes: rest.len() as usize })
                } else {
                    Ok(ms)
                },
                Err(e) => Err(e),
            },
        decreases left,
    {
        let ghost s = bytes@.skip(at as int);
        proof {
            reveal(read_item);
        }
        let done: usize = items.len();
        assert(item_models(items@).len() == done);
        if total - at < 4 {
            return Err(PayloadError::Truncated { item: done });
        }
        let length: u32 = word_from(bytes, at);
        if ((total - at) as u64) < length as u64 + 13 {
            return Err(PayloadError::Truncated { item: done });
        }
        let n: usize = length as usize;
        let snapshot = part_of(bytes, at + 4, n);
        assert(snapshot@ =~= s.subrange(4, 4 + n));
        let flags: u8 = bytes[at + 4 + n];
        assert(flags == s[4 + n]);
        let winner_word: u32 = word_from(bytes, at + 5 + n);
        assert(bytes@.skip(at + 5 + n) =~= s.skip(5 + n));
        let health_word: u32 = word_from(bytes, at + 9 + n);
        assert(bytes@.skip(at + 9 + n) =~= s.skip(9 + n));
        let winner: Option<i32> = if flags % 2 == 1 {
            Some(to_signed(winner_word))
        } else {
            None
        };
        let health_diff_red: Option<u32> = if (flags / 2) % 2 == 1 {
            Some(health_word)
        } else {
            None
        };
        let item = ReanalysisItem { snapshot, winner, health_diff_red };
        let ghost before = item_models(items@);
        items.push(item);
        at = at + 13 + n;
        left = left - 1;
        proof {
            assert(item_models(items@) =~= before.push(item@));
            assert(bytes@.skip(at as int) =~= s.skip(13 + n));
            assert(read_item(s) == Some((item@, bytes@.skip(at as int))));
        }
    }
    if at < total {
        return Err(PayloadError::TrailingBytes { bytes: total - at });
    }
    Ok(items)
}

fn part_of(bytes: &Vec<u8>, from: usize, n: usize) -> (res: Vec<u8>)
    requires
        from + n <= bytes@.len(),
    ensures
        res@ == bytes@.subrange(from as int, from + n),
{
    let total: usize = bytes.len();
    let mut out: Vec<u8> = Vec::new();
    let mut i: usize = 0;
    while i < n
        invariant
            i <= n,
            total == bytes@.len(),
            from + n <= total,
            out@ == bytes@.subrange(from as int, from + i),
        decreases n - i,
    {
        out.push(bytes[from + i]);
        assert(out@ =~= bytes@.subrange(from as int, from + i + 1));
        i += 1;
    }
    out
}

/// A payload begins with version 1 and the number of its positions.
pub proof fn law_payload_begins_with_its_count(ms: Seq<ItemModel>)
    requires
        ms.len() <= u32::MAX,
    ensures
        payload_bytes(ms).len() >= 5,
        payload_bytes(ms)[0] == 1,
        from_le32(payload_bytes(ms).skip(1)) == ms.len(),
        payload_bytes(ms).skip(5) == items_bytes(ms),
{
    let s = payload_bytes(ms);
    assert(s.skip(1) =~= le32(ms.len() as u32) + items_bytes(ms));
    lemma_word_then(ms.len() as u32, items_bytes(ms));
    assert(s.skip(5) =~= items_bytes(ms));
}

/// A position is its length, its snapshot, its flags, its winner and its difference in health, in
/// this order; the lowest flag says whether there is a winner, the next whether there is a
/// difference, and no other is set; what is absent is zero.
pub proof fn law_position_layout(m: ItemModel)
    requires
        m.snapshot.len() <= u32::MAX,
    ensures
        ({
            let n = m.snapshot.len() as int;
            let s = item_bytes(m);
            &&& s.len() == 13 + n
            &&& from_le32(s) == n
            &&& s.subrange(4, 4 + n) == m.snapshot
            &&& s[4 + n] < 4
            &&& s[4 + n] % 2 == 1 <==> m.winner is Some
            &&& s[4 + n] / 2 == 1 <==> m.health_diff_red is Some
            &&& signed32(from_le32(s.skip(5 + n))) == match m.winner {
                Some(w) => w as int,
                None => 0,
            }
            &&& from_le32(s.skip(9 + n)) == match m.health_diff_red {
                Some(h) => h as int,
                None => 0,
            }
        }),
{
    reveal(item_bytes);
    let winner = match m.winner {
        Some(w) => twos_complement(w) as u32,
        None => 0,
    };
    let health = match m.health_diff_red {
        Some(h) => h,
        None => 0,
    };
    let none = Seq::<u8>::empty();
    lemma_item_layout(m, winner, health, none);
    assert(item_bytes(m) + none =~= item_bytes(m));
}

/// Positions follow each other without a gap.
pub proof fn law_positions_follow_each_other(ms: Seq<ItemModel>, m: ItemModel)
    ensures
        items_bytes(Seq::empty()).len() == 0,
        items_bytes(ms.push(m)) == items_bytes(ms) + item_bytes(m),
{
    lemma_items_push(ms, m);
}

proof fn lemma_cut_item(m: ItemModel, k: int)
    requires
        m.snapshot.len() <= u32::MAX,
        0 <= k < item_bytes(m).len(),
    ensures
        read_item(item_bytes(m).take(k)) is None,
{
    reveal(read_item);
    law_position_layout(m);
    let s = item_bytes(m);
    let cut = s.take(k);
    if k >= 4 {
        assert(cut[0] == s[0] && cut[1] == s[1] && cut[2] == s[2] && cut[3] == s[3]);
    }
}

proof fn lemma_cut_items(ms: Seq<ItemModel>, done: Seq<ItemModel>, k: int)
    requires
        forall|i: int| 0 <= i < ms.len() ==> (#[trigger] ms[i]).snapshot.len() <= u32::MAX,
        0 <= k < items_bytes(ms).len(),
    ensures
        read_items(items_bytes(ms).take(k), done, ms.len() as int) is Err,
    decreases ms.len(),
{
    if ms.len() > 0 {
        let tail = ms.drop_first();
        let first = item_bytes(ms[0]);
        let cut = items_bytes(ms).take(k);
        assert(ms[0].snapshot.len() <= u32::MAX);
        assert forall|i: int| 0 <= i < tail.len() implies (#[trigger] tail[i]).snapshot.len()
            <= u32::MAX by {
            assert(tail[i] == ms[i + 1]);
        }
        if k < first.len() {
            assert(cut =~= first.take(k));
            lemma_cut_item(ms[0], k);
        } else {
            let left = k - first.len();
            assert(cut =~= first + items_bytes(tail).take(left));
            lemma_read_item(ms[0], items_bytes(tail).take(left));
            lemma_cut_items(tail, done.push(ms[0]), left);
        }
    }
}

/// A payload that is cut off anywhere is refused.
pub proof fn law_cut_payloads_are_refused(ms: Seq<ItemModel>, k: int)
    requires
        ms.len() <= u32::MAX,
        forall|i: int| 0 <= i < ms.len() ==> (#[trigger] ms[i]).snapshot.len() <= u32::MAX,
        0 <= k < payload_bytes(ms).len(),
    ensures
        read_payload(payload_bytes(ms).take(k)) is Err,
{
    let s = payload_bytes(ms);
    let cut = s.take(k);
    law_payload_begins_with_its_count(ms);
    if k >= 5 {
        assert(cut.skip(1)[0] == s.skip(1)[0] && cut.skip(1)[1] == s.skip(1)[1] && cut.skip(1)[2]
            == s.skip(1)[2] && cut.skip(1)[3] == s.skip(1)[3]);
        assert(cut.skip(5) =~= items_bytes(ms).take(k - 5));
        lemma_cut_items(ms, Seq::empty(), k - 5);
    }
}

/// A payload with anything behind it is refused, and the reason says how much.
pub proof fn law_longer_payloads_are_refused(ms: Seq<ItemModel>, more: Seq<u8>)
    requires
        ms.len() <= u32::MAX,
        forall|i: int| 0 <= i < ms.len() ==> (#[trigger] ms[i]).snapshot.len() <= u32::MAX,
        0 < more.len() <= usize::MAX,
    ensures
        read_payload(payload_bytes(ms) + more) == Err::<Seq<ItemModel>, PayloadError>(
            (PayloadError::TrailingBytes { bytes: more.len() as usize }),
        ),
{
    let s = payload_bytes(ms) + more;
    assert(s.skip(1) =~= le32(ms.len() as u32) + (items_bytes(ms) + more));
    lemma_word_then(ms.len() as u32, items_bytes(ms) + more);
    assert(s.skip(5) =~= items_bytes(ms) + more);
    lemma_read_items(ms, Seq::empty(), more);
}

/// A payload of another version is refused, whatever it holds, and so is one without a version or
/// without a count.
pub proof fn law_other_versions_are_refused(s: Seq<u8>)
    ensures
        s.len() == 0 <==> read_payload(s) == Err::<Seq<ItemModel>, PayloadError>(
            PayloadError::Empty,
        ),
        s.len() > 0 && s[0] != 1 ==> read_payload(s) == Err::<Seq<ItemModel>, PayloadError>(
            (PayloadError::UnknownVersion { version: s[0] }),
        ),
        0 < s.len() < 5 && s[0] == 1 ==> read_payload(s) == Err::<Seq<ItemModel>, PayloadError>(
            PayloadError::NoCount,
        ),
        read_payload(s) is Ok ==> s.len() >= 5 && s[0] == 1 && read_payload(s)->Ok_0.len()
            == from_le32(s.skip(1)),
{
    if s.len() >= 5 && s[0] == 1 {
        lemma_read_count(s.skip(5), Seq::empty(), from_le32(s.skip(1)));
    }
}

proof fn lemma_read_count(s: Seq<u8>, done: Seq<ItemModel>, count: int)
    ensures
        read_items(s, done, count) matches Ok((ms, rest)) ==> ms.len() == done.len() + if count > 0 {
            count
        } else {
            0
        },
        read_items(s, done, count) matches Err(e) ==> e is Truncated,
    decreases count,
{
    if count > 0 {
        if let Some((m, rest)) = read_item(s) {
            lemma_read_count(rest, done.push(m), count - 1);
        }
    }
}

/// Positions can be written exactly where 32 bits count every snapshot; else the first that is too
/// long is named.
pub proof fn law_first_too_long(ms: Seq<ItemModel>, k: int)
    requires
        0 <= k,
    ensures
        first_too_long(ms, k) is None <==> forall|i: int|
            k <= i < ms.len() ==> (#[trigger] ms[i]).snapshot.len() <= u32::MAX,
        first_too_long(ms, k) matches Some(j) ==> k <= j < ms.len() && ms[j].snapshot.len()
            > u32::MAX && forall|i: int|
            k <= i < j ==> (#[trigger] ms[i]).snapshot.len() <= u32::MAX,
    decreases ms.len() - k,
{
    if k < ms.len() {
        law_first_too_long(ms, k + 1);
        let here = ms[k];
    }
}

/// The plain values of positions are the positions, one by one.
pub proof fn law_item_models(items: Seq<ReanalysisItem>, i: int)
    requires
        0 <= i < items.len(),
    ensures
        item_models(items).len() == items.len(),
        item_models(items)[i].snapshot == items[i].snapshot@,
        item_models(items)[i].winner == items[i].winner,
        item_models(items)[i].health_diff_red == items[i].health_diff_red,
{
}

/// A payload that is cut off inside position `j` is refused with that position named.
pub proof fn law_cut_names_the_position(
    ms: Seq<ItemModel>,
    done: Seq<ItemModel>,
    j: int,
    k: int,
)
    requires
        forall|i: int| 0 <= i < ms.len() ==> (#[trigger] ms[i]).snapshot.len() <= u32::MAX,
        0 <= j < ms.len(),
        items_bytes(ms.take(j)).len() <= k < items_bytes(ms.take(j + 1)).len(),
    ensures
        k <= items_bytes(ms).len(),
        read_items(items_bytes(ms).take(k), done, ms.len() as int) == Err::<
            (Seq<ItemModel>, Seq<u8>),
            PayloadError,
        >((PayloadError::Truncated { item: (done.len() + j) as usize })),
    decreases ms.len(),
{
    let tail = ms.drop_first();
    let first = item_bytes(ms[0]);
    let cut = items_bytes(ms).take(k);
    assert(ms[0].snapshot.len() <= u32::MAX);
    assert forall|i: int| 0 <= i < tail.len() implies (#[trigger] tail[i]).snapshot.len()
        <= u32::MAX by {
        assert(tail[i] == ms[i + 1]);
    }
    assert(ms.take(j + 1)[0] == ms[0]);
    assert(ms.take(j + 1).drop_first() =~= tail.take(j));
    if j == 0 {
        assert(tail.take(0) =~= Seq::empty());
        assert(items_bytes(Seq::<ItemModel>::empty()).len() == 0);
        assert(items_bytes(ms.take(1)) == first + items_bytes(ms.take(1).drop_first()));
        assert(k < first.len());
        assert(cut =~= first.take(k));
        lemma_cut_item(ms[0], k);
    } else {
        assert(ms.take(j)[0] == ms[0]);
        assert(ms.take(j).drop_first() =~= tail.take(j - 1));
        let left = k - first.len();
        law_cut_names_the_position(tail, done.push(ms[0]), j - 1, left);
        assert(cut =~= first + items_bytes(tail).take(left));
        lemma_read_item(ms[0], items_bytes(tail).take(left));
    }
}

} // verus!
