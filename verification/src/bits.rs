//! Bit planes and little-endian words, the two layouts that training records are made of.

use vstd::prelude::*;

verus! {

/// Whether bit `i` of a packed buffer is set. Bits run from the most significant bit of the first
/// byte on.
pub open spec fn bit_at(buf: Seq<u8>, i: int) -> bool {
    (buf[i / 8] >> ((7 - i % 8) as u8)) & 1u8 == 1u8
}

/// How many bytes `n` bits take.
pub open spec fn bytes_for(n: int) -> int {
    (n + 7) / 8
}

/// Flag `i`, where every flag past the end counts as unset.
pub open spec fn flag_at(flags: Seq<bool>, i: int) -> bool {
    0 <= i < flags.len() && flags[i]
}

/// The value that a flag contributes to its byte.
pub open spec fn weight(set: bool, value: u8) -> u8 {
    if set {
        value
    } else {
        0
    }
}

/// Byte `j` of the packed form of `flags`.
pub open spec fn packed_byte(flags: Seq<bool>, j: int) -> u8 {
    weight(flag_at(flags, 8 * j), 128) | weight(flag_at(flags, 8 * j + 1), 64) | weight(
        flag_at(flags, 8 * j + 2),
        32,
    ) | weight(flag_at(flags, 8 * j + 3), 16) | weight(flag_at(flags, 8 * j + 4), 8) | weight(
        flag_at(flags, 8 * j + 5),
        4,
    ) | weight(flag_at(flags, 8 * j + 6), 2) | weight(flag_at(flags, 8 * j + 7), 1)
}

/// `flags` as a bit plane: most significant bit first, the last byte filled up with zeros.
pub open spec fn pack_bits(flags: Seq<bool>) -> Seq<u8> {
    Seq::new(bytes_for(flags.len() as int) as nat, |j: int| packed_byte(flags, j))
}

/// What a reader recovers from a bit plane that holds `n` flags.
pub open spec fn unpack_bits(buf: Seq<u8>, n: nat) -> Seq<bool> {
    Seq::new(n, |i: int| bit_at(buf, i))
}

/// Two bytes with the same eight bits are the same byte.
proof fn lemma_byte_from_bits(a: u8, b: u8)
    requires
        forall|k: int| 0 <= k < 8 ==> #[trigger] bit_at(seq![a], k) == bit_at(seq![b], k),
    ensures
        a == b,
{
    assert(bit_at(seq![a], 0) == bit_at(seq![b], 0));
    assert(bit_at(seq![a], 1) == bit_at(seq![b], 1));
    assert(bit_at(seq![a], 2) == bit_at(seq![b], 2));
    assert(bit_at(seq![a], 3) == bit_at(seq![b], 3));
    assert(bit_at(seq![a], 4) == bit_at(seq![b], 4));
    assert(bit_at(seq![a], 5) == bit_at(seq![b], 5));
    assert(bit_at(seq![a], 6) == bit_at(seq![b], 6));
    assert(bit_at(seq![a], 7) == bit_at(seq![b], 7));
    assert(a == b) by (bit_vector)
        requires
            ((a >> 7u8) & 1u8 == 1u8) == ((b >> 7u8) & 1u8 == 1u8),
            ((a >> 6u8) & 1u8 == 1u8) == ((b >> 6u8) & 1u8 == 1u8),
            ((a >> 5u8) & 1u8 == 1u8) == ((b >> 5u8) & 1u8 == 1u8),
            ((a >> 4u8) & 1u8 == 1u8) == ((b >> 4u8) & 1u8 == 1u8),
            ((a >> 3u8) & 1u8 == 1u8) == ((b >> 3u8) & 1u8 == 1u8),
            ((a >> 2u8) & 1u8 == 1u8) == ((b >> 2u8) & 1u8 == 1u8),
            ((a >> 1u8) & 1u8 == 1u8) == ((b >> 1u8) & 1u8 == 1u8),
            ((a >> 0u8) & 1u8 == 1u8) == ((b >> 0u8) & 1u8 == 1u8),
    ;
}

/// The bits of a packed byte are the eight flags that it was made of.
proof fn lemma_packed_byte_bits(flags: Seq<bool>, j: int, k: int)
    requires
        0 <= k < 8,
    ensures
        bit_at(seq![packed_byte(flags, j)], k) == flag_at(flags, 8 * j + k),
{
    let b0 = flag_at(flags, 8 * j);
    let b1 = flag_at(flags, 8 * j + 1);
    let b2 = flag_at(flags, 8 * j + 2);
    let b3 = flag_at(flags, 8 * j + 3);
    let b4 = flag_at(flags, 8 * j + 4);
    let b5 = flag_at(flags, 8 * j + 5);
    let b6 = flag_at(flags, 8 * j + 6);
    let b7 = flag_at(flags, 8 * j + 7);
    let p = packed_byte(flags, j);
    assert(((p >> 7u8) & 1u8 == 1u8) == b0 && ((p >> 6u8) & 1u8 == 1u8) == b1 && ((p >> 5u8) & 1u8
        == 1u8) == b2 && ((p >> 4u8) & 1u8 == 1u8) == b3 && ((p >> 3u8) & 1u8 == 1u8) == b4 && ((p
        >> 2u8) & 1u8 == 1u8) == b5 && ((p >> 1u8) & 1u8 == 1u8) == b6 && ((p >> 0u8) & 1u8 == 1u8)
        == b7) by (bit_vector)
        requires
            p == weight(b0, 128) | weight(b1, 64) | weight(b2, 32) | weight(b3, 16) | weight(b4, 8)
                | weight(b5, 4) | weight(b6, 2) | weight(b7, 1),
    ;
}

/// Bit `i` depends on its own byte only.
proof fn lemma_bit_in_byte(buf: Seq<u8>, i: int)
    requires
        0 <= i,
    ensures
        bit_at(buf, i) == bit_at(seq![buf[i / 8]], i % 8),
{
}

/// Every bit of a packed plane is its flag, and the bits past the last flag are zero.
pub proof fn lemma_pack_bit(flags: Seq<bool>, i: int)
    requires
        0 <= i < 8 * bytes_for(flags.len() as int),
    ensures
        bit_at(pack_bits(flags), i) == flag_at(flags, i),
{
    lemma_bit_in_byte(pack_bits(flags), i);
    lemma_packed_byte_bits(flags, i / 8, i % 8);
}

/// Reading a bit plane gives back the flags that were packed into it.
pub proof fn law_unpack_pack(flags: Seq<bool>)
    ensures
        unpack_bits(pack_bits(flags), flags.len()) == flags,
{
    assert forall|i: int| 0 <= i < flags.len() implies bit_at(pack_bits(flags), i) == flags[i] by {
        lemma_pack_bit(flags, i);
    }
    assert(unpack_bits(pack_bits(flags), flags.len()) =~= flags);
}

/// A buffer of the right length whose bits are the flags, zeros after them, is the packed plane.
pub proof fn lemma_pack_unique(buf: Seq<u8>, flags: Seq<bool>)
    requires
        buf.len() == bytes_for(flags.len() as int),
        forall|i: int| 0 <= i < 8 * buf.len() ==> #[trigger] bit_at(buf, i) == flag_at(flags, i),
    ensures
        buf == pack_bits(flags),
{
    assert forall|j: int| 0 <= j < buf.len() implies buf[j] == packed_byte(flags, j) by {
        let p = packed_byte(flags, j);
        assert forall|k: int| 0 <= k < 8 implies #[trigger] bit_at(seq![buf[j]], k) == bit_at(
            seq![p],
            k,
        ) by {
            let i = 8 * j + k;
            assert(bit_at(buf, i) == flag_at(flags, i));
            lemma_bit_in_byte(buf, i);
            lemma_packed_byte_bits(flags, j, k);
        }
        lemma_byte_from_bits(buf[j], p);
    }
    assert(buf =~= pack_bits(flags));
}

/// Sets bit `index` when `set` holds; every other bit keeps its value. Where `set` does not hold,
/// nothing changes, whatever the index.
pub fn set_bit(buf: &mut Vec<u8>, index: usize, set: bool)
    requires
        set ==> index / 8 < old(buf)@.len(),
    ensures
        !set ==> final(buf)@ == old(buf)@,
        final(buf)@.len() == old(buf)@.len(),
        forall|i: int|
            0 <= i < 8 * old(buf)@.len() ==> #[trigger] bit_at(final(buf)@, i) == (bit_at(
                old(buf)@,
                i,
            ) || (i == index && set)),
{
    if set {
        let at: usize = index / 8;
        let shift: u8 = 7 - (index % 8) as u8;
        let before: u8 = buf[at];
        let after: u8 = before | (1u8 << shift);
        buf.set(at, after);
        proof {
            let was = old(buf)@;
            let now = buf@;
            assert forall|i: int| 0 <= i < 8 * was.len() implies #[trigger] bit_at(now, i) == (
            bit_at(was, i) || (i == index && set)) by {
                if i / 8 == at {
                    let s = (7 - i % 8) as u8;
                    assert(((after >> s) & 1u8 == 1u8) == (((before >> s) & 1u8 == 1u8) || s
                        == shift)) by (bit_vector)
                        requires
                            after == before | (1u8 << shift),
                            s <= 7,
                            shift <= 7,
                    ;
                } else {
                    assert(now[i / 8] == was[i / 8]);
                }
            }
        }
    }
}

/// The four bytes of `v`, least significant first.
pub open spec fn le32(v: u32) -> Seq<u8> {
    seq![
        (v % 256) as u8,
        ((v / 256) % 256) as u8,
        ((v / 65536) % 256) as u8,
        ((v / 16777216) % 256) as u8,
    ]
}

/// The word that four little-endian bytes stand for.
pub open spec fn from_le32(b: Seq<u8>) -> int {
    b[0] + 256 * b[1] + 65536 * b[2] + 16777216 * b[3]
}

/// The words of `vs` one after the other, each in four little-endian bytes.
pub open spec fn le32s(vs: Seq<u32>) -> Seq<u8>
    decreases vs.len(),
{
    if vs.len() == 0 {
        Seq::empty()
    } else {
        le32s(vs.drop_last()) + le32(vs.last())
    }
}

/// Reading four little-endian bytes gives back the word that was written.
pub proof fn law_le32_reads_back(v: u32)
    ensures
        from_le32(le32(v)) == v,
        le32(v).len() == 4,
{
}

/// A run of words takes four bytes per word.
pub proof fn lemma_le32s_len(vs: Seq<u32>)
    ensures
        le32s(vs).len() == 4 * vs.len(),
    decreases vs.len(),
{
    if vs.len() > 0 {
        lemma_le32s_len(vs.drop_last());
    }
}

/// The bytes of two runs of words are the bytes of the joined run.
pub proof fn lemma_le32s_concat(a: Seq<u32>, b: Seq<u32>)
    ensures
        le32s(a + b) == le32s(a) + le32s(b),
    decreases b.len(),
{
    if b.len() == 0 {
        assert(a + b =~= a);
        assert(le32s(a) + le32s(b) =~= le32s(a));
    } else {
        lemma_le32s_concat(a, b.drop_last());
        assert((a + b).drop_last() =~= a + b.drop_last());
        assert(le32s(a + b) =~= le32s(a) + le32s(b));
    }
}

/// The bytes of a run of words grow by the bytes of the word that is added.
pub proof fn lemma_le32s_push(a: Seq<u32>, v: u32)
    ensures
        le32s(a.push(v)) == le32s(a) + le32(v),
{
    assert(a.push(v).drop_last() =~= a);
}

/// Word `i` of a run of words is found at byte `4 * i`.
pub proof fn law_le32s_reads_back(vs: Seq<u32>, i: int)
    requires
        0 <= i < vs.len(),
    ensures
        le32s(vs).len() == 4 * vs.len(),
        le32s(vs).subrange(4 * i, 4 * i + 4) == le32(vs[i]),
    decreases vs.len(),
{
    lemma_le32s_len(vs);
    lemma_le32s_len(vs.drop_last());
    if i < vs.len() - 1 {
        law_le32s_reads_back(vs.drop_last(), i);
        assert(le32s(vs).subrange(4 * i, 4 * i + 4) =~= le32s(vs.drop_last()).subrange(
            4 * i,
            4 * i + 4,
        ));
    } else {
        assert(le32s(vs).subrange(4 * i, 4 * i + 4) =~= le32(vs[i]));
    }
}

/// Appends `value` in little-endian order.
pub fn push_u32(out: &mut Vec<u8>, value: u32)
    ensures
        final(out)@ == old(out)@ + le32(value),
{
    out.push((value % 256) as u8);
    out.push(((value / 256) % 256) as u8);
    out.push(((value / 65536) % 256) as u8);
    out.push(((value / 16777216) % 256) as u8);
    assert(out@ =~= old(out)@ + le32(value));
}

/// The word that stands for `v` in two's complement.
pub open spec fn twos_complement(v: i32) -> int {
    if v >= 0 {
        v as int
    } else {
        v + 0x1_0000_0000
    }
}

/// The number that a word stands for in two's complement.
pub open spec fn signed32(word: int) -> int {
    if word >= 0x8000_0000 {
        word - 0x1_0000_0000
    } else {
        word
    }
}

/// The number that a word stands for in two's complement.
pub fn to_signed(word: u32) -> (res: i32)
    ensures
        res == signed32(word as int),
{
    if word >= 0x8000_0000 {
        let wide: i64 = word as i64 - 0x1_0000_0000;
        wide as i32
    } else {
        word as i32
    }
}

/// The low 32 bits of `v`.
pub open spec fn low32(v: int) -> int {
    v % 0x1_0000_0000
}

/// The low 32 bits of `v`.
pub fn low_word(v: u64) -> (res: u32)
    ensures
        res == low32(v as int),
{
    let res: u32 = v as u32;
    assert(res == v % 0x1_0000_0000) by (bit_vector)
        requires
            res == v as u32,
    ;
    res
}

/// What is left of `v` in a signed 32-bit number: its low 32 bits, in two's complement.
pub open spec fn wrapped32(v: int) -> int {
    signed32(low32(v))
}

/// What is left of `v` in a signed 32-bit number.
pub fn wrap_i32(v: u64) -> (res: i32)
    ensures
        res == wrapped32(v as int),
{
    to_signed(low_word(v))
}

/// Appends `value` in little-endian two's complement.
pub fn push_i32(out: &mut Vec<u8>, value: i32)
    ensures
        final(out)@ == old(out)@ + le32(twos_complement(value) as u32),
{
    let word: u32 = value as u32;
    assert(word == if value >= 0 {
        value as int
    } else {
        value + 0x1_0000_0000
    }) by (bit_vector)
        requires
            word == value as u32,
    ;
    push_u32(out, word);
}

/// Appends the bit patterns of single-precision numbers, each in little-endian order.
pub fn push_f32(out: &mut Vec<u8>, values: &Vec<u32>)
    ensures
        final(out)@ == old(out)@ + le32s(values@),
{
    let n: usize = values.len();
    let mut i: usize = 0;
    assert(out@ =~= old(out)@ + le32s(values@.take(0)));
    while i < n
        invariant
            i <= n,
            n == values@.len(),
            out@ == old(out)@ + le32s(values@.take(i as int)),
        decreases n - i,
    {
        push_u32(out, values[i]);
        proof {
            assert(values@.take(i + 1).drop_last() =~= values@.take(i as int));
            assert(out@ =~= old(out)@ + le32s(values@.take(i + 1)));
        }
        i += 1;
    }
    assert(values@.take(n as int) =~= values@);
}

/// Bits take as many whole bytes as they need, and no more.
pub proof fn law_bytes_for_bits(n: int)
    requires
        0 <= n,
    ensures
        n <= 8 * bytes_for(n) < n + 8,
{
}

/// The first of eight flags is worth 128 in its byte, every further one half of the one before it.
pub proof fn law_flags_have_their_weight(flags: Seq<bool>, j: int)
    requires
        0 <= j < bytes_for(flags.len() as int),
    ensures
        pack_bits(flags).len() == bytes_for(flags.len() as int),
        ({
            let worth = |k: int, w: int|
                if 8 * j + k < flags.len() && flags[8 * j + k] {
                    w
                } else {
                    0
                };
            pack_bits(flags)[j] == worth(0, 128) + worth(1, 64) + worth(2, 32) + worth(3, 16)
                + worth(4, 8) + worth(5, 4) + worth(6, 2) + worth(7, 1)
        }),
{
    let a = weight(flag_at(flags, 8 * j), 128);
    let b = weight(flag_at(flags, 8 * j + 1), 64);
    let c = weight(flag_at(flags, 8 * j + 2), 32);
    let d = weight(flag_at(flags, 8 * j + 3), 16);
    let e = weight(flag_at(flags, 8 * j + 4), 8);
    let f = weight(flag_at(flags, 8 * j + 5), 4);
    let g = weight(flag_at(flags, 8 * j + 6), 2);
    let h = weight(flag_at(flags, 8 * j + 7), 1);
    assert((a | b | c | d | e | f | g | h) == a + b + c + d + e + f + g + h) by (bit_vector)
        requires
            a == 0 || a == 128,
            b == 0 || b == 64,
            c == 0 || c == 32,
            d == 0 || d == 16,
            e == 0 || e == 8,
            f == 0 || f == 4,
            g == 0 || g == 2,
            h == 0 || h == 1,
    ;
    let p = pack_bits(flags)[j];
    assert(p == (a | b | c | d | e | f | g | h));
}

/// The least significant byte of a word comes first: appending a byte at the low end of a number
/// moves its other bytes back by one place.
pub proof fn law_low_byte_comes_first(high: u32, low: u8)
    requires
        high < 0x100_0000,
    ensures
        ({
            let v = (256 * high + low) as u32;
            &&& le32(v).len() == 4
            &&& le32(v)[0] == low
            &&& le32(v)[1] == le32(high)[0]
            &&& le32(v)[2] == le32(high)[1]
            &&& le32(v)[3] == le32(high)[2]
            &&& le32(high)[3] == 0
        }),
{
}

/// Words follow each other without a gap.
pub proof fn law_words_follow_each_other(a: Seq<u32>, v: u32)
    ensures
        le32s(Seq::empty()).len() == 0,
        le32s(a.push(v)).len() == le32s(a).len() + 4,
        le32s(a.push(v)).take(le32s(a).len() as int) == le32s(a),
        le32s(a.push(v)).skip(le32s(a).len() as int) == le32(v),
{
    lemma_le32s_push(a, v);
    assert(le32s(a.push(v)).take(le32s(a).len() as int) =~= le32s(a));
    assert(le32s(a.push(v)).skip(le32s(a).len() as int) =~= le32(v));
}

/// A signed number is found again behind its word, and the word differs from it by nothing or by a
/// whole round.
pub proof fn law_signed_words_read_back(v: i32)
    ensures
        0 <= twos_complement(v) < 0x1_0000_0000,
        (twos_complement(v) - v) % 0x1_0000_0000 == 0,
        signed32(twos_complement(v)) == v,
{
}

/// What is left of a number in 32 bits differs from it by whole rounds only; a number that fits is
/// left as it is.
pub proof fn law_wrapping_goes_round(v: int)
    ensures
        0 <= low32(v) < 0x1_0000_0000,
        (v - low32(v)) % 0x1_0000_0000 == 0,
        i32::MIN <= wrapped32(v) <= i32::MAX,
        (v - wrapped32(v)) % 0x1_0000_0000 == 0,
        0 <= v <= u32::MAX ==> low32(v) == v,
        i32::MIN <= v <= i32::MAX ==> wrapped32(v) == v,
{
}

} // verus!
