//! The protocol-buffer wire format, as far as training records use it.
//!
//! A message is a sequence of fields. The specification gives the bytes of a sequence of fields and
//! how to read them back; the writer appends fields by calling `prost`.

use vstd::prelude::*;

use crate::bits::{from_le32, law_le32_reads_back, le32};

verus! {

/// One field of a message.
pub enum Field {
    /// An integer in variable-length form.
    Varint { tag: u32, value: u64 },
    /// Four bytes in little-endian order.
    Fixed32 { tag: u32, word: u32 },
    /// Bytes with their length in front: byte strings, text and nested messages.
    Bytes { tag: u32, data: Seq<u8> },
}

/// Whether `tag` may number a field.
pub open spec fn valid_tag(tag: u32) -> bool {
    1 <= tag < 0x2000_0000
}

/// Whether a field can be written.
pub open spec fn valid_field(f: Field) -> bool {
    match f {
        Field::Varint { tag, value } => valid_tag(tag),
        Field::Fixed32 { tag, word } => valid_tag(tag),
        Field::Bytes { tag, data } => valid_tag(tag),
    }
}

/// `v` in groups of seven bits, least significant group first, the top bit of a byte set where more
/// bytes follow.
pub open spec fn varint(v: int) -> Seq<u8>
    decreases v,
{
    if v < 128 {
        seq![v as u8]
    } else {
        seq![(v % 128 + 128) as u8] + varint(v / 128)
    }
}

/// What stands in front of a field: its number and how its value is laid out.
pub open spec fn key(tag: u32, wire_type: int) -> Seq<u8> {
    varint(tag * 8 + wire_type)
}

/// The bytes of one field.
pub open spec fn field_bytes(f: Field) -> Seq<u8> {
    match f {
        Field::Varint { tag, value } => key(tag, 0) + varint(value as int),
        Field::Fixed32 { tag, word } => key(tag, 5) + le32(word),
        Field::Bytes { tag, data } => key(tag, 2) + varint(data.len() as int) + data,
    }
}

/// The bytes of a message with the fields `fs`.
pub open spec fn message_bytes(fs: Seq<Field>) -> Seq<u8>
    decreases fs.len(),
{
    if fs.len() == 0 {
        Seq::empty()
    } else {
        message_bytes(fs.drop_last()) + field_bytes(fs.last())
    }
}

/// The integer of variable length at the front of `s`, with what follows it.
pub open spec fn read_varint(s: Seq<u8>) -> Option<(int, Seq<u8>)>
    decreases s.len(),
{
    if s.len() == 0 {
        None
    } else if s[0] < 128 {
        Some((s[0] as int, s.skip(1)))
    } else {
        match read_varint(s.skip(1)) {
            Some((high, rest)) => Some((s[0] - 128 + 128 * high, rest)),
            None => None,
        }
    }
}

/// The field at the front of `s`, with what follows it.
pub open spec fn read_field(s: Seq<u8>) -> Option<(Field, Seq<u8>)> {
    match read_varint(s) {
        None => None,
        Some((k, rest)) => {
            let tag = (k / 8) as u32;
            if k % 8 == 0 {
                match read_varint(rest) {
                    Some((v, after)) => Some((Field::Varint { tag, value: v as u64 }, after)),
                    None => None,
                }
            } else if k % 8 == 5 {
                if rest.len() < 4 {
                    None
                } else {
                    Some(
                        (
                            Field::Fixed32 { tag, word: from_le32(rest.take(4)) as u32 },
                            rest.skip(4),
                        ),
                    )
                }
            } else if k % 8 == 2 {
                match read_varint(rest) {
                    Some((n, after)) => if 0 <= n <= after.len() {
                        Some((Field::Bytes { tag, data: after.take(n) }, after.skip(n)))
                    } else {
                        None
                    },
                    None => None,
                }
            } else {
                None
            }
        },
    }
}

/// The fields of the message `s`, or `None` where `s` is not a message.
pub open spec fn read_message(s: Seq<u8>) -> Option<Seq<Field>>
    decreases s.len(),
{
    if s.len() == 0 {
        Some(Seq::empty())
    } else {
        match read_field(s) {
            Some((f, rest)) => if rest.len() < s.len() {
                match read_message(rest) {
                    Some(fs) => Some(seq![f] + fs),
                    None => None,
                }
            } else {
                None
            },
            None => None,
        }
    }
}

/// Reading an integer of variable length gives back the one that was written, and leaves what
/// follows it.
pub proof fn law_varint_reads_back(v: int, rest: Seq<u8>)
    requires
        0 <= v,
    ensures
        varint(v).len() > 0,
        read_varint(varint(v) + rest) == Some((v, rest)),
    decreases v,
{
    let s = varint(v) + rest;
    if v < 128 {
        assert(s.skip(1) =~= rest);
    } else {
        law_varint_reads_back(v / 128, rest);
        assert(s.skip(1) =~= varint(v / 128) + rest);
        assert(s[0] == v % 128 + 128);
    }
}

proof fn lemma_varint_field_reads_back(tag: u32, value: u64, rest: Seq<u8>)
    requires
        valid_tag(tag),
    ensures
        read_field(key(tag, 0) + varint(value as int) + rest) == Some(
            (Field::Varint { tag, value }, rest),
        ),
{
    let tail = varint(value as int) + rest;
    law_varint_reads_back(tag * 8, tail);
    law_varint_reads_back(value as int, rest);
    assert(key(tag, 0) + varint(value as int) + rest =~= key(tag, 0) + tail);
}

proof fn lemma_fixed_field_reads_back(tag: u32, word: u32, rest: Seq<u8>)
    requires
        valid_tag(tag),
    ensures
        read_field(key(tag, 5) + le32(word) + rest) == Some((Field::Fixed32 { tag, word }, rest)),
{
    let tail = le32(word) + rest;
    law_varint_reads_back(tag * 8 + 5, tail);
    assert(key(tag, 5) + le32(word) + rest =~= key(tag, 5) + tail);
    assert(tail.take(4) =~= le32(word));
    assert(tail.skip(4) =~= rest);
    law_le32_reads_back(word);
}

proof fn lemma_bytes_field_reads_back(tag: u32, data: Seq<u8>, rest: Seq<u8>)
    requires
        valid_tag(tag),
    ensures
        read_field(key(tag, 2) + varint(data.len() as int) + data + rest) == Some(
            (Field::Bytes { tag, data }, rest),
        ),
{
    let n = data.len() as int;
    let body = data + rest;
    let tail = varint(n) + body;
    law_varint_reads_back(tag * 8 + 2, tail);
    law_varint_reads_back(n, body);
    assert(key(tag, 2) + varint(n) + data + rest =~= key(tag, 2) + tail);
    assert(body.take(n) =~= data);
    assert(body.skip(n) =~= rest);
}

proof fn lemma_field_reads_back(f: Field, rest: Seq<u8>)
    requires
        valid_field(f),
    ensures
        field_bytes(f).len() > 0,
        read_field(field_bytes(f) + rest) == Some((f, rest)),
{
    match f {
        Field::Varint { tag, value } => {
            law_varint_reads_back(tag * 8, rest);
            lemma_varint_field_reads_back(tag, value, rest);
        },
        Field::Fixed32 { tag, word } => {
            law_varint_reads_back(tag * 8 + 5, rest);
            lemma_fixed_field_reads_back(tag, word, rest);
        },
        Field::Bytes { tag, data } => {
            law_varint_reads_back(tag * 8 + 2, rest);
            lemma_bytes_field_reads_back(tag, data, rest);
        },
    }
}

/// The bytes of a longer message are the bytes of its parts.
pub proof fn lemma_message_concat(a: Seq<Field>, b: Seq<Field>)
    ensures
        message_bytes(a + b) == message_bytes(a) + message_bytes(b),
    decreases b.len(),
{
    if b.len() == 0 {
        assert(a + b =~= a);
        assert(message_bytes(a) + message_bytes(b) =~= message_bytes(a));
    } else {
        lemma_message_concat(a, b.drop_last());
        assert((a + b).drop_last() =~= a + b.drop_last());
        assert((a + b).last() == b.last());
        assert(message_bytes(a + b) =~= message_bytes(a) + message_bytes(b));
    }
}

/// Reading the bytes of a message gives back exactly the fields that were written, in order.
pub proof fn law_message_reads_back(fs: Seq<Field>)
    requires
        forall|i: int| 0 <= i < fs.len() ==> valid_field(#[trigger] fs[i]),
    ensures
        read_message(message_bytes(fs)) == Some(fs),
    decreases fs.len(),
{
    if fs.len() > 0 {
        let head = seq![fs[0]];
        let tail = fs.drop_first();
        assert(head + tail =~= fs);
        lemma_message_concat(head, tail);
        lemma_message_single(fs[0]);
        lemma_field_reads_back(fs[0], message_bytes(tail));
        law_message_reads_back(tail);
    }
}

/// A message of one field.
pub proof fn lemma_message_single(f: Field)
    ensures
        message_bytes(seq![f]) == field_bytes(f),
{
    reveal_with_fuel(message_bytes, 2);
    assert(seq![f].drop_last() =~= Seq::<Field>::empty());
    assert(message_bytes(seq![f]) =~= field_bytes(f));
}

/// The bytes of a message grow by the bytes of the field that is added.
proof fn lemma_message_push(fs: Seq<Field>, f: Field)
    ensures
        message_bytes(fs + seq![f]) == message_bytes(fs) + field_bytes(f),
{
    lemma_message_single(f);
    lemma_message_concat(fs, seq![f]);
}

/// A number that is left out where it is zero.
pub open spec fn uint_field(tag: u32, v: u32) -> Seq<Field> {
    if v == 0 {
        Seq::empty()
    } else {
        seq![Field::Varint { tag, value: v as u64 }]
    }
}

/// `v` extended to 64 bits in two's complement.
pub open spec fn sign_extended(v: i32) -> int {
    if v >= 0 {
        v as int
    } else {
        v + 0x1_0000_0000_0000_0000
    }
}

/// A signed number that is left out where there is none.
pub open spec fn int_option_field(tag: u32, v: Option<i32>) -> Seq<Field> {
    match v {
        Some(n) => seq![Field::Varint { tag, value: sign_extended(n) as u64 }],
        None => Seq::empty(),
    }
}

/// Four bytes that are left out where there are none.
pub open spec fn word_option_field(tag: u32, v: Option<u32>) -> Seq<Field> {
    match v {
        Some(word) => seq![Field::Fixed32 { tag, word }],
        None => Seq::empty(),
    }
}

/// A byte string that is left out where it is empty.
pub open spec fn bytes_field(tag: u32, data: Seq<u8>) -> Seq<Field> {
    if data.len() == 0 {
        Seq::empty()
    } else {
        seq![Field::Bytes { tag, data }]
    }
}

/// A text that is left out where it is empty.
pub open spec fn text_field(tag: u32, text: Seq<char>) -> Seq<Field> {
    if text.len() == 0 {
        Seq::empty()
    } else {
        seq![Field::Bytes { tag, data: vstd::utf8::encode_utf8(text) }]
    }
}

/// One field for each of `parts`, empty ones too.
pub open spec fn repeated_field(tag: u32, parts: Seq<Seq<u8>>) -> Seq<Field> {
    Seq::new(parts.len(), |i: int| Field::Bytes { tag, data: parts[i] })
}

/// The byte strings of a list of buffers.
pub open spec fn contents(parts: Seq<Vec<u8>>) -> Seq<Seq<u8>> {
    Seq::new(parts.len(), |i: int| parts[i]@)
}

/// Appends a `uint32` field. `prost::encoding::uint32::encode` writes the key of a variable-length
/// field and then the value in variable length, zero too.
#[verifier::external_body]
fn encode_uint32(tag: u32, value: u32, buf: &mut Vec<u8>)
    requires
        valid_tag(tag),
    ensures
        final(buf)@ == old(buf)@ + field_bytes((Field::Varint { tag, value: value as u64 })),
{
    prost::encoding::uint32::encode(tag, &value, buf)
}

/// Appends an `int32` field. `prost::encoding::int32::encode` writes the key of a variable-length
/// field and then the value, extended to 64 bits with its sign, in variable length.
#[verifier::external_body]
fn encode_int32(tag: u32, value: i32, buf: &mut Vec<u8>)
    requires
        valid_tag(tag),
    ensures
        final(buf)@ == old(buf)@ + field_bytes(
            (Field::Varint { tag, value: sign_extended(value) as u64 }),
        ),
{
    prost::encoding::int32::encode(tag, &value, buf)
}

/// Appends a four-byte field. `prost::encoding::fixed32::encode` writes the key of a 32-bit field
/// and then the word in little-endian order; a `float` field with this bit pattern has the same
/// bytes.
#[verifier::external_body]
fn encode_fixed32(tag: u32, word: u32, buf: &mut Vec<u8>)
    requires
        valid_tag(tag),
    ensures
        final(buf)@ == old(buf)@ + field_bytes((Field::Fixed32 { tag, word })),
{
    prost::encoding::fixed32::encode(tag, &word, buf)
}

/// Appends a `bytes` field. `prost::encoding::bytes::encode` writes the key of a length-delimited
/// field, the length in variable length, and the bytes; a nested message with these bytes is
/// written in the same way.
#[verifier::external_body]
fn encode_bytes(tag: u32, data: &Vec<u8>, buf: &mut Vec<u8>)
    requires
        valid_tag(tag),
    ensures
        final(buf)@ == old(buf)@ + field_bytes((Field::Bytes { tag, data: data@ })),
{
    prost::encoding::bytes::encode(tag, data, buf)
}

/// Appends a `string` field. `prost::encoding::string::encode` writes the key of a
/// length-delimited field, the length in bytes in variable length, and the text in UTF-8.
#[verifier::external_body]
fn encode_string(tag: u32, text: &String, buf: &mut Vec<u8>)
    requires
        valid_tag(tag),
    ensures
        final(buf)@ == old(buf)@ + field_bytes(
            (Field::Bytes { tag, data: vstd::utf8::encode_utf8(text@) }),
        ),
{
    prost::encoding::string::encode(tag, text, buf)
}

/// A message under construction.
pub struct MessageWriter {
    buf: Vec<u8>,
    fields: Ghost<Seq<Field>>,
}

impl MessageWriter {
    /// The fields written so far.
    pub closed spec fn fields(self) -> Seq<Field> {
        self.fields@
    }

    /// The buffer holds the bytes of the fields.
    pub closed spec fn wf(self) -> bool {
        self.buf@ == message_bytes(self.fields@)
    }

    /// A message without fields.
    pub fn new() -> (res: Self)
        ensures
            res.wf(),
            res.fields() == Seq::<Field>::empty(),
    {
        MessageWriter { buf: Vec::new(), fields: Ghost(Seq::empty()) }
    }

    /// The bytes of the message.
    pub fn finish(self) -> (res: Vec<u8>)
        requires
            self.wf(),
        ensures
            res@ == message_bytes(self.fields()),
    {
        self.buf
    }

    /// Adds a number, unless it is zero.
    pub fn uint(&mut self, tag: u32, value: u32)
        requires
            old(self).wf(),
            valid_tag(tag),
        ensures
            final(self).wf(),
            final(self).fields() == old(self).fields() + uint_field(tag, value),
    {
        if value != 0 {
            encode_uint32(tag, value, &mut self.buf);
            proof {
                lemma_message_push(self.fields@, Field::Varint { tag, value: value as u64 });
            }
        }
        self.fields = Ghost(self.fields@ + uint_field(tag, value));
        assert(value == 0 ==> self.fields@ =~= old(self).fields@);
    }

    /// Adds a signed number, if there is one.
    pub fn int_option(&mut self, tag: u32, value: Option<i32>)
        requires
            old(self).wf(),
            valid_tag(tag),
        ensures
            final(self).wf(),
            final(self).fields() == old(self).fields() + int_option_field(tag, value),
    {
        if let Some(v) = value {
            encode_int32(tag, v, &mut self.buf);
            proof {
                lemma_message_push(
                    self.fields@,
                    Field::Varint { tag, value: sign_extended(v) as u64 },
                );
            }
        }
        self.fields = Ghost(self.fields@ + int_option_field(tag, value));
        assert(value is None ==> self.fields@ =~= old(self).fields@);
    }

    /// Adds four bytes, if there are any.
    pub fn word_option(&mut self, tag: u32, value: Option<u32>)
        requires
            old(self).wf(),
            valid_tag(tag),
        ensures
            final(self).wf(),
            final(self).fields() == old(self).fields() + word_option_field(tag, value),
    {
        if let Some(word) = value {
            encode_fixed32(tag, word, &mut self.buf);
            proof {
                lemma_message_push(self.fields@, Field::Fixed32 { tag, word });
            }
        }
        self.fields = Ghost(self.fields@ + word_option_field(tag, value));
        assert(value is None ==> self.fields@ =~= old(self).fields@);
    }

    /// Adds a byte string, unless it is empty.
    pub fn bytes(&mut self, tag: u32, data: &Vec<u8>)
        requires
            old(self).wf(),
            valid_tag(tag),
        ensures
            final(self).wf(),
            final(self).fields() == old(self).fields() + bytes_field(tag, data@),
    {
        if data.len() != 0 {
            encode_bytes(tag, data, &mut self.buf);
            proof {
                lemma_message_push(self.fields@, Field::Bytes { tag, data: data@ });
            }
        }
        self.fields = Ghost(self.fields@ + bytes_field(tag, data@));
        assert(data@.len() == 0 ==> self.fields@ =~= old(self).fields@);
    }

    /// Adds a text, unless it is empty.
    pub fn text(&mut self, tag: u32, text: &String)
        requires
            old(self).wf(),
            valid_tag(tag),
        ensures
            final(self).wf(),
            final(self).fields() == old(self).fields() + text_field(tag, text@),
    {
        if !text.as_str().is_empty() {
            encode_string(tag, text, &mut self.buf);
            proof {
                lemma_message_push(
                    self.fields@,
                    Field::Bytes { tag, data: vstd::utf8::encode_utf8(text@) },
                );
            }
        }
        self.fields = Ghost(self.fields@ + text_field(tag, text@));
        assert(text@.len() == 0 ==> self.fields@ =~= old(self).fields@);
    }

    /// Adds a nested message, an empty one too.
    pub fn message(&mut self, tag: u32, data: &Vec<u8>)
        requires
            old(self).wf(),
            valid_tag(tag),
        ensures
            final(self).wf(),
            final(self).fields() == old(self).fields().push(
                (Field::Bytes { tag, data: data@ }),
            ),
    {
        encode_bytes(tag, data, &mut self.buf);
        proof {
            lemma_message_push(self.fields@, Field::Bytes { tag, data: data@ });
        }
        self.fields = Ghost(self.fields@.push(Field::Bytes { tag, data: data@ }));
        assert(self.fields@ =~= old(self).fields@ + seq![Field::Bytes { tag, data: data@ }]);
    }

    /// Adds every byte string of `parts`, empty ones too.
    pub fn repeated(&mut self, tag: u32, parts: &Vec<Vec<u8>>)
        requires
            old(self).wf(),
            valid_tag(tag),
        ensures
            final(self).wf(),
            final(self).fields() == old(self).fields() + repeated_field(tag, contents(parts@)),
    {
        let n: usize = parts.len();
        let mut i: usize = 0;
        let ghost all = repeated_field(tag, contents(parts@));
        assert(self.fields() =~= old(self).fields() + all.take(0));
        while i < n
            invariant
                i <= n,
                n == parts@.len(),
                self.wf(),
                valid_tag(tag),
                all == repeated_field(tag, contents(parts@)),
                self.fields() == old(self).fields() + all.take(i as int),
            decreases n - i,
        {
            self.message(tag, &parts[i]);
            i += 1;
            assert(self.fields() =~= old(self).fields() + all.take(i as int));
        }
        assert(all.take(n as int) =~= all);
    }
}

} // verus!
