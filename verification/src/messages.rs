//! What to tell people about errors.

use vstd::prelude::*;

use crate::batch::{BatchError, BatchFault};
use crate::codec_error::{BoardShape, CodecError, Fault, FeatureSide, Quantity};
use crate::text::{decimal, push_decimal};

verus! {

broadcast use vstd::string::group_string_axioms;

/// A number in decimal, with a `-` in front where it is negative.
pub open spec fn signed_text(n: int) -> Seq<char> {
    if n < 0 {
        "-"@ + decimal(-n)
    } else {
        decimal(n)
    }
}

fn push_signed(out: &mut String, n: i32)
    ensures
        final(out)@ == old(out)@ + signed_text(n as int),
{
    if n < 0 {
        out.append("-");
        let magnitude: i64 = -(n as i64);
        push_decimal(out, magnitude as u64);
        assert(out@ =~= old(out)@ + signed_text(n as int));
    } else {
        push_decimal(out, n as u64);
    }
}

/// A text with a number behind it.
fn push_labelled(out: &mut String, label: &str, n: usize)
    ensures
        final(out)@ == old(out)@ + (label@ + decimal(n as int)),
{
    out.append(label);
    push_decimal(out, n as u64);
    assert(out@ =~= old(out)@ + (label@ + decimal(n as int)));
}

impl Quantity {
    /// The name of the number.
    pub open spec fn name_text(self) -> Seq<char> {
        match self {
            Quantity::Steps => "样本步数"@,
            Quantity::BoardChannels => "棋盘通道数"@,
            Quantity::BoardRows => "棋盘行数"@,
            Quantity::BoardCols => "棋盘列数"@,
            Quantity::ScalarCount => "标量维度"@,
            Quantity::ActionSpace => "动作空间"@,
            Quantity::GameLength => "对局步数"@,
            Quantity::ActionIndex => "动作索引"@,
            Quantity::FeatureCount => "特征索引数"@,
        }
    }

    /// The name of the number.
    pub fn name(self) -> (res: &'static str)
        ensures
            res@ == self.name_text(),
    {
        match self {
            Quantity::Steps => "样本步数",
            Quantity::BoardChannels => "棋盘通道数",
            Quantity::BoardRows => "棋盘行数",
            Quantity::BoardCols => "棋盘列数",
            Quantity::ScalarCount => "标量维度",
            Quantity::ActionSpace => "动作空间",
            Quantity::GameLength => "对局步数",
            Quantity::ActionIndex => "动作索引",
            Quantity::FeatureCount => "特征索引数",
        }
    }
}

impl FeatureSide {
    /// The name of the side.
    pub open spec fn name_text(self) -> Seq<char> {
        match self {
            FeatureSide::Mover => "mover"@,
            FeatureSide::Opponent => "opponent"@,
        }
    }

    /// The name of the side.
    pub fn name(self) -> (res: &'static str)
        ensures
            res@ == self.name_text(),
    {
        match self {
            FeatureSide::Mover => "mover",
            FeatureSide::Opponent => "opponent",
        }
    }
}

/// A board's extents, in brackets.
pub open spec fn shape_text(s: BoardShape) -> Seq<char> {
    ("("@ + decimal(s.channels as int)) + (","@ + decimal(s.rows as int)) + (","@ + decimal(
        s.cols as int,
    )) + ")"@
}

fn push_shape(out: &mut String, s: BoardShape)
    ensures
        final(out)@ == old(out)@ + shape_text(s),
{
    push_labelled(out, "(", s.channels);
    push_labelled(out, ",", s.rows);
    push_labelled(out, ",", s.cols);
    out.append(")");
    assert(out@ =~= old(out)@ + shape_text(s));
}

/// Numbers, with commas between them.
pub open spec fn listed(s: Seq<usize>) -> Seq<char>
    decreases s.len(),
{
    if s.len() == 0 {
        Seq::empty()
    } else if s.len() == 1 {
        decimal(s[0] as int)
    } else {
        listed(s.drop_last()) + (", "@ + decimal(s.last() as int))
    }
}

/// A list of numbers, in brackets.
pub open spec fn list_text(s: Seq<usize>) -> Seq<char> {
    "["@ + listed(s) + "]"@
}

fn push_list(out: &mut String, s: &Vec<usize>)
    ensures
        final(out)@ == old(out)@ + list_text(s@),
{
    out.append("[");
    let n: usize = s.len();
    let mut i: usize = 0;
    assert(out@ =~= old(out)@ + "["@ + listed(s@.take(0)));
    while i < n
        invariant
            i <= n,
            n == s@.len(),
            out@ == old(out)@ + "["@ + listed(s@.take(i as int)),
        decreases n - i,
    {
        assert(s@.take(i + 1).drop_last() =~= s@.take(i as int));
        if i == 0 {
            push_decimal(out, s[i] as u64);
        } else {
            push_labelled(out, ", ", s[i]);
        }
        assert(out@ =~= old(out)@ + "["@ + listed(s@.take(i + 1)));
        i += 1;
    }
    assert(s@.take(n as int) =~= s@);
    out.append("]");
    assert(out@ =~= old(out)@ + list_text(s@));
}

/// A disagreement of a step with the first one.
pub open spec fn mismatch_text(step: usize, what: Seq<char>, found: usize, expected: usize) -> Seq<
    char,
> {
    ("第 "@ + decimal(step as int)) + (what + decimal(found as int)) + (" 与首步 "@ + decimal(
        expected as int,
    )) + " 不一致"@
}

fn mismatch(step: usize, what: &str, found: usize, expected: usize) -> (res: String)
    ensures
        res@ == mismatch_text(step, what@, found, expected),
{
    let mut out = String::new();
    push_labelled(&mut out, "第 ", step);
    push_labelled(&mut out, what, found);
    push_labelled(&mut out, " 与首步 ", expected);
    out.append(" 不一致");
    assert(out@ =~= mismatch_text(step, what@, found, expected));
    out
}

impl Fault {
    /// What to tell people. `number` is how the number with the bit pattern of `offending_bits`
    /// reads.
    pub open spec fn text(self, number: Seq<char>) -> Seq<char> {
        match self {
            CodecError::BadShape { step, extents } => ("第 "@ + decimal(step as int))
                + " 步棋盘张量形状非法: "@ + list_text(extents),
            CodecError::ZeroDimension { scalar_count, action_space } => ("标量维度="@ + decimal(
                scalar_count as int,
            )) + ("、动作空间="@ + decimal(action_space as int)) + " 不能为 0"@,
            CodecError::ShapeMismatch { step, shape, expected_shape } => ("第 "@ + decimal(
                step as int,
            )) + " 步棋盘形状 "@ + shape_text(shape) + " 与首步 "@ + shape_text(expected_shape)
                + " 不一致"@,
            CodecError::ScalarMismatch { step, found, expected } => mismatch_text(
                step,
                " 步标量维度 "@,
                found,
                expected,
            ),
            CodecError::PolicyMismatch { step, found, expected } => mismatch_text(
                step,
                " 步策略长度 "@,
                found,
                expected,
            ),
            CodecError::MaskMismatch { step, found, expected } => mismatch_text(
                step,
                " 步动作掩码长度 "@,
                found,
                expected,
            ),
            CodecError::BoardSize { step, found, implied } => ("第 "@ + decimal(step as int)) + (
            " 步棋盘元素数 "@ + decimal(found as int)) + match implied {
                Some(n) => (" 与形状推导值 "@ + decimal(n as int)) + " 不一致"@,
                None => " 与形状推导值不一致"@,
            },
            CodecError::BoardNotBinary { step, index, bits } => ("棋盘特征 第 "@ + decimal(
                step as int,
            )) + (" 步下标 "@ + decimal(index as int)) + " 的值 "@ + number
                + " 不是 0/1，无法位打包"@,
            CodecError::MaskNotBinary { step, index, entry } => ("动作掩码第 "@ + decimal(
                step as int,
            )) + (" 步下标 "@ + decimal(index as int)) + " 的值 "@ + signed_text(entry as int)
                + " 不是 0/1"@,
            CodecError::TooLarge { what, value } => what.name_text() + ("="@ + decimal(
                value as int,
            )) + " 超出 u32 范围"@,
            CodecError::FeatureSteps { found, expected } => ("NNUE 特征步数 "@ + decimal(
                found as int,
            )) + (" 与样本步数 "@ + decimal(expected as int)) + " 不一致"@,
            CodecError::PositionCount { found, expected } => ("局面快照数 "@ + decimal(
                found as int,
            )) + (" 与样本步数 "@ + decimal(expected as int)) + " 不一致"@,
            CodecError::FeatureIndex { side, step, feature, feature_dim } => "NNUE "@
                + side.name_text() + (" 特征第 "@ + decimal(step as int)) + (" 步索引 "@ + decimal(
                feature as int,
            )) + (" 超出 feature_dim="@ + decimal(feature_dim as int)),
            CodecError::FeatureOffset { side, step } => "NNUE "@ + side.name_text() + (" 特征第 "@
                + decimal(step as int)) + " 步的偏移超出 u32 范围"@,
            CodecError::LengthMismatch { features, search_values, players, actions } => (
            "NNUE episode 各字段步数不一致: features="@ + decimal(features as int)) + (
            " search_values="@ + decimal(search_values as int)) + (" players="@ + decimal(
                players as int,
            )) + (" actions="@ + decimal(actions as int)),
            CodecError::BadPlayer { step, player } => ("第 "@ + decimal(step as int))
                + " 步行棋方标记 "@ + signed_text(player as int) + " 非法（仅允许 1 红 / -1 黑）"@,
        }
    }

    /// The bit pattern of the floating-point number that the text shows, if it shows one.
    pub open spec fn bits_shown(self) -> Option<u32> {
        match self {
            CodecError::BoardNotBinary { step, index, bits } => Some(bits),
            _ => None,
        }
    }
}

impl CodecError {
    /// The bit pattern of the floating-point number that the text shows, if it shows one.
    pub fn offending_bits(&self) -> (res: Option<u32>)
        ensures
            res == self@.bits_shown(),
    {
        match self {
            CodecError::BoardNotBinary { step, index, bits } => Some(*bits),
            _ => None,
        }
    }

    /// What to tell people. `number` is how the number with the bit pattern of `offending_bits`
    /// reads; where there is none, it is not used.
    pub fn message(&self, number: &str) -> (res: String)
        ensures
            res@ == self@.text(number@),
    {
        let mut out = String::new();
        match self {
            CodecError::BadShape { step, extents } => {
                push_labelled(&mut out, "第 ", *step);
                out.append(" 步棋盘张量形状非法: ");
                push_list(&mut out, extents);
            },
            CodecError::ZeroDimension { scalar_count, action_space } => {
                push_labelled(&mut out, "标量维度=", *scalar_count);
                push_labelled(&mut out, "、动作空间=", *action_space);
                out.append(" 不能为 0");
            },
            CodecError::ShapeMismatch { step, shape, expected_shape } => {
                push_labelled(&mut out, "第 ", *step);
                out.append(" 步棋盘形状 ");
                push_shape(&mut out, *shape);
                out.append(" 与首步 ");
                push_shape(&mut out, *expected_shape);
                out.append(" 不一致");
            },
            CodecError::ScalarMismatch { step, found, expected } => {
                return mismatch(*step, " 步标量维度 ", *found, *expected);
            },
            CodecError::PolicyMismatch { step, found, expected } => {
                return mismatch(*step, " 步策略长度 ", *found, *expected);
            },
            CodecError::MaskMismatch { step, found, expected } => {
                return mismatch(*step, " 步动作掩码长度 ", *found, *expected);
            },
            CodecError::BoardSize { step, found, implied } => {
                push_labelled(&mut out, "第 ", *step);
                push_labelled(&mut out, " 步棋盘元素数 ", *found);
                match implied {
                    Some(n) => {
                        push_labelled(&mut out, " 与形状推导值 ", *n);
                        out.append(" 不一致");
                    },
                    None => {
                        out.append(" 与形状推导值不一致");
                    },
                }
            },
            CodecError::BoardNotBinary { step, index, bits } => {
                push_labelled(&mut out, "棋盘特征 第 ", *step);
                push_labelled(&mut out, " 步下标 ", *index);
                out.append(" 的值 ");
                out.append(number);
                out.append(" 不是 0/1，无法位打包");
            },
            CodecError::MaskNotBinary { step, index, entry } => {
                push_labelled(&mut out, "动作掩码第 ", *step);
                push_labelled(&mut out, " 步下标 ", *index);
                out.append(" 的值 ");
                push_signed(&mut out, *entry);
                out.append(" 不是 0/1");
            },
            CodecError::TooLarge { what, value } => {
                out.append(what.name());
                push_labelled(&mut out, "=", *value);
                out.append(" 超出 u32 范围");
            },
            CodecError::FeatureSteps { found, expected } => {
                push_labelled(&mut out, "NNUE 特征步数 ", *found);
                push_labelled(&mut out, " 与样本步数 ", *expected);
                out.append(" 不一致");
            },
            CodecError::PositionCount { found, expected } => {
                push_labelled(&mut out, "局面快照数 ", *found);
                push_labelled(&mut out, " 与样本步数 ", *expected);
                out.append(" 不一致");
            },
            CodecError::FeatureIndex { side, step, feature, feature_dim } => {
                out.append("NNUE ");
                out.append(side.name());
                push_labelled(&mut out, " 特征第 ", *step);
                push_labelled(&mut out, " 步索引 ", *feature as usize);
                push_labelled(&mut out, " 超出 feature_dim=", *feature_dim);
            },
            CodecError::FeatureOffset { side, step } => {
                out.append("NNUE ");
                out.append(side.name());
                push_labelled(&mut out, " 特征第 ", *step);
                out.append(" 步的偏移超出 u32 范围");
            },
            CodecError::LengthMismatch { features, search_values, players, actions } => {
                push_labelled(&mut out, "NNUE episode 各字段步数不一致: features=", *features);
                push_labelled(&mut out, " search_values=", *search_values);
                push_labelled(&mut out, " players=", *players);
                push_labelled(&mut out, " actions=", *actions);
            },
            CodecError::BadPlayer { step, player } => {
                push_labelled(&mut out, "第 ", *step);
                out.append(" 步行棋方标记 ");
                push_signed(&mut out, *player);
                out.append(" 非法（仅允许 1 红 / -1 黑）");
            },
        }
        assert(out@ =~= self@.text(number@));
        out
    }
}

impl BatchFault {
    /// What to tell people. `number` is how the number with the bit pattern of `offending_bits`
    /// reads.
    pub open spec fn text(self, number: Seq<char>) -> Seq<char> {
        match self {
            BatchError::EmptyVariant => "变体标识为空，无法标注训练数据来源"@,
            BatchError::MixedKinds { resnet, nnue } => ("一批只能含一类记录: ResNet="@ + decimal(
                resnet as int,
            )) + (" NNUE="@ + decimal(nnue as int)),
            BatchError::Resnet { episode, cause } => ("编码第 "@ + decimal(episode as int))
                + " 局 ResNet episode 失败: "@ + cause.text(number),
            BatchError::Nnue { episode, cause } => ("编码第 "@ + decimal(episode as int))
                + " 局 NNUE episode 失败: "@ + cause.text(number),
        }
    }

    /// The bit pattern of the floating-point number that the text shows, if it shows one.
    pub open spec fn bits_shown(self) -> Option<u32> {
        match self {
            BatchError::Resnet { episode, cause } => cause.bits_shown(),
            BatchError::Nnue { episode, cause } => cause.bits_shown(),
            _ => None,
        }
    }
}

impl BatchError {
    /// The bit pattern of the floating-point number that the text shows, if it shows one.
    pub fn offending_bits(&self) -> (res: Option<u32>)
        ensures
            res == self@.bits_shown(),
    {
        match self {
            BatchError::Resnet { episode, cause } => cause.offending_bits(),
            BatchError::Nnue { episode, cause } => cause.offending_bits(),
            _ => None,
        }
    }

    /// What to tell people. `number` is how the number with the bit pattern of `offending_bits`
    /// reads; where there is none, it is not used.
    pub fn message(&self, number: &str) -> (res: String)
        ensures
            res@ == self@.text(number@),
    {
        let mut out = String::new();
        match self {
            BatchError::EmptyVariant => {
                return "变体标识为空，无法标注训练数据来源".to_string();
            },
            BatchError::MixedKinds { resnet, nnue } => {
                push_labelled(&mut out, "一批只能含一类记录: ResNet=", *resnet);
                push_labelled(&mut out, " NNUE=", *nnue);
            },
            BatchError::Resnet { episode, cause } => {
                push_labelled(&mut out, "编码第 ", *episode);
                out.append(" 局 ResNet episode 失败: ");
                let why = cause.message(number);
                out.append(why.as_str());
            },
            BatchError::Nnue { episode, cause } => {
                push_labelled(&mut out, "编码第 ", *episode);
                out.append(" 局 NNUE episode 失败: ");
                let why = cause.message(number);
                out.append(why.as_str());
            },
        }
        assert(out@ =~= self@.text(number@));
        out
    }
}

/// Whether `part` stands somewhere in `text`.
pub open spec fn tells(text: Seq<char>, part: Seq<char>) -> bool {
    exists|i: int|
        0 <= i && i + part.len() <= text.len() && #[trigger] text.subrange(i, i + part.len())
            == part
}

/// What stands in a part of a text stands in the text.
pub broadcast proof fn lemma_tells_either(a: Seq<char>, b: Seq<char>, part: Seq<char>)
    ensures
        tells(a, part) || tells(b, part) ==> #[trigger] tells(a + b, part),
{
    let whole = a + b;
    let n = part.len() as int;
    if tells(a, part) {
        let i = choose|i: int| 0 <= i && i + n <= a.len() && #[trigger] a.subrange(i, i + n) == part;
        assert(whole.subrange(i, i + n) =~= part);
    }
    if tells(b, part) {
        let i = choose|i: int| 0 <= i && i + n <= b.len() && #[trigger] b.subrange(i, i + n) == part;
        let at = a.len() + i;
        assert(whole.subrange(at, at + n) =~= b.subrange(i, i + n));
    }
}

/// A text tells itself.
pub broadcast proof fn lemma_tells_itself(text: Seq<char>)
    ensures
        #[trigger] tells(text, text),
{
    let i = 0int;
    assert(text.subrange(i, i + text.len()) =~= text);
}

/// A list of numbers tells every number in it.
pub proof fn law_lists_tell_their_numbers(s: Seq<usize>, i: int)
    requires
        0 <= i < s.len(),
    ensures
        tells(listed(s), decimal(s[i] as int)),
        tells(list_text(s), decimal(s[i] as int)),
    decreases s.len(),
{
    broadcast use {lemma_tells_either, lemma_tells_itself};

    if s.len() > 1 && i < s.len() - 1 {
        law_lists_tell_their_numbers(s.drop_last(), i);
    }
}

/// The text on an error of a step tells the step.
pub proof fn law_texts_tell_the_step(e: Fault, number: Seq<char>)
    ensures
        match e {
            CodecError::BadShape { step, extents } => tells(e.text(number), decimal(step as int)),
            CodecError::ShapeMismatch { step, shape, expected_shape } => tells(
                e.text(number),
                decimal(step as int),
            ),
            CodecError::ScalarMismatch { step, found, expected } => tells(
                e.text(number),
                decimal(step as int),
            ),
            CodecError::PolicyMismatch { step, found, expected } => tells(
                e.text(number),
                decimal(step as int),
            ),
            CodecError::MaskMismatch { step, found, expected } => tells(
                e.text(number),
                decimal(step as int),
            ),
            CodecError::BoardSize { step, found, implied } => tells(
                e.text(number),
                decimal(step as int),
            ),
            CodecError::BoardNotBinary { step, index, bits } => tells(
                e.text(number),
                decimal(step as int),
            ),
            CodecError::MaskNotBinary { step, index, entry } => tells(
                e.text(number),
                decimal(step as int),
            ),
            CodecError::FeatureIndex { side, step, feature, feature_dim } => tells(
                e.text(number),
                decimal(step as int),
            ),
            CodecError::FeatureOffset { side, step } => tells(e.text(number), decimal(step as int)),
            CodecError::BadPlayer { step, player } => tells(e.text(number), decimal(step as int)),
            _ => true,
        },
{
    broadcast use {lemma_tells_either, lemma_tells_itself};

}

/// The text on an error tells what was found, and what was expected where something was.
pub proof fn law_texts_tell_what_was_found(e: Fault, number: Seq<char>)
    ensures
        match e {
            CodecError::BadShape { step, extents } => tells(e.text(number), list_text(extents)),
            CodecError::ZeroDimension { scalar_count, action_space } => tells(
                e.text(number),
                decimal(scalar_count as int),
            ) && tells(e.text(number), decimal(action_space as int)),
            CodecError::ScalarMismatch { step, found, expected } => tells(
                e.text(number),
                decimal(found as int),
            ) && tells(e.text(number), decimal(expected as int)),
            CodecError::PolicyMismatch { step, found, expected } => tells(
                e.text(number),
                decimal(found as int),
            ) && tells(e.text(number), decimal(expected as int)),
            CodecError::MaskMismatch { step, found, expected } => tells(
                e.text(number),
                decimal(found as int),
            ) && tells(e.text(number), decimal(expected as int)),
            CodecError::BoardSize { step, found, implied } => tells(
                e.text(number),
                decimal(found as int),
            ),
            CodecError::BoardNotBinary { step, index, bits } => tells(
                e.text(number),
                decimal(index as int),
            ) && tells(e.text(number), number),
            CodecError::MaskNotBinary { step, index, entry } => tells(
                e.text(number),
                decimal(index as int),
            ) && tells(e.text(number), signed_text(entry as int)),
            CodecError::TooLarge { what, value } => tells(e.text(number), decimal(value as int))
                && tells(e.text(number), what.name_text()),
            CodecError::FeatureSteps { found, expected } => tells(
                e.text(number),
                decimal(found as int),
            ) && tells(e.text(number), decimal(expected as int)),
            CodecError::PositionCount { found, expected } => tells(
                e.text(number),
                decimal(found as int),
            ) && tells(e.text(number), decimal(expected as int)),
            CodecError::FeatureIndex { side, step, feature, feature_dim } => tells(
                e.text(number),
                decimal(feature as int),
            ) && tells(e.text(number), decimal(feature_dim as int)) && tells(
                e.text(number),
                side.name_text(),
            ),
            CodecError::FeatureOffset { side, step } => tells(e.text(number), side.name_text()),
            CodecError::LengthMismatch { features, search_values, players, actions } => tells(
                e.text(number),
                decimal(features as int),
            ) && tells(e.text(number), decimal(search_values as int)) && tells(
                e.text(number),
                decimal(players as int),
            ) && tells(e.text(number), decimal(actions as int)),
            CodecError::BadPlayer { step, player } => tells(
                e.text(number),
                signed_text(player as int),
            ),
            CodecError::ShapeMismatch { step, shape, expected_shape } => tells(
                e.text(number),
                shape_text(shape),
            ) && tells(e.text(number), shape_text(expected_shape)),
        },
{
    broadcast use {lemma_tells_either, lemma_tells_itself};

}

/// The text on an error of a batch tells the game, and all that the text on the error of the game
/// tells.
pub proof fn law_batch_texts_tell_the_game(e: BatchFault, number: Seq<char>)
    ensures
        match e {
            BatchError::Resnet { episode, cause } => tells(
                e.text(number),
                decimal(episode as int),
            ) && tells(e.text(number), cause.text(number)),
            BatchError::Nnue { episode, cause } => tells(e.text(number), decimal(episode as int))
                && tells(e.text(number), cause.text(number)),
            BatchError::MixedKinds { resnet, nnue } => tells(e.text(number), decimal(resnet as int))
                && tells(e.text(number), decimal(nnue as int)),
            BatchError::EmptyVariant => e.text(number) == "变体标识为空，无法标注训练数据来源"@,
        },
{
    broadcast use {lemma_tells_either, lemma_tells_itself};

}

/// A bit pattern is shown exactly where a board holds it.
pub proof fn law_only_board_values_are_shown(e: Fault, episode: usize)
    ensures
        e.bits_shown() is Some <==> e is BoardNotBinary,
        e matches CodecError::BoardNotBinary { step, index, bits } ==> e.bits_shown() == Some(bits),
        (BatchFault::Resnet { episode, cause: e }).bits_shown() == e.bits_shown(),
        (BatchFault::Nnue { episode, cause: e }).bits_shown() == e.bits_shown(),
{
}

} // verus!
