//! What a label tells.

use crate::batch::{label_name, BatchView, PrimitiveBatch};
use crate::decimal::{append_decimal, decimal, digit_char};
use crate::primitive::PrimitiveKind;
use vstd::prelude::*;

verus! {

/// The atlas index that shows in the label of a sprite batch; none for other kinds.
pub open spec fn shown_index(batch: BatchView) -> Option<u32> {
    match batch.texture {
        Some(texture_id) => Some(texture_id.index),
        None => None,
    }
}

/// Whether `c` is a digit.
spec fn is_digit(c: char) -> bool {
    '0' <= c <= '9'
}

proof fn lemma_decimal_digits(n: nat)
    ensures
        decimal(n).len() > 0,
        forall|i: int| 0 <= i < decimal(n).len() ==> is_digit(#[trigger] decimal(n)[i]),
    decreases n,
{
    if n >= 10 {
        lemma_decimal_digits(n / 10);
    }
}

/// No two numbers have the same decimal notation.
pub proof fn decimal_is_unique(a: nat, b: nat)
    requires
        decimal(a) == decimal(b),
    ensures
        a == b,
    decreases a,
{
    lemma_decimal_digits(a);
    lemma_decimal_digits(b);
    assert(decimal(a).last() == digit_char(a % 10));
    assert(decimal(b).last() == digit_char(b % 10));
    if a >= 10 {
        lemma_decimal_digits(a / 10);
    }
    if b >= 10 {
        lemma_decimal_digits(b / 10);
    }
    if a >= 10 && b >= 10 {
        assert(decimal(a).drop_last() =~= decimal(a / 10));
        assert(decimal(b).drop_last() =~= decimal(b / 10));
        decimal_is_unique(a / 10, b / 10);
    }
}

/// Where two texts begin with a number that no digit follows, the numbers are the same and so is
/// the rest.
proof fn lemma_number_ends(a: nat, s: Seq<char>, b: nat, t: Seq<char>)
    requires
        decimal(a) + s == decimal(b) + t,
        s.len() > 0,
        t.len() > 0,
        !is_digit(s[0]),
        !is_digit(t[0]),
    ensures
        a == b,
        s == t,
{
    let (x, y) = (decimal(a), decimal(b));
    lemma_decimal_digits(a);
    lemma_decimal_digits(b);
    if x.len() < y.len() {
        assert((x + s)[x.len() as int] == s[0]);
        assert((y + t)[x.len() as int] == y[x.len() as int]);
    }
    if y.len() < x.len() {
        assert((y + t)[y.len() as int] == t[0]);
        assert((x + s)[y.len() as int] == x[y.len() as int]);
    }
    assert((x + s).take(x.len() as int) =~= x);
    assert((y + t).take(y.len() as int) =~= y);
    assert((x + s).skip(x.len() as int) =~= s);
    assert((y + t).skip(y.len() as int) =~= t);
    decimal_is_unique(a, b);
}

/// What comes after the number in a label.
spec fn tail_of(batch: BatchView) -> Seq<char> {
    match batch.texture {
        Some(texture_id) => ") on atlas "@ + decimal(texture_id.index as nat),
        None => ")"@,
    }
}

/// The first three letters tell the kind.
proof fn lemma_name(kind: PrimitiveKind)
    ensures
        label_name(kind).len() > 3,
        seq![label_name(kind)[0], label_name(kind)[1], label_name(kind)[2]] == match kind {
            PrimitiveKind::Shadow => seq!['s', 'h', 'a'],
            PrimitiveKind::Backdrop => seq!['b', 'a', 'c'],
            PrimitiveKind::Quad => seq!['q', 'u', 'a'],
            PrimitiveKind::Path => seq!['p', 'a', 't'],
            PrimitiveKind::Underline => seq!['u', 'n', 'd'],
            PrimitiveKind::MonochromeSprite => seq!['m', 'o', 'n'],
            PrimitiveKind::SubpixelSprite => seq!['s', 'u', 'b'],
            PrimitiveKind::PolychromeSprite => seq!['p', 'o', 'l'],
            PrimitiveKind::Surface => seq!['s', 'u', 'r'],
        },
{
    reveal_strlit("shadows (");
    reveal_strlit("backdrops (");
    reveal_strlit("quads (");
    reveal_strlit("paths (");
    reveal_strlit("underlines (");
    reveal_strlit("monochrome sprites (");
    reveal_strlit("subpixel sprites (");
    reveal_strlit("polychrome sprites (");
    reveal_strlit("surfaces (");
}

proof fn lemma_names_differ(a: PrimitiveKind, b: PrimitiveKind)
    requires
        label_name(a)[0] == label_name(b)[0],
        label_name(a)[1] == label_name(b)[1],
        label_name(a)[2] == label_name(b)[2],
    ensures
        a == b,
{
    lemma_name(a);
    lemma_name(b);
    let letters = seq![label_name(a)[0], label_name(a)[1], label_name(a)[2]];
    assert(letters[0] == label_name(a)[0] && letters[1] == label_name(a)[1] && letters[2]
        == label_name(a)[2]);
}

proof fn lemma_tail(batch: BatchView)
    ensures
        tail_of(batch).len() > 0,
        !is_digit(tail_of(batch)[0]),
        batch.label() == label_name(batch.kind) + (decimal(batch.count()) + tail_of(batch)),
{
    reveal_strlit(")");
    reveal_strlit(") on atlas ");
    assert(batch.label() =~= label_name(batch.kind) + (decimal(batch.count()) + tail_of(batch)));
}

/// Two labels are equal exactly where the batches are of one kind, hold equally many primitives
/// and, if they are of sprites, lie on atlases with the same index. Neither where a batch starts
/// nor the rest of its texture shows, and no two kinds share a label.
pub proof fn label_tells_kind_count_and_atlas(a: PrimitiveBatch, b: PrimitiveBatch)
    ensures
        a@.label() == b@.label() <==> a@.kind == b@.kind && a@.count() == b@.count() && shown_index(
            a@,
        ) == shown_index(b@),
{
    let (x, y) = (a@, b@);
    lemma_tail(x);
    lemma_tail(y);
    if x.label() == y.label() {
        let (m, n) = (label_name(x.kind), label_name(y.kind));
        lemma_name(x.kind);
        lemma_name(y.kind);
        assert(x.label()[0] == m[0] && x.label()[1] == m[1] && x.label()[2] == m[2]);
        assert(y.label()[0] == n[0] && y.label()[1] == n[1] && y.label()[2] == n[2]);
        lemma_names_differ(x.kind, y.kind);
        assert(x.label().skip(m.len() as int) =~= decimal(x.count()) + tail_of(x));
        assert(y.label().skip(m.len() as int) =~= decimal(y.count()) + tail_of(y));
        lemma_number_ends(x.count(), tail_of(x), y.count(), tail_of(y));
        if x.texture is Some {
            let on = ") on atlas "@;
            let (i, j) = (shown_index(x)->0, shown_index(y)->0);
            assert(tail_of(x).skip(on.len() as int) =~= decimal(i as nat));
            assert(tail_of(y).skip(on.len() as int) =~= decimal(j as nat));
            decimal_is_unique(i as nat, j as nat);
        }
    }
}

/// The number that a row of digits stands for: each digit counts ten times the one after it.
pub open spec fn value_of(digits: Seq<char>) -> int
    decreases digits.len(),
{
    if digits.len() == 0 {
        0
    } else {
        10 * value_of(digits.drop_last()) + (digits.last() as int - '0' as int)
    }
}

/// Whether a row of digits is how `n` is written: it stands for `n`, and begins with no zero unless
/// that is all of it.
pub open spec fn is_written(digits: Seq<char>, n: int) -> bool {
    &&& value_of(digits) == n
    &&& digits.len() > 0
    &&& forall|i: int| 0 <= i < digits.len() ==> '0' <= #[trigger] digits[i] <= '9'
    &&& digits.len() > 1 ==> digits[0] != '0'
}

proof fn lemma_decimal_is_written(n: nat)
    ensures
        is_written(decimal(n), n as int),
        n > 0 ==> decimal(n)[0] != '0',
    decreases n,
{
    lemma_decimal_digits(n);
    if n >= 10 {
        lemma_decimal_is_written(n / 10);
        assert(decimal(n).drop_last() =~= decimal(n / 10));
        assert(decimal(n)[0] == decimal(n / 10)[0]);
    } else {
        assert(decimal(n).drop_last().len() == 0);
        reveal_with_fuel(value_of, 2);
    }
    assert forall|i: int| 0 <= i < decimal(n).len() implies '0' <= #[trigger] decimal(n)[i]
        <= '9' by {
        assert(is_digit(decimal(n)[i]));
    }
}

/// Whether `text` is a name, then a count, then a closing bracket.
pub open spec fn is_counted(text: Seq<char>, name: Seq<char>, count: int) -> bool {
    exists|digits: Seq<char>| #[trigger]
        is_written(digits, count) && text == name + digits + ")"@
}

/// Whether `text` is a name, then a count, then a closing bracket and the index of an atlas.
pub open spec fn is_counted_on_atlas(
    text: Seq<char>,
    name: Seq<char>,
    count: int,
    index: int,
) -> bool {
    exists|digits: Seq<char>, on: Seq<char>| #[trigger]
        is_written(digits, count) && #[trigger] is_written(on, index) && text == name + digits
            + ") on atlas "@ + on
}

proof fn lemma_counted(text: Seq<char>, name: Seq<char>, count: nat)
    requires
        text == name + decimal(count) + ")"@,
    ensures
        is_counted(text, name, count as int),
{
    lemma_decimal_is_written(count);
}

proof fn lemma_counted_on_atlas(text: Seq<char>, name: Seq<char>, count: nat, index: nat)
    requires
        text == name + decimal(count) + ") on atlas "@ + decimal(index),
    ensures
        is_counted_on_atlas(text, name, count as int, index as int),
{
    lemma_decimal_is_written(count);
    lemma_decimal_is_written(index);
}

/// A label names the kind of a batch and how many primitives it holds, and for sprites the index of
/// the atlas they lie on. A range that ends before it starts holds none.
pub proof fn label_spells_out_the_batch(batch: PrimitiveBatch, text: String)
    requires
        call_ensures(PrimitiveBatch::label, (&batch,), text),
    ensures
        batch matches PrimitiveBatch::Shadows(range) ==> is_counted(
            text@,
            "shadows ("@,
            if range.start < range.end {
                range.end - range.start
            } else {
                0
            },
        ),
        batch matches PrimitiveBatch::Backdrops(range) ==> is_counted(
            text@,
            "backdrops ("@,
            if range.start < range.end {
                range.end - range.start
            } else {
                0
            },
        ),
        batch matches PrimitiveBatch::Quads(range) ==> is_counted(
            text@,
            "quads ("@,
            if range.start < range.end {
                range.end - range.start
            } else {
                0
            },
        ),
        batch matches PrimitiveBatch::Paths(range) ==> is_counted(
            text@,
            "paths ("@,
            if range.start < range.end {
                range.end - range.start
            } else {
                0
            },
        ),
        batch matches PrimitiveBatch::Underlines(range) ==> is_counted(
            text@,
            "underlines ("@,
            if range.start < range.end {
                range.end - range.start
            } else {
                0
            },
        ),
        batch matches PrimitiveBatch::Surfaces(range) ==> is_counted(
            text@,
            "surfaces ("@,
            if range.start < range.end {
                range.end - range.start
            } else {
                0
            },
        ),
        batch matches PrimitiveBatch::MonochromeSprites { texture_id, range } ==>
            is_counted_on_atlas(
                text@,
                "monochrome sprites ("@,
                if range.start < range.end {
                    range.end - range.start
                } else {
                    0
                },
                texture_id.index as int,
            ),
        batch matches PrimitiveBatch::SubpixelSprites { texture_id, range } ==>
            is_counted_on_atlas(
                text@,
                "subpixel sprites ("@,
                if range.start < range.end {
                    range.end - range.start
                } else {
                    0
                },
                texture_id.index as int,
            ),
        batch matches PrimitiveBatch::PolychromeSprites { texture_id, range } ==>
            is_counted_on_atlas(
                text@,
                "polychrome sprites ("@,
                if range.start < range.end {
                    range.end - range.start
                } else {
                    0
                },
                texture_id.index as int,
            ),
{
    let name = label_name(batch@.kind);
    match batch@.texture {
        Some(texture_id) => {
            lemma_counted_on_atlas(text@, name, batch@.count(), texture_id.index as nat);
        },
        None => {
            lemma_counted(text@, name, batch@.count());
        },
    }
}

/// Appending a number appends the way it is written.
pub proof fn appended_number_is_written(out: &mut String, n: u64)
    requires
        call_ensures(append_decimal, (out, n), ()),
    ensures
        exists|digits: Seq<char>| #[trigger]
            is_written(digits, n as int) && final(out)@ == old(out)@ + digits,
{
    lemma_decimal_is_written(n as nat);
    assert(is_written(decimal(n as nat), n as int));
}

} // verus!
