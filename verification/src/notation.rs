//! What the notations of a frame mean: white space, numbers, cursor positions, control
//! sequences and commands.

use vstd::prelude::*;

use crate::escape;
use crate::text;

verus! {

/// White space is what Unicode gives the property `White_Space`, by code point.
pub proof fn law_white_space(c: char)
    ensures
        text::is_white_space(c) <==> ({
            let n = c as u32;
            ||| 0x09 <= n <= 0x0d
            ||| n == 0x20
            ||| n == 0x85
            ||| n == 0xa0
            ||| n == 0x1680
            ||| 0x2000 <= n <= 0x200a
            ||| n == 0x2028
            ||| n == 0x2029
            ||| n == 0x202f
            ||| n == 0x205f
            ||| n == 0x3000
        }),
{
}

/// White space behind a text that does not end in any is all that trimming takes away.
pub proof fn law_trimming_drops_white_space(s: Seq<char>, space: Seq<char>)
    requires
        s.len() > 0 ==> !text::is_white_space(s.last()),
        forall|i: int| 0 <= i < space.len() ==> text::is_white_space(#[trigger] space[i]),
    ensures
        text::trim_end(s + space) == s,
{
    let all = s + space;
    assert forall|i: int| s.len() <= i < all.len() implies text::is_white_space(
        #[trigger] all[i],
    ) by {
        assert(all[i] == space[i - s.len()]);
    }
    text::lemma_trim_end_is(all, s.len());
    assert(all.take(s.len() as int) =~= s);
}

/// Decimal notation: one digit for a number below ten, and for a greater one the notation
/// of its tens and the digit of its ones.
pub proof fn law_decimal_notation(tens: nat, ones: nat)
    requires
        ones < 10,
    ensures
        text::decimal(ones).len() == 1,
        text::decimal(ones)[0] as u32 == '0' as u32 + ones,
        tens > 0 ==> text::decimal(10 * tens + ones) == text::decimal(tens) + text::decimal(ones),
{
    let n = 10 * tens + ones;
    if tens > 0 {
        assert(n / 10 == tens && n % 10 == ones);
        assert(text::decimal(n) =~= text::decimal(tens) + text::decimal(ones));
    }
}

/// Leading zeros do not count.
proof fn lemma_leading_zero(s: Seq<char>)
    ensures
        text::decimal_value(seq!['0'] + s) == text::decimal_value(s),
    decreases s.len(),
{
    let more = seq!['0'] + s;
    if s.len() == 0 {
        assert(more.drop_last() =~= s);
    } else {
        assert(more.drop_last() =~= seq!['0'] + s.drop_last());
        lemma_leading_zero(s.drop_last());
    }
}

/// To read a number is the inverse of writing it, as far as it fits; leading zeros do not
/// matter; and nothing, or a text with anything but digits in it, is no number.
pub proof fn law_numbers_are_read_as_written(n: nat, s: Seq<char>)
    ensures
        text::number(text::decimal(n)) == if n <= usize::MAX {
            Some(n)
        } else {
            None
        },
        s.len() > 0 ==> text::number(seq!['0'] + s) == text::number(s),
        text::number(Seq::empty()) is None,
        (exists|i: int| 0 <= i < s.len() && ((#[trigger] s[i]) < '0' || s[i] > '9'))
            ==> text::number(s) is None,
{
    text::lemma_decimal(n);
    lemma_leading_zero(s);
    let more = seq!['0'] + s;
    if text::all_digits(s) {
        assert forall|i: int| 0 <= i < more.len() implies text::is_digit(#[trigger] more[i]) by {
            if i > 0 {
                assert(text::is_digit(s[i - 1]));
            }
        }
    }
    if text::all_digits(more) {
        assert forall|i: int| 0 <= i < s.len() implies text::is_digit(#[trigger] s[i]) by {
            assert(text::is_digit(more[i + 1]));
        }
    }
    if exists|i: int| 0 <= i < s.len() && ((#[trigger] s[i]) < '0' || s[i] > '9') {
        let i = choose|i: int| 0 <= i < s.len() && ((#[trigger] s[i]) < '0' || s[i] > '9');
        assert(!text::is_digit(s[i]));
    }
}

/// The 0-based coordinate that one field stands for: one less than the number in it, and 0
/// where there is none or it is 0.
pub open spec fn field_index(field: Seq<char>) -> nat {
    match text::number(field) {
        Some(n) => if n > 0 {
            (n - 1) as nat
        } else {
            0
        },
        None => 0,
    }
}

/// A cursor position counts rows and columns from 1. Its first field is the row and its
/// second the column; a column that is left out is the first one, and further fields mean
/// nothing.
pub proof fn law_cursor_position(row: Seq<char>, col: Seq<char>, more: Seq<char>)
    requires
        forall|i: int| 0 <= i < row.len() ==> #[trigger] row[i] != ';',
        forall|i: int| 0 <= i < col.len() ==> #[trigger] col[i] != ';',
    ensures
        escape::target_row(row) == field_index(row),
        escape::target_col(row) == 0,
        escape::target_row(row + seq![';'] + col) == field_index(row),
        escape::target_col(row + seq![';'] + col) == field_index(col),
        escape::target_row(row + seq![';'] + (col + seq![';'] + more)) == field_index(row),
        escape::target_col(row + seq![';'] + (col + seq![';'] + more)) == field_index(col),
{
    text::lemma_fields_single(row);
    text::lemma_fields_single(col);
    text::lemma_fields_cons(row, col);
    text::lemma_fields_cons(col, more);
    text::lemma_fields_cons(row, col + seq![';'] + more);
    let a = text::fields(row + seq![';'] + col);
    assert(a[0] == row && a[1] == col);
    let b = text::fields(row + seq![';'] + (col + seq![';'] + more));
    assert(b[0] == row && b[1] == col);
}

/// The digits, the colon, the semicolon and the question mark can stand among the
/// parameters of a control sequence.
pub open spec fn may_be_parameter(c: char) -> bool {
    ||| '0' <= c && c <= '9'
    ||| c == ':'
    ||| c == ';'
    ||| c == '?'
}

/// An escape, a bracket, up to 61 parameters and an ASCII letter are a control sequence,
/// whatever comes behind it. One with more parameters is none.
pub proof fn law_control_sequences_are_found(params: Seq<char>, letter: char, rest: Seq<char>)
    requires
        forall|i: int| 0 <= i < params.len() ==> may_be_parameter(#[trigger] params[i]),
        ('a' <= letter && letter <= 'z') || ('A' <= letter && letter <= 'Z'),
    ensures
        escape::csi(seq!['\x1b', '['] + params + seq![letter] + rest) == if params.len() <= 61 {
            Some((params, letter, params.len() + 3))
        } else {
            None
        },
{
    let s = seq!['\x1b', '['] + params + seq![letter] + rest;
    let tail = s.skip(2);
    let n = params.len();
    assert forall|i: int| 0 <= i < n implies escape::is_parameter(#[trigger] tail[i]) by {
        assert(tail[i] == params[i]);
    }
    assert(tail[n as int] == letter);
    text::lemma_leading_is(tail, |c: char| escape::is_parameter(c), n);
    assert(s.subrange(2, 2 + n as int) =~= params);
    assert(s[0] == '\x1b' && s[1] == '[' && s[2 + n as int] == letter);
}

/// What is taken for a control sequence is one: its length covers the escape, the bracket,
/// its parameters and its letter, and nothing more.
pub proof fn law_control_sequences_are_nothing_else(s: Seq<char>)
    ensures
        escape::csi(s) matches Some((params, letter, len)) ==> {
            &&& len <= s.len()
            &&& s.take(len as int) == seq!['\x1b', '['] + params + seq![letter]
            &&& params.len() <= 61
            &&& forall|i: int| 0 <= i < params.len() ==> may_be_parameter(#[trigger] params[i])
            &&& ('a' <= letter && letter <= 'z') || ('A' <= letter && letter <= 'Z')
        },
{
    if let Some((params, letter, len)) = escape::csi(s) {
        let tail = s.skip(2);
        text::lemma_leading(tail, |c: char| escape::is_parameter(c));
        assert forall|i: int| 0 <= i < params.len() implies may_be_parameter(
            #[trigger] params[i],
        ) by {
            assert(params[i] == tail[i]);
            assert(escape::is_parameter(tail[i]));
        }
        assert(s.take(len as int) =~= seq!['\x1b', '['] + params + seq![letter]);
    }
}

/// An escape, a closing bracket and anything up to a bell, or up to an escape and a
/// backslash, are a command, whatever comes behind it.
pub proof fn law_commands_are_found(body: Seq<char>, rest: Seq<char>)
    requires
        forall|i: int| 0 <= i < body.len() ==> #[trigger] body[i] != '\x07' && body[i] != '\x1b',
    ensures
        escape::osc(seq!['\x1b', ']'] + body + seq!['\x07'] + rest) == Some(body.len() + 3),
        escape::osc(seq!['\x1b', ']'] + body + seq!['\x1b', '\\'] + rest) == Some(body.len() + 4),
{
    let p = |c: char| c != '\x07' && c != '\x1b';
    let n = body.len();
    let a = seq!['\x1b', ']'] + body + seq!['\x07'] + rest;
    let x = a.skip(2);
    assert forall|i: int| 0 <= i < n implies p(#[trigger] x[i]) by {
        assert(x[i] == body[i]);
    }
    assert(x[n as int] == '\x07');
    text::lemma_leading_is(x, p, n);
    assert(a[0] == '\x1b' && a[1] == ']' && a[2 + n as int] == '\x07');
    let b = seq!['\x1b', ']'] + body + seq!['\x1b', '\\'] + rest;
    let y = b.skip(2);
    assert forall|i: int| 0 <= i < n implies p(#[trigger] y[i]) by {
        assert(y[i] == body[i]);
    }
    assert(y[n as int] == '\x1b');
    text::lemma_leading_is(y, p, n);
    assert(b[0] == '\x1b' && b[1] == ']' && b[2 + n as int] == '\x1b' && b[3 + n as int] == '\\');
}

/// What is taken for a command is one: it ends with the first bell, or with the first
/// escape, if that stands before a backslash.
pub proof fn law_commands_are_nothing_else(s: Seq<char>)
    ensures
        escape::osc(s) matches Some(len) ==> {
            &&& 3 <= len <= s.len()
            &&& s[0] == '\x1b' && s[1] == ']'
            &&& exists|n: int|
                2 <= n < len && (forall|i: int|
                    2 <= i < n ==> #[trigger] s[i] != '\x07' && s[i] != '\x1b') && {
                    ||| #[trigger] s[n] == '\x07' && len == n + 1
                    ||| s[n] == '\x1b' && len == n + 2 && s[n + 1] == '\\'
                }
        },
{
    if let Some(len) = escape::osc(s) {
        let tail = s.skip(2);
        let p = |c: char| c != '\x07' && c != '\x1b';
        text::lemma_leading(tail, p);
        let n = 2 + text::leading(tail, p) as int;
        assert forall|i: int| 2 <= i < n implies #[trigger] s[i] != '\x07' && s[i] != '\x1b' by {
            assert(s[i] == tail[i - 2]);
            assert(p(tail[i - 2]));
        }
        assert(s[n] == tail[n - 2]);
    }
}

} // verus!
