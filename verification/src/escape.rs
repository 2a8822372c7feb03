//! The escape sequences of a frame.
//!
//! A frame is text with three kinds of escape sequences in it: control sequences
//! (`ESC [ parameters letter`), operating system commands (`ESC ] ... BEL` or
//! `ESC ] ... ESC \`), and any other `ESC` with the one character behind it.

use vstd::prelude::*;

use crate::text;

verus! {

/// The longest control sequence that is recognised, in characters.
pub const CSI_LIMIT: usize = 64;

/// A character that may stand among the parameters of a control sequence.
pub open spec fn is_parameter(c: char) -> bool {
    text::is_digit(c) || c == ';' || c == ':' || c == '?'
}

/// The control sequence at the start of `s`: its parameters, the letter that ends
/// it, and its length in characters.
pub open spec fn csi(s: Seq<char>) -> Option<(Seq<char>, char, nat)> {
    let k = 2 + text::leading(s.skip(2), |c: char| is_parameter(c));
    if s.len() >= 3 && s[0] == '\x1b' && s[1] == '[' && k < s.len() && k < CSI_LIMIT && text::is_letter(
        s[k as int],
    ) {
        Some((s.subrange(2, k as int), s[k as int], k + 1))
    } else {
        None
    }
}

/// The length of the operating system command at the start of `s`.
pub open spec fn osc(s: Seq<char>) -> Option<nat> {
    let k = 2 + text::leading(s.skip(2), |c: char| c != '\x07' && c != '\x1b');
    if s.len() >= 2 && s[0] == '\x1b' && s[1] == ']' && k < s.len() {
        if s[k as int] == '\x07' {
            Some(k + 1)
        } else if k + 1 < s.len() && s[k as int + 1] == '\\' {
            Some(k + 2)
        } else {
            None
        }
    } else {
        None
    }
}

/// A coordinate as it is written: a number from 1 on. What is missing, is not a
/// number, does not fit or is 0 counts as 1.
pub open spec fn coordinate(field: Seq<char>) -> nat {
    match text::number(field) {
        Some(n) => if n == 0 {
            1
        } else {
            n
        },
        None => 1,
    }
}

/// The 0-based row that the parameters of a cursor position name.
pub open spec fn target_row(params: Seq<char>) -> nat {
    (coordinate(text::fields(params)[0]) - 1) as nat
}

/// The 0-based column that the parameters of a cursor position name.
pub open spec fn target_col(params: Seq<char>) -> nat {
    if text::fields(params).len() > 1 {
        (coordinate(text::fields(params)[1]) - 1) as nat
    } else {
        0
    }
}

/// What one piece of a frame asks for.
pub enum Token {
    /// Go to this 0-based position.
    Goto { row: nat, col: nat },
    /// Print in this style from here on: the whole sequence that selects it.
    Style(Seq<char>),
    /// Blank the grid.
    Erase,
    /// Show or hide the cursor.
    Cursor(bool),
    /// Print this character and go one column on.
    Print(char),
    /// Nothing.
    Skip,
}

/// What a control sequence asks for; `whole` is all of it.
pub open spec fn csi_token(params: Seq<char>, letter: char, whole: Seq<char>) -> Token {
    if letter == 'H' {
        Token::Goto { row: target_row(params), col: target_col(params) }
    } else if letter == 'm' {
        Token::Style(whole)
    } else if letter == 'J' {
        Token::Erase
    } else if (letter == 'h' || letter == 'l') && params == seq!['?', '2', '5'] {
        Token::Cursor(letter == 'h')
    } else {
        Token::Skip
    }
}

/// What a character that starts no escape sequence asks for: a tab prints one
/// space, and the other control characters below the space print nothing.
pub open spec fn char_token(c: char) -> Token {
    if c == '\t' {
        Token::Print(' ')
    } else if c >= ' ' {
        Token::Print(c)
    } else {
        Token::Skip
    }
}

/// The first piece of the nonempty `s`, and its length in characters.
pub open spec fn first_token(s: Seq<char>) -> (Token, nat) {
    if s[0] == '\x1b' {
        match csi(s) {
            Some((params, letter, len)) => (
                csi_token(params, letter, s.take(len as int)),
                len,
            ),
            None => match osc(s) {
                Some(len) => (Token::Skip, len),
                None => (
                    Token::Skip,
                    if s.len() < 2 {
                        1
                    } else {
                        2
                    },
                ),
            },
        }
    } else {
        (char_token(s[0]), 1)
    }
}

/// A frame, piece by piece.
pub open spec fn tokens(s: Seq<char>) -> Seq<Token>
    decreases s.len(),
    via tokens_decreases
{
    if s.len() == 0 {
        Seq::empty()
    } else {
        let (t, n) = first_token(s);
        seq![t] + tokens(s.skip(n as int))
    }
}

#[via_fn]
proof fn tokens_decreases(s: Seq<char>) {
    if s.len() > 0 {
        lemma_first_token_len(s);
    }
}

/// A piece is at least one character long and lies within the frame.
pub proof fn lemma_first_token_len(s: Seq<char>)
    requires
        s.len() > 0,
    ensures
        1 <= first_token(s).1 <= s.len(),
{
    text::lemma_leading(s.skip(2), |c: char| is_parameter(c));
    text::lemma_leading(s.skip(2), |c: char| c != '\x07' && c != '\x1b');
}

/// The control sequence at the start of `chars`: its parameters, the letter that
/// ends it, and its length.
pub fn parse_csi(chars: &[char]) -> (r: Option<(Vec<char>, char, usize)>)
    ensures
        match r {
            Some((params, letter, len)) => csi(chars@) == Some((params@, letter, len as nat)),
            None => csi(chars@) is None,
        },
{
    if chars.len() < 3 || chars[0] != '\x1b' || chars[1] != '[' {
        return None;
    }
    let ghost tail = chars@.skip(2);
    let mut params: Vec<char> = Vec::new();
    let mut k: usize = 2;
    while k < chars.len() && k < CSI_LIMIT
        invariant
            chars@.len() >= 3,
            chars@[0] == '\x1b',
            chars@[1] == '[',
            tail == chars@.skip(2),
            2 <= k <= chars@.len(),
            k <= CSI_LIMIT,
            params@ == chars@.subrange(2, k as int),
            forall|j: int| 0 <= j < k - 2 ==> is_parameter(#[trigger] tail[j]),
        decreases chars@.len() - k,
    {
        let c = chars[k];
        assert(tail[k - 2] == c);
        if ('0' <= c && c <= '9') || c == ';' || c == ':' || c == '?' {
            params.push(c);
            k = k + 1;
        } else {
            proof {
                text::lemma_leading_is(tail, |c: char| is_parameter(c), (k - 2) as nat);
            }
            if ('a' <= c && c <= 'z') || ('A' <= c && c <= 'Z') {
                return Some((params, c, k + 1));
            } else {
                return None;
            }
        }
    }
    proof {
        let p = |c: char| is_parameter(c);
        text::lemma_leading(tail, p);
        if text::leading(tail, p) < k - 2 {
            assert(is_parameter(tail[text::leading(tail, p) as int]));
        }
    }
    None
}

/// The length of the operating system command at the start of `chars`.
pub fn parse_osc(chars: &[char]) -> (r: Option<usize>)
    ensures
        match r {
            Some(len) => osc(chars@) == Some(len as nat),
            None => osc(chars@) is None,
        },
{
    if chars.len() < 2 || chars[0] != '\x1b' || chars[1] != ']' {
        return None;
    }
    let ghost tail = chars@.skip(2);
    let ghost p = |c: char| c != '\x07' && c != '\x1b';
    let mut k: usize = 2;
    while k < chars.len()
        invariant
            chars@.len() >= 2,
            chars@[0] == '\x1b',
            chars@[1] == ']',
            tail == chars@.skip(2),
            p == (|c: char| c != '\x07' && c != '\x1b'),
            2 <= k <= chars@.len(),
            forall|j: int| 0 <= j < k - 2 ==> p(#[trigger] tail[j]),
        decreases chars@.len() - k,
    {
        let c = chars[k];
        assert(tail[k - 2] == c);
        if c == '\x07' {
            proof {
                text::lemma_leading_is(tail, p, (k - 2) as nat);
            }
            return Some(k + 1);
        }
        if c == '\x1b' {
            proof {
                text::lemma_leading_is(tail, p, (k - 2) as nat);
            }
            if chars.len() - k > 1 && chars[k + 1] == '\\' {
                return Some(k + 2);
            }
            return None;
        }
        k = k + 1;
    }
    proof {
        text::lemma_leading_is(tail, p, (k - 2) as nat);
    }
    None
}

/// The 0-based position that the parameters of a cursor position name.
pub fn parse_target(params: &[char]) -> (r: (usize, usize))
    ensures
        r.0 == target_row(params@),
        r.1 == target_col(params@),
        r.0 < usize::MAX,
        r.1 < usize::MAX,
{
    let end = field_end(params, 0);
    let row = parse_coordinate(vstd::slice::slice_subrange(params, 0, end));
    proof {
        assert(params@.skip(0) =~= params@);
        assert(params@.subrange(0, end as int) =~= params@.take(end as int));
        assert(params@.take(params@.len() as int) =~= params@);
    }
    if end == params.len() {
        return (row - 1, 0);
    }
    let from = end + 1;
    let to = field_end(params, from);
    let col = parse_coordinate(vstd::slice::slice_subrange(params, from, to));
    proof {
        let rest = params@.skip(end as int + 1);
        assert(params@.subrange(from as int, to as int) =~= rest.take(to - from));
        assert(rest.take(rest.len() as int) =~= rest);
        assert(text::fields(params@)[1] == text::fields(rest)[0]);
    }
    (row - 1, col - 1)
}

/// Where the field that starts at `from` ends: at the next semicolon or the end.
fn field_end(params: &[char], from: usize) -> (end: usize)
    requires
        from <= params@.len(),
    ensures
        end == from + text::leading(params@.skip(from as int), |c: char| c != ';'),
        from <= end <= params@.len(),
{
    let ghost tail = params@.skip(from as int);
    let mut end = from;
    while end < params.len() && params[end] != ';'
        invariant
            from <= end <= params@.len(),
            tail == params@.skip(from as int),
            forall|j: int| 0 <= j < end - from ==> #[trigger] tail[j] != ';',
        decreases params@.len() - end,
    {
        assert(tail[end - from] == params@[end as int]);
        end = end + 1;
    }
    proof {
        if end < params@.len() {
            assert(tail[end - from] == params@[end as int]);
        }
        text::lemma_leading_is(tail, |c: char| c != ';', (end - from) as nat);
    }
    end
}

/// The coordinate written in one field.
fn parse_coordinate(field: &[char]) -> (n: usize)
    ensures
        n == coordinate(field@),
        n >= 1,
{
    match text::parse_number(field) {
        Some(n) => if n == 0 {
            1
        } else {
            n
        },
        None => 1,
    }
}

} // verus!
