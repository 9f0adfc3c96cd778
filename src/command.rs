//! What one line of input does to a session: end it, toggle a square, or be
//! refused with a reason.
use vstd::prelude::*;
use vstd::string::StrSliceExecFns;
use crate::board::{Board, SQUARES, toggled};

verus! {

/// Why a line could not be read as a square index.
#[derive(Debug, Clone, Copy, PartialEq, Eq, Structural)]
pub enum ParseFailure {
    /// Nothing was there to read.
    Empty,
    /// A character other than a decimal digit (after an optional leading `+`).
    InvalidDigit,
}

/// What a line does to a session, with masks as plain integers.
pub enum Reply {
    /// The session ends with this mask.
    Finish(u32),
    /// The session goes on with this mask.
    Update(u32),
    /// The board refused a square that had passed the range check.
    ToggleProblem,
    /// The index names no square.
    InvalidSquare,
    /// The line is not an index.
    ParseProblem(ParseFailure),
}

/// What a line does to a session.
#[derive(Debug, Clone, Copy)]
pub enum Step {
    /// The session ends with this board.
    Finish(Board),
    /// The session goes on with this board.
    Update(Board),
    /// The board refused a square that had passed the range check.
    ToggleProblem,
    /// The index names no square.
    InvalidSquare,
    /// The line is not an index.
    ParseProblem(ParseFailure),
}

impl View for Step {
    type V = Reply;

    open spec fn view(&self) -> Reply {
        match *self {
            Step::Finish(b) => Reply::Finish(b@),
            Step::Update(b) => Reply::Update(b@),
            Step::ToggleProblem => Reply::ToggleProblem,
            Step::InvalidSquare => Reply::InvalidSquare,
            Step::ParseProblem(e) => Reply::ParseProblem(e),
        }
    }
}

/// The word that ends a session.
pub open spec fn done_word() -> Seq<char> {
    seq!['d', 'o', 'n', 'e']
}

/// Whether `c` is a decimal digit.
pub open spec fn is_digit(c: char) -> bool {
    '0' <= c && c <= '9'
}

/// The number written by a string of decimal digits.
pub open spec fn digits_value(s: Seq<char>) -> nat
    decreases s.len(),
{
    if s.len() == 0 {
        0
    } else {
        digits_value(s.drop_last()) * 10 + ((s.last() as u32) - ('0' as u32)) as nat
    }
}

/// The digits of a line, past an optional leading `+`.
pub open spec fn unsigned_part(s: Seq<char>) -> Seq<char> {
    if s.len() > 0 && s[0] == '+' {
        s.drop_first()
    } else {
        s
    }
}

/// A line read as a non-negative decimal integer.
pub open spec fn parse_index_spec(s: Seq<char>) -> Result<nat, ParseFailure> {
    let body = unsigned_part(s);
    if s.len() == 0 {
        Err(ParseFailure::Empty)
    } else if body.len() > 0 && forall|k: int| 0 <= k < body.len() ==> is_digit(body[k]) {
        Ok(digits_value(body))
    } else {
        Err(ParseFailure::InvalidDigit)
    }
}

/// What a trimmed line `t` does to a session whose mask is `m`.
pub open spec fn decide(m: u32, t: Seq<char>) -> Reply {
    if t == done_word() {
        Reply::Finish(m)
    } else {
        match parse_index_spec(t) {
            Ok(v) => if v < SQUARES {
                Reply::Update(toggled(m, v as u32))
            } else {
                Reply::InvalidSquare
            },
            Err(e) => Reply::ParseProblem(e),
        }
    }
}

/// Whether `c` is white space: a character of Unicode's `White_Space`
/// property.
pub open spec fn is_white_space(c: char) -> bool {
    ('\u{9}' <= c && c <= '\u{d}') || c == ' ' || c == '\u{85}' || c == '\u{a0}' || c
        == '\u{1680}' || ('\u{2000}' <= c && c <= '\u{200a}') || c == '\u{2028}' || c
        == '\u{2029}' || c == '\u{202f}' || c == '\u{205f}' || c == '\u{3000}'
}

/// `s` without its leading white space.
pub open spec fn trim_front(s: Seq<char>) -> Seq<char>
    decreases s.len(),
{
    if s.len() > 0 && is_white_space(s[0]) {
        trim_front(s.drop_first())
    } else {
        s
    }
}

/// `s` without its trailing white space.
pub open spec fn trim_back(s: Seq<char>) -> Seq<char>
    decreases s.len(),
{
    if s.len() > 0 && is_white_space(s.last()) {
        trim_back(s.drop_last())
    } else {
        s
    }
}

/// `s` with leading and trailing white space removed.
pub open spec fn trim_of(s: Seq<char>) -> Seq<char> {
    trim_back(trim_front(s))
}

/// Relies on `str::trim`: the slice left once leading and trailing
/// characters of Unicode's `White_Space` property are taken off.
#[verifier::external_body]
fn trimmed<'a>(s: &'a str) -> (r: &'a str)
    ensures
        r@ == trim_of(s@),
{
    s.trim()
}

/// Whether `text` is the word that ends a session.
pub fn is_done(text: &str) -> (r: bool)
    ensures
        r == (text@ == done_word()),
{
    let n = text.unicode_len();
    if n != 4 {
        return false;
    }
    let r = text.get_char(0) == 'd' && text.get_char(1) == 'o' && text.get_char(2) == 'n'
        && text.get_char(3) == 'e';
    if r {
        assert(text@ =~= done_word());
    }
    r
}

proof fn lemma_digits_push(s: Seq<char>, start: int, i: int)
    requires
        0 <= start <= i < s.len(),
    ensures
        digits_value(s.subrange(start, i + 1)) == digits_value(s.subrange(start, i)) * 10 + ((
        s[i] as u32) - ('0' as u32)) as nat,
{
    assert(s.subrange(start, i + 1).drop_last() =~= s.subrange(start, i));
}

/// Reads `text` as a square index. A value of 32 or more is returned as 32:
/// all of them name no square alike.
pub fn parse_index(text: &str) -> (r: Result<u32, ParseFailure>)
    ensures
        match parse_index_spec(text@) {
            Ok(v) => r == Ok::<u32, ParseFailure>(if v < SQUARES {
                v as u32
            } else {
                SQUARES
            }),
            Err(e) => r == Err::<u32, ParseFailure>(e),
        },
{
    let n = text.unicode_len();
    if n == 0 {
        return Err(ParseFailure::Empty);
    }
    let ghost s = text@;
    let start: usize = if text.get_char(0) == '+' {
        1
    } else {
        0
    };
    assert(unsigned_part(s) =~= s.subrange(start as int, n as int));
    if start == n {
        return Err(ParseFailure::InvalidDigit);
    }
    let mut v: u32 = 0;
    let mut i: usize = start;
    while i < n
        invariant
            n == s.len(),
            s == text@,
            start <= i <= n,
            unsigned_part(s) == s.subrange(start as int, n as int),
            forall|k: int| start <= k < i ==> is_digit(s[k]),
            v == if digits_value(s.subrange(start as int, i as int)) < SQUARES {
                digits_value(s.subrange(start as int, i as int))
            } else {
                SQUARES as nat
            },
        decreases n - i,
    {
        let c = text.get_char(i);
        if !('0' <= c && c <= '9') {
            assert(unsigned_part(s)[i - start] == c);
            assert(!is_digit(unsigned_part(s)[i - start]));
            return Err(ParseFailure::InvalidDigit);
        }
        let d: u32 = (c as u32) - ('0' as u32);
        proof {
            lemma_digits_push(s, start as int, i as int);
        }
        if v < SQUARES {
            v = v * 10 + d;
            if v > SQUARES {
                v = SQUARES;
            }
        }
        i = i + 1;
    }
    Ok(v)
}

/// What the trimmed line `text` does to a session that holds `board`.
pub fn next_step_trimmed(board: Board, text: &str) -> (r: Step)
    ensures
        r@ == decide(board@, text@),
{
    if is_done(text) {
        return Step::Finish(board);
    }
    match parse_index(text) {
        Ok(square) => {
            if square < SQUARES {
                match board.toggle(square as u8) {
                    Ok(b) => Step::Update(b),
                    Err(_) => Step::ToggleProblem,
                }
            } else {
                Step::InvalidSquare
            }
        },
        Err(e) => Step::ParseProblem(e),
    }
}

/// What one line of input does to a session that holds `board`: the line is
/// trimmed, then read as `next_step_trimmed` reads it.
pub fn next_step(board: Board, line: &str) -> (r: Step)
    ensures
        r@ == decide(board@, trim_of(line@)),
{
    next_step_trimmed(board, trimmed(line))
}

/// The word that ends a session gives back the mask as it stands, whatever
/// mask the toggles before it have led to.
pub proof fn lemma_done_keeps_mask(m: u32)
    ensures
        decide(m, done_word()) == Reply::Finish(m),
{
}

} // verus!
