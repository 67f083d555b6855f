//! The parameters of a run and the rules by which answers typed by the user
//! are taken, refused and read.

use crate::error::Error;
use vstd::prelude::*;

verus! {

/// What a run puts out: the image recolored with the cluster colors, or the
/// cluster colors themselves as a palette.
#[derive(Clone, Copy, Debug, PartialEq, Eq, Structural)]
pub enum Mode {
    Palette,
    Image,
}

/// The parameters of a run, as collected from the user.
pub struct Options {
    pub input_path: String,
    pub output_path: String,
    pub k: usize,
    pub iterations: usize,
    pub mode: Mode,
}

/// What kind of answer a question asks for.
#[derive(Clone, Copy, Debug, PartialEq, Eq, Structural)]
pub enum Prompt {
    /// The path of a file that exists.
    Path,
    /// Any text.
    Safe,
    /// A decimal number.
    Num,
    /// Yes or no.
    Mode,
}

/// What becomes of a line that was read in answer to a question.
pub enum Reply {
    /// The answer is taken; it is handed on without its line feeds.
    Taken(String),
    /// The answer is not taken; the message says so, and the question is
    /// asked again.
    Refused(String),
}

/// A line without its line feeds.
pub open spec fn without_line_feeds(line: Seq<char>) -> Seq<char>
    decreases line.len(),
{
    if line.len() == 0 {
        Seq::empty()
    } else if line.last() == '\n' {
        without_line_feeds(line.drop_last())
    } else {
        without_line_feeds(line.drop_last()).push(line.last())
    }
}

/// The message for an answer that was not taken: it quotes the answer
/// without the white space around it.
pub open spec fn refusal(line: Seq<char>) -> Seq<char> {
    "invalid input \""@ + trimmed(line) + "\" please try again \n"@
}

/// Whether `c` is white space: one of the characters that Unicode classes as
/// `White_Space`.
pub open spec fn is_space(c: char) -> bool {
    let n = c as u32;
    ||| 0x09 <= n <= 0x0D
    ||| n == 0x20
    ||| n == 0x85
    ||| n == 0xA0
    ||| n == 0x1680
    ||| 0x2000 <= n <= 0x200A
    ||| n == 0x2028
    ||| n == 0x2029
    ||| n == 0x202F
    ||| n == 0x205F
    ||| n == 0x3000
}

/// Whether `c` is one of the digits `0` to `9`.
pub open spec fn is_digit(c: char) -> bool {
    '0' <= c <= '9'
}

/// The number of white-space characters that `s` begins with.
pub open spec fn leading_spaces(s: Seq<char>) -> nat
    decreases s.len(),
{
    if s.len() > 0 && is_space(s.first()) {
        1 + leading_spaces(s.drop_first())
    } else {
        0
    }
}

/// The number of white-space characters that `s` ends with.
pub open spec fn trailing_spaces(s: Seq<char>) -> nat
    decreases s.len(),
{
    if s.len() > 0 && is_space(s.last()) {
        1 + trailing_spaces(s.drop_last())
    } else {
        0
    }
}

/// `s` without the white space around it.
pub open spec fn trimmed(s: Seq<char>) -> Seq<char> {
    if leading_spaces(s) == s.len() {
        Seq::empty()
    } else {
        s.subrange(leading_spaces(s) as int, s.len() - trailing_spaces(s))
    }
}

/// Whether `s` holds digits only.
pub open spec fn all_digits(s: Seq<char>) -> bool {
    forall|i: int| 0 <= i < s.len() ==> is_digit(#[trigger] s[i])
}

/// The number that a string of digits spells in base ten.
pub open spec fn decimal_value(s: Seq<char>) -> nat
    decreases s.len(),
{
    if s.len() == 0 {
        0
    } else {
        (decimal_value(s.drop_last()) * 10 + (s.last() as u32 - '0' as u32)) as nat
    }
}

/// The number that an answer names: its digits, white space around them
/// ignored. An answer names no number where it is blank, holds anything but
/// digits, or spells a number that `usize` cannot hold.
pub open spec fn parse_number(s: Seq<char>) -> Option<usize> {
    let digits = trimmed(s);
    if digits.len() > 0 && all_digits(digits) && decimal_value(digits) <= usize::MAX {
        Some(decimal_value(digits) as usize)
    } else {
        None
    }
}

/// The lower-case form of an ASCII capital; any other character itself.
pub open spec fn lowered(c: char) -> char {
    if 'A' <= c <= 'Z' {
        ((c as u8 + 32) as u8) as char
    } else {
        c
    }
}

/// Whether `s` spells `word`, the case of ASCII letters ignored.
pub open spec fn spells(s: Seq<char>, word: Seq<char>) -> bool {
    &&& s.len() == word.len()
    &&& forall|i: int| 0 <= i < s.len() ==> lowered(#[trigger] s[i]) == word[i]
}

/// The mode that an answer names, white space around it and the case of its
/// letters ignored: `y` or `yes` asks for a palette, `n` or `no` for the
/// image.
pub open spec fn parse_mode(s: Seq<char>) -> Option<Mode> {
    let word = trimmed(s);
    if spells(word, seq!['y']) || spells(word, seq!['y', 'e', 's']) {
        Some(Mode::Palette)
    } else if spells(word, seq!['n']) || spells(word, seq!['n', 'o']) {
        Some(Mode::Image)
    } else {
        None
    }
}

/// Whether an answer to a question of the given kind is taken. A path is
/// taken where the file exists, which the caller finds out; a number and a
/// mode where the answer names one; any other text always.
pub open spec fn accepted(kind: Prompt, line: Seq<char>, path_exists: bool) -> bool {
    match kind {
        Prompt::Path => path_exists,
        Prompt::Safe => true,
        Prompt::Num => parse_number(line) is Some,
        Prompt::Mode => parse_mode(line) is Some,
    }
}

fn space(c: char) -> (yes: bool)
    ensures
        yes == is_space(c),
{
    let n = c as u32;
    (0x09 <= n && n <= 0x0D) || n == 0x20 || n == 0x85 || n == 0xA0 || n == 0x1680 || (0x2000 <= n
        && n <= 0x200A) || n == 0x2028 || n == 0x2029 || n == 0x202F || n == 0x205F || n == 0x3000
}

fn lower(c: char) -> (l: char)
    ensures
        l == lowered(c),
{
    if c >= 'A' && c <= 'Z' {
        (c as u8 + 32) as char
    } else {
        c
    }
}

/// Where the text of an answer begins and ends once the white space around
/// it is left out.
fn trim_bounds(s: &str) -> (bounds: (usize, usize))
    ensures
        bounds.0 <= bounds.1 <= s@.len(),
        s@.subrange(bounds.0 as int, bounds.1 as int) == trimmed(s@),
{
    let n = s.unicode_len();
    let mut start: usize = 0;
    assert(s@.skip(0) =~= s@);
    while start < n && space(s.get_char(start))
        invariant
            start <= n,
            n == s@.len(),
            leading_spaces(s@) == start + leading_spaces(s@.skip(start as int)),
        decreases n - start,
    {
        assert(s@.skip(start as int).drop_first() =~= s@.skip(start + 1));
        start = start + 1;
    }
    if start == n {
        assert(s@.skip(n as int).len() == 0);
        assert(s@.subrange(n as int, n as int) =~= Seq::<char>::empty());
        return (n, n);
    }
    assert(s@.skip(start as int).first() == s@[start as int]);
    let mut end: usize = n;
    assert(s@.take(n as int) =~= s@);
    while end > start + 1 && space(s.get_char(end - 1))
        invariant
            start < end <= n,
            n == s@.len(),
            !is_space(s@[start as int]),
            trailing_spaces(s@) == (n - end) + trailing_spaces(s@.take(end as int)),
        decreases end,
    {
        assert(s@.take(end as int).drop_last() =~= s@.take(end - 1));
        end = end - 1;
    }
    assert(s@.take(end as int).last() == s@[end - 1]);
    (start, end)
}

/// A prefix of a string of digits spells no more than the whole string.
proof fn lemma_decimal_value_grows(s: Seq<char>, i: int)
    requires
        all_digits(s),
        0 <= i <= s.len(),
    ensures
        decimal_value(s.take(i)) <= decimal_value(s),
    decreases s.len() - i,
{
    if i == s.len() {
        assert(s.take(i) =~= s);
    } else {
        lemma_decimal_value_grows(s, i + 1);
        assert(s.take(i + 1).drop_last() =~= s.take(i));
        assert(is_digit(s[i]));
    }
}

/// Reads the number that an answer names.
pub fn parse_count(answer: &str) -> (n: Option<usize>)
    ensures
        n == parse_number(answer@),
{
    let (start, end) = trim_bounds(answer);
    if start == end {
        return None;
    }
    let ghost digits = trimmed(answer@);
    let mut value: usize = 0;
    let mut i: usize = start;
    assert(digits.take(0) =~= Seq::<char>::empty());
    while i < end
        invariant
            start <= i <= end <= answer@.len(),
            digits == answer@.subrange(start as int, end as int),
            digits == trimmed(answer@),
            all_digits(digits.take(i - start)),
            value == decimal_value(digits.take(i - start)),
        decreases end - i,
    {
        let c = answer.get_char(i);
        assert(digits[i - start] == c);
        if !(c >= '0' && c <= '9') {
            assert(!is_digit(digits[i - start]));
            return None;
        }
        let d = (c as u32 - '0' as u32) as usize;
        assert(digits.take(i - start + 1).drop_last() =~= digits.take(i - start));
        assert(all_digits(digits.take(i - start + 1))) by {
            assert forall|h: int| 0 <= h < i - start + 1 implies is_digit(
                #[trigger] digits.take(i - start + 1)[h],
            ) by {
                if h < i - start {
                    assert(digits.take(i - start)[h] == digits[h]);
                }
            }
        }
        if value > (usize::MAX - d) / 10 {
            proof {
                if all_digits(digits) {
                    lemma_decimal_value_grows(digits, i - start + 1);
                }
            }
            return None;
        }
        value = value * 10 + d;
        i = i + 1;
    }
    assert(digits.take(end - start) =~= digits);
    Some(value)
}

impl Mode {
    /// Reads the mode that an answer names.
    pub fn parse(answer: &str) -> (mode: Option<Mode>)
        ensures
            mode == parse_mode(answer@),
    {
        let (start, end) = trim_bounds(answer);
        let ghost word = trimmed(answer@);
        let len = end - start;
        if len == 1 {
            let first = lower(answer.get_char(start));
            assert(word[0] == answer@[start as int]);
            if first == 'y' {
                assert(spells(word, seq!['y']));
                return Some(Mode::Palette);
            }
            if first == 'n' {
                assert(spells(word, seq!['n']));
                assert(!spells(word, seq!['y'])) by {
                    assert(lowered(word[0]) == 'n');
                }
                return Some(Mode::Image);
            }
            assert(!spells(word, seq!['y']) && !spells(word, seq!['n'])) by {
                assert(lowered(word[0]) != 'y' && lowered(word[0]) != 'n');
            }
            None
        } else if len == 2 {
            let first = lower(answer.get_char(start));
            let second = lower(answer.get_char(start + 1));
            assert(word[0] == answer@[start as int]);
            assert(word[1] == answer@[start + 1]);
            if first == 'n' && second == 'o' {
                assert(spells(word, seq!['n', 'o']));
                return Some(Mode::Image);
            }
            assert(!spells(word, seq!['n', 'o'])) by {
                assert(lowered(word[0]) != 'n' || lowered(word[1]) != 'o');
            }
            None
        } else if len == 3 {
            let first = lower(answer.get_char(start));
            let second = lower(answer.get_char(start + 1));
            let third = lower(answer.get_char(start + 2));
            assert(word[0] == answer@[start as int]);
            assert(word[1] == answer@[start + 1]);
            assert(word[2] == answer@[start + 2]);
            if first == 'y' && second == 'e' && third == 's' {
                assert(spells(word, seq!['y', 'e', 's']));
                return Some(Mode::Palette);
            }
            assert(!spells(word, seq!['y', 'e', 's'])) by {
                assert(lowered(word[0]) != 'y' || lowered(word[1]) != 'e' || lowered(word[2])
                    != 's');
            }
            None
        } else {
            None
        }
    }
}

/// The text of a line without the white space around it.
pub fn trim(line: &str) -> (text: &str)
    ensures
        text@ == trimmed(line@),
{
    let (start, end) = trim_bounds(line);
    line.substring_char(start, end)
}

/// Removes the line feeds from a line that was read.
pub fn strip_line_feeds(line: &str) -> (bare: String)
    ensures
        bare@ == without_line_feeds(line@),
{
    let n = line.unicode_len();
    let mut bare = String::new();
    let mut i: usize = 0;
    assert(line@.take(0) =~= Seq::<char>::empty());
    while i < n
        invariant
            i <= n,
            n == line@.len(),
            bare@ == without_line_feeds(line@.take(i as int)),
        decreases n - i,
    {
        assert(line@.take(i + 1).drop_last() =~= line@.take(i as int));
        if line.get_char(i) != '\n' {
            let one = line.substring_char(i, i + 1);
            assert(one@ =~= seq![line@[i as int]]);
            bare.append(one);
            assert(bare@ =~= without_line_feeds(line@.take(i as int)).push(line@[i as int]));
        }
        i = i + 1;
    }
    assert(line@.take(n as int) =~= line@);
    bare
}

/// The message that tells the user that an answer was not taken.
pub fn refusal_message(line: &str) -> (message: String)
    ensures
        message@ == refusal(line@),
{
    let (start, end) = trim_bounds(line);
    let mut message = String::from_str("invalid input \"");
    message.append(line.substring_char(start, end));
    message.append("\" please try again \n");
    message
}

impl Prompt {
    /// Decides whether an answer is taken or the question is asked again.
    /// For a path the caller says whether the file exists.
    pub fn accepts(&self, line: &str, path_exists: bool) -> (taken: bool)
        ensures
            taken == accepted(*self, line@, path_exists),
    {
        match self {
            Prompt::Path => path_exists,
            Prompt::Safe => true,
            Prompt::Num => parse_count(line).is_some(),
            Prompt::Mode => Mode::parse(line).is_some(),
        }
    }

    /// What to do with a line that was read in answer to the question: take
    /// it, without its line feeds, or tell the user that it was not taken and
    /// ask again. For a path the caller says whether the file exists.
    pub fn reply(&self, line: &str, path_exists: bool) -> (reply: Reply)
        ensures
            match reply {
                Reply::Taken(answer) => accepted(*self, line@, path_exists) && answer@
                    == without_line_feeds(line@),
                Reply::Refused(message) => !accepted(*self, line@, path_exists) && message@
                    == refusal(line@),
            },
    {
        if self.accepts(line, path_exists) {
            Reply::Taken(strip_line_feeds(line))
        } else {
            Reply::Refused(refusal_message(line))
        }
    }
}

impl Options {
    /// The parameters of a run from the answers to the five questions: the
    /// two paths as they are, the cluster count, the iteration count and the
    /// mode read from their answers.
    ///
    /// The answers are refused with `InvalidParameter` where the cluster
    /// count or the iteration count names no number, the cluster count is
    /// zero, or the mode is neither yes nor no.
    pub fn new(
        input_path: String,
        output_path: String,
        k: &str,
        iterations: &str,
        mode: &str,
    ) -> (options: Result<Options, Error>)
        ensures
            match options {
                Ok(o) => {
                    &&& o.input_path == input_path
                    &&& o.output_path == output_path
                    &&& parse_number(k@) == Some(o.k)
                    &&& o.k > 0
                    &&& parse_number(iterations@) == Some(o.iterations)
                    &&& parse_mode(mode@) == Some(o.mode)
                },
                Err(e) => {
                    &&& e == Error::InvalidParameter
                    &&& (parse_number(k@) is None || parse_number(k@) == Some(0usize)
                        || parse_number(iterations@) is None || parse_mode(mode@) is None)
                },
            },
    {
        let k = match parse_count(k) {
            Some(k) => k,
            None => {
                return Err(Error::InvalidParameter);
            },
        };
        if k == 0 {
            return Err(Error::InvalidParameter);
        }
        let iterations = match parse_count(iterations) {
            Some(iterations) => iterations,
            None => {
                return Err(Error::InvalidParameter);
            },
        };
        let mode = match Mode::parse(mode) {
            Some(mode) => mode,
            None => {
                return Err(Error::InvalidParameter);
            },
        };
        Ok(Options { input_path, output_path, k, iterations, mode })
    }
}

} // verus!
