//! Numbers, durations and running text written for display.

use vstd::prelude::*;
use vstd::std_specs::iter::IteratorSpec;
use vstd::string::*;
use vstd::utf8::*;

verus! {

/// The character that stands for the digit `d`.
pub open spec fn digit_char(d: int) -> char {
    ((48 + d) as u8) as char
}

/// The decimal digits of `n`, most significant first, without leading zeros.
pub open spec fn natural_text(n: nat) -> Seq<char>
    decreases n,
{
    if n < 10 {
        seq![digit_char(n as int)]
    } else {
        natural_text(n / 10).push(digit_char((n % 10) as int))
    }
}

/// `n` in decimal: its digits, after a minus sign where it is negative.
pub open spec fn decimal_text(n: int) -> Seq<char> {
    if n < 0 {
        seq!['-'] + natural_text((-n) as nat)
    } else {
        natural_text(n as nat)
    }
}

/// The first `k` characters of `text`, with a comma before each character
/// but the first from which the number of characters to the end of the text
/// is a multiple of three.
pub open spec fn commas_upto(text: Seq<char>, k: nat) -> Seq<char>
    decreases k,
{
    if k == 0 {
        Seq::empty()
    } else {
        let i = k - 1;
        let before = commas_upto(text, i as nat);
        if (text.len() - i) % 3 == 0 && i != 0 {
            before.push(',').push(text[i])
        } else {
            before.push(text[i])
        }
    }
}

/// `text` with a comma before each character but the first from which the
/// number of characters to the end is a multiple of three. The characters
/// of a number are so parted into groups of three from the right; a sign
/// counts as one of the characters.
pub open spec fn with_commas(text: Seq<char>) -> Seq<char> {
    commas_upto(text, text.len())
}

/// A duration of `seconds` seconds as it is shown: in hours, rounded to the
/// nearest, from three hours on; in hours and minutes from one hour on; in
/// minutes from one minute on; in seconds below that.
pub open spec fn duration_text(seconds: int) -> Seq<char> {
    if seconds >= 3 * 60 * 60 {
        decimal_text((30 * 60 + seconds) / 3600) + "h"@
    } else if seconds >= 3600 {
        decimal_text(seconds / 3600) + "h "@ + decimal_text((seconds % 3600) / 60) + "m"@
    } else if seconds >= 60 {
        decimal_text(seconds / 60) + "m"@
    } else {
        decimal_text(seconds) + "s"@
    }
}

/// The characters of `n` in decimal.
pub fn decimal(n: i64) -> (text: Vec<char>)
    ensures
        text@ == decimal_text(n as int),
{
    let mut rest: u64 = if n < 0 {
        (-(n as i128)) as u64
    } else {
        n as u64
    };
    let ghost size: nat = rest as nat;
    let mut low: Vec<char> = Vec::new();
    while rest >= 10
        invariant
            natural_text(size) == natural_text(rest as nat) + low@.reverse(),
        decreases rest,
    {
        let ghost before = low@;
        let digit = (48 + (rest % 10) as u8) as char;
        low.push(digit);
        proof {
            assert(low@.reverse() =~= seq![digit] + before.reverse());
            assert(natural_text(rest as nat) == natural_text((rest / 10) as nat).push(digit));
            assert(natural_text((rest / 10) as nat).push(digit) + before.reverse()
                =~= natural_text((rest / 10) as nat) + (seq![digit] + before.reverse()));
        }
        rest = rest / 10;
    }
    let mut text: Vec<char> = Vec::new();
    if n < 0 {
        text.push('-');
    }
    text.push((48 + rest as u8) as char);
    let ghost head = text@;
    let mut i: usize = low.len();
    while i > 0
        invariant
            i <= low@.len(),
            text@ == head + low@.reverse().take(low@.len() - i),
        decreases i,
    {
        i -= 1;
        text.push(low[i]);
        proof {
            let turned = low@.reverse();
            let k = low@.len() - i - 1;
            assert(turned[k] == low@[i as int]);
            assert(turned.take(k + 1) =~= turned.take(k).push(turned[k]));
            assert(text@ =~= head + turned.take(k + 1));
        }
    }
    proof {
        assert(low@.reverse().take(low@.len() as int) =~= low@.reverse());
        assert(natural_text(rest as nat) =~= seq![digit_char(rest as int)]);
        if n < 0 {
            assert(head =~= seq!['-'] + natural_text(rest as nat));
            assert(text@ =~= seq!['-'] + (natural_text(rest as nat) + low@.reverse()));
        } else {
            assert(head =~= natural_text(rest as nat));
        }
    }
    text
}

/// Appends the characters of `n` in decimal to `text`.
fn push_decimal(text: &mut String, n: i64)
    ensures
        final(text)@ == old(text)@ + decimal_text(n as int),
{
    let digits = decimal(n);
    let mut i: usize = 0;
    while i < digits.len()
        invariant
            i <= digits@.len(),
            text@ == old(text)@ + digits@.take(i as int),
        decreases digits@.len() - i,
    {
        text.push(digits[i]);
        proof {
            assert(digits@.take(i + 1) =~= digits@.take(i as int).push(digits@[i as int]));
            assert(text@ =~= old(text)@ + digits@.take(i + 1));
        }
        i += 1;
    }
    proof {
        assert(digits@.take(digits@.len() as int) =~= digits@);
    }
}

/// Writes `n` in decimal, its characters parted into groups of three from
/// the right by commas.
pub fn format_with_commas(n: i64) -> (text: String)
    ensures
        text@ == with_commas(decimal_text(n as int)),
{
    let digits = decimal(n);
    let mut text = String::new();
    let length = digits.len();
    let mut i: usize = 0;
    while i < length
        invariant
            i <= length,
            length == digits@.len(),
            text@ == commas_upto(digits@, i as nat),
        decreases length - i,
    {
        if (length - i) % 3 == 0 && i != 0 {
            text.push(',');
        }
        text.push(digits[i]);
        i += 1;
    }
    text
}

/// Writes a duration of `seconds` seconds as it is shown.
pub fn format_duration(seconds: i64) -> (text: String)
    ensures
        text@ == duration_text(seconds as int),
{
    let mut text = String::new();
    if seconds >= 3 * 60 * 60 {
        let hours = ((30 * 60 + seconds as i128) / 3600) as i64;
        push_decimal(&mut text, hours);
        text.push('h');
        proof {
            reveal_strlit("h");
            assert(text@ =~= decimal_text(hours as int) + "h"@);
        }
    } else if seconds >= 3600 {
        let hours = seconds / 3600;
        let minutes = (seconds % 3600) / 60;
        push_decimal(&mut text, hours);
        text.push('h');
        text.push(' ');
        push_decimal(&mut text, minutes);
        text.push('m');
        proof {
            reveal_strlit("h ");
            reveal_strlit("m");
            assert(text@ =~= decimal_text(hours as int) + "h "@ + decimal_text(minutes as int)
                + "m"@);
        }
    } else if seconds >= 60 {
        let minutes = seconds / 60;
        push_decimal(&mut text, minutes);
        text.push('m');
        proof {
            reveal_strlit("m");
            assert(text@ =~= decimal_text(minutes as int) + "m"@);
        }
    } else {
        push_decimal(&mut text, seconds);
        text.push('s');
        proof {
            reveal_strlit("s");
            assert(text@ =~= decimal_text(seconds as int) + "s"@);
        }
    }
    text
}

/// The longest line of justified text, in bytes, unless one word is longer.
pub const LINE_WIDTH: usize = 80;

/// White space: the characters with the property `White_Space` of Unicode.
pub open spec fn is_space(c: char) -> bool {
    let u = c as u32;
    ||| 0x09 <= u <= 0x0D
    ||| u == 0x20
    ||| u == 0x85
    ||| u == 0xA0
    ||| u == 0x1680
    ||| 0x2000 <= u <= 0x200A
    ||| u == 0x2028
    ||| u == 0x2029
    ||| u == 0x202F
    ||| u == 0x205F
    ||| u == 0x3000
}

/// The words of a text: its longest runs of characters that are not white
/// space, in their order.
pub open spec fn words_of(text: Seq<char>) -> Seq<Seq<char>>
    decreases text.len(),
{
    if text.len() == 0 {
        Seq::empty()
    } else {
        let before = words_of(text.drop_last());
        let c = text.last();
        if is_space(c) {
            before
        } else if text.len() >= 2 && !is_space(text[text.len() - 2]) {
            before.drop_last().push(before.last().push(c))
        } else {
            before.push(seq![c])
        }
    }
}

/// The length of a word in bytes.
pub open spec fn width_of(word: Seq<char>) -> int {
    encode_utf8(word).len() as int
}

/// A text and the length of its last line, after `word` was set at its end:
/// on a new line where the last line would grow beyond `LINE_WIDTH` bytes,
/// else after a space, or at once where the last line is empty.
pub open spec fn placed(lines: (Seq<char>, int), word: Seq<char>) -> (Seq<char>, int) {
    if lines.1 + width_of(word) + 1 > LINE_WIDTH {
        (lines.0.push('\n') + word, width_of(word))
    } else if lines.1 > 0 {
        (lines.0.push(' ') + word, lines.1 + 1 + width_of(word))
    } else {
        (lines.0 + word, width_of(word))
    }
}

/// The text that the words make when they are set one after another, and
/// the length of its last line.
pub open spec fn set_in_lines(words: Seq<Seq<char>>) -> (Seq<char>, int)
    decreases words.len(),
{
    if words.len() == 0 {
        (Seq::empty(), 0)
    } else {
        placed(set_in_lines(words.drop_last()), words.last())
    }
}

/// A text justified: its words set in lines of at most `LINE_WIDTH` bytes,
/// with one space between the words of a line.
pub open spec fn justified(text: Seq<char>) -> Seq<char> {
    set_in_lines(words_of(text)).0
}

/// Whether a character is white space.
pub fn is_white_space(c: char) -> (space: bool)
    ensures
        space == is_space(c),
{
    let u = c as u32;
    (0x09 <= u && u <= 0x0D) || u == 0x20 || u == 0x85 || u == 0xA0 || u == 0x1680 || (0x2000 <= u
        && u <= 0x200A) || u == 0x2028 || u == 0x2029 || u == 0x202F || u == 0x205F || u == 0x3000
}

/// Sets `word` at the end of `text`, whose last line is `line` bytes long.
fn place(text: &mut String, line: &mut usize, word: &str)
    ensures
        (final(text)@, *final(line) as int) == placed((old(text)@, *old(line) as int), word@),
{
    let width = word.as_bytes().len();
    if width >= LINE_WIDTH || *line >= LINE_WIDTH - width {
        text.push('\n');
        text.append(word);
        *line = width;
    } else if *line > 0 {
        text.push(' ');
        text.append(word);
        *line = *line + 1 + width;
    } else {
        text.append(word);
        *line = width;
    }
}

/// Justifies a text so that no line is longer than `LINE_WIDTH` bytes,
/// unless one word is: the words are set one after another, with a space
/// between them, and a line is broken before the word that would make it too
/// long.
pub fn justify_string(s: &str) -> (text: String)
    ensures
        text@ == justified(s@),
{
    let mut text = String::new();
    let mut line: usize = 0;
    let mut word = String::new();
    let mut open = false;
    let mut rest = s.chars();
    let ghost mut done: Seq<char> = Seq::empty();
    proof {
        broadcast use vstd::string::group_string_axioms;
        assert(s@ =~= done + rest.remaining());
    }
    loop
        invariant
            s@ == done + rest.remaining(),
            rest.decrease() is Some,
            open == (done.len() > 0 && !is_space(done.last())),
            open ==> words_of(done).len() > 0 && words_of(done).last() == word@ && (
                text@,
                line as int,
            ) == set_in_lines(words_of(done).drop_last()),
            !open ==> (text@, line as int) == set_in_lines(words_of(done)) && word@.len() == 0,
        decreases rest.decrease()->0,
    {
        let ghost before = rest.remaining();
        let c = match rest.next() {
            Some(c) => c,
            None => {
                proof {
                    broadcast use vstd::string::group_string_axioms;
                    assert(done =~= s@);
                }
                if open {
                    place(&mut text, &mut line, word.as_str());
                }
                return text;
            },
        };
        proof {
            broadcast use vstd::string::group_string_axioms;
            assert(before.len() > 0);
            assert(done.push(c) + rest.remaining() =~= done + before);
            assert(done.push(c).drop_last() =~= done);
        }
        let ghost words = words_of(done);
        if is_white_space(c) {
            if open {
                place(&mut text, &mut line, word.as_str());
                word = String::new();
                open = false;
            }
        } else {
            word.push(c);
            proof {
                if open {
                    assert(words.drop_last().push(words.last().push(c)).drop_last()
                        =~= words.drop_last());
                } else {
                    assert(word@ =~= seq![c]);
                    assert(words.push(seq![c]).drop_last() =~= words);
                }
            }
            open = true;
        }
        proof {
            done = done.push(c);
        }
    }
}

} // verus!
