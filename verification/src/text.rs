//! Building of the texts that show a grid and the deductions to a reader.

use vstd::prelude::*;
use vstd::string::StringExecFns;

verus! {

/// `code` is the number of a character: a Unicode scalar value.
pub open spec fn is_scalar(code: u32) -> bool {
    code <= 0xD7FF || 0xE000 <= code <= 0x10FFFF
}

/// `String::push` of the standard library appends one character to a string.
pub assume_specification[ String::push ](text: &mut String, ch: char)
    ensures
        final(text)@ == old(text)@.push(ch),
;

/// `char::from_u32` of the standard library gives the character whose number
/// is `i`, if `i` is the number of a character.
pub assume_specification[ char::from_u32 ](i: u32) -> (result: Option<char>)
    ensures
        result == if is_scalar(i) {
            Some(i as char)
        } else {
            None::<char>
        },
;

/// The character that writes the digit `digit`.
pub open spec fn digit_char(digit: nat) -> char {
    ('0' as u32 + digit) as char
}

/// `n` written in base ten.
pub open spec fn decimal(n: nat) -> Seq<char>
    decreases n,
{
    if n < 10 {
        seq![digit_char(n)]
    } else {
        decimal(n / 10).push(digit_char(n % 10))
    }
}

/// Number of spaces that bring a text of `len` characters to `width` characters.
pub open spec fn padding(len: nat, width: nat) -> nat {
    if len < width {
        (width - len) as nat
    } else {
        0
    }
}

/// `text`, with spaces before it if it has fewer than `width` characters.
pub open spec fn padded_left(text: Seq<char>, width: nat) -> Seq<char> {
    Seq::new(padding(text.len(), width), |i: int| ' ') + text
}

/// `text`, with spaces after it if it has fewer than `width` characters.
pub open spec fn padded_right(text: Seq<char>, width: nat) -> Seq<char> {
    text + Seq::new(padding(text.len(), width), |i: int| ' ')
}

/// Appends to `text` the number `n` written in base ten.
pub fn push_decimal(text: &mut String, n: u128)
    ensures
        final(text)@ == old(text)@ + decimal(n as nat),
    decreases n,
{
    if n >= 10 {
        push_decimal(text, n / 10);
    }
    let digit = (n % 10) as u32;
    let ch = match char::from_u32(48 + digit) {
        Some(ch) => ch,
        None => '0',
    };
    text.push(ch);
    proof {
        assert('0' as u32 == 48);
        if n < 10 {
            assert(old(text)@.push(ch) =~= old(text)@ + decimal(n as nat));
        } else {
            assert((old(text)@ + decimal((n / 10) as nat)).push(ch) =~= old(text)@ + decimal(
                n as nat,
            ));
        }
    }
}

/// Appends to `text` as many spaces as `count`.
pub fn push_spaces(text: &mut String, count: usize)
    ensures
        final(text)@ == old(text)@ + Seq::new(count as nat, |i: int| ' '),
{
    let mut i: usize = 0;
    proof {
        assert(text@ =~= old(text)@ + Seq::new(0, |i: int| ' '));
    }
    while i < count
        invariant
            i <= count,
            text@ == old(text)@ + Seq::new(i as nat, |i: int| ' '),
        decreases count - i,
    {
        text.push(' ');
        proof {
            assert(text@ =~= old(text)@ + Seq::new((i + 1) as nat, |i: int| ' '));
        }
        i += 1;
    }
}

/// Appends `part` to `text`, with spaces before it if it has fewer than
/// `width` characters.
pub fn push_padded_left(text: &mut String, part: &String, width: usize)
    ensures
        final(text)@ == old(text)@ + padded_left(part@, width as nat),
{
    let len = part.as_str().unicode_len();
    if len < width {
        push_spaces(text, width - len);
    } else {
        proof {
            assert(text@ =~= old(text)@ + Seq::new(0, |i: int| ' '));
        }
    }
    text.append(part.as_str());
    proof {
        assert(text@ =~= old(text)@ + padded_left(part@, width as nat));
    }
}

/// Appends `part` to `text`, with spaces after it if it has fewer than
/// `width` characters.
pub fn push_padded_right(text: &mut String, part: &String, width: usize)
    ensures
        final(text)@ == old(text)@ + padded_right(part@, width as nat),
{
    let len = part.as_str().unicode_len();
    text.append(part.as_str());
    if len < width {
        push_spaces(text, width - len);
    }
    proof {
        assert(text@ =~= old(text)@ + padded_right(part@, width as nat));
    }
}

/// The text of one line feed holds that one character.
pub proof fn lemma_line_feed()
    ensures
        "\n"@ == seq!['\n'],
{
    reveal_strlit("\n");
    assert("\n"@ =~= seq!['\n']);
}

} // verus!
