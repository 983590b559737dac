//! The text form of a list of error messages.
//!
//! Every message gets a block of its own, labelled with its position and the
//! number of messages; a blank line stands between two blocks.

use vstd::prelude::*;
use vstd::utf8::encode_utf8;

verus! {

/// Whether `c` is white space: the characters with Unicode's property
/// `White_Space`, line breaks among them.
pub open spec fn is_white_space(c: char) -> bool {
    let code: u32 = c as u32;
    ||| 0x09 <= code <= 0x0D
    ||| code == 0x20
    ||| code == 0x85
    ||| code == 0xA0
    ||| code == 0x1680
    ||| 0x2000 <= code <= 0x200A
    ||| code == 0x2028
    ||| code == 0x2029
    ||| code == 0x202F
    ||| code == 0x205F
    ||| code == 0x3000
}

/// `text` without the white space at its end.
pub open spec fn trimmed(text: Seq<char>) -> Seq<char>
    decreases text.len(),
{
    if text.len() > 0 && is_white_space(text.last()) {
        trimmed(text.drop_last())
    } else {
        text
    }
}

/// The character that writes the digit `d`.
pub open spec fn digit(d: nat) -> char {
    if d == 0 {
        '0'
    } else if d == 1 {
        '1'
    } else if d == 2 {
        '2'
    } else if d == 3 {
        '3'
    } else if d == 4 {
        '4'
    } else if d == 5 {
        '5'
    } else if d == 6 {
        '6'
    } else if d == 7 {
        '7'
    } else if d == 8 {
        '8'
    } else {
        '9'
    }
}

/// `n` written in decimal, without leading zeros.
pub open spec fn decimal(n: nat) -> Seq<char>
    decreases n,
{
    if n < 10 {
        seq![digit(n)]
    } else {
        decimal(n / 10).push(digit(n % 10))
    }
}

/// The block of the message at `index` among `total`: its label, the message
/// without the white space at its end, and a line break.
pub open spec fn block(index: int, total: nat, message: Seq<char>) -> Seq<char> {
    "[error "@ + decimal((index + 1) as nat) + " of "@ + decimal(total) + "] "@ + trimmed(message)
        + "\n"@
}

/// What follows the block at `index` among `total`: a blank line, unless the
/// block is the last one.
pub open spec fn separator(index: int, total: nat) -> Seq<char> {
    if index + 1 < total {
        "\n"@
    } else {
        Seq::empty()
    }
}

/// The text of a list of messages: their blocks in order, with a blank line
/// between two of them.
pub open spec fn rendering(messages: Seq<Seq<char>>) -> Seq<char> {
    messages.map(
        |index: int, message: Seq<char>|
            block(index, messages.len(), message) + separator(index, messages.len()),
    ).flatten()
}

/// The characters of each of `messages`.
pub open spec fn texts(messages: Seq<String>) -> Seq<Seq<char>> {
    messages.map_values(|message: String| message@)
}

/// Whether `c` is white space.
pub fn white_space(c: char) -> (yes: bool)
    ensures
        yes == is_white_space(c),
{
    let code: u32 = c as u32;
    (0x09 <= code && code <= 0x0D) || code == 0x20 || code == 0x85 || code == 0xA0 || code
        == 0x1680 || (0x2000 <= code && code <= 0x200A) || code == 0x2028 || code == 0x2029 || code
        == 0x202F || code == 0x205F || code == 0x3000
}

/// Cutting `text` after its last character that is no white space trims it.
proof fn lemma_trimmed_is_prefix(text: Seq<char>, end: int)
    requires
        0 <= end <= text.len(),
        forall|k: int| end <= k < text.len() ==> is_white_space(text[k]),
        end > 0 ==> !is_white_space(text[end - 1]),
    ensures
        trimmed(text) == text.take(end),
    decreases text.len(),
{
    if end == text.len() {
        assert(text.take(end) =~= text);
    } else {
        lemma_trimmed_is_prefix(text.drop_last(), end);
        assert(text.drop_last().take(end) =~= text.take(end));
    }
}

/// A text has at most as many characters as its encoding has bytes.
proof fn lemma_characters_fit_in_bytes(text: Seq<char>)
    ensures
        text.len() <= encode_utf8(text).len(),
    decreases text.len(),
{
    if text.len() > 0 {
        lemma_characters_fit_in_bytes(text.drop_first());
    }
}

/// `text` without the white space at its end.
pub fn trim_end<'a>(text: &'a str) -> (kept: &'a str)
    ensures
        kept@ == trimmed(text@),
{
    let length = text.as_bytes().len();
    proof {
        lemma_characters_fit_in_bytes(text@);
    }
    let mut end: usize = 0;
    let mut seen: usize = 0;
    for c in chars: text.chars()
        invariant
            chars.seq() == text@,
            text@.len() <= length,
            seen == chars.index(),
            end <= seen,
            forall|k: int| end <= k < seen ==> is_white_space(text@[k]),
            end > 0 ==> !is_white_space(text@[end - 1]),
    {
        seen = seen + 1;
        if !white_space(c) {
            end = seen;
        }
    }
    proof {
        lemma_trimmed_is_prefix(text@, end as int);
    }
    text.substring_char(0, end)
}

/// The text of one digit.
fn digit_str(d: usize) -> (text: &'static str)
    requires
        d < 10,
    ensures
        text@ == seq![digit(d as nat)],
{
    proof {
        reveal_strlit("0");
        reveal_strlit("1");
        reveal_strlit("2");
        reveal_strlit("3");
        reveal_strlit("4");
        reveal_strlit("5");
        reveal_strlit("6");
        reveal_strlit("7");
        reveal_strlit("8");
        reveal_strlit("9");
    }
    let text = if d == 0 {
        "0"
    } else if d == 1 {
        "1"
    } else if d == 2 {
        "2"
    } else if d == 3 {
        "3"
    } else if d == 4 {
        "4"
    } else if d == 5 {
        "5"
    } else if d == 6 {
        "6"
    } else if d == 7 {
        "7"
    } else if d == 8 {
        "8"
    } else {
        "9"
    };
    assert(text@ =~= seq![digit(d as nat)]);
    text
}

/// `n` written in decimal, without leading zeros.
pub fn decimal_string(n: usize) -> (digits: String)
    ensures
        digits@ == decimal(n as nat),
    decreases n,
{
    if n < 10 {
        digit_str(n).to_owned()
    } else {
        let mut digits = decimal_string(n / 10);
        digits.append(digit_str(n % 10));
        digits
    }
}

/// The text of `messages`: one block for each, labelled `[error K of N]`, and
/// a blank line between two blocks.
pub fn render_messages(messages: &Vec<String>) -> (text: String)
    ensures
        text@ == rendering(texts(messages@)),
{
    let total = messages.len();
    let of_total = decimal_string(total);
    let mut text = String::new();
    let ghost pieces = texts(messages@).map(
        |index: int, message: Seq<char>|
            block(index, total as nat, message) + separator(index, total as nat),
    );
    let mut index: usize = 0;
    while index < total
        invariant
            total == messages.len(),
            of_total@ == decimal(total as nat),
            index <= total,
            pieces.len() == total,
            forall|k: int|
                0 <= k < total ==> #[trigger] pieces[k] == block(k, total as nat, messages@[k]@)
                    + separator(k, total as nat),
            text@ == pieces.take(index as int).flatten(),
        decreases total - index,
    {
        let position = decimal_string(index + 1);
        text.append("[error ");
        text.append(position.as_str());
        text.append(" of ");
        text.append(of_total.as_str());
        text.append("] ");
        text.append(trim_end(messages[index].as_str()));
        text.append("\n");
        if index + 1 < total {
            text.append("\n");
        }
        proof {
            let before = pieces.take(index as int);
            assert(pieces.take(index + 1) =~= before.push(pieces[index as int]));
            before.lemma_flatten_push(pieces[index as int]);
        }
        index = index + 1;
    }
    assert(pieces.take(total as int) =~= pieces);
    text
}

} // verus!
