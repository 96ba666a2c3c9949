use vstd::prelude::*;
use vstd::string::StringExecFns;

verus! {

/// The character that writes a single decimal digit.
pub open spec fn digit_char(d: nat) -> char
    recommends
        d < 10,
{
    if d == 0 {
        '0'
    } else if d == 1 {
        '1'
    } else if d == 2 {
        '2'
    } else if d == 3 {
        '3'
    } else if d == 4 {
        '4'
    } else if d == 5 {
        '5'
    } else if d == 6 {
        '6'
    } else if d == 7 {
        '7'
    } else if d == 8 {
        '8'
    } else {
        '9'
    }
}

/// The decimal numeral of `n`, most significant digit first, without
/// leading zeros (`0` is written "0").
pub open spec fn decimal_digits(n: nat) -> Seq<char>
    decreases n,
{
    if n < 10 {
        seq![digit_char(n)]
    } else {
        decimal_digits(n / 10).push(digit_char(n % 10))
    }
}

/// The decimal numeral of `n`, padded with one leading zero when it has a
/// single digit.
pub open spec fn two_digits(n: nat) -> Seq<char> {
    if n < 10 {
        seq!['0', digit_char(n)]
    } else {
        decimal_digits(n)
    }
}

fn digit_text(d: u64) -> (text: &'static str)
    requires
        d < 10,
    ensures
        text@ == seq![digit_char(d as nat)],
{
    proof {
        reveal_strlit("0");
        reveal_strlit("1");
        reveal_strlit("2");
        reveal_strlit("3");
        reveal_strlit("4");
        reveal_strlit("5");
        reveal_strlit("6");
        reveal_strlit("7");
        reveal_strlit("8");
        reveal_strlit("9");
    }
    let text = if d == 0 {
        "0"
    } else if d == 1 {
        "1"
    } else if d == 2 {
        "2"
    } else if d == 3 {
        "3"
    } else if d == 4 {
        "4"
    } else if d == 5 {
        "5"
    } else if d == 6 {
        "6"
    } else if d == 7 {
        "7"
    } else if d == 8 {
        "8"
    } else {
        "9"
    };
    assert(text@ =~= seq![digit_char(d as nat)]);
    text
}

/// Appends the decimal numeral of `n` to `out`.
pub fn push_decimal(out: &mut String, n: u64)
    ensures
        final(out)@ == old(out)@ + decimal_digits(n as nat),
    decreases n,
{
    if n < 10 {
        out.append(digit_text(n));
    } else {
        push_decimal(out, n / 10);
        out.append(digit_text(n % 10));
        assert(final(out)@ =~= old(out)@ + decimal_digits(n as nat));
    }
}

/// Appends `n` as `{:02}` would print it: at least two digits.
pub fn push_two_digits(out: &mut String, n: u64)
    ensures
        final(out)@ == old(out)@ + two_digits(n as nat),
{
    if n < 10 {
        out.append(digit_text(0));
        out.append(digit_text(n));
        assert(final(out)@ =~= old(out)@ + two_digits(n as nat));
    } else {
        push_decimal(out, n);
    }
}

/// The decimal numeral of `n` as a fresh string.
pub fn decimal_string(n: u64) -> (text: String)
    ensures
        text@ == decimal_digits(n as nat),
{
    let mut text = String::new();
    push_decimal(&mut text, n);
    assert(text@ =~= decimal_digits(n as nat));
    text
}


/// `String::push`: the character is added at the end.
#[verifier::external_body]
pub(crate) fn push_char(text: &mut String, c: char)
    ensures
        final(text)@ == old(text)@.push(c),
{
    text.push(c)
}

/// The characters of a text, in order.
pub fn chars_of(text: &str) -> (chars: Vec<char>)
    ensures
        chars@ == text@,
{
    let mut chars: Vec<char> = Vec::new();
    for c in it: text.chars()
        invariant
            it.seq() == text@,
            chars@ == text@.take(it.index()),
    {
        chars.push(c);
        assert(chars@ =~= text@.take(it.index() + 1));
    }
    assert(text@.take(text@.len() as int) =~= text@);
    chars
}

/// The text that consists of the characters given, in order.
pub fn text_of(chars: &[char]) -> (text: String)
    ensures
        text@ == chars@,
{
    let mut text = String::new();
    let mut i: usize = 0;
    while i < chars.len()
        invariant
            i <= chars@.len(),
            text@ == chars@.take(i as int),
        decreases chars@.len() - i,
    {
        push_char(&mut text, chars[i]);
        assert(text@ =~= chars@.take(i + 1));
        i += 1;
    }
    assert(chars@.take(i as int) =~= chars@);
    text
}


/// White space as `char::is_whitespace` has it: the characters that
/// Unicode lists as `White_Space`.
pub open spec fn is_space(c: char) -> bool {
    let n = c as u32;
    (0x09 <= n <= 0x0D) || n == 0x20 || n == 0x85 || n == 0xA0 || n == 0x1680 || (0x2000 <= n
        <= 0x200A) || n == 0x2028 || n == 0x2029 || n == 0x202F || n == 0x205F || n == 0x3000
}

/// White space as `char::is_ascii_whitespace` has it: space, tab, line
/// feed, form feed and carriage return.
pub open spec fn is_ascii_space(c: char) -> bool {
    c == ' ' || c == '\t' || c == '\n' || c == '\x0C' || c == '\r'
}

/// A letter of the ASCII alphabet or an ASCII digit.
pub open spec fn is_ascii_alnum(c: char) -> bool {
    ('0' <= c <= '9') || ('a' <= c <= 'z') || ('A' <= c <= 'Z')
}

/// The lower-case form of an ASCII capital; any other character as it is.
pub open spec fn lower_ascii(c: char) -> char {
    if 'A' <= c <= 'Z' {
        ((c as u8) + 32) as char
    } else {
        c
    }
}

/// The text with every ASCII capital in lower case.
pub open spec fn lowered(text: Seq<char>) -> Seq<char> {
    text.map_values(|c: char| lower_ascii(c))
}

/// The kinds of character that can be stripped off the ends of a text.
#[derive(Clone, Copy, Debug, PartialEq, Eq, Structural)]
pub enum CharClass {
    /// White space.
    Space,
    /// The hyphen.
    Dash,
}

/// Whether a character is of a class.
pub open spec fn in_class(class: CharClass, c: char) -> bool {
    match class {
        CharClass::Space => is_space(c),
        CharClass::Dash => c == '-',
    }
}

/// The number of characters of the class at the front of the text.
pub open spec fn leading_run(text: Seq<char>, class: CharClass) -> nat
    decreases text.len(),
{
    if text.len() > 0 && in_class(class, text[0]) {
        1 + leading_run(text.drop_first(), class)
    } else {
        0
    }
}

/// The number of characters of the class at the end of the text.
pub open spec fn trailing_run(text: Seq<char>, class: CharClass) -> nat
    decreases text.len(),
{
    if text.len() > 0 && in_class(class, text.last()) {
        1 + trailing_run(text.drop_last(), class)
    } else {
        0
    }
}

/// The text without the characters of the class at its front and at its
/// end.
pub open spec fn stripped(text: Seq<char>, class: CharClass) -> Seq<char> {
    let rest = text.skip(leading_run(text, class) as int);
    rest.take(rest.len() - trailing_run(rest, class))
}

/// The text without the white space at its front and at its end.
pub open spec fn trimmed(text: Seq<char>) -> Seq<char> {
    stripped(text, CharClass::Space)
}

/// The run at the front ends where the first character of another kind
/// stands.
pub proof fn lemma_leading_run(text: Seq<char>, class: CharClass, count: int)
    requires
        0 <= count <= text.len(),
        forall|i: int| 0 <= i < count ==> in_class(class, #[trigger] text[i]),
        count < text.len() ==> !in_class(class, text[count]),
    ensures
        leading_run(text, class) == count,
    decreases count,
{
    if count > 0 {
        let rest = text.drop_first();
        assert forall|i: int| 0 <= i < count - 1 implies in_class(class, #[trigger] rest[i]) by {
            assert(rest[i] == text[i + 1]);
        }
        if count - 1 < rest.len() {
            assert(rest[count - 1] == text[count]);
        }
        lemma_leading_run(rest, class, count - 1);
    }
}

/// The run at the end begins behind the last character of another kind.
pub proof fn lemma_trailing_run(text: Seq<char>, class: CharClass, count: int)
    requires
        0 <= count <= text.len(),
        forall|i: int|
            text.len() - count <= i < text.len() ==> in_class(class, #[trigger] text[i]),
        count < text.len() ==> !in_class(class, text[text.len() - count - 1]),
    ensures
        trailing_run(text, class) == count,
    decreases count,
{
    if count > 0 {
        let rest = text.drop_last();
        assert forall|i: int| rest.len() - (count - 1) <= i < rest.len() implies in_class(
            class,
            #[trigger] rest[i],
        ) by {
            assert(rest[i] == text[i]);
        }
        if count - 1 < rest.len() {
            assert(rest[rest.len() - (count - 1) - 1] == text[text.len() - count - 1]);
        }
        lemma_trailing_run(rest, class, count - 1);
    }
}

/// Whether a character is white space.
pub fn is_whitespace(c: char) -> (space: bool)
    ensures
        space == is_space(c),
{
    let n = c as u32;
    (0x09 <= n && n <= 0x0D) || n == 0x20 || n == 0x85 || n == 0xA0 || n == 0x1680 || (0x2000 <= n
        && n <= 0x200A) || n == 0x2028 || n == 0x2029 || n == 0x202F || n == 0x205F || n == 0x3000
}

/// The lower-case form of an ASCII capital; any other character as it is.
pub fn to_lower_ascii(c: char) -> (lower: char)
    ensures
        lower == lower_ascii(c),
{
    if c >= 'A' && c <= 'Z' {
        ((c as u8) + 32) as char
    } else {
        c
    }
}

/// Whether a character is of a class.
pub fn has_class(class: CharClass, c: char) -> (has: bool)
    ensures
        has == in_class(class, c),
{
    match class {
        CharClass::Space => is_whitespace(c),
        CharClass::Dash => c == '-',
    }
}

/// Where the stripped text starts and ends within the characters.
pub fn strip_bounds(chars: &[char], class: CharClass) -> (bounds: (usize, usize))
    ensures
        bounds.0 <= bounds.1 <= chars@.len(),
        chars@.subrange(bounds.0 as int, bounds.1 as int) == stripped(chars@, class),
{
    let mut start: usize = 0;
    while start < chars.len() && has_class(class, chars[start])
        invariant
            start <= chars@.len(),
            forall|i: int| 0 <= i < start ==> in_class(class, #[trigger] chars@[i]),
        decreases chars@.len() - start,
    {
        start += 1;
    }
    let mut end: usize = chars.len();
    while end > start && has_class(class, chars[end - 1])
        invariant
            start <= end <= chars@.len(),
            forall|i: int| end <= i < chars@.len() ==> in_class(class, #[trigger] chars@[i]),
        decreases end,
    {
        end -= 1;
    }
    proof {
        let text = chars@;
        lemma_leading_run(text, class, start as int);
        let rest = text.skip(start as int);
        assert forall|i: int| rest.len() - (text.len() - end) <= i < rest.len() implies in_class(
            class,
            #[trigger] rest[i],
        ) by {
            assert(rest[i] == text[i + start]);
        }
        if text.len() - end < rest.len() {
            assert(rest[rest.len() - (text.len() - end) - 1] == text[end - 1]);
        }
        lemma_trailing_run(rest, class, text.len() - end);
        assert(text.subrange(start as int, end as int) =~= stripped(text, class));
    }
    (start, end)
}

/// The characters from `start` to `end` as a text.
pub fn text_between(chars: &[char], start: usize, end: usize) -> (out: String)
    requires
        start <= end <= chars@.len(),
    ensures
        out@ == chars@.subrange(start as int, end as int),
{
    let mut out = String::new();
    let mut i: usize = start;
    while i < end
        invariant
            start <= i <= end <= chars@.len(),
            out@ == chars@.subrange(start as int, i as int),
        decreases end - i,
    {
        push_char(&mut out, chars[i]);
        assert(out@ =~= chars@.subrange(start as int, i + 1));
        i += 1;
    }
    out
}

/// The text without the white space at its front and at its end.
pub fn trim_text(text: &str) -> (out: String)
    ensures
        out@ == trimmed(text@),
{
    let chars = chars_of(text);
    let (start, end) = strip_bounds(chars.as_slice(), CharClass::Space);
    text_between(chars.as_slice(), start, end)
}

/// The text with every ASCII capital in lower case.
pub fn lower_text(text: &str) -> (out: String)
    ensures
        out@ == lowered(text@),
{
    let mut out = String::new();
    for c in it: text.chars()
        invariant
            it.seq() == text@,
            out@ == lowered(text@.take(it.index())),
    {
        push_char(&mut out, to_lower_ascii(c));
        assert(out@ =~= lowered(text@.take(it.index() + 1)));
    }
    assert(text@.take(text@.len() as int) =~= text@);
    out
}

/// Whether two texts have the same characters.
pub fn same_text(a: &str, b: &str) -> (same: bool)
    ensures
        same == (a@ == b@),
{
    let left = chars_of(a);
    let right = chars_of(b);
    if left.len() != right.len() {
        return false;
    }
    let mut i: usize = 0;
    while i < left.len()
        invariant
            left@ == a@,
            right@ == b@,
            left@.len() == right@.len(),
            i <= left@.len(),
            forall|j: int| 0 <= j < i ==> left@[j] == right@[j],
        decreases left@.len() - i,
    {
        if left[i] != right[i] {
            assert(a@[i as int] != b@[i as int]);
            return false;
        }
        i += 1;
    }
    assert(left@ =~= right@);
    true
}

} // verus!
