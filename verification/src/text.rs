//! Text helpers shared by the rest of the crate: file-name anatomy, decimal
//! rendering, and the few string operations of the standard library that the
//! crate relies on without proof.

use vstd::prelude::*;
use vstd::string::*;
use vstd::utf8::*;

verus! {

/// The text that `str::to_lowercase` gives for `text`.
pub uninterp spec fn lowercased(text: Seq<char>) -> Seq<char>;

/// Whether the character is white space: one of the characters to which
/// Unicode gives the property White_Space.
pub open spec fn is_white_space(c: char) -> bool {
    ||| '\u{9}' <= c <= '\u{d}'
    ||| c == ' '
    ||| c == '\u{85}'
    ||| c == '\u{a0}'
    ||| c == '\u{1680}'
    ||| '\u{2000}' <= c <= '\u{200a}'
    ||| c == '\u{2028}'
    ||| c == '\u{2029}'
    ||| c == '\u{202f}'
    ||| c == '\u{205f}'
    ||| c == '\u{3000}'
}

/// The number of white-space characters that `text` begins with.
pub open spec fn leading_space(text: Seq<char>) -> nat
    decreases text.len(),
{
    if text.len() > 0 && is_white_space(text[0]) {
        1 + leading_space(text.drop_first())
    } else {
        0
    }
}

/// The number of white-space characters that `text` ends with.
pub open spec fn trailing_space(text: Seq<char>) -> nat
    decreases text.len(),
{
    if text.len() > 0 && is_white_space(text.last()) {
        1 + trailing_space(text.drop_last())
    } else {
        0
    }
}

/// `text` without the white space that it begins and ends with.
pub open spec fn trimmed(text: Seq<char>) -> Seq<char> {
    let rest = text.skip(leading_space(text) as int);
    rest.take(rest.len() - trailing_space(rest))
}

/// Trusted: `String::push` appends exactly the character `c`.
#[verifier::external_body]
pub(crate) fn push_char(text: &mut String, c: char)
    ensures
        final(text)@ == old(text)@.push(c),
{
    text.push(c)
}

/// Trusted: `str::to_lowercase` depends on the text alone; its result is
/// named [`lowercased`].
#[verifier::external_body]
pub(crate) fn to_lowercase(text: &str) -> (lower: String)
    ensures
        lower@ == lowercased(text@),
{
    text.to_lowercase()
}

/// Trusted: `str::trim` returns the text without its leading and trailing
/// white space, white space being the characters with the Unicode property
/// White_Space.
#[verifier::external_body]
pub(crate) fn trim(text: &str) -> (inner: &str)
    ensures
        inner@ == trimmed(text@),
{
    text.trim()
}

/// Trusted: `String::from_utf8` succeeds exactly on well-formed UTF-8 and
/// then holds the characters that the bytes encode.
#[verifier::external_body]
pub(crate) fn from_utf8(bytes: Vec<u8>) -> (text: Option<String>)
    ensures
        text is Some <==> valid_utf8(bytes@),
        text matches Some(t) ==> t@ == decode_utf8(bytes@),
{
    String::from_utf8(bytes).ok()
}

/// Index of the last `'.'` in `name`, or `-1` when it holds none.
pub open spec fn last_dot(name: Seq<char>) -> int
    decreases name.len(),
{
    if name.len() == 0 {
        -1
    } else if name.last() == '.' {
        name.len() - 1
    } else {
        last_dot(name.drop_last())
    }
}

/// The stem of a file name: the name up to its last dot, or the whole name
/// when the only dot leads it or there is none.
pub open spec fn stem(name: Seq<char>) -> Seq<char> {
    if last_dot(name) <= 0 {
        name
    } else {
        name.subrange(0, last_dot(name))
    }
}

/// The extension of a file name: what follows its last dot, unless that dot
/// leads the name or there is none.
pub open spec fn extension(name: Seq<char>) -> Option<Seq<char>> {
    if last_dot(name) <= 0 {
        None
    } else {
        Some(name.subrange(last_dot(name) + 1, name.len() as int))
    }
}

/// A name is hidden when its stem begins with a dot.
pub open spec fn hidden(name: Seq<char>) -> bool {
    stem(name).len() > 0 && stem(name)[0] == '.'
}

/// The suffix that keeps a file's extension: a dot and the extension, or
/// nothing for a name without one.
pub open spec fn suffix(name: Seq<char>) -> Seq<char> {
    match extension(name) {
        Some(ext) => seq!['.'] + ext,
        None => Seq::empty(),
    }
}

/// `last_dot` stays inside the name.
pub proof fn lemma_last_dot_bounds(name: Seq<char>)
    ensures
        -1 <= last_dot(name) < name.len(),
        last_dot(name) >= 0 ==> name[last_dot(name)] == '.',
        forall|i: int| last_dot(name) < i < name.len() ==> name[i] != '.',
    decreases name.len(),
{
    if name.len() > 0 && name.last() != '.' {
        let shorter = name.drop_last();
        lemma_last_dot_bounds(shorter);
        assert forall|i: int| last_dot(name) < i < name.len() implies name[i] != '.' by {
            if i < shorter.len() {
                assert(shorter[i] == name[i]);
            }
        }
    }
}

/// A name is hidden exactly when it begins with a dot: the stem keeps the
/// name's first character.
pub proof fn lemma_hidden_is_leading_dot(name: Seq<char>)
    ensures
        hidden(name) <==> (name.len() > 0 && name[0] == '.'),
{
    lemma_last_dot_bounds(name);
}

/// Extends `last_dot` by one character on the right.
proof fn lemma_last_dot_step(name: Seq<char>, i: int)
    requires
        0 <= i < name.len(),
    ensures
        last_dot(name.subrange(0, i + 1)) == if name[i] == '.' {
            i
        } else {
            last_dot(name.subrange(0, i))
        },
{
    let longer = name.subrange(0, i + 1);
    assert(longer.drop_last() =~= name.subrange(0, i));
}

/// Tells whether the file name is hidden.
pub fn is_hidden(name: &str) -> (yes: bool)
    ensures
        yes == hidden(name@),
{
    proof {
        lemma_hidden_is_leading_dot(name@);
    }
    if name.is_empty() {
        false
    } else {
        name.get_char(0) == '.'
    }
}

/// Position of the last dot of `name`, counted in characters, and the number
/// of characters of the name.
fn find_last_dot(name: &str) -> (found: (Option<usize>, usize))
    ensures
        found.1 == name@.len(),
        match found.0 {
            Some(at) => at == last_dot(name@),
            None => last_dot(name@) == -1,
        },
{
    let total = name.unicode_len();
    let mut at: Option<usize> = None;
    let mut seen: usize = 0;
    assert(name@.subrange(0, 0) =~= Seq::<char>::empty());
    for c in iter: name.chars()
        invariant
            iter.seq() == name@,
            total == name@.len(),
            seen == iter.index(),
            seen <= total,
            match at {
                Some(a) => a == last_dot(name@.subrange(0, seen as int)),
                None => last_dot(name@.subrange(0, seen as int)) == -1,
            },
    {
        proof {
            lemma_last_dot_step(name@, seen as int);
        }
        if c == '.' {
            at = Some(seen);
        }
        seen = seen + 1;
    }
    assert(name@.subrange(0, seen as int) =~= name@);
    (at, total)
}

/// The extension of the file name, if it has one.
pub fn file_extension(name: &str) -> (ext: Option<&str>)
    ensures
        match ext {
            Some(e) => extension(name@) == Some(e@),
            None => extension(name@) is None,
        },
{
    let (at, total) = find_last_dot(name);
    proof {
        lemma_last_dot_bounds(name@);
    }
    match at {
        Some(dot) => {
            if dot == 0 {
                None
            } else {
                Some(name.substring_char(dot + 1, total))
            }
        },
        None => None,
    }
}

/// The character that writes the digit `d`.
pub open spec fn digit(d: nat) -> char {
    if d == 0 {
        '0'
    } else if d == 1 {
        '1'
    } else if d == 2 {
        '2'
    } else if d == 3 {
        '3'
    } else if d == 4 {
        '4'
    } else if d == 5 {
        '5'
    } else if d == 6 {
        '6'
    } else if d == 7 {
        '7'
    } else if d == 8 {
        '8'
    } else {
        '9'
    }
}

/// Whether `c` is one of the ten decimal digits.
pub open spec fn is_digit(c: char) -> bool {
    '0' <= c <= '9'
}

/// The decimal numeral of `n`, most significant digit first, without
/// leading zeros.
pub open spec fn decimal(n: nat) -> Seq<char>
    decreases n,
{
    if n < 10 {
        seq![digit(n)]
    } else {
        decimal(n / 10).push(digit(n % 10))
    }
}

fn digit_char(d: usize) -> (c: char)
    requires
        d < 10,
    ensures
        c == digit(d as nat),
{
    if d == 0 {
        '0'
    } else if d == 1 {
        '1'
    } else if d == 2 {
        '2'
    } else if d == 3 {
        '3'
    } else if d == 4 {
        '4'
    } else if d == 5 {
        '5'
    } else if d == 6 {
        '6'
    } else if d == 7 {
        '7'
    } else if d == 8 {
        '8'
    } else {
        '9'
    }
}

/// The digits of `n` from the least significant upwards.
spec fn digits_upward(n: nat) -> Seq<char>
    decreases n,
{
    if n < 10 {
        seq![digit(n)]
    } else {
        seq![digit(n % 10)] + digits_upward(n / 10)
    }
}

proof fn lemma_digits_upward_reverses(n: nat)
    ensures
        digits_upward(n).reverse() =~= decimal(n),
    decreases n,
{
    if n >= 10 {
        lemma_digits_upward_reverses(n / 10);
        let head = seq![digit(n % 10)];
        let tail = digits_upward(n / 10);
        assert((head + tail).reverse() =~= tail.reverse().push(digit(n % 10)));
    }
}

/// Writes `n` in decimal.
pub fn decimal_string(n: usize) -> (text: String)
    ensures
        text@ == decimal(n as nat),
{
    let mut upward: Vec<char> = Vec::new();
    let mut rest: usize = n;
    while rest >= 10
        invariant
            upward@ + digits_upward(rest as nat) =~= digits_upward(n as nat),
        decreases rest,
    {
        upward.push(digit_char(rest % 10));
        rest = rest / 10;
    }
    upward.push(digit_char(rest));
    assert(upward@ =~= digits_upward(n as nat));
    proof {
        lemma_digits_upward_reverses(n as nat);
    }
    let mut text = String::new();
    let mut left: usize = upward.len();
    while left > 0
        invariant
            left <= upward.len(),
            text@ =~= upward@.subrange(left as int, upward.len() as int).reverse(),
        decreases left,
    {
        left = left - 1;
        push_char(&mut text, upward[left]);
        assert(upward@.subrange(left as int, upward.len() as int).reverse()
            =~= upward@.subrange(left + 1, upward.len() as int).reverse().push(upward@[left as int]));
    }
    assert(upward@.subrange(0, upward.len() as int) =~= upward@);
    text
}


/// The number that a digit character writes.
pub open spec fn digit_value(c: char) -> nat {
    if c == '0' {
        0
    } else if c == '1' {
        1
    } else if c == '2' {
        2
    } else if c == '3' {
        3
    } else if c == '4' {
        4
    } else if c == '5' {
        5
    } else if c == '6' {
        6
    } else if c == '7' {
        7
    } else if c == '8' {
        8
    } else {
        9
    }
}

/// The number that a run of digits writes in decimal.
pub open spec fn numeral_value(digits: Seq<char>) -> nat
    decreases digits.len(),
{
    if digits.len() == 0 {
        0
    } else {
        10 * numeral_value(digits.drop_last()) + digit_value(digits.last())
    }
}

/// A decimal numeral is a non-empty run of digits that writes its number.
pub proof fn lemma_decimal_reads_back(n: nat)
    ensures
        decimal(n).len() >= 1,
        forall|k: int| 0 <= k < decimal(n).len() ==> is_digit(#[trigger] decimal(n)[k]),
        numeral_value(decimal(n)) == n,
    decreases n,
{
    if n < 10 {
        assert(decimal(n).drop_last() =~= Seq::<char>::empty());
        assert(numeral_value(decimal(n).drop_last()) == 0);
    } else {
        lemma_decimal_reads_back(n / 10);
        assert(decimal(n).drop_last() =~= decimal(n / 10));
    }
}

/// Different numbers have different decimal numerals.
pub proof fn lemma_decimal_injective(a: nat, b: nat)
    requires
        decimal(a) == decimal(b),
    ensures
        a == b,
{
    lemma_decimal_reads_back(a);
    lemma_decimal_reads_back(b);
}

/// A suffix is empty or begins with the dot.
pub proof fn lemma_suffix_shape(name: Seq<char>)
    ensures
        suffix(name).len() == 0 || suffix(name)[0] == '.',
{
}

/// A numeral followed by a suffix can be read in one way only: the numeral
/// ends where the first character that is no digit stands.
pub proof fn lemma_numeral_prefix_unique(a: nat, s: Seq<char>, b: nat, t: Seq<char>)
    requires
        s.len() == 0 || s[0] == '.',
        t.len() == 0 || t[0] == '.',
        decimal(a) + s == decimal(b) + t,
    ensures
        a == b,
{
    let x = decimal(a);
    let y = decimal(b);
    lemma_decimal_reads_back(a);
    lemma_decimal_reads_back(b);
    assert((x + s).len() == (y + t).len());
    if x.len() < y.len() {
        assert(s.len() > 0);
        assert((x + s)[x.len() as int] == s[0]);
        assert((y + t)[x.len() as int] == y[x.len() as int]);
        assert(is_digit(y[x.len() as int]));
        assert(false);
    }
    if y.len() < x.len() {
        assert(t.len() > 0);
        assert((y + t)[y.len() as int] == t[0]);
        assert((x + s)[y.len() as int] == x[y.len() as int]);
        assert(is_digit(x[y.len() as int]));
        assert(false);
    }
    assert forall|k: int| 0 <= k < x.len() implies x[k] == y[k] by {
        assert((x + s)[k] == x[k]);
        assert((y + t)[k] == y[k]);
    }
    assert(x =~= y);
    lemma_decimal_injective(a, b);
}

} // verus!
