//! Terminal colouring of report text.

use vstd::prelude::*;
use vstd::string::*;
use vstd::utf8::*;

use crate::pattern::Pattern;
use crate::pattern::Span;
use crate::pattern::leftmost_match;
use crate::pattern::span_fits;
use crate::text::decimal;
use crate::text::decimal_string;
use crate::text::trim;
use crate::text::trimmed;

verus! {

/// Escape sequence that switches the terminal to bright magenta.
pub const PURPLE: &'static str = "\u{001b}[95m";

/// Escape sequence that switches the terminal to bright green.
pub const GREEN: &'static str = "\u{001b}[92m";

/// Escape sequence that switches the terminal to bright red.
pub const RED: &'static str = "\u{001b}[91m";

/// Escape sequence that switches the terminal to bright yellow.
pub const YELLOW: &'static str = "\u{001b}[93m";

/// Escape sequence that restores the terminal's default colours.
pub const END: &'static str = "\u{001b}[0m";

/// The text `message` wrapped so that a terminal shows it in `color`:
/// the colour's escape sequence, the message, and the reset sequence.
pub open spec fn colored(color: Seq<char>, message: Seq<char>) -> Seq<char> {
    color + message + END@
}

/// Wraps `message` in `color` and the reset sequence.
pub fn color_string(color: &str, message: &str) -> (painted: String)
    ensures
        painted@ == colored(color@, message@),
{
    let mut painted = String::new();
    painted.append(color);
    painted.append(message);
    painted.append(END);
    painted
}


/// The characters that the bytes `from..to` of a text's encoding spell.
pub open spec fn cut(text: Seq<char>, from: int, to: int) -> Seq<char> {
    decode_utf8(encode_utf8(text).subrange(from, to))
}

/// A line with the match in it shown in red, and the white space around
/// the line taken off. A line without a match is only trimmed.
pub open spec fn highlighted(line: Seq<char>, found: Option<(nat, nat)>) -> Seq<char> {
    match found {
        Some((start, end)) => trimmed(
            cut(line, 0, start as int) + colored(RED@, cut(line, start as int, end as int)) + cut(
                line,
                end as int,
                encode_utf8(line).len() as int,
            ),
        ),
        None => trimmed(line),
    }
}

/// A boundary between characters stays one in a prefix that ends on a
/// boundary.
proof fn lemma_boundary_in_prefix(bytes: Seq<u8>, start: int, end: int)
    requires
        valid_utf8(bytes),
        0 <= start <= end <= bytes.len(),
        is_char_boundary(bytes, start),
        is_char_boundary(bytes, end),
    ensures
        valid_utf8(bytes.subrange(0, end)),
        is_char_boundary(bytes.subrange(0, end), start),
{
    let prefix = bytes.subrange(0, end);
    valid_utf8_split(bytes, end);
    if start == end {
        is_char_boundary_start_end_of_seq(prefix);
    } else {
        is_char_boundary_iff_not_is_continuation_byte(bytes, start);
        is_char_boundary_iff_not_is_continuation_byte(prefix, start);
    }
}

/// Shows the bytes of `line` that `span` covers in red and trims the line.
fn paint_span(line: &str, span: Span) -> (shown: String)
    requires
        span_fits(span, line@),
    ensures
        shown@ == highlighted(line@, Some((span.start as nat, span.end as nat))),
{
    let ghost bytes = encode_utf8(line@);
    proof {
        encode_utf8_valid_utf8(line@);
        lemma_boundary_in_prefix(bytes, span.start as int, span.end as int);
    }
    let (head, post) = line.split_at(span.end);
    let (pre, hit) = head.split_at(span.start);
    proof {
        assert(head.spec_bytes().subrange(0, span.start as int) =~= bytes.subrange(
            0,
            span.start as int,
        ));
        assert(head.spec_bytes().subrange(span.start as int, head.spec_bytes().len() as int)
            =~= bytes.subrange(span.start as int, span.end as int));
        encode_utf8_decode_utf8(pre@);
        encode_utf8_decode_utf8(hit@);
        encode_utf8_decode_utf8(post@);
    }
    let mut whole = String::new();
    whole.append(pre);
    whole.append(RED);
    whole.append(hit);
    whole.append(END);
    whole.append(post);
    assert(whole@ =~= cut(line@, 0, span.start as int) + colored(
        RED@,
        cut(line@, span.start as int, span.end as int),
    ) + cut(line@, span.end as int, bytes.len() as int));
    trim(whole.as_str()).to_owned()
}

/// Shows the first match of `pattern` in `line` in red and trims the line.
pub fn highlight(pattern: &Pattern, line: &str) -> (shown: String)
    ensures
        shown@ == highlighted(line@, leftmost_match(pattern@, line@)),
{
    match pattern.find(line) {
        Some(span) => paint_span(line, span),
        None => trim(line).to_owned(),
    }
}

/// The line that reports a match: the path in purple, the index of the
/// line in yellow, the byte offset of the match in green, and after a tab
/// the line itself with the match in red.
pub open spec fn match_line(
    path: Seq<char>,
    line_index: nat,
    line: Seq<char>,
    start: nat,
    end: nat,
) -> Seq<char> {
    colored(PURPLE@, path) + seq![':'] + colored(YELLOW@, decimal(line_index)) + seq![':']
        + colored(GREEN@, decimal(start)) + seq!['\t'] + highlighted(
        line,
        Some((start, end)),
    )
}

/// Renders the report of a match of `pattern` in line `line_index` of the
/// file at `path`. There is nothing to render where the pattern does not
/// match the line.
pub fn render_match(pattern: &Pattern, path: &str, line_index: usize, line: &str) -> (shown:
    Option<String>)
    ensures
        match leftmost_match(pattern@, line@) {
            Some((start, end)) => shown matches Some(text) && text@ == match_line(
                path@,
                line_index as nat,
                line@,
                start,
                end,
            ),
            None => shown is None,
        },
{
    match pattern.find(line) {
        Some(span) => {
            let mut shown = color_string(PURPLE, path);
            shown.append(":");
            shown.append(color_string(YELLOW, decimal_string(line_index).as_str()).as_str());
            shown.append(":");
            shown.append(color_string(GREEN, decimal_string(span.start).as_str()).as_str());
            shown.append("\t");
            shown.append(paint_span(line, span).as_str());
            proof {
                reveal_strlit(":");
                reveal_strlit("\t");
                assert(":"@ =~= seq![':']);
                assert("\t"@ =~= seq!['\t']);
                assert(shown@ =~= match_line(
                    path@,
                    line_index as nat,
                    line@,
                    span.start as nat,
                    span.end as nat,
                ));
            }
            Some(shown)
        },
        None => None,
    }
}

/// The words between the two paths of a move.
pub const ARROW: &'static str = " -> ";

/// The line that announces a move: the old path in yellow, an arrow, the
/// new path in green.
pub open spec fn move_line(from: Seq<char>, to: Seq<char>) -> Seq<char> {
    colored(YELLOW@, from) + ARROW@ + colored(GREEN@, to)
}

/// Renders the announcement of a move.
pub fn render_move(from: &str, to: &str) -> (shown: String)
    ensures
        shown@ == move_line(from@, to@),
{
    let mut shown = color_string(YELLOW, from);
    shown.append(ARROW);
    shown.append(color_string(GREEN, to).as_str());
    shown
}

/// The words before the path in the report of a collision.
pub const COLLISION_HEAD: &'static str = "Error: '";

/// The words after the path in the report of a collision.
pub const COLLISION_TAIL: &'static str = "' already exists!";

/// The line that reports a collision, in red.
pub open spec fn collision_line(to: Seq<char>) -> Seq<char> {
    colored(RED@, COLLISION_HEAD@ + to + COLLISION_TAIL@)
}

/// Renders the report of a destination that is already taken.
pub fn render_collision(to: &str) -> (shown: String)
    ensures
        shown@ == collision_line(to@),
{
    let mut words = String::new();
    words.append(COLLISION_HEAD);
    words.append(to);
    words.append(COLLISION_TAIL);
    color_string(RED, words.as_str())
}

} // verus!
