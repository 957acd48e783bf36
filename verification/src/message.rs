//! Chat messages: highlighting, emote placeholders and the layout of a
//! message into rows of styled spans.

use vstd::prelude::*;
use vstd::string::StringExecFns;
use vstd::utf8::*;

use crate::bindings::{
    occurs_at, find_bytes, fuzzy_indices, skim_fuzzy_indices, display_width, formatted_time,
    wrapped_lines, format_time, str_width, wrap_text,
};
use crate::theme::{
    FrontendConfig, datetime, datetime_style, highlight_name, name_highlight_style, search,
    search_style, system_chat, system_chat_style,
};
use crate::style::{Color, Line, Style, Span, plain_style, with_fg, with_underline, spans_view, lines_view};
use crate::text::{
    byte_len, byte_offset, char_width, split_chars, pieces_bytes, strings_view, split_by_char,
    lemma_split_bytes, repeat_char, repeat_string, lemma_byte_offset_mono, lemma_byte_offset_step,
    push_char, str_chars, utf8_width,
};

verus! {

broadcast use vstd::string::group_string_axioms;

/// Separates an emote placeholder from the text around it.
pub const ZERO_WIDTH_SPACE: char = '\u{200B}';

/// The character that starts every emote placeholder cell.
pub const PRIVATE_USE_UNICODE: char = '\u{10EEEE}';

/// Width reserved for a user name when names are right-aligned.
pub const NAME_MAX_CHARACTERS: usize = 25;

/// Byte offsets to highlight, with the style to highlight them in.
pub type Highlight<'a> = (&'a [usize], Style);

/// Colours that encode an emote's id and placement id.
pub type EmoteColors = (Color, Color);

/// An instant: seconds and nanoseconds since the Unix epoch, and the UTC
/// offset in seconds it was observed in.
#[derive(Debug, Clone, Copy, PartialEq, Eq, Structural)]
pub struct Timestamp {
    pub secs: i64,
    pub nanos: u32,
    pub offset_secs: i32,
}

/// `h` is sorted in non-decreasing order.
pub open spec fn non_decreasing(h: Seq<usize>) -> bool {
    forall|i: int, j: int| 0 <= i <= j < h.len() ==> h[i] <= h[j]
}

/// `h` is sorted in strictly increasing order.
pub open spec fn strictly_increasing(h: Seq<usize>) -> bool {
    forall|i: int, j: int| 0 <= i < j < h.len() ==> h[i] < h[j]
}

/// `b` is one of the offsets in `h`.
pub open spec fn in_highlight(h: Seq<usize>, b: int) -> bool {
    exists|i: int| 0 <= i < h.len() && h[i] as int == b
}

/// No offset of `h` can fall in `start..=end`, judged by its ends only.
pub open spec fn no_highlights(h: Seq<usize>, start: int, end: int) -> bool {
    h.len() == 0 || start > h.last() || end < h[0]
}

/// The style of the character at byte `b`: a search match wins over a name match.
pub open spec fn style_at(b: int, search: (Seq<usize>, Style), name: (Seq<usize>, Style)) -> Style {
    if in_highlight(search.0, b) {
        search.1
    } else if in_highlight(name.0, b) {
        name.1
    } else {
        plain_style()
    }
}

/// One span per character of `line`, styled by the byte offset of the character.
pub open spec fn char_spans(
    line: Seq<char>,
    offset: int,
    search: (Seq<usize>, Style),
    name: (Seq<usize>, Style),
) -> Seq<(Seq<char>, Style)> {
    Seq::new(
        line.len(),
        |k: int| (seq![line[k]], style_at(offset + byte_offset(line, k), search, name)),
    )
}

/// The spans of `line`, whose first byte is at `offset` of the message: the
/// whole line as one plain span when neither highlight can reach it, else one
/// span per character.
pub open spec fn highlight_spec(
    line: Seq<char>,
    offset: int,
    search: (Seq<usize>, Style),
    name: (Seq<usize>, Style),
) -> Seq<(Seq<char>, Style)> {
    let end = offset + byte_len(line);
    if no_highlights(search.0, offset, end) && no_highlights(name.0, offset, end) {
        seq![(line, plain_style())]
    } else {
        char_spans(line, offset, search, name)
    }
}

/// The style that carries an emote's two colours.
pub open spec fn emote_style(e: EmoteColors) -> Style {
    with_underline(with_fg(plain_style(), e.0), e.1)
}

/// The span for an emote placeholder and the emotes left after it.
pub open spec fn emote_span_spec(content: Seq<char>, emotes: Seq<EmoteColors>) -> (
    (Seq<char>, Style),
    Seq<EmoteColors>,
) {
    if emotes.len() > 0 {
        ((content, emote_style(emotes[0])), emotes.drop_first())
    } else {
        ((content, plain_style()), emotes)
    }
}

/// `s` begins with the emote placeholder character.
pub open spec fn starts_with_placeholder(s: Seq<char>) -> bool {
    s.len() > 0 && s[0] == PRIVATE_USE_UNICODE
}

/// The spans of consecutive pieces of a line, each piece followed by a zero
/// width space; also the byte offset after them and the emotes left.
pub open spec fn segments_spec(
    segs: Seq<Seq<char>>,
    start: int,
    search: (Seq<usize>, Style),
    name: (Seq<usize>, Style),
    emotes: Seq<EmoteColors>,
) -> (Seq<(Seq<char>, Style)>, int, Seq<EmoteColors>)
    decreases segs.len(),
{
    if segs.len() == 0 {
        (seq![], start, emotes)
    } else {
        let prev = segments_spec(segs.drop_last(), start, search, name, emotes);
        let seg = segs.last();
        if starts_with_placeholder(seg) {
            let e = emote_span_spec(seg, prev.2);
            (prev.0.push(e.0), prev.1 + byte_len(seg) + char_width(ZERO_WIDTH_SPACE), e.1)
        } else {
            (
                prev.0 + highlight_spec(seg, prev.1, search, name),
                prev.1 + byte_len(seg) + char_width(ZERO_WIDTH_SPACE),
                prev.2,
            )
        }
    }
}

/// A line is laid out without emotes when none are left, or when it neither
/// starts with a placeholder nor contains a zero width space.
pub open spec fn is_plain_line(line: Seq<char>, emotes: Seq<EmoteColors>) -> bool {
    emotes.len() == 0 || (!starts_with_placeholder(line) && !(exists|j: int|
        occurs_at(encode_utf8(line), encode_utf8(seq![ZERO_WIDTH_SPACE]), j)))
}

/// The spans of `line` starting at byte `start` of the message, the byte
/// offset after the line, and the emotes not yet used.
pub open spec fn build_line_spec(
    line: Seq<char>,
    start: int,
    search: (Seq<usize>, Style),
    name: (Seq<usize>, Style),
    emotes: Seq<EmoteColors>,
) -> (Seq<(Seq<char>, Style)>, int, Seq<EmoteColors>) {
    if is_plain_line(line, emotes) {
        (highlight_spec(line, start, search, name), start + byte_len(line), emotes)
    } else {
        let r = segments_spec(split_chars(line, ZERO_WIDTH_SPACE), start, search, name, emotes);
        let w = char_width(ZERO_WIDTH_SPACE) as int;
        (r.0, if r.1 >= w { r.1 - w } else { 0 }, r.2)
    }
}

/// The zero width space takes three bytes.
pub proof fn lemma_zero_width_space_width()
    ensures
        char_width(ZERO_WIDTH_SPACE) == 3,
{
    assert(ZERO_WIDTH_SPACE as u32 == 0x200B);
}

/// Byte positions for character positions, as the message's characters are
/// walked once from the front: a position at or after the walk's current
/// place gives the offset where that character starts and moves the walk
/// past it; any other position gives nothing and ends the walk. Also
/// the walk's final place.
pub open spec fn char_to_byte_spec(s: Seq<char>, indices: Seq<usize>) -> (Seq<usize>, int)
    decreases indices.len(),
{
    if indices.len() == 0 {
        (seq![], 0)
    } else {
        let prev = char_to_byte_spec(s, indices.drop_last());
        let i = indices.last() as int;
        if prev.1 <= i < s.len() {
            (prev.0.push(byte_offset(s, i) as usize), i + 1)
        } else {
            (prev.0, s.len() as int)
        }
    }
}

/// The byte positions `start..end`.
pub open spec fn range_seq(start: int, end: int) -> Seq<usize> {
    Seq::new((end - start) as nat, |i: int| (start + i) as usize)
}

/// Every byte of every non-overlapping occurrence of `needle` in `hay` at or
/// after `pos`, occurrences taken from the left.
pub open spec fn match_ranges(hay: Seq<u8>, needle: Seq<u8>, pos: int) -> Seq<usize>
    decreases hay.len() - pos,
{
    if needle.len() == 0 || pos < 0 || pos + needle.len() > hay.len() {
        seq![]
    } else if hay.subrange(pos, pos + needle.len()) == needle {
        range_seq(pos, pos + needle.len()) + match_ranges(hay, needle, pos + needle.len())
    } else {
        match_ranges(hay, needle, pos + 1)
    }
}

/// The highlighted bytes of a user name are strictly increasing and lie
/// within the text.
pub proof fn lemma_match_ranges_increasing(hay: Seq<u8>, needle: Seq<u8>, pos: int)
    requires
        0 <= pos,
        hay.len() <= usize::MAX,
    ensures
        strictly_increasing(match_ranges(hay, needle, pos)),
        forall|i: int|
            0 <= i < match_ranges(hay, needle, pos).len() ==> pos <= #[trigger] match_ranges(
                hay,
                needle,
                pos,
            )[i] < hay.len(),
    decreases hay.len() - pos,
{
    if needle.len() == 0 || pos < 0 || pos + needle.len() > hay.len() {
    } else if hay.subrange(pos, pos + needle.len()) == needle {
        let end = pos + needle.len();
        lemma_match_ranges_increasing(hay, needle, end);
        let r = range_seq(pos, end);
        let rest = match_ranges(hay, needle, end);
        assert(match_ranges(hay, needle, pos) == r + rest);
        assert forall|i: int| 0 <= i < r.len() implies pos <= #[trigger] r[i] < end by {}
        assert forall|i: int, j: int| 0 <= i < j < (r + rest).len() implies (r + rest)[i] < (r
            + rest)[j] by {
            if j < r.len() {
            } else if i < r.len() {
                assert(rest[j - r.len()] >= end);
            } else {
            }
        }
    } else {
        lemma_match_ranges_increasing(hay, needle, pos + 1);
    }
}

/// The byte positions from character positions are strictly increasing,
/// below the byte offset of the walk's final place, and within the text.
pub proof fn lemma_char_to_byte_increasing(s: Seq<char>, indices: Seq<usize>)
    requires
        byte_len(s) <= usize::MAX,
    ensures
        ({
            let r = char_to_byte_spec(s, indices);
            &&& strictly_increasing(r.0)
            &&& 0 <= r.1 <= s.len()
            &&& forall|i: int| 0 <= i < r.0.len() ==> #[trigger] r.0[i] < byte_offset(s, r.1)
        }),
        forall|i: int|
            0 <= i < char_to_byte_spec(s, indices).0.len() ==> #[trigger] char_to_byte_spec(
                s,
                indices,
            ).0[i] < byte_len(s),
    decreases indices.len(),
{
    let r = char_to_byte_spec(s, indices);
    if indices.len() == 0 {
    } else {
        let prev = char_to_byte_spec(s, indices.drop_last());
        lemma_char_to_byte_increasing(s, indices.drop_last());
        let i = indices.last() as int;
        if prev.1 <= i < s.len() {
            lemma_byte_offset_mono(s, prev.1, i);
            lemma_byte_offset_mono(s, i, i + 1);
            let b = byte_offset(s, i) as usize;
            assert(r.0 == prev.0.push(b));
            assert forall|x: int| 0 <= x < r.0.len() implies #[trigger] r.0[x] < byte_offset(s, r.1) by {
                if x < prev.0.len() {
                    assert(r.0[x] == prev.0[x]);
                }
            }
        } else {
            lemma_byte_offset_mono(s, prev.1, s.len() as int);
        }
    }
    lemma_byte_offset_mono(s, r.1, s.len() as int);
    assert(s.take(s.len() as int) =~= s);
}

/// The byte offset after the pieces is the start plus their bytes and separators.
pub proof fn lemma_segments_end(
    segs: Seq<Seq<char>>,
    start: int,
    search: (Seq<usize>, Style),
    name: (Seq<usize>, Style),
    emotes: Seq<EmoteColors>,
)
    ensures
        segments_spec(segs, start, search, name, emotes).1 == start + pieces_bytes(
            segs,
            ZERO_WIDTH_SPACE,
        ),
    decreases segs.len(),
{
    if segs.len() > 0 {
        lemma_segments_end(segs.drop_last(), start, search, name, emotes);
    }
}

/// The bytes of a prefix of the pieces never exceed the bytes of all of them.
pub proof fn lemma_pieces_bytes_prefix(segs: Seq<Seq<char>>, sep: char, i: int)
    requires
        0 <= i <= segs.len(),
    ensures
        pieces_bytes(segs.take(i), sep) <= pieces_bytes(segs, sep),
    decreases segs.len() - i,
{
    if i < segs.len() {
        lemma_pieces_bytes_prefix(segs, sep, i + 1);
        assert(segs.take(i + 1).drop_last() =~= segs.take(i));
    } else {
        assert(segs.take(i) =~= segs);
    }
}

/// A line's layout moves the byte offset past exactly the line's bytes.
pub proof fn lemma_build_line_end(
    line: Seq<char>,
    start: int,
    search: (Seq<usize>, Style),
    name: (Seq<usize>, Style),
    emotes: Seq<EmoteColors>,
)
    requires
        0 <= start,
    ensures
        build_line_spec(line, start, search, name, emotes).1 == start + byte_len(line),
{
    if !is_plain_line(line, emotes) {
        lemma_zero_width_space_width();
        lemma_split_bytes(line, ZERO_WIDTH_SPACE);
        lemma_segments_end(split_chars(line, ZERO_WIDTH_SPACE), start, search, name, emotes);
    }
}

/// Total bytes of a sequence of lines.
pub open spec fn lines_bytes(lines: Seq<Seq<char>>) -> nat
    decreases lines.len(),
{
    if lines.len() == 0 {
        0
    } else {
        lines_bytes(lines.drop_last()) + byte_len(lines.last())
    }
}

/// The rows of consecutive lines of one message, with the byte offset after
/// them and the emotes left.
pub open spec fn rows_spec(
    lines: Seq<Seq<char>>,
    search: (Seq<usize>, Style),
    name: (Seq<usize>, Style),
    emotes: Seq<EmoteColors>,
) -> (Seq<Seq<(Seq<char>, Style)>>, int, Seq<EmoteColors>)
    decreases lines.len(),
{
    if lines.len() == 0 {
        (seq![], 0, emotes)
    } else {
        let prev = rows_spec(lines.drop_last(), search, name, emotes);
        let r = build_line_spec(lines.last(), prev.1, search, name, prev.2);
        (prev.0.push(r.0), r.1, r.2)
    }
}

/// The byte offset after the rows is the total of the lines' bytes.
pub proof fn lemma_rows_end(
    lines: Seq<Seq<char>>,
    search: (Seq<usize>, Style),
    name: (Seq<usize>, Style),
    emotes: Seq<EmoteColors>,
)
    ensures
        rows_spec(lines, search, name, emotes).1 == lines_bytes(lines),
        rows_spec(lines, search, name, emotes).0.len() == lines.len(),
    decreases lines.len(),
{
    if lines.len() > 0 {
        lemma_rows_end(lines.drop_last(), search, name, emotes);
        let prev = rows_spec(lines.drop_last(), search, name, emotes);
        lemma_build_line_end(lines.last(), prev.1, search, name, prev.2);
    }
}

/// The bytes of a prefix of the lines never exceed the bytes of all of them.
pub proof fn lemma_lines_bytes_prefix(lines: Seq<Seq<char>>, i: int)
    requires
        0 <= i <= lines.len(),
    ensures
        lines_bytes(lines.take(i)) <= lines_bytes(lines),
    decreases lines.len() - i,
{
    if i < lines.len() {
        lemma_lines_bytes_prefix(lines, i + 1);
        assert(lines.take(i + 1).drop_last() =~= lines.take(i));
    } else {
        assert(lines.take(i) =~= lines);
    }
}

/// `first` put in front of the first row.
pub open spec fn with_first_row(
    first: Seq<(Seq<char>, Style)>,
    rows: Seq<Seq<(Seq<char>, Style)>>,
) -> Seq<Seq<(Seq<char>, Style)>> {
    if rows.len() > 0 {
        rows.update(0, first + rows[0])
    } else {
        rows
    }
}

/// Some character of `s` starts at byte `b`, or `b` is its end.
pub open spec fn is_boundary(s: Seq<char>, b: int) -> bool {
    exists|k: int| 0 <= k <= s.len() && byte_offset(s, k) == b
}

/// The characters of `s` from byte `b` on.
pub open spec fn suffix_from_byte(s: Seq<char>, b: int) -> Seq<char> {
    s.skip(choose|k: int| 0 <= k <= s.len() && byte_offset(s, k) == b)
}

/// The view of an optional owned string.
pub open spec fn opt_string_view(o: Option<String>) -> Option<Seq<char>> {
    match o {
        Some(s) => Some(s@),
        None => None,
    }
}

/// The view of an optional string.
pub open spec fn opt_str_view(o: Option<&str>) -> Option<Seq<char>> {
    match o {
        Some(s) => Some(s@),
        None => None,
    }
}

/// The bytes of a message covered by occurrences of the user name asked for.
pub open spec fn name_indices_spec(payload: Seq<char>, name: Option<Seq<char>>) -> Seq<usize> {
    match name {
        Some(n) => match_ranges(encode_utf8(payload), encode_utf8(n), 0),
        None => seq![],
    }
}

/// The bytes of a message that a fuzzy search for the query asked for matches.
pub open spec fn search_indices_spec(payload: Seq<char>, query: Option<Seq<char>>) -> Seq<usize> {
    match query {
        Some(q) => match skim_fuzzy_indices(payload, q) {
            Some(m) => char_to_byte_spec(payload, m.1).0,
            None => seq![],
        },
        None => seq![],
    }
}

/// The time shown in front of a message: `Some(None)` when times are hidden,
/// `None` when the time cannot be formatted.
pub open spec fn time_text(t: Timestamp, show: bool, format: Seq<char>) -> Option<Option<Seq<char>>> {
    if show {
        match formatted_time(t.secs, t.nanos, t.offset_secs, format) {
            Some(text) => Some(Some(text)),
            None => None,
        }
    } else {
        Some(None)
    }
}

/// Bytes in front of the message text on its first row: the time and a
/// space, then the author and ": ".
pub open spec fn prefix_length(time: Option<Seq<char>>, username_shown: bool, author: Seq<char>) -> int {
    let time_len = match time {
        Some(t) => byte_len(t) + 1,
        None => 0,
    };
    if username_shown {
        (time_len + byte_len(author) + 2) as int
    } else {
        time_len as int
    }
}

/// Spaces between the time and the author, right-aligning names when asked.
pub open spec fn alignment_spec(username_shown: bool, right_align: bool, author: Seq<char>) -> nat {
    if username_shown && right_align {
        let w = display_width(author);
        ((if w < NAME_MAX_CHARACTERS { NAME_MAX_CHARACTERS - w } else { 0 }) + 1) as nat
    } else {
        1
    }
}

/// Style of the author's name.
pub open spec fn author_style(system: bool, author_color: Color) -> Style {
    if system {
        system_chat_style()
    } else {
        with_fg(plain_style(), author_color)
    }
}

/// The spans in front of the message text on its first row.
pub open spec fn first_row_spec(
    time: Option<Seq<char>>,
    alignment: nat,
    username_shown: bool,
    author: Seq<char>,
    time_style: Style,
    name_style: Style,
) -> Seq<(Seq<char>, Style)> {
    let t = match time {
        Some(text) => seq![(text, time_style), (repeat_char(' ', alignment), plain_style())],
        None => seq![],
    };
    if username_shown {
        t + seq![(author, name_style), (seq![':', ' '], plain_style())]
    } else {
        t
    }
}

/// Columns left for text once the margins and borders are taken.
pub open spec fn wrap_limit(width: usize, margin: u16) -> int {
    width - (margin + 1) * 2 - 1
}

/// The rows of a message, or `None` where the layout cannot be made: the
/// time cannot be formatted, the prefix does not fit in `usize`, or the text
/// is too long to count its bytes. The wrapped text has at least one line and
/// its first line starts with the prefix (see `wrap_text`), so the message
/// text of the first row is what follows the prefix.
pub open spec fn to_vec_spec(
    msg: MessageData,
    config: FrontendConfig,
    width: usize,
    search: Option<Seq<char>>,
    name: Option<Seq<char>>,
    author_color: Color,
) -> Option<Seq<Seq<(Seq<char>, Style)>>> {
    match time_text(msg.time_sent, config.show_datetimes, config.datetime_format@) {
        None => None,
        Some(time) => {
            let plen = prefix_length(time, config.username_shown, msg.author@);
            if plen > usize::MAX {
                None
            } else {
                let lines = wrapped_lines(
                    msg.payload@,
                    wrap_limit(width, config.margin) as usize,
                    repeat_char(' ', plen as nat),
                );
                {
                    let parts = seq![suffix_from_byte(lines[0], plen)] + lines.drop_first();
                    if lines_bytes(parts) + 3 > usize::MAX {
                        None
                    } else {
                        let rows = rows_spec(
                            parts,
                            (search_indices_spec(msg.payload@, search), search_style()),
                            (name_indices_spec(msg.payload@, name), name_highlight_style(config.theme)),
                            msg.emotes@,
                        ).0;
                        let first = first_row_spec(
                            time,
                            alignment_spec(
                                config.username_shown,
                                config.right_align_usernames,
                                msg.author@,
                            ),
                            config.username_shown,
                            msg.author@,
                            datetime_style(config.theme),
                            author_style(msg.system, author_color),
                        );
                        Some(with_first_row(first, rows))
                    }
                }
            }
        },
    }
}

/// Search highlights are strictly increasing.
pub proof fn lemma_search_indices_sorted(payload: Seq<char>, query: Option<Seq<char>>)
    requires
        byte_len(payload) <= usize::MAX,
    ensures
        strictly_increasing(search_indices_spec(payload, query)),
        non_decreasing(search_indices_spec(payload, query)),
{
    match query {
        Some(q) => match skim_fuzzy_indices(payload, q) {
            Some(m) => {
                lemma_char_to_byte_increasing(payload, m.1);
            },
            None => {},
        },
        None => {},
    }
}

/// User name highlights are strictly increasing.
pub proof fn lemma_name_indices_sorted(payload: Seq<char>, name: Option<Seq<char>>)
    requires
        byte_len(payload) <= usize::MAX,
    ensures
        strictly_increasing(name_indices_spec(payload, name)),
        non_decreasing(name_indices_spec(payload, name)),
{
    match name {
        Some(n) => {
            lemma_match_ranges_increasing(encode_utf8(payload), encode_utf8(n), 0);
        },
        None => {},
    }
}

/// A run of spaces takes one byte per space.
pub proof fn lemma_spaces_bytes(s: Seq<char>, n: nat)
    requires
        n <= s.len(),
        s.take(n as int) == repeat_char(' ', n),
    ensures
        byte_offset(s, n as int) == n,
    decreases n,
{
    if n > 0 {
        let m = (n - 1) as nat;
        assert(s.take(m as int) =~= repeat_char(' ', m)) by {
            assert forall|i: int| 0 <= i < m implies s.take(m as int)[i] == repeat_char(' ', m)[i] by {
                assert(s.take(n as int)[i] == ' ');
            }
        }
        lemma_spaces_bytes(s, m);
        lemma_byte_offset_step(s, m as int);
        assert(s[m as int] == s.take(n as int)[m as int]);
        assert(' ' as u32 == 0x20);
    }
}

/// Whether `x` occurs in the sorted slice `h`, by binary search.
pub fn sorted_contains(h: &[usize], x: usize) -> (r: bool)
    requires
        non_decreasing(h@),
    ensures
        r == in_highlight(h@, x as int),
{
    let mut lo: usize = 0;
    let mut hi: usize = h.len();
    while lo < hi
        invariant
            0 <= lo <= hi <= h@.len(),
            non_decreasing(h@),
            forall|i: int| 0 <= i < lo ==> h@[i] < x,
            forall|i: int| hi <= i < h@.len() ==> h@[i] > x,
        decreases hi - lo,
    {
        let mid = lo + (hi - lo) / 2;
        if h[mid] == x {
            return true;
        } else if h[mid] < x {
            lo = mid + 1;
        } else {
            hi = mid;
        }
    }
    false
}

/// Judges a highlight by its ends, as `no_highlights` does.
fn has_no_highlights(h: &[usize], start: usize, end: usize) -> (r: bool)
    ensures
        r == no_highlights(h@, start as int, end as int),
{
    h.len() == 0 || start > h[h.len() - 1] || end < h[0]
}

/// The zero width space as a string.
fn zero_width_space_string() -> (s: String)
    ensures
        s@ == seq![ZERO_WIDTH_SPACE],
{
    let mut s = String::new();
    push_char(&mut s, ZERO_WIDTH_SPACE);
    assert(s@ =~= seq![ZERO_WIDTH_SPACE]);
    s
}

/// A message with its author and the emotes its placeholders stand for.
#[derive(Debug, Clone, PartialEq, Eq)]
pub struct MessageData {
    pub time_sent: Timestamp,
    pub author: String,
    pub user_id: Option<String>,
    pub system: bool,
    pub payload: String,
    pub emotes: Vec<EmoteColors>,
    pub message_id: Option<String>,
}

impl MessageData {
    /// Takes the next emote's colours for `content`, or styles it plainly when
    /// no emote is left.
    pub fn get_emote_span(content: &str, emotes: &mut &[EmoteColors]) -> (span: Span)
        ensures
            span@ == emote_span_spec(content@, old(emotes)@).0,
            final(emotes)@ == emote_span_spec(content@, old(emotes)@).1,
    {
        if emotes.len() > 0 {
            let (id, pid) = emotes[0];
            let rest: &[EmoteColors] = &emotes[1..emotes.len()];
            assert(rest@ =~= old(emotes)@.drop_first());
            *emotes = rest;
            Span::styled(content, Style::new().fg(id).underline_color(pid))
        } else {
            Span::raw(content)
        }
    }

    /// The spans of `line`, whose first byte is at `*start_index` of the
    /// message; moves `*start_index` past the line.
    pub fn highlight(
        line: &str,
        start_index: &mut usize,
        search_highlight: Highlight,
        username_highlight: Highlight,
    ) -> (spans: Vec<Span>)
        requires
            non_decreasing(search_highlight.0@),
            non_decreasing(username_highlight.0@),
            *old(start_index) + byte_len(line@) <= usize::MAX,
        ensures
            *final(start_index) == *old(start_index) + byte_len(line@),
            spans_view(spans@) == highlight_spec(
                line@,
                *old(start_index) as int,
                (search_highlight.0@, search_highlight.1),
                (username_highlight.0@, username_highlight.1),
            ),
    {
        let offset = *start_index;
        let line_len = line.as_bytes().len();
        let end = offset + line_len;
        *start_index = end;
        if has_no_highlights(search_highlight.0, offset, end) && has_no_highlights(
            username_highlight.0,
            offset,
            end,
        ) {
            let v = vec![Span::raw(line)];
            assert(spans_view(v@) =~= seq![(line@, plain_style())]);
            return v;
        }
        let chars = str_chars(line);
        let ghost search = (search_highlight.0@, search_highlight.1);
        let ghost name = (username_highlight.0@, username_highlight.1);
        let ghost expected = char_spans(line@, offset as int, search, name);
        let mut spans: Vec<Span> = Vec::new();
        let mut pos: usize = 0;
        for k in 0..chars.len()
            invariant
                chars@ == line@,
                pos == byte_offset(line@, k as int),
                offset + byte_len(line@) <= usize::MAX,
                non_decreasing(search_highlight.0@),
                non_decreasing(username_highlight.0@),
                search == (search_highlight.0@, search_highlight.1),
                name == (username_highlight.0@, username_highlight.1),
                expected == char_spans(line@, offset as int, search, name),
                spans_view(spans@) == expected.take(k as int),
        {
            proof {
                lemma_byte_offset_mono(line@, k as int, k + 1);
                lemma_byte_offset_step(line@, k as int);
            }
            let c = chars[k];
            let b = offset + pos;
            let style = if sorted_contains(search_highlight.0, b) {
                search_highlight.1
            } else if sorted_contains(username_highlight.0, b) {
                username_highlight.1
            } else {
                Style::new()
            };
            let mut content = String::new();
            push_char(&mut content, c);
            assert(content@ =~= seq![c]);
            assert(style == style_at(offset + byte_offset(line@, k as int), search, name));
            let ghost before = spans@;
            let sp = Span { content, style };
            assert(sp@ == expected[k as int]);
            spans.push(sp);
            assert(spans@ =~= before.push(sp));
            assert(spans_view(spans@) =~= spans_view(before).push(sp@));
            assert(expected.take(k + 1) =~= expected.take(k as int).push(expected[k as int]));
            pos = pos + utf8_width(c);
            assert(spans_view(spans@) =~= expected.take(k + 1));
        }
        assert(expected.take(chars@.len() as int) =~= expected);
        spans
    }

    /// Turns character positions of `s` into byte positions (see
    /// `char_to_byte_spec`).
    pub fn char_to_byte_indices(s: &str, char_indices: &[usize]) -> (r: Vec<usize>)
        ensures
            r@ == char_to_byte_spec(s@, char_indices@).0,
    {
        let chars = str_chars(s);
        let n = chars.len();
        let bytes_len = s.as_bytes().len();
        let mut out: Vec<usize> = Vec::new();
        let mut next: usize = 0;
        let mut byte: usize = 0;
        assert(char_indices@.take(0) =~= Seq::<usize>::empty());
        assert(s@.take(0) =~= Seq::<char>::empty());
        assert(encode_utf8(Seq::<char>::empty()) =~= Seq::<u8>::empty());
        for j in 0..char_indices.len()
            invariant
                chars@ == s@,
                n == s@.len(),
                bytes_len == byte_len(s@),
                0 <= next <= n,
                byte == byte_offset(s@, next as int),
                (out@, next as int) == char_to_byte_spec(s@, char_indices@.take(j as int)),
        {
            assert(char_indices@.take(j + 1).drop_last() =~= char_indices@.take(j as int));
            let i = char_indices[j];
            if next <= i && i < n {
                while next < i
                    invariant
                        chars@ == s@,
                        n == s@.len(),
                        bytes_len == byte_len(s@),
                        next <= i < n,
                        byte == byte_offset(s@, next as int),
                    decreases i - next,
                {
                    proof {
                        lemma_byte_offset_step(s@, next as int);
                        lemma_byte_offset_mono(s@, next + 1, n as int);
                    }
                    byte = byte + utf8_width(chars[next]);
                    next = next + 1;
                }
                out.push(byte);
                proof {
                    lemma_byte_offset_step(s@, i as int);
                    lemma_byte_offset_mono(s@, i + 1, n as int);
                }
                byte = byte + utf8_width(chars[i]);
                next = i + 1;
            } else {
                next = n;
                proof {
                    lemma_byte_offset_mono(s@, n as int, n as int);
                    assert(s@.take(n as int) =~= s@);
                }
                byte = bytes_len;
            }
        }
        assert(char_indices@.take(char_indices@.len() as int) =~= char_indices@);
        out
    }

    /// The byte positions covered by the occurrences of `name` in `text`.
    pub fn username_highlight_indices(text: &str, name: &str) -> (r: Vec<usize>)
        ensures
            r@ == match_ranges(encode_utf8(text@), encode_utf8(name@), 0),
    {
        let hay = text.as_bytes();
        let needle = name.as_bytes();
        let mut out: Vec<usize> = Vec::new();
        if needle.len() == 0 {
            return out;
        }
        let mut pos: usize = 0;
        while pos <= hay.len() && needle.len() <= hay.len() - pos
            invariant
                hay@ == encode_utf8(text@),
                needle@ == encode_utf8(name@),
                needle@.len() > 0,
                pos <= hay@.len(),
                match_ranges(hay@, needle@, 0) == out@ + match_ranges(hay@, needle@, pos as int),
            decreases hay@.len() - pos,
        {
            let mut k: usize = 0;
            let mut same = true;
            while k < needle.len()
                invariant
                    pos + needle@.len() <= hay@.len(),
                    hay@.len() <= usize::MAX,
                    k <= needle@.len(),
                    same == (forall|t: int| 0 <= t < k ==> hay@[pos + t] == needle@[t]),
                decreases needle@.len() - k,
            {
                if hay[pos + k] != needle[k] {
                    same = false;
                }
                k = k + 1;
            }
            if same {
                assert(hay@.subrange(pos as int, pos + needle@.len()) =~= needle@);
                let ghost before = out@;
                let end = pos + needle.len();
                let mut b = pos;
                while b < end
                    invariant
                        pos <= b <= end,
                        out@ == before + range_seq(pos as int, b as int),
                    decreases end - b,
                {
                    out.push(b);
                    assert(range_seq(pos as int, b + 1) =~= range_seq(pos as int, b as int).push(b));
                    b = b + 1;
                }
                assert(out@ + match_ranges(hay@, needle@, end as int) =~= before + (range_seq(pos as int, end as int) + match_ranges(hay@, needle@, end as int)));
                pos = end;
            } else {
                assert(hay@.subrange(pos as int, pos + needle@.len()) != needle@) by {
                    let t = choose|t: int| 0 <= t < needle@.len() && hay@[pos + t] != needle@[t];
                    assert(hay@.subrange(pos as int, pos + needle@.len())[t] == hay@[pos + t]);
                }
                pos = pos + 1;
            }
        }
        assert(match_ranges(hay@, needle@, pos as int) =~= Seq::<usize>::empty());
        assert(out@ + Seq::<usize>::empty() =~= out@);
        out
    }

    /// The byte positions of the characters that a fuzzy search for `query`
    /// matches in `text`; none when it does not match.
    pub fn search_highlight_indices(text: &str, query: &str) -> (r: Vec<usize>)
        ensures
            r@ == match skim_fuzzy_indices(text@, query@) {
                Some(m) => char_to_byte_spec(text@, m.1).0,
                None => Seq::<usize>::empty(),
            },
    {
        match fuzzy_indices(text, query) {
            Some((_, indices)) => Self::char_to_byte_indices(text, indices.as_slice()),
            None => Vec::new(),
        }
    }

    /// The rows a message takes on screen `width` columns wide: the time and
    /// author on the first row, then the wrapped text, with search matches,
    /// occurrences of a user name and emote placeholders styled. The author's
    /// colour is given. `None` where `to_vec_spec` says the layout cannot be made.
    pub fn to_vec(
        &self,
        frontend_config: &FrontendConfig,
        width: usize,
        search_highlight: Option<&str>,
        username_highlight: Option<&str>,
        author_color: Color,
    ) -> (rows: Option<Vec<Line>>)
        requires
            width >= (frontend_config.margin + 1) * 2 + 1,
        ensures
            rows is Some <==> to_vec_spec(
                *self,
                *frontend_config,
                width,
                opt_str_view(search_highlight),
                opt_str_view(username_highlight),
                author_color,
            ) is Some,
            rows matches Some(r) ==> to_vec_spec(
                *self,
                *frontend_config,
                width,
                opt_str_view(search_highlight),
                opt_str_view(username_highlight),
                author_color,
            ) == Some(lines_view(r@)),
    {
        let username_theme = highlight_name(frontend_config.theme);
        let author_theme = if self.system {
            system_chat()
        } else {
            Style::new().fg(author_color)
        };
        let datetime_theme = datetime(frontend_config.theme);
        let search_theme = search();
        let username_indices = match username_highlight {
            Some(name) => Self::username_highlight_indices(self.payload.as_str(), name),
            None => Vec::new(),
        };
        let search_indices = match search_highlight {
            Some(query) => Self::search_highlight_indices(self.payload.as_str(), query),
            None => Vec::new(),
        };
        let payload_len = self.payload.as_str().as_bytes().len();
        proof {
            lemma_search_indices_sorted(self.payload@, opt_str_view(search_highlight));
            lemma_name_indices_sorted(self.payload@, opt_str_view(username_highlight));
        }
        let time_sent = if frontend_config.show_datetimes {
            match format_time(&self.time_sent, frontend_config.datetime_format.as_str()) {
                Some(t) => Some(t),
                None => {
                    return None;
                },
            }
        } else {
            None
        };
        let time_sent_len: usize = match &time_sent {
            Some(t) => {
                let n = t.as_str().as_bytes().len();
                match n.checked_add(1) {
                    Some(m) => m,
                    None => {
                        return None;
                    },
                }
            },
            None => 0,
        };
        let prefix_len: usize = if frontend_config.username_shown {
            let a = self.author.as_str().as_bytes().len();
            match time_sent_len.checked_add(a) {
                Some(x) => match x.checked_add(2) {
                    Some(y) => y,
                    None => {
                        return None;
                    },
                },
                None => {
                    return None;
                },
            }
        } else {
            time_sent_len
        };
        let window_margin = frontend_config.margin as usize + 1;
        let limit = width - window_margin * 2 - 1;
        let prefix = repeat_string(' ', prefix_len);
        let wrapped = wrap_text(self.payload.as_str(), limit, prefix.as_str());
        if wrapped.len() == 0 {
            return Some(Vec::new());
        }
        let username_alignment: usize = if frontend_config.username_shown
            && frontend_config.right_align_usernames {
            NAME_MAX_CHARACTERS.saturating_sub(str_width(self.author.as_str())) + 1
        } else {
            1
        };
        let ghost time_v: Option<Seq<char>> = opt_string_view(time_sent);
        let mut first_row: Vec<Span> = Vec::new();
        match &time_sent {
            Some(t) => {
                let s1 = Span::styled(t.as_str(), datetime_theme);
                let pad = repeat_string(' ', username_alignment);
                let s2 = Span::raw(pad.as_str());
                first_row.push(s1);
                first_row.push(s2);
                assert(spans_view(first_row@) =~= seq![s1@, s2@]);
            },
            None => {},
        }
        let ghost time_part = spans_view(first_row@);
        assert(time_part =~= match time_v {
            Some(text) => seq![(text, datetime_style(frontend_config.theme)), (repeat_char(' ', username_alignment as nat), plain_style())],
            None => Seq::<(Seq<char>, Style)>::empty(),
        });
        if frontend_config.username_shown {
            let s3 = Span::styled(self.author.as_str(), author_theme);
            let mut sep = String::new();
            push_char(&mut sep, ':');
            push_char(&mut sep, ' ');
            assert(sep@ =~= seq![':', ' ']);
            let s4 = Span::raw(sep.as_str());
            first_row.push(s3);
            first_row.push(s4);
            assert(spans_view(first_row@) =~= time_part + seq![s3@, s4@]);
        }
        proof {
            let l0 = wrapped@[0]@;
            assert(l0.take(prefix_len as int) =~= repeat_char(' ', prefix_len as nat));
            lemma_spaces_bytes(l0, prefix_len as nat);
        }
        let first_msg = match Self::split_off_prefix(wrapped[0].as_str(), prefix_len) {
            Some(m) => m,
            None => {
                return None;
            },
        };
        let ghost fm = first_msg@;
        let ghost wv = strings_view(wrapped@);
        let mut parts: Vec<String> = Vec::new();
        parts.push(first_msg);
        assert(strings_view(parts@) =~= seq![fm] + wv.subrange(1, 1));
        for i in 1..wrapped.len()
            invariant
                1 <= wrapped@.len(),
                wv == strings_view(wrapped@),
                strings_view(parts@) == seq![fm] + wv.subrange(1, i as int),
        {
            let ghost before = parts@;
            let w = wrapped[i].clone();
            parts.push(w);
            assert(strings_view(parts@) =~= strings_view(before).push(w@));
            assert(seq![fm] + wv.subrange(1, i + 1) =~= (seq![fm] + wv.subrange(1, i as int)).push(wv[i as int]));
        }
        assert(wv.subrange(1, wv.len() as int) =~= wv.drop_first());
        let total = match Self::total_bytes(&parts) {
            Some(t) => t,
            None => {
                return None;
            },
        };
        if total > usize::MAX - 3 {
            return None;
        }
        proof {
            assert(time_text(self.time_sent, frontend_config.show_datetimes, frontend_config.datetime_format@) == Some(time_v));
            assert(prefix_len == prefix_length(time_v, frontend_config.username_shown, self.author@));
            assert(username_alignment == alignment_spec(
                frontend_config.username_shown,
                frontend_config.right_align_usernames,
                self.author@,
            ));
            assert(spans_view(first_row@) =~= first_row_spec(
                time_v,
                username_alignment as nat,
                frontend_config.username_shown,
                self.author@,
                datetime_style(frontend_config.theme),
                author_style(self.system, author_color),
            ));
            assert(search_indices@ == search_indices_spec(self.payload@, opt_str_view(search_highlight)));
            assert(username_indices@ == name_indices_spec(self.payload@, opt_str_view(username_highlight)));
        }
        Some(
            Self::layout_rows(
                first_row,
                &parts,
                (search_indices.as_slice(), search_theme),
                (username_indices.as_slice(), username_theme),
                self.emotes.as_slice(),
            ),
        )
    }

    /// The text of `line` after its first `prefix_len` bytes; `None` when no
    /// character starts there.
    pub fn split_off_prefix(line: &str, prefix_len: usize) -> (r: Option<String>)
        ensures
            r is Some <==> is_boundary(line@, prefix_len as int),
            r matches Some(m) ==> m@ == suffix_from_byte(line@, prefix_len as int),
    {
        let chars = str_chars(line);
        let n = chars.len();
        let bytes_len = line.as_bytes().len();
        let mut k: usize = 0;
        let mut pos: usize = 0;
        assert(line@.take(0) =~= Seq::<char>::empty());
        assert(encode_utf8(Seq::<char>::empty()) =~= Seq::<u8>::empty());
        while k < n && pos < prefix_len
            invariant
                chars@ == line@,
                n == line@.len(),
                bytes_len == byte_len(line@),
                k <= n,
                pos == byte_offset(line@, k as int),
                forall|j: int| 0 <= j < k ==> byte_offset(line@, j) < prefix_len,
            decreases n - k,
        {
            proof {
                lemma_byte_offset_step(line@, k as int);
                lemma_byte_offset_mono(line@, k + 1, n as int);
            }
            pos = pos + utf8_width(chars[k]);
            k = k + 1;
        }
        if pos == prefix_len {
            assert forall|j: int| 0 <= j <= n && byte_offset(line@, j) == prefix_len implies j == k by {
                if j > k {
                    lemma_byte_offset_mono(line@, k as int, j);
                }
            }
            let mut m = String::new();
            let mut j = k;
            while j < n
                invariant
                    chars@ == line@,
                    n == line@.len(),
                    k <= j <= n,
                    m@ == line@.subrange(k as int, j as int),
                decreases n - j,
            {
                push_char(&mut m, chars[j]);
                assert(m@ =~= line@.subrange(k as int, j + 1));
                j = j + 1;
            }
            assert(m@ =~= line@.skip(k as int));
            Some(m)
        } else {
            assert forall|j: int| 0 <= j <= n implies byte_offset(line@, j) != prefix_len by {
                if j >= k {
                    lemma_byte_offset_mono(line@, k as int, j);
                    if k == n {
                        assert(line@.take(j) =~= line@.take(n as int));
                    }
                }
            }
            None
        }
    }

    /// The total bytes of `lines`, or `None` when it does not fit in `usize`.
    pub fn total_bytes(lines: &Vec<String>) -> (r: Option<usize>)
        ensures
            r matches Some(t) ==> t == lines_bytes(strings_view(lines@)),
            r is None ==> lines_bytes(strings_view(lines@)) > usize::MAX,
    {
        let ghost v = strings_view(lines@);
        let mut total: usize = 0;
        assert(v.take(0) =~= Seq::<Seq<char>>::empty());
        for i in 0..lines.len()
            invariant
                v == strings_view(lines@),
                total == lines_bytes(v.take(i as int)),
        {
            assert(v.take(i + 1).drop_last() =~= v.take(i as int));
            let n = lines[i].as_str().as_bytes().len();
            match total.checked_add(n) {
                Some(t) => {
                    total = t;
                },
                None => {
                    proof {
                        lemma_lines_bytes_prefix(v, i + 1);
                    }
                    return None;
                },
            }
        }
        assert(v.take(lines@.len() as int) =~= v);
        Some(total)
    }

    /// The rows of a message whose lines are `lines` (the first without its
    /// prefix), with `first_row` in front of the first. Byte offsets for the
    /// highlights count from the start of the first line; the emotes are used
    /// in order by the placeholders.
    pub fn layout_rows(
        first_row: Vec<Span>,
        lines: &Vec<String>,
        search_highlight: Highlight,
        username_highlight: Highlight,
        emotes: &[EmoteColors],
    ) -> (rows: Vec<Line>)
        requires
            non_decreasing(search_highlight.0@),
            non_decreasing(username_highlight.0@),
            lines_bytes(strings_view(lines@)) + 3 <= usize::MAX,
        ensures
            lines_view(rows@) == with_first_row(
                spans_view(first_row@),
                rows_spec(
                    strings_view(lines@),
                    (search_highlight.0@, search_highlight.1),
                    (username_highlight.0@, username_highlight.1),
                    emotes@,
                ).0,
            ),
    {
        let ghost v = strings_view(lines@);
        let ghost search = (search_highlight.0@, search_highlight.1);
        let ghost name = (username_highlight.0@, username_highlight.1);
        let ghost firstv = spans_view(first_row@);
        let mut rows: Vec<Line> = Vec::new();
        let mut next_index: usize = 0;
        let mut remaining: &[EmoteColors] = emotes;
        assert(v.take(0) =~= Seq::<Seq<char>>::empty());
        if lines.len() == 0 {
            return rows;
        }
        proof {
            assert(v.take(1).drop_last() =~= v.take(0));
            lemma_lines_bytes_prefix(v, 1);
        }
        let mut first = first_row;
        let mut spans = Self::build_line(
            lines[0].as_str(),
            &mut next_index,
            search_highlight,
            username_highlight,
            &mut remaining,
        );
        let ghost built = spans@;
        first.append(&mut spans);
        assert(spans_view(first@) =~= firstv + spans_view(built));
        let ghost r0 = rows_spec(v.take(0), search, name, emotes@);
        assert(r0 == (Seq::<Seq<(Seq<char>, Style)>>::empty(), 0int, emotes@));
        assert(v.take(1).last() == v[0]);
        let ghost r1 = rows_spec(v.take(1), search, name, emotes@);
        let ghost b0 = build_line_spec(v[0], 0, search, name, emotes@);
        assert(r1 == (r0.0.push(b0.0), b0.1, b0.2));
        assert(spans_view(built) == b0.0);
        let line0 = Line { spans: first };
        assert(line0@ == firstv + b0.0);
        rows.push(line0);
        assert(lines_view(rows@) =~= seq![line0@]);
        assert(lines_view(rows@) =~= with_first_row(firstv, rows_spec(v.take(1), search, name, emotes@).0));
        for i in 1..lines.len()
            invariant
                v == strings_view(lines@),
                lines_bytes(v) + 3 <= usize::MAX,
                non_decreasing(search_highlight.0@),
                non_decreasing(username_highlight.0@),
                search == (search_highlight.0@, search_highlight.1),
                name == (username_highlight.0@, username_highlight.1),
                ({
                    let r = rows_spec(v.take(i as int), search, name, emotes@);
                    &&& lines_view(rows@) == with_first_row(firstv, r.0)
                    &&& next_index == r.1
                    &&& remaining@ == r.2
                }),
        {
            let ghost before = rows@;
            proof {
                assert(v.take(i + 1).drop_last() =~= v.take(i as int));
                lemma_rows_end(v.take(i as int), search, name, emotes@);
                lemma_lines_bytes_prefix(v, i + 1);
            }
            let spans = Self::build_line(
                lines[i].as_str(),
                &mut next_index,
                search_highlight,
                username_highlight,
                &mut remaining,
            );
            let line = Line { spans };
            rows.push(line);
            assert(lines_view(rows@) =~= lines_view(before).push(line@));
            assert(lines_view(rows@) =~= with_first_row(firstv, rows_spec(v.take(i + 1), search, name, emotes@).0));
        }
        assert(v.take(lines@.len() as int) =~= v);
        rows
    }

    /// The spans of one wrapped line. A line that carries emote placeholders
    /// is split at zero width spaces: each placeholder piece takes the next
    /// emote's colours, each other piece is highlighted. `*start_index` moves
    /// past the line's bytes and `*emotes` past the emotes used.
    pub fn build_line(
        line: &str,
        start_index: &mut usize,
        search_highlight: Highlight,
        username_highlight: Highlight,
        emotes: &mut &[EmoteColors],
    ) -> (spans: Vec<Span>)
        requires
            non_decreasing(search_highlight.0@),
            non_decreasing(username_highlight.0@),
            *old(start_index) + byte_len(line@) + (if is_plain_line(line@, old(emotes)@) {
                0int
            } else {
                3int
            }) <= usize::MAX,
        ensures
            ({
                let r = build_line_spec(
                    line@,
                    *old(start_index) as int,
                    (search_highlight.0@, search_highlight.1),
                    (username_highlight.0@, username_highlight.1),
                    old(emotes)@,
                );
                &&& spans_view(spans@) == r.0
                &&& *final(start_index) == r.1
                &&& final(emotes)@ == r.2
            }),
            *final(start_index) == *old(start_index) + byte_len(line@),
    {
        let ghost search = (search_highlight.0@, search_highlight.1);
        let ghost name = (username_highlight.0@, username_highlight.1);
        let ghost start0 = *start_index as int;
        let ghost emotes0 = emotes@;
        proof {
            lemma_zero_width_space_width();
        }
        let zws = zero_width_space_string();
        let starts = !line.is_empty() && line.get_char(0) == PRIVATE_USE_UNICODE;
        if emotes.len() == 0 || (!starts && find_bytes(line.as_bytes(), zws.as_str().as_bytes()).is_none()) {
            return Self::highlight(line, start_index, search_highlight, username_highlight);
        }
        let segs = split_by_char(line, ZERO_WIDTH_SPACE);
        let ghost pieces = strings_view(segs@);
        proof {
            lemma_split_bytes(line@, ZERO_WIDTH_SPACE);
        }
        let mut spans: Vec<Span> = Vec::new();
        assert(pieces.take(0) =~= Seq::<Seq<char>>::empty());
        for i in 0..segs.len()
            invariant
                pieces == strings_view(segs@),
                pieces == split_chars(line@, ZERO_WIDTH_SPACE),
                pieces_bytes(pieces, ZERO_WIDTH_SPACE) == byte_len(line@) + 3,
                start0 + byte_len(line@) + 3 <= usize::MAX,
                char_width(ZERO_WIDTH_SPACE) == 3,
                non_decreasing(search_highlight.0@),
                non_decreasing(username_highlight.0@),
                search == (search_highlight.0@, search_highlight.1),
                name == (username_highlight.0@, username_highlight.1),
                ({
                    let r = segments_spec(pieces.take(i as int), start0, search, name, emotes0);
                    &&& spans_view(spans@) == r.0
                    &&& *start_index == r.1
                    &&& emotes@ == r.2
                }),
        {
            let ghost prefix = pieces.take(i as int);
            assert(pieces.take(i + 1).drop_last() =~= prefix);
            assert(pieces.take(i + 1).last() == pieces[i as int]);
            proof {
                lemma_segments_end(prefix, start0, search, name, emotes0);
                lemma_segments_end(pieces.take(i + 1), start0, search, name, emotes0);
                lemma_pieces_bytes_prefix(pieces, ZERO_WIDTH_SPACE, i + 1);
            }
            let seg = segs[i].as_str();
            assert(seg@ == pieces[i as int]);
            let ghost before = spans@;
            if !seg.is_empty() && seg.get_char(0) == PRIVATE_USE_UNICODE {
                *start_index = *start_index + seg.as_bytes().len();
                let sp = Self::get_emote_span(seg, emotes);
                spans.push(sp);
                assert(spans_view(spans@) =~= spans_view(before).push(sp@));
            } else {
                let mut hs = Self::highlight(seg, start_index, search_highlight, username_highlight);
                let ghost added = hs@;
                spans.append(&mut hs);
                assert(spans@ =~= before + added);
                assert(spans_view(spans@) =~= spans_view(before) + spans_view(added));
            }
            *start_index = *start_index + 3;
        }
        assert(pieces.take(segs.len() as int) =~= pieces);
        proof {
            lemma_segments_end(pieces, start0, search, name, emotes0);
        }
        *start_index = start_index.saturating_sub(3);
        spans
    }
}


/// An emote that was loaded: its id, its placement id and its width in pixels.
#[derive(Debug, Clone, Copy, PartialEq, Eq, Structural)]
pub struct EmoteData {
    pub id: u32,
    pub pid: u32,
    pub width: u32,
}

/// A word of a message: plain text, or an emote with the emotes overlaid on it.
#[derive(Debug, Clone, PartialEq, Eq)]
pub enum Word {
    Emote(Vec<EmoteData>),
    Text(String),
}

/// The contents of a word.
pub enum WordView {
    Emote(Seq<EmoteData>),
    Text(Seq<char>),
}

impl View for Word {
    type V = WordView;

    open spec fn view(&self) -> WordView {
        match self {
            Word::Emote(v) => WordView::Emote(v@),
            Word::Text(s) => WordView::Text(s@),
        }
    }
}

/// The views of a sequence of words.
pub open spec fn words_view(v: Seq<Word>) -> Seq<WordView> {
    v.map_values(|w: Word| w@)
}

/// The words after `word` is added: text unless an emote was loaded for it;
/// an overlay emote joins the emote word before it, if there is one.
pub open spec fn push_word_spec(
    words: Seq<WordView>,
    word: Seq<char>,
    loaded: Option<(EmoteData, bool)>,
) -> Seq<WordView> {
    match loaded {
        None => words.push(WordView::Text(word)),
        Some((e, overlay)) => if overlay && words.len() > 0 && words.last() is Emote {
            words.update(words.len() - 1, WordView::Emote(words.last()->Emote_0.push(e)))
        } else {
            words.push(WordView::Emote(seq![e]))
        },
    }
}

/// A piece of a rebuilt payload: text, or an emote shown with its colours and
/// the placeholder text that stands for it.
#[derive(Debug, PartialEq, Eq)]
pub enum Piece {
    Text(String),
    Emote(EmoteColors, String),
}

/// The contents of a piece.
pub enum PieceView {
    Text(Seq<char>),
    Emote(EmoteColors, Seq<char>),
}

impl View for Piece {
    type V = PieceView;

    open spec fn view(&self) -> PieceView {
        match self {
            Piece::Text(s) => PieceView::Text(s@),
            Piece::Emote(c, s) => PieceView::Emote(*c, s@),
        }
    }
}

/// The views of a sequence of pieces.
pub open spec fn pieces_view(v: Seq<Piece>) -> Seq<PieceView> {
    v.map_values(|p: Piece| p@)
}

/// `payload` with a text word added: after a space, or after a zero width
/// space when the payload ends in a placeholder character.
pub open spec fn append_text_spec(payload: Seq<char>, s: Seq<char>) -> Seq<char> {
    if payload.len() == 0 {
        s
    } else if payload.last() == PRIVATE_USE_UNICODE {
        payload.push(ZERO_WIDTH_SPACE) + s
    } else {
        payload.push(' ') + s
    }
}

/// `payload` with an emote placeholder added, after a zero width space.
pub open spec fn append_emote_spec(payload: Seq<char>, placeholder: Seq<char>) -> Seq<char> {
    if payload.len() == 0 {
        placeholder
    } else {
        payload.push(ZERO_WIDTH_SPACE) + placeholder
    }
}

/// The payload and emote colours after the pieces are joined onto an empty
/// payload and the colours `emotes`.
pub open spec fn join_pieces(pieces: Seq<PieceView>, emotes: Seq<EmoteColors>) -> (
    Seq<char>,
    Seq<EmoteColors>,
)
    decreases pieces.len(),
{
    if pieces.len() == 0 {
        (seq![], emotes)
    } else {
        let prev = join_pieces(pieces.drop_last(), emotes);
        match pieces.last() {
            PieceView::Text(s) => (append_text_spec(prev.0, s), prev.1),
            PieceView::Emote(c, ph) => (append_emote_spec(prev.0, ph), prev.1.push(c)),
        }
    }
}

/// The view of what showing each word gave.
pub open spec fn shown_view(v: Seq<Option<(EmoteColors, String)>>) -> Seq<Option<(EmoteColors, Seq<char>)>> {
    v.map_values(
        |o: Option<(EmoteColors, String)>|
            match o {
                Some((c, ph)) => Some((c, ph@)),
                None => None,
            },
    )
}

/// The pieces of a rebuilt payload: each text word as text; each emote word
/// that was shown as its colours and placeholder; an emote word that could
/// not be shown is left out.
pub open spec fn words_to_pieces_spec(
    words: Seq<WordView>,
    shown: Seq<Option<(EmoteColors, Seq<char>)>>,
) -> Seq<PieceView>
    decreases words.len(),
{
    if words.len() == 0 {
        seq![]
    } else {
        let prev = words_to_pieces_spec(words.drop_last(), shown.drop_last());
        match words.last() {
            WordView::Text(s) => prev.push(PieceView::Text(s)),
            WordView::Emote(_) => match shown.last() {
                Some((c, ph)) => prev.push(PieceView::Emote(c, ph)),
                None => prev,
            },
        }
    }
}

impl MessageData {
    /// Adds a word to `words` (see `push_word_spec`).
    pub fn push_word(words: &mut Vec<Word>, word: &str, loaded: Option<(EmoteData, bool)>)
        ensures
            words_view(final(words)@) == push_word_spec(words_view(old(words)@), word@, loaded),
    {
        let ghost before = words_view(words@);
        match loaded {
            None => {
                let w = Word::Text(word.to_owned());
                words.push(w);
                assert(words_view(words@) =~= before.push(w@));
            },
            Some((e, overlay)) => {
                let n = words.len();
                if overlay && n > 0 {
                    match words.pop() {
                        Some(Word::Emote(mut v)) => {
                            let ghost old_v = v@;
                            v.push(e);
                            let w = Word::Emote(v);
                            words.push(w);
                            assert(words_view(words@) =~= before.update(n - 1, WordView::Emote(old_v.push(e))));
                            return;
                        },
                        Some(other) => {
                            words.push(other);
                            assert(words_view(words@) =~= before);
                        },
                        None => {},
                    }
                }
                let mut v: Vec<EmoteData> = Vec::new();
                v.push(e);
                let w = Word::Emote(v);
                let ghost mid = words_view(words@);
                words.push(w);
                assert(w@ == WordView::Emote(seq![e]));
                assert(words_view(words@) =~= mid.push(w@));
            },
        }
    }

    /// The pieces of a rebuilt payload from its words and, for each emote
    /// word, its colours and placeholder when it could be shown (see
    /// `words_to_pieces_spec`; entries for text words are not read).
    pub fn words_to_pieces(words: &Vec<Word>, shown: &Vec<Option<(EmoteColors, String)>>) -> (pieces: Vec<Piece>)
        requires
            words@.len() == shown@.len(),
        ensures
            pieces_view(pieces@) == words_to_pieces_spec(words_view(words@), shown_view(shown@)),
    {
        let ghost wv = words_view(words@);
        let ghost sv = shown_view(shown@);
        let mut pieces: Vec<Piece> = Vec::new();
        assert(wv.take(0) =~= Seq::<WordView>::empty());
        for i in 0..words.len()
            invariant
                words@.len() == shown@.len(),
                wv == words_view(words@),
                sv == shown_view(shown@),
                pieces_view(pieces@) == words_to_pieces_spec(wv.take(i as int), sv.take(i as int)),
        {
            assert(wv.take(i + 1).drop_last() =~= wv.take(i as int));
            assert(sv.take(i + 1).drop_last() =~= sv.take(i as int));
            assert(wv.take(i + 1).last() == words@[i as int]@);
            assert(sv.take(i + 1).last() == sv[i as int]);
            let ghost before = pieces@;
            match &words[i] {
                Word::Text(s) => {
                    let p = Piece::Text(s.clone());
                    pieces.push(p);
                    assert(pieces_view(pieces@) =~= pieces_view(before).push(p@));
                },
                Word::Emote(_) => {
                    match &shown[i] {
                        Some((c, ph)) => {
                            let p = Piece::Emote(*c, ph.clone());
                            pieces.push(p);
                            assert(pieces_view(pieces@) =~= pieces_view(before).push(p@));
                        },
                        None => {},
                    }
                },
            }
        }
        assert(wv.take(words@.len() as int) =~= wv);
        assert(sv.take(words@.len() as int) =~= sv);
        pieces
    }

    /// The widest of an emote and its overlays.
    pub fn max_width(emotes: &Vec<EmoteData>) -> (w: u32)
        requires
            emotes@.len() > 0,
        ensures
            exists|i: int| 0 <= i < emotes@.len() && emotes@[i].width == w,
            forall|i: int| 0 <= i < emotes@.len() ==> emotes@[i].width <= w,
    {
        let mut best = emotes[0].width;
        for i in 1..emotes.len()
            invariant
                emotes@.len() > 0,
                exists|j: int| 0 <= j < emotes@.len() && emotes@[j].width == best,
                forall|j: int| 0 <= j < i ==> emotes@[j].width <= best,
        {
            if emotes[i].width > best {
                best = emotes[i].width;
            }
        }
        best
    }

    /// The words of the payload, split at every space.
    pub fn payload_words(&self) -> (words: Vec<String>)
        ensures
            strings_view(words@) == split_chars(self.payload@, ' '),
    {
        split_by_char(self.payload.as_str(), ' ')
    }

    /// Replaces the payload with the pieces joined (see `join_pieces`); each
    /// emote's colours are added to `emotes`.
    pub fn assemble_payload(&mut self, pieces: &Vec<Piece>)
        ensures
            ({
                let r = join_pieces(pieces_view(pieces@), old(self).emotes@);
                &&& final(self).payload@ == r.0
                &&& final(self).emotes@ == r.1
            }),
            final(self).time_sent == old(self).time_sent,
            final(self).author == old(self).author,
            final(self).user_id == old(self).user_id,
            final(self).system == old(self).system,
            final(self).message_id == old(self).message_id,
    {
        let ghost pv = pieces_view(pieces@);
        let ghost emotes0 = self.emotes@;
        self.payload = String::new();
        assert(pv.take(0) =~= Seq::<PieceView>::empty());
        for i in 0..pieces.len()
            invariant
                pv == pieces_view(pieces@),
                ({
                    let r = join_pieces(pv.take(i as int), emotes0);
                    &&& self.payload@ == r.0
                    &&& self.emotes@ == r.1
                }),
                self.time_sent == old(self).time_sent,
                self.author == old(self).author,
                self.user_id == old(self).user_id,
                self.system == old(self).system,
                self.message_id == old(self).message_id,
        {
            assert(pv.take(i + 1).drop_last() =~= pv.take(i as int));
            assert(pv.take(i + 1).last() == pieces@[i as int]@);
            match &pieces[i] {
                Piece::Text(s) => self.append_text_word(s.as_str()),
                Piece::Emote(c, ph) => self.append_emote_word(*c, ph.as_str()),
            }
        }
        assert(pv.take(pieces@.len() as int) =~= pv);
    }

    /// Adds a text word to the payload (see `append_text_spec`).
    pub fn append_text_word(&mut self, s: &str)
        ensures
            final(self).payload@ == append_text_spec(old(self).payload@, s@),
            final(self).emotes == old(self).emotes,
            final(self).time_sent == old(self).time_sent,
            final(self).author == old(self).author,
            final(self).user_id == old(self).user_id,
            final(self).system == old(self).system,
            final(self).message_id == old(self).message_id,
    {
        if !self.payload.as_str().is_empty() {
            let last = last_char(self.payload.as_str());
            if last == PRIVATE_USE_UNICODE {
                push_char(&mut self.payload, ZERO_WIDTH_SPACE);
            } else {
                push_char(&mut self.payload, ' ');
            }
        }
        self.payload.append(s);
    }

    /// Adds an emote: its colours to `emotes`, its placeholder to the payload
    /// (see `append_emote_spec`).
    pub fn append_emote_word(&mut self, colors: EmoteColors, placeholder: &str)
        ensures
            final(self).payload@ == append_emote_spec(old(self).payload@, placeholder@),
            final(self).emotes@ == old(self).emotes@.push(colors),
            final(self).time_sent == old(self).time_sent,
            final(self).author == old(self).author,
            final(self).user_id == old(self).user_id,
            final(self).system == old(self).system,
            final(self).message_id == old(self).message_id,
    {
        self.emotes.push(colors);
        if !self.payload.as_str().is_empty() {
            push_char(&mut self.payload, ZERO_WIDTH_SPACE);
        }
        self.payload.append(placeholder);
    }
}

/// The last character of a non-empty string.
fn last_char(s: &str) -> (c: char)
    requires
        s@.len() > 0,
    ensures
        c == s@.last(),
{
    let chars = str_chars(s);
    chars[chars.len() - 1]
}

/// Sum of the bytes of `b`.
pub open spec fn byte_sum(b: Seq<u8>) -> int
    decreases b.len(),
{
    if b.len() == 0 {
        0
    } else {
        byte_sum(b.drop_last()) + b.last()
    }
}

impl MessageData {
    /// A message sent at `time_sent`, with no emotes yet. The clock is read
    /// by the caller.
    pub fn new(
        time_sent: Timestamp,
        author: String,
        user_id: Option<String>,
        system: bool,
        payload: String,
        message_id: Option<String>,
    ) -> (m: Self)
        ensures
            m.time_sent == time_sent,
            m.author == author,
            m.user_id == user_id,
            m.system == system,
            m.payload == payload,
            m.message_id == message_id,
            m.emotes@.len() == 0,
    {
        MessageData { time_sent, author, user_id, system, payload, emotes: Vec::new(), message_id }
    }

    /// The sum of the bytes of the author's name, which picks the name's colour.
    pub fn author_hash(&self) -> (h: u32)
        requires
            byte_sum(encode_utf8(self.author@)) <= u32::MAX,
        ensures
            h == byte_sum(encode_utf8(self.author@)),
    {
        let bytes = self.author.as_str().as_bytes();
        let mut sum: u32 = 0;
        assert(bytes@.take(0) =~= Seq::<u8>::empty());
        for i in 0..bytes.len()
            invariant
                bytes@ == encode_utf8(self.author@),
                byte_sum(bytes@) <= u32::MAX,
                sum == byte_sum(bytes@.take(i as int)),
        {
            assert(bytes@.take(i + 1).drop_last() =~= bytes@.take(i as int));
            proof {
                lemma_byte_sum_prefix(bytes@, i + 1);
            }
            sum = sum + bytes[i] as u32;
        }
        assert(bytes@.take(bytes@.len() as int) =~= bytes@);
        sum
    }
}

/// The sum of a prefix of the bytes never exceeds the sum of all of them.
pub proof fn lemma_byte_sum_prefix(b: Seq<u8>, i: int)
    requires
        0 <= i <= b.len(),
    ensures
        byte_sum(b.take(i)) <= byte_sum(b),
    decreases b.len() - i,
{
    if i < b.len() {
        lemma_byte_sum_prefix(b, i + 1);
        assert(b.take(i + 1).drop_last() =~= b.take(i));
    } else {
        assert(b.take(i) =~= b);
    }
}

/// What the chat connection hands to the terminal.
#[derive(Debug, Clone, PartialEq, Eq)]
pub enum TwitchToTerminalAction {
    Message(MessageData),
    ClearChat(Option<String>),
    DeleteMessage(String),
}

/// Builds the messages the chat connection produces.
#[derive(Debug, Copy, Clone)]
pub struct DataBuilder<'conf> {
    pub datetime_format: &'conf str,
}

impl<'conf> DataBuilder<'conf> {
    /// A builder for messages shown with `datetime_format`.
    pub fn new(datetime_format: &'conf str) -> (b: Self)
        ensures
            b.datetime_format == datetime_format,
    {
        DataBuilder { datetime_format }
    }

    /// A message from a chat user, sent at `time_sent`.
    pub fn user(
        time_sent: Timestamp,
        user: String,
        user_id: Option<String>,
        payload: String,
        message_id: Option<String>,
    ) -> (action: TwitchToTerminalAction)
        ensures
            action matches TwitchToTerminalAction::Message(m) && m.time_sent == time_sent
                && m.author == user && m.user_id
                == user_id && !m.system && m.payload == payload && m.message_id == message_id
                && m.emotes@.len() == 0,
    {
        TwitchToTerminalAction::Message(
            MessageData::new(time_sent, user, user_id, false, payload, message_id),
        )
    }

    /// A message from this client, signed "System", sent at `time_sent`.
    pub fn system(self, time_sent: Timestamp, payload: String) -> (action: TwitchToTerminalAction)
        ensures
            action matches TwitchToTerminalAction::Message(m) && m.time_sent == time_sent
                && m.author@ == seq![
                'S',
                'y',
                's',
                't',
                'e',
                'm',
            ] && m.user_id is None && m.system && m.payload == payload && m.message_id is None
                && m.emotes@.len() == 0,
    {
        proof {
            reveal_strlit("System");
        }
        TwitchToTerminalAction::Message(
            MessageData::new(time_sent, String::from_str("System"), None, true, payload, None),
        )
    }

    /// A notice from Twitch, signed "Twitch", sent at `time_sent`.
    pub fn twitch(self, time_sent: Timestamp, payload: String) -> (action: TwitchToTerminalAction)
        ensures
            action matches TwitchToTerminalAction::Message(m) && m.time_sent == time_sent
                && m.author@ == seq![
                'T',
                'w',
                'i',
                't',
                'c',
                'h',
            ] && m.user_id is None && m.system && m.payload == payload && m.message_id is None
                && m.emotes@.len() == 0,
    {
        proof {
            reveal_strlit("Twitch");
        }
        TwitchToTerminalAction::Message(
            MessageData::new(time_sent, String::from_str("Twitch"), None, true, payload, None),
        )
    }
}

} // verus!
