//! Properties of message layout that span several functions.

use vstd::prelude::*;

use crate::bindings::{occurs_at, wrapped_lines};
use crate::message::{
    EmoteColors, MessageData, PieceView, PRIVATE_USE_UNICODE, ZERO_WIDTH_SPACE, append_text_spec,
    build_line_spec, char_spans, emote_span_spec, highlight_spec, is_plain_line, join_pieces,
    lemma_rows_end, match_ranges, name_indices_spec, no_highlights, prefix_length, range_seq,
    rows_spec, search_indices_spec, segments_spec, starts_with_placeholder, suffix_from_byte,
    time_text, to_vec_spec, wrap_limit, WordView, EmoteData, push_word_spec, non_decreasing,
    in_highlight, emote_style, first_row_spec, alignment_spec, author_style, lemma_build_line_end,
};
use crate::style::Style;
use crate::text::{
    split_chars, lemma_split_nonempty, repeat_char, byte_len, byte_offset, lemma_byte_offset_mono,
};

verus! {

/// The text of a sequence of spans, in order.
pub open spec fn span_text(spans: Seq<(Seq<char>, Style)>) -> Seq<char>
    decreases spans.len(),
{
    if spans.len() == 0 {
        seq![]
    } else {
        span_text(spans.drop_last()) + spans.last().0
    }
}

/// The pieces of a split, put back together without separators.
pub open spec fn joined(pieces: Seq<Seq<char>>) -> Seq<char>
    decreases pieces.len(),
{
    if pieces.len() == 0 {
        seq![]
    } else {
        joined(pieces.drop_last()) + pieces.last()
    }
}

/// `s` without the character `c`.
pub open spec fn without_char(s: Seq<char>, c: char) -> Seq<char>
    decreases s.len(),
{
    if s.len() == 0 {
        seq![]
    } else {
        let r = without_char(s.drop_last(), c);
        if s.last() == c {
            r
        } else {
            r.push(s.last())
        }
    }
}

/// The text of two runs of spans is the text of each, one after the other.
pub proof fn lemma_span_text_concat(a: Seq<(Seq<char>, Style)>, b: Seq<(Seq<char>, Style)>)
    ensures
        span_text(a + b) == span_text(a) + span_text(b),
    decreases b.len(),
{
    if b.len() == 0 {
        assert(a + b =~= a);
        assert(span_text(a) + span_text(b) =~= span_text(a));
    } else {
        lemma_span_text_concat(a, b.drop_last());
        assert((a + b).drop_last() =~= a + b.drop_last());
        assert(span_text(a) + span_text(b) =~= span_text(a) + span_text(b.drop_last()) + b.last().0);
    }
}

/// Spans holding one character each, in order, spell out the text.
pub proof fn lemma_single_char_spans(spans: Seq<(Seq<char>, Style)>, line: Seq<char>)
    requires
        spans.len() == line.len(),
        forall|k: int| 0 <= k < line.len() ==> #[trigger] spans[k].0 == seq![line[k]],
    ensures
        span_text(spans) == line,
    decreases line.len(),
{
    if line.len() == 0 {
        assert(line =~= Seq::<char>::empty());
    } else {
        let sl = spans.drop_last();
        let ll = line.drop_last();
        assert forall|k: int| 0 <= k < ll.len() implies #[trigger] sl[k].0 == seq![ll[k]] by {
            assert(spans[k].0 == seq![line[k]]);
        }
        lemma_single_char_spans(sl, ll);
        assert(spans.last().0 == seq![line.last()]);
        assert(line =~= ll + seq![line.last()]);
    }
}

/// Highlighting a line only styles it: the spans spell out the line, and
/// each is plain or in one of the two highlight styles.
pub proof fn lemma_highlight_keeps_text(
    line: Seq<char>,
    offset: int,
    search: (Seq<usize>, Style),
    name: (Seq<usize>, Style),
)
    ensures
        span_text(highlight_spec(line, offset, search, name)) == line,
        forall|k: int|
            0 <= k < highlight_spec(line, offset, search, name).len() ==> {
                let st = #[trigger] highlight_spec(line, offset, search, name)[k].1;
                st == crate::style::plain_style() || st == search.1 || st == name.1
            },
{
    let end = offset + crate::text::byte_len(line);
    if no_highlights(search.0, offset, end) && no_highlights(name.0, offset, end) {
        let s = seq![(line, crate::style::plain_style())];
        assert(s.drop_last() =~= Seq::<(Seq<char>, Style)>::empty());
        assert(span_text(Seq::<(Seq<char>, Style)>::empty()) =~= Seq::<char>::empty());
        assert(span_text(s) == span_text(s.drop_last()) + line);
        assert(span_text(s) =~= line);
    } else {
        let spans = char_spans(line, offset, search, name);
        lemma_single_char_spans(spans, line);
    }
}

/// Splitting and joining back drops exactly the separators.
pub proof fn lemma_split_joined(s: Seq<char>, sep: char)
    ensures
        joined(split_chars(s, sep)) == without_char(s, sep),
    decreases s.len(),
{
    if s.len() == 0 {
        let p = split_chars(s, sep);
        assert(p.drop_last() =~= Seq::<Seq<char>>::empty());
        assert(joined(Seq::<Seq<char>>::empty()) =~= Seq::<char>::empty());
        assert(p.last() =~= Seq::<char>::empty());
        assert(joined(p) == joined(p.drop_last()) + p.last());
        assert(s =~= Seq::<char>::empty());
        assert(joined(p) =~= Seq::<char>::empty());
    } else {
        lemma_split_joined(s.drop_last(), sep);
        lemma_split_nonempty(s.drop_last(), sep);
        let init = split_chars(s.drop_last(), sep);
        let p = split_chars(s, sep);
        if s.last() == sep {
            assert(p.drop_last() =~= init);
            assert(joined(p) =~= joined(init));
        } else {
            assert(p.drop_last() =~= init.drop_last());
            assert(joined(init) == joined(init.drop_last()) + init.last());
            assert(joined(p) =~= joined(init).push(s.last()));
        }
    }
}

/// Laying out pieces keeps their text and uses emotes from the front.
pub proof fn lemma_segments_text(
    segs: Seq<Seq<char>>,
    start: int,
    search: (Seq<usize>, Style),
    name: (Seq<usize>, Style),
    emotes: Seq<EmoteColors>,
)
    ensures
        span_text(segments_spec(segs, start, search, name, emotes).0) == joined(segs),
        segments_spec(segs, start, search, name, emotes).2.len() <= emotes.len(),
        segments_spec(segs, start, search, name, emotes).2 == emotes.skip(
            emotes.len() - segments_spec(segs, start, search, name, emotes).2.len(),
        ),
    decreases segs.len(),
{
    if segs.len() == 0 {
        assert(span_text(Seq::<(Seq<char>, Style)>::empty()) =~= Seq::<char>::empty());
        assert(emotes.skip(0) =~= emotes);
    } else {
        lemma_segments_text(segs.drop_last(), start, search, name, emotes);
        let prev = segments_spec(segs.drop_last(), start, search, name, emotes);
        let seg = segs.last();
        if starts_with_placeholder(seg) {
            let e = emote_span_spec(seg, prev.2);
            assert(prev.0.push(e.0).drop_last() =~= prev.0);
            if prev.2.len() > 0 {
                assert(prev.2.drop_first() =~= emotes.skip(emotes.len() - prev.2.len() + 1));
            }
        } else {
            lemma_span_text_concat(prev.0, highlight_spec(seg, prev.1, search, name));
            lemma_highlight_keeps_text(seg, prev.1, search, name);
        }
    }
}

/// A laid-out line spells out the line, less its zero width spaces when it
/// carries emotes; the emotes left are what follows the ones it used.
pub proof fn lemma_build_line_text(
    line: Seq<char>,
    start: int,
    search: (Seq<usize>, Style),
    name: (Seq<usize>, Style),
    emotes: Seq<EmoteColors>,
)
    ensures
        span_text(build_line_spec(line, start, search, name, emotes).0) == if is_plain_line(
            line,
            emotes,
        ) {
            line
        } else {
            without_char(line, ZERO_WIDTH_SPACE)
        },
        build_line_spec(line, start, search, name, emotes).2.len() <= emotes.len(),
        build_line_spec(line, start, search, name, emotes).2 == emotes.skip(
            emotes.len() - build_line_spec(line, start, search, name, emotes).2.len(),
        ),
{
    if is_plain_line(line, emotes) {
        lemma_highlight_keeps_text(line, start, search, name);
        assert(emotes.skip(0) =~= emotes);
    } else {
        let segs = split_chars(line, ZERO_WIDTH_SPACE);
        lemma_segments_text(segs, start, search, name, emotes);
        lemma_split_joined(line, ZERO_WIDTH_SPACE);
    }
}

/// Byte `x` lies inside some occurrence of `needle` in `hay`.
pub open spec fn in_occurrence(hay: Seq<u8>, needle: Seq<u8>, x: int) -> bool {
    exists|p: int| occurs_at(hay, needle, p) && p <= x < p + needle.len()
}

/// Each highlighted byte of a user name lies in an occurrence of the name.
pub proof fn lemma_match_ranges_in_occurrence(hay: Seq<u8>, needle: Seq<u8>, pos: int)
    requires
        0 <= pos,
        hay.len() <= usize::MAX,
    ensures
        forall|i: int|
            0 <= i < match_ranges(hay, needle, pos).len() ==> in_occurrence(
                hay,
                needle,
                #[trigger] match_ranges(hay, needle, pos)[i] as int,
            ),
    decreases hay.len() - pos,
{
    let m = match_ranges(hay, needle, pos);
    if needle.len() == 0 || pos < 0 || pos + needle.len() > hay.len() {
        assert(m.len() == 0);
    } else if hay.subrange(pos, pos + needle.len()) == needle {
        let end = pos + needle.len();
        lemma_match_ranges_in_occurrence(hay, needle, end);
        let r = range_seq(pos, end);
        let rest = match_ranges(hay, needle, end);
        assert(m == r + rest);
        assert forall|i: int| 0 <= i < m.len() implies in_occurrence(hay, needle, #[trigger] m[i] as int) by {
            if i < r.len() {
                assert(occurs_at(hay, needle, pos));
                assert(m[i] == pos + i);
            } else {
                assert(m[i] == rest[i - r.len()]);
            }
        }
    } else {
        lemma_match_ranges_in_occurrence(hay, needle, pos + 1);
        let m1 = match_ranges(hay, needle, pos + 1);
        assert(m == m1);
        assert forall|i: int| 0 <= i < m.len() implies in_occurrence(hay, needle, #[trigger] m[i] as int) by {
            assert(m[i] == m1[i]);
        }
    }
}

/// Laying out lines gives one row per line.
pub proof fn lemma_rows_count(
    lines: Seq<Seq<char>>,
    search: (Seq<usize>, Style),
    name: (Seq<usize>, Style),
    emotes: Seq<EmoteColors>,
)
    ensures
        rows_spec(lines, search, name, emotes).0.len() == lines.len(),
{
    lemma_rows_end(lines, search, name, emotes);
}

/// A message takes one row per line that the text wraps into (textwrap
/// always gives at least one line; see `wrap_text`).
pub proof fn lemma_to_vec_one_row_per_line(
    msg: MessageData,
    config: crate::theme::FrontendConfig,
    width: usize,
    search: Option<Seq<char>>,
    name: Option<Seq<char>>,
    author_color: crate::style::Color,
)
    requires
        to_vec_spec(msg, config, width, search, name, author_color) is Some,
        ({
            let time = time_text(msg.time_sent, config.show_datetimes, config.datetime_format@)->0;
            let plen = prefix_length(time, config.username_shown, msg.author@);
            wrapped_lines(
                msg.payload@,
                wrap_limit(width, config.margin) as usize,
                repeat_char(' ', plen as nat),
            ).len() >= 1
        }),
    ensures
        ({
            let time = time_text(msg.time_sent, config.show_datetimes, config.datetime_format@)->0;
            let plen = prefix_length(time, config.username_shown, msg.author@);
            to_vec_spec(msg, config, width, search, name, author_color)->0.len() == wrapped_lines(
                msg.payload@,
                wrap_limit(width, config.margin) as usize,
                repeat_char(' ', plen as nat),
            ).len()
        }),
{
    let time = time_text(msg.time_sent, config.show_datetimes, config.datetime_format@)->0;
    let plen = prefix_length(time, config.username_shown, msg.author@);
    let lines = wrapped_lines(
        msg.payload@,
        wrap_limit(width, config.margin) as usize,
        repeat_char(' ', plen as nat),
    );
    if lines.len() > 0 {
        let parts = seq![suffix_from_byte(lines[0], plen)] + lines.drop_first();
        lemma_rows_count(
            parts,
            (search_indices_spec(msg.payload@, search), crate::theme::search_style()),
            (name_indices_spec(msg.payload@, name), crate::theme::name_highlight_style(config.theme)),
            msg.emotes@,
        );
    }
}

/// Pieces that are all text.
pub open spec fn text_pieces(words: Seq<Seq<char>>) -> Seq<PieceView> {
    words.map_values(|w: Seq<char>| PieceView::Text(w))
}

/// No word of `s` ends in the emote placeholder character: none stands
/// right before a space.
pub open spec fn no_placeholder_before_space(s: Seq<char>) -> bool {
    forall|i: int| 0 <= i < s.len() - 1 && s[i + 1] == ' ' ==> #[trigger] s[i] != PRIVATE_USE_UNICODE
}

/// Rebuilding a payload from its words alone, none of them an emote, gives
/// the payload back, when it starts with no space and no word but the last
/// ends in the placeholder character; the emote colours are untouched.
pub proof fn lemma_text_words_rejoin(s: Seq<char>, emotes: Seq<EmoteColors>)
    requires
        s.len() > 0 ==> s[0] != ' ',
        no_placeholder_before_space(s),
    ensures
        join_pieces(text_pieces(split_chars(s, ' ')), emotes) == (s, emotes),
    decreases s.len(),
{
    let p = split_chars(s, ' ');
    if s.len() == 0 {
        assert(text_pieces(p).drop_last() =~= Seq::<PieceView>::empty());
        assert(s =~= Seq::<char>::empty());
        assert(text_pieces(p).last() == PieceView::Text(Seq::<char>::empty()));
        let j0 = join_pieces(Seq::<PieceView>::empty(), emotes);
        assert(j0 == (Seq::<char>::empty(), emotes));
        assert(join_pieces(text_pieces(p), emotes) == (append_text_spec(j0.0, Seq::<char>::empty()), emotes));
    } else {
        let init = split_chars(s.drop_last(), ' ');
        let c = s.last();
        lemma_split_nonempty(s.drop_last(), ' ');
        lemma_text_words_rejoin(s.drop_last(), emotes);
        let jp = join_pieces(text_pieces(init), emotes);
        assert(jp == (s.drop_last(), emotes));
        if c == ' ' {
            assert(text_pieces(p).drop_last() =~= text_pieces(init));
            assert(s.len() > 1);
            assert(s[s.len() - 1] == ' ');
            assert(s.drop_last().last() == s[s.len() - 2]);
            assert(s.drop_last().last() != PRIVATE_USE_UNICODE);
            assert(text_pieces(p).last() == PieceView::Text(Seq::<char>::empty()));
            assert(s =~= s.drop_last().push(' ') + Seq::<char>::empty());
            assert(join_pieces(text_pieces(p), emotes) == (append_text_spec(jp.0, Seq::<char>::empty()), emotes));
        } else {
            let n = init.len();
            let w = init.last();
            assert(text_pieces(p).drop_last() =~= text_pieces(init).drop_last());
            assert(text_pieces(init).drop_last() =~= text_pieces(init.drop_last()));
            let j0 = join_pieces(text_pieces(init.drop_last()), emotes);
            assert(text_pieces(init).last() == PieceView::Text(w));
            assert(jp.0 == append_text_spec(j0.0, w));
            assert(text_pieces(p).last() == PieceView::Text(w.push(c)));
            if j0.0.len() == 0 {
                assert(append_text_spec(j0.0, w.push(c)) =~= append_text_spec(j0.0, w).push(c));
            } else if j0.0.last() == PRIVATE_USE_UNICODE {
                assert(append_text_spec(j0.0, w.push(c)) =~= append_text_spec(j0.0, w).push(c));
            } else {
                assert(append_text_spec(j0.0, w.push(c)) =~= append_text_spec(j0.0, w).push(c));
            }
            assert(s =~= s.drop_last().push(c));
            assert(join_pieces(text_pieces(p), emotes) == (append_text_spec(j0.0, w.push(c)), emotes));
        }
    }
}

/// `s` holds no `c`.
pub open spec fn lacks_char(s: Seq<char>, c: char) -> bool {
    forall|i: int| 0 <= i < s.len() ==> #[trigger] s[i] != c
}

/// The number of pieces that start with the emote placeholder character.
pub open spec fn placeholder_segments(segs: Seq<Seq<char>>) -> nat
    decreases segs.len(),
{
    if segs.len() == 0 {
        0
    } else {
        placeholder_segments(segs.drop_last()) + if starts_with_placeholder(segs.last()) {
            1nat
        } else {
            0nat
        }
    }
}

/// A piece as the emote loading builds it: a text word holds neither a
/// placeholder character nor a zero width space; a placeholder starts with
/// the placeholder character and holds no zero width space.
pub open spec fn well_formed_piece(p: PieceView) -> bool {
    match p {
        PieceView::Text(s) => lacks_char(s, PRIVATE_USE_UNICODE) && lacks_char(s, ZERO_WIDTH_SPACE),
        PieceView::Emote(_, ph) => starts_with_placeholder(ph) && lacks_char(ph, ZERO_WIDTH_SPACE),
    }
}

/// Appending text without the separator extends the last piece of a split.
pub proof fn lemma_split_append(a: Seq<char>, b: Seq<char>, sep: char)
    requires
        lacks_char(b, sep),
    ensures
        split_chars(a + b, sep) == split_chars(a, sep).update(
            split_chars(a, sep).len() - 1,
            split_chars(a, sep).last() + b,
        ),
        split_chars(a + b, sep).len() == split_chars(a, sep).len(),
    decreases b.len(),
{
    lemma_split_nonempty(a, sep);
    let sa = split_chars(a, sep);
    if b.len() == 0 {
        assert(a + b =~= a);
        assert(sa.last() + b =~= sa.last());
        assert(sa.update(sa.len() - 1, sa.last() + b) =~= sa);
    } else {
        let b0 = b.drop_last();
        let c = b.last();
        assert(lacks_char(b0, sep)) by {
            assert forall|i: int| 0 <= i < b0.len() implies #[trigger] b0[i] != sep by {
                assert(b0[i] == b[i]);
            }
        }
        assert(b[b.len() - 1] != sep);
        lemma_split_append(a, b0, sep);
        lemma_split_nonempty(a + b0, sep);
        assert((a + b).drop_last() =~= a + b0);
        assert((a + b).last() == c);
        let init = split_chars(a + b0, sep);
        assert(split_chars(a + b, sep) == init.update(init.len() - 1, init.last().push(c)));
        assert(init.last() == sa.last() + b0);
        assert((sa.last() + b0).push(c) =~= sa.last() + b);
        assert(split_chars(a + b, sep) =~= sa.update(sa.len() - 1, sa.last() + b));
    }
}

/// Counting placeholder pieces after the last piece is replaced.
pub proof fn lemma_placeholder_segments_update(segs: Seq<Seq<char>>, x: Seq<char>)
    requires
        segs.len() > 0,
    ensures
        placeholder_segments(segs.update(segs.len() - 1, x)) == placeholder_segments(
            segs.drop_last(),
        ) + if starts_with_placeholder(x) {
            1nat
        } else {
            0nat
        },
{
    let u = segs.update(segs.len() - 1, x);
    assert(u.drop_last() =~= segs.drop_last());
}

/// Joining well-formed pieces adds one colour pair per emote, and splitting
/// the joined payload at zero width spaces gives exactly one piece starting
/// with the placeholder character per colour pair added: the line layout
/// uses up exactly the pairs the join added.
pub proof fn lemma_one_colour_pair_per_placeholder(pieces: Seq<PieceView>, emotes: Seq<EmoteColors>)
    requires
        forall|i: int| 0 <= i < pieces.len() ==> well_formed_piece(#[trigger] pieces[i]),
    ensures
        join_pieces(pieces, emotes).1.len() == emotes.len() + placeholder_segments(
            split_chars(join_pieces(pieces, emotes).0, ZERO_WIDTH_SPACE),
        ),
    decreases pieces.len(),
{
    let z = ZERO_WIDTH_SPACE;
    if pieces.len() == 0 {
        let e = split_chars(Seq::<char>::empty(), z);
        assert(e.drop_last() =~= Seq::<Seq<char>>::empty());
        assert(e.last() =~= Seq::<char>::empty());
        assert(placeholder_segments(Seq::<Seq<char>>::empty()) == 0);
        assert(placeholder_segments(e) == 0);
    } else {
        let init = pieces.drop_last();
        assert forall|i: int| 0 <= i < init.len() implies well_formed_piece(#[trigger] init[i]) by {
            assert(init[i] == pieces[i]);
        }
        lemma_one_colour_pair_per_placeholder(init, emotes);
        let prev = join_pieces(init, emotes);
        let p = prev.0;
        let sp = split_chars(p, z);
        lemma_split_nonempty(p, z);
        let empty_split = split_chars(Seq::<char>::empty(), z);
        assert(empty_split.drop_last() =~= Seq::<Seq<char>>::empty());
        assert(empty_split.last() =~= Seq::<char>::empty());
        assert(placeholder_segments(Seq::<Seq<char>>::empty()) == 0);
        assert(placeholder_segments(empty_split) == 0);
        assert(well_formed_piece(pieces[pieces.len() - 1]));
        match pieces.last() {
            PieceView::Text(s) => {
                if p.len() == 0 {
                    assert(p =~= Seq::<char>::empty());
                    lemma_split_append(p, s, z);
                    assert(p + s =~= s);
                    lemma_placeholder_segments_update(sp, sp.last() + s);
                    assert(sp.drop_last() =~= Seq::<Seq<char>>::empty());
                    assert(sp.last() + s =~= s);
                    if s.len() > 0 {
                        assert(s[0] != PRIVATE_USE_UNICODE);
                    }
                } else if p.last() == PRIVATE_USE_UNICODE {
                    let q = p.push(z);
                    assert(q.drop_last() =~= p);
                    assert(split_chars(q, z) == sp.push(Seq::<char>::empty()));
                    lemma_split_append(q, s, z);
                    let sq = split_chars(q, z);
                    lemma_placeholder_segments_update(sq, sq.last() + s);
                    assert(sq.drop_last() =~= sp);
                    assert(sq.last() + s =~= s);
                    if s.len() > 0 {
                        assert(s[0] != PRIVATE_USE_UNICODE);
                    }
                    assert(p.push(z) + s =~= q + s);
                } else {
                    let t = seq![' '] + s;
                    assert(lacks_char(t, z)) by {
                        assert forall|i: int| 0 <= i < t.len() implies #[trigger] t[i] != z by {
                            if i > 0 {
                                assert(t[i] == s[i - 1]);
                            }
                        }
                    }
                    lemma_split_append(p, t, z);
                    lemma_placeholder_segments_update(sp, sp.last() + t);
                    assert(sp =~= sp.drop_last().push(sp.last()));
                    assert(placeholder_segments(sp) == placeholder_segments(sp.drop_last()) + if starts_with_placeholder(sp.last()) {
                        1nat
                    } else {
                        0nat
                    });
                    assert(starts_with_placeholder(sp.last() + t) == starts_with_placeholder(sp.last())) by {
                        if sp.last().len() > 0 {
                            assert((sp.last() + t)[0] == sp.last()[0]);
                        } else {
                            assert((sp.last() + t)[0] == ' ');
                        }
                    }
                    assert(p.push(' ') + s =~= p + t);
                }
            },
            PieceView::Emote(c, ph) => {
                if p.len() == 0 {
                    assert(p =~= Seq::<char>::empty());
                    lemma_split_append(p, ph, z);
                    assert(p + ph =~= ph);
                    lemma_placeholder_segments_update(sp, sp.last() + ph);
                    assert(sp.drop_last() =~= Seq::<Seq<char>>::empty());
                    assert(sp.last() + ph =~= ph);
                } else {
                    let q = p.push(z);
                    assert(q.drop_last() =~= p);
                    assert(split_chars(q, z) == sp.push(Seq::<char>::empty()));
                    lemma_split_append(q, ph, z);
                    let sq = split_chars(q, z);
                    lemma_placeholder_segments_update(sq, sq.last() + ph);
                    assert(sq.drop_last() =~= sp);
                    assert(sq.last() + ph =~= ph);
                    assert(p.push(z) + ph =~= q + ph);
                }
            },
        }
    }
}

/// Adding a word: a word that loaded no emote becomes a text word of its own;
/// an emote that is not an overlay always starts an emote word of its own,
/// whatever came before; an overlay joins the emote word right before it, and
/// starts one of its own when the word before is text or there is none.
pub proof fn lemma_push_word_cases(words: Seq<WordView>, word: Seq<char>, e: EmoteData)
    ensures
        push_word_spec(words, word, None) == words.push(WordView::Text(word)),
        push_word_spec(words, word, Some((e, false))) == words.push(WordView::Emote(seq![e])),
        words.len() > 0 && words.last() is Emote ==> ({
            let r = push_word_spec(words, word, Some((e, true)));
            &&& r.len() == words.len()
            &&& r.drop_last() == words.drop_last()
            &&& r.last() == WordView::Emote(words.last()->Emote_0.push(e))
        }),
        !(words.len() > 0 && words.last() is Emote) ==> push_word_spec(words, word, Some((e, true)))
            == words.push(WordView::Emote(seq![e])),
{
    if words.len() > 0 && words.last() is Emote {
        let r = push_word_spec(words, word, Some((e, true)));
        assert(r.drop_last() =~= words.drop_last());
    }
}

/// A highlighted byte inside a line is always styled: when an offset of a
/// sorted search list falls on the start of character `k` of the line, that
/// character is a span of its own in the search style; when only an offset
/// of the sorted name list does, it is in the name style. Highlights before
/// or after the line do not stop this.
pub proof fn lemma_highlight_styles_inner_offsets(
    line: Seq<char>,
    offset: int,
    search: (Seq<usize>, Style),
    name: (Seq<usize>, Style),
    k: int,
)
    requires
        non_decreasing(search.0),
        non_decreasing(name.0),
        0 <= k < line.len(),
    ensures
        in_highlight(search.0, offset + byte_offset(line, k)) ==> highlight_spec(
            line,
            offset,
            search,
            name,
        ).len() == line.len() && highlight_spec(line, offset, search, name)[k] == (
            seq![line[k]],
            search.1,
        ),
        !in_highlight(search.0, offset + byte_offset(line, k)) && in_highlight(
            name.0,
            offset + byte_offset(line, k),
        ) ==> highlight_spec(line, offset, search, name).len() == line.len() && highlight_spec(
            line,
            offset,
            search,
            name,
        )[k] == (seq![line[k]], name.1),
{
    let b = offset + byte_offset(line, k);
    let end = offset + byte_len(line);
    lemma_byte_offset_mono(line, k, k + 1);
    lemma_byte_offset_mono(line, k + 1, line.len() as int);
    assert(b < end);
    if in_highlight(search.0, b) {
        let i = choose|i: int| 0 <= i < search.0.len() && search.0[i] as int == b;
        assert(search.0[0] <= search.0[i]);
        assert(search.0[i] <= search.0.last());
        assert(!no_highlights(search.0, offset, end));
    } else if in_highlight(name.0, b) {
        let i = choose|i: int| 0 <= i < name.0.len() && name.0[i] as int == b;
        assert(name.0[0] <= name.0[i]);
        assert(name.0[i] <= name.0.last());
        assert(!no_highlights(name.0, offset, end));
    }
}

/// Every occurrence of a non-empty user name in the text is highlighted: the
/// byte where it starts is in the result (an occurrence that overlaps one
/// counted before it starts inside that one's bytes).
pub proof fn lemma_match_ranges_complete(hay: Seq<u8>, needle: Seq<u8>, pos: int, p: int)
    requires
        0 <= pos <= p,
        needle.len() > 0,
        hay.len() <= usize::MAX,
        occurs_at(hay, needle, p),
    ensures
        in_highlight(match_ranges(hay, needle, pos), p),
    decreases hay.len() - pos,
{
    let m = match_ranges(hay, needle, pos);
    if pos + needle.len() > hay.len() {
        assert(false);
    } else if hay.subrange(pos, pos + needle.len()) == needle {
        let end = pos + needle.len();
        let r = range_seq(pos, end);
        let rest = match_ranges(hay, needle, end);
        assert(m == r + rest);
        if p < end {
            assert(m[p - pos] == r[p - pos]);
            assert(m[p - pos] as int == p);
        } else {
            lemma_match_ranges_complete(hay, needle, end, p);
            let i = choose|i: int| 0 <= i < rest.len() && rest[i] as int == p;
            assert(m[r.len() + i] == rest[i]);
        }
    } else {
        assert(p != pos);
        lemma_match_ranges_complete(hay, needle, pos + 1, p);
        assert(m == match_ranges(hay, needle, pos + 1));
    }
}

/// The first occurrence of a non-empty user name is highlighted in full.
pub proof fn lemma_match_ranges_first_occurrence(hay: Seq<u8>, needle: Seq<u8>, p: int)
    requires
        needle.len() > 0,
        hay.len() <= usize::MAX,
        occurs_at(hay, needle, p),
        forall|q: int| 0 <= q < p ==> !occurs_at(hay, needle, q),
    ensures
        match_ranges(hay, needle, 0).len() >= needle.len(),
        forall|t: int| 0 <= t < needle.len() ==> #[trigger] match_ranges(hay, needle, 0)[t] == p + t,
{
    lemma_match_ranges_from(hay, needle, 0, p);
}

/// From any place at or before the first occurrence at or after it, the
/// result begins with that occurrence's bytes.
proof fn lemma_match_ranges_from(hay: Seq<u8>, needle: Seq<u8>, pos: int, p: int)
    requires
        0 <= pos <= p,
        needle.len() > 0,
        hay.len() <= usize::MAX,
        occurs_at(hay, needle, p),
        forall|q: int| pos <= q < p ==> !occurs_at(hay, needle, q),
    ensures
        match_ranges(hay, needle, pos).len() >= needle.len(),
        forall|t: int| 0 <= t < needle.len() ==> #[trigger] match_ranges(hay, needle, pos)[t] == p + t,
    decreases p - pos,
{
    let m = match_ranges(hay, needle, pos);
    if pos == p {
        let r = range_seq(pos, pos + needle.len());
        assert(m == r + match_ranges(hay, needle, pos + needle.len()));
        assert forall|t: int| 0 <= t < needle.len() implies #[trigger] m[t] == p + t by {
            assert(m[t] == r[t]);
        }
    } else {
        assert(!occurs_at(hay, needle, pos));
        assert(hay.subrange(pos, pos + needle.len()) != needle);
        lemma_match_ranges_from(hay, needle, pos + 1, p);
        assert(m == match_ranges(hay, needle, pos + 1));
    }
}

/// `a` is a prefix of `b`, element by element.
pub open spec fn starts_seq<A>(a: Seq<A>, b: Seq<A>) -> bool {
    a.len() <= b.len() && forall|j: int| 0 <= j < a.len() ==> #[trigger] a[j] == b[j]
}

/// Laying out the first pieces of a line gives the first spans of the line.
proof fn lemma_segments_prefix(
    segs: Seq<Seq<char>>,
    start: int,
    search: (Seq<usize>, Style),
    name: (Seq<usize>, Style),
    emotes: Seq<EmoteColors>,
    i: int,
)
    requires
        0 <= i <= segs.len(),
    ensures
        starts_seq(
            segments_spec(segs.take(i), start, search, name, emotes).0,
            segments_spec(segs, start, search, name, emotes).0,
        ),
    decreases segs.len(),
{
    if i == segs.len() {
        assert(segs.take(i) =~= segs);
    } else {
        lemma_segments_prefix(segs.drop_last(), start, search, name, emotes, i);
        assert(segs.drop_last().take(i) =~= segs.take(i));
        let a = segments_spec(segs.take(i), start, search, name, emotes).0;
        let mid = segments_spec(segs.drop_last(), start, search, name, emotes).0;
        let b = segments_spec(segs, start, search, name, emotes).0;
        assert(starts_seq(mid, b)) by {
            if starts_with_placeholder(segs.last()) {
                assert forall|j: int| 0 <= j < mid.len() implies #[trigger] mid[j] == b[j] by {}
            } else {
                assert forall|j: int| 0 <= j < mid.len() implies #[trigger] mid[j] == b[j] by {}
            }
        }
        assert forall|j: int| 0 <= j < a.len() implies #[trigger] a[j] == b[j] by {
            assert(a[j] == mid[j]);
        }
    }
}

/// Laying out the first lines of a message gives its first rows.
proof fn lemma_rows_prefix(
    lines: Seq<Seq<char>>,
    search: (Seq<usize>, Style),
    name: (Seq<usize>, Style),
    emotes: Seq<EmoteColors>,
    i: int,
)
    requires
        0 <= i <= lines.len(),
    ensures
        starts_seq(rows_spec(lines.take(i), search, name, emotes).0, rows_spec(lines, search, name, emotes).0),
    decreases lines.len(),
{
    if i == lines.len() {
        assert(lines.take(i) =~= lines);
    } else {
        lemma_rows_prefix(lines.drop_last(), search, name, emotes, i);
        assert(lines.drop_last().take(i) =~= lines.take(i));
        let a = rows_spec(lines.take(i), search, name, emotes).0;
        let mid = rows_spec(lines.drop_last(), search, name, emotes).0;
        let b = rows_spec(lines, search, name, emotes).0;
        assert forall|j: int| 0 <= j < a.len() implies #[trigger] a[j] == b[j] by {
            assert(a[j] == mid[j]);
        }
    }
}

/// The first piece of a split begins with the text's first character when
/// that is not the separator.
proof fn lemma_split_first_char(s: Seq<char>, sep: char)
    requires
        s.len() > 0,
        s[0] != sep,
    ensures
        split_chars(s, sep)[0].len() > 0,
        split_chars(s, sep)[0][0] == s[0],
    decreases s.len(),
{
    let init = split_chars(s.drop_last(), sep);
    lemma_split_nonempty(s.drop_last(), sep);
    if s.len() == 1 {
        assert(s.drop_last() =~= Seq::<char>::empty());
        assert(init == seq![Seq::<char>::empty()]);
        assert(s.last() == s[0]);
    } else {
        lemma_split_first_char(s.drop_last(), sep);
        assert(s.drop_last()[0] == s[0]);
        if s.last() != sep && init.len() == 1 {
            assert(split_chars(s, sep)[0] == init[0].push(s.last()));
        }
    }
}

/// A message's first row holds the time span, then the padding before the
/// author: exactly one space unless names are right-aligned, in which case
/// the name is padded out to the reserved width, plus one space.
pub proof fn lemma_to_vec_name_padding(
    msg: MessageData,
    config: crate::theme::FrontendConfig,
    width: usize,
    search: Option<Seq<char>>,
    name: Option<Seq<char>>,
    author_color: crate::style::Color,
)
    requires
        to_vec_spec(msg, config, width, search, name, author_color) is Some,
        config.show_datetimes,
    ensures
        ({
            let rows = to_vec_spec(msg, config, width, search, name, author_color)->0;
            let w = crate::bindings::display_width(msg.author@);
            &&& rows.len() >= 1
            &&& rows[0].len() >= 2
            &&& rows[0][0] == (
                crate::bindings::formatted_time(
                    msg.time_sent.secs,
                    msg.time_sent.nanos,
                    msg.time_sent.offset_secs,
                    config.datetime_format@,
                )->0,
                crate::theme::datetime_style(config.theme),
            )
            &&& !(config.username_shown && config.right_align_usernames) ==> rows[0][1] == (
                seq![' '],
                crate::style::plain_style(),
            )
            &&& config.username_shown && config.right_align_usernames ==> rows[0][1].0.len() == (
                if w < 25 { 25 - w } else { 0 }) + 1
            &&& forall|j: int| 0 <= j < rows[0][1].0.len() ==> #[trigger] rows[0][1].0[j] == ' '
        }),
{
    let time = time_text(msg.time_sent, config.show_datetimes, config.datetime_format@)->0;
    let plen = prefix_length(time, config.username_shown, msg.author@);
    let lines = wrapped_lines(
        msg.payload@,
        wrap_limit(width, config.margin) as usize,
        repeat_char(' ', plen as nat),
    );
    let parts = seq![suffix_from_byte(lines[0], plen)] + lines.drop_first();
    let s = (search_indices_spec(msg.payload@, search), crate::theme::search_style());
    let n = (name_indices_spec(msg.payload@, name), crate::theme::name_highlight_style(config.theme));
    lemma_rows_end(parts, s, n, msg.emotes@);
    let a = alignment_spec(config.username_shown, config.right_align_usernames, msg.author@);
    let first = first_row_spec(
        time,
        a,
        config.username_shown,
        msg.author@,
        crate::theme::datetime_style(config.theme),
        author_style(msg.system, author_color),
    );
    let r = rows_spec(parts, s, n, msg.emotes@).0;
    let rows = to_vec_spec(msg, config, width, search, name, author_color)->0;
    assert(rows == r.update(0, first + r[0]));
    assert(rows[0] == first + r[0]);
    assert(first.len() >= 2);
    assert(rows[0][1] == first[1]);
    assert(rows[0][0] == first[0]);
    if !(config.username_shown && config.right_align_usernames) {
        assert(repeat_char(' ', 1) =~= seq![' ']);
    }
}

/// The emote placeholders of a message's rows take the message's own emote
/// colours, the first placeholder the first colours: when the text of the
/// first row starts with a placeholder, the span after the prefix spans is
/// that placeholder piece styled with the message's first emote colours.
pub proof fn lemma_to_vec_first_emote(
    msg: MessageData,
    config: crate::theme::FrontendConfig,
    width: usize,
    search: Option<Seq<char>>,
    name: Option<Seq<char>>,
    author_color: crate::style::Color,
)
    requires
        to_vec_spec(msg, config, width, search, name, author_color) is Some,
        msg.emotes@.len() > 0,
        ({
            let time = time_text(msg.time_sent, config.show_datetimes, config.datetime_format@)->0;
            let plen = prefix_length(time, config.username_shown, msg.author@);
            let lines = wrapped_lines(
                msg.payload@,
                wrap_limit(width, config.margin) as usize,
                repeat_char(' ', plen as nat),
            );
            starts_with_placeholder(suffix_from_byte(lines[0], plen))
        }),
    ensures
        ({
            let time = time_text(msg.time_sent, config.show_datetimes, config.datetime_format@)->0;
            let plen = prefix_length(time, config.username_shown, msg.author@);
            let lines = wrapped_lines(
                msg.payload@,
                wrap_limit(width, config.margin) as usize,
                repeat_char(' ', plen as nat),
            );
            let text = suffix_from_byte(lines[0], plen);
            let f = (if config.show_datetimes { 2int } else { 0int }) + (if config.username_shown {
                2int
            } else {
                0int
            });
            let rows = to_vec_spec(msg, config, width, search, name, author_color)->0;
            &&& rows.len() >= 1
            &&& rows[0].len() > f
            &&& rows[0][f] == (split_chars(text, ZERO_WIDTH_SPACE)[0], emote_style(msg.emotes@[0]))
        }),
{
    let time = time_text(msg.time_sent, config.show_datetimes, config.datetime_format@)->0;
    let plen = prefix_length(time, config.username_shown, msg.author@);
    let lines = wrapped_lines(
        msg.payload@,
        wrap_limit(width, config.margin) as usize,
        repeat_char(' ', plen as nat),
    );
    let text = suffix_from_byte(lines[0], plen);
    let parts = seq![text] + lines.drop_first();
    let e = msg.emotes@;
    let s = (search_indices_spec(msg.payload@, search), crate::theme::search_style());
    let n = (name_indices_spec(msg.payload@, name), crate::theme::name_highlight_style(config.theme));
    lemma_rows_end(parts, s, n, e);
    let a = alignment_spec(config.username_shown, config.right_align_usernames, msg.author@);
    let first = first_row_spec(
        time,
        a,
        config.username_shown,
        msg.author@,
        crate::theme::datetime_style(config.theme),
        author_style(msg.system, author_color),
    );
    let r = rows_spec(parts, s, n, e).0;
    let rows = to_vec_spec(msg, config, width, search, name, author_color)->0;
    assert(rows == r.update(0, first + r[0]));
    // The first row of the text is the layout of the first line.
    lemma_rows_prefix(parts, s, n, e, 1);
    let p1 = parts.take(1);
    assert(p1.drop_last() =~= Seq::<Seq<char>>::empty());
    assert(p1.last() == text);
    let b = build_line_spec(text, 0, s, n, e);
    let r0 = rows_spec(p1.drop_last(), s, n, e);
    assert(r0 == (Seq::<Seq<(Seq<char>, Style)>>::empty(), 0int, e));
    assert(rows_spec(p1, s, n, e).0 == r0.0.push(b.0));
    assert(rows_spec(p1, s, n, e).0 =~= seq![b.0]);
    assert(rows_spec(p1, s, n, e).0[0] == r[0]);
    assert(r[0] == b.0);
    // The line carries emotes, so its first piece is laid out first.
    assert(!is_plain_line(text, e));
    let segs = split_chars(text, ZERO_WIDTH_SPACE);
    assert(text[0] == PRIVATE_USE_UNICODE);
    lemma_split_first_char(text, ZERO_WIDTH_SPACE);
    lemma_split_nonempty(text, ZERO_WIDTH_SPACE);
    assert(starts_with_placeholder(segs[0]));
    lemma_segments_prefix(segs, 0, s, n, e, 1);
    let s1 = segs.take(1);
    assert(s1.drop_last() =~= Seq::<Seq<char>>::empty());
    assert(s1.last() == segs[0]);
    let g0 = segments_spec(s1.drop_last(), 0, s, n, e);
    assert(g0 == (Seq::<(Seq<char>, Style)>::empty(), 0int, e));
    assert(emote_span_spec(segs[0], e).0 == (segs[0], emote_style(e[0])));
    assert(segments_spec(s1, 0, s, n, e).0 == g0.0.push(emote_span_spec(segs[0], e).0));
    assert(segments_spec(s1, 0, s, n, e).0 =~= seq![(segs[0], emote_style(e[0]))]);
    assert(segments_spec(s1, 0, s, n, e).0[0] == segments_spec(segs, 0, s, n, e).0[0]);
    assert(b.0 == segments_spec(segs, 0, s, n, e).0);
    assert(b.0[0] == (segs[0], emote_style(e[0])));
    // The prefix spans come first.
    let f = (if config.show_datetimes { 2int } else { 0int }) + (if config.username_shown {
        2int
    } else {
        0int
    });
    assert(first.len() == f);
    assert(rows[0] == first + b.0);
    assert(rows[0][f] == b.0[0]);
}

} // verus!
