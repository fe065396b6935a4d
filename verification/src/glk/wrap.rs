//! Word wrapping for text buffer windows.
//!
//! Buffer windows wrap: the game emits a stream of styled
//! characters and the display decides where the lines break (Glk:
//! Text Buffer Windows). Text arrives in pieces -- a window hands
//! over whatever accumulated since the last flush, which may stop
//! mid-word -- so the wrapper keeps the unfinished paragraph and
//! folds the next piece into it. And text is styled: breaking a line
//! has to cut the *segments* that make it up, not a flat string, so
//! the breaks are found in the plain text and the segments sliced
//! to match.
//!
//! The wrapper also keeps the paragraphs it has been given, which is
//! what makes a resize exact: display lines are recomputed from the
//! original text. Positions and widths count characters.

use vstd::prelude::*;

use crate::text::{chars_of, push_char};

verus! {

use vstd::std_specs::cmp::PartialEqSpec;

/// A run of text sharing one appearance: (key, text). The key is
/// only ever compared for equality here.
pub type Segment<K> = (K, String);

/// A segment as a mathematical value.
pub open spec fn seg_view<K>(segment: Segment<K>) -> (K, Seq<char>) {
    (segment.0, segment.1@)
}

/// A line of segments as a mathematical value.
pub open spec fn line_view<K>(line: Seq<Segment<K>>) -> Seq<(K, Seq<char>)> {
    line.map_values(|segment: Segment<K>| seg_view(segment))
}

/// Lines of segments as a mathematical value.
pub open spec fn lines_view<K>(lines: Seq<Vec<Segment<K>>>) -> Seq<Seq<(K, Seq<char>)>> {
    lines.map_values(|line: Vec<Segment<K>>| line_view(line@))
}

/// The plain text of styled segments, run together.
pub open spec fn flat<K>(segments: Seq<(K, Seq<char>)>) -> Seq<char>
    decreases segments.len(),
{
    if segments.len() == 0 {
        Seq::empty()
    } else {
        flat(segments.drop_last()) + segments.last().1
    }
}

/// The last space in text[from..to), or from - 1 when there is none.
pub open spec fn last_space(text: Seq<char>, from: int, to: int) -> int
    decreases to - from,
{
    if to <= from {
        from - 1
    } else if text[to - 1] == ' ' {
        to - 1
    } else {
        last_space(text, from, to - 1)
    }
}

/// Where the last space can fall.
pub proof fn lemma_last_space_bounds(text: Seq<char>, from: int, to: int)
    ensures
        to > from ==> from - 1 <= last_space(text, from, to) <= to - 1,
        to <= from ==> last_space(text, from, to) == from - 1,
        last_space(text, from, to) >= from ==> text[last_space(text, from, to)] == ' ',
    decreases to - from,
{
    if to > from && text[to - 1] != ' ' {
        lemma_last_space_bounds(text, from, to - 1);
    }
}

/// The first newline at or after a position, or the text's length.
pub open spec fn next_newline(text: Seq<char>, from: int) -> int
    decreases text.len() - from,
{
    if from >= text.len() {
        text.len() as int
    } else if text[from] == '\n' {
        from
    } else {
        next_newline(text, from + 1)
    }
}

/// Greedy breaks for one newline-free stretch of text: a line that
/// fits is taken whole; otherwise it breaks at the last space that
/// falls within the width or just past it, dropping that space, and
/// a word wider than the line is cut at the width.
pub open spec fn stretch_spans(text: Seq<char>, start: int, end: int, width: int) -> Seq<
    (int, int),
>
    recommends
        width >= 1,
    decreases end - start,
{
    if end - start <= width || width < 1 {
        seq![(start, end)]
    } else {
        let limit = start + width;
        let window_end = if limit + 1 < end {
            limit + 1
        } else {
            end
        };
        let point = last_space(text, start, window_end);
        proof {
            lemma_last_space_bounds(text, start, window_end);
        }
        if point > start {
            seq![(start, point)] + stretch_spans(text, point + 1, end, width)
        } else {
            seq![(start, limit)] + stretch_spans(text, limit, end, width)
        }
    }
}

/// Every display line's index range, newlines consumed as hard
/// breaks from a position on.
pub open spec fn spans_from(text: Seq<char>, position: int, width: int) -> Seq<(int, int)>
    decreases text.len() - position,
{
    let end = next_newline(text, position);
    if end < text.len() && position <= end {
        stretch_spans(text, position, end, width) + spans_from(text, end + 1, width)
    } else {
        stretch_spans(text, position, end, width)
    }
}

/// Every display line's index range, the width clamped to one.
pub open spec fn text_spans(text: Seq<char>, width: nat) -> Seq<(int, int)> {
    spans_from(text, 0, if width < 1 {
        1
    } else {
        width as int
    })
}

/// The part of a segment inside a line's range, if any, given where
/// the segment starts in the paragraph.
pub open spec fn segment_cut<K>(segment: (K, Seq<char>), at: int, begin: int, finish: int) -> Seq<
    (K, Seq<char>),
> {
    let to = at + segment.1.len();
    let low = if begin > at {
        begin
    } else {
        at
    };
    let high = if finish < to {
        finish
    } else {
        to
    };
    if low < high {
        seq![(segment.0, segment.1.subrange(low - at, high - at))]
    } else {
        Seq::empty()
    }
}

/// The segments of a paragraph sliced to one line's range, each
/// keeping its key, empty pieces dropped.
pub open spec fn line_cut<K>(segments: Seq<(K, Seq<char>)>, begin: int, finish: int) -> Seq<
    (K, Seq<char>),
>
    decreases segments.len(),
{
    if segments.len() == 0 {
        Seq::empty()
    } else {
        line_cut(segments.drop_last(), begin, finish) + segment_cut(
            segments.last(),
            flat(segments.drop_last()).len() as int,
            begin,
            finish,
        )
    }
}

/// One styled paragraph broken into styled display lines; an empty
/// paragraph is still one (empty) line.
pub open spec fn wrapped<K>(segments: Seq<(K, Seq<char>)>, width: nat) -> Seq<
    Seq<(K, Seq<char>)>,
> {
    if segments.len() == 0 {
        seq![Seq::empty()]
    } else {
        text_spans(flat(segments), width).map_values(
            |span: (int, int)| line_cut(segments, span.0, span.1),
        )
    }
}

/// The last space in text[from..to), searching backward.
fn find_last_space(text: &[char], from: usize, to: usize) -> (point: Option<usize>)
    requires
        from <= to <= text@.len(),
    ensures
        match point {
            Some(found) => found as int == last_space(text@, from as int, to as int) && from
                <= found < to,
            None => last_space(text@, from as int, to as int) == from - 1,
        },
{
    let mut at = to;
    while at > from
        invariant
            from <= at <= to <= text@.len(),
            last_space(text@, from as int, to as int) == last_space(text@, from as int, at as int),
        decreases at - from,
    {
        if text[at - 1] == ' ' {
            return Some(at - 1);
        }
        at -= 1;
    }
    None
}

/// The first newline at or after a position.
fn find_newline(text: &[char], from: usize) -> (found: usize)
    requires
        from <= text@.len(),
    ensures
        found as int == next_newline(text@, from as int),
        from <= found <= text@.len(),
{
    let mut at = from;
    while at < text.len() && text[at] != '\n'
        invariant
            from <= at <= text@.len(),
            next_newline(text@, from as int) == next_newline(text@, at as int),
        decreases text.len() - at,
    {
        at += 1;
    }
    at
}

/// Index ranges of text, one per display line.
///
/// Newlines are consumed, as is the space at each break. A word
/// wider than the line is cut rather than left to overflow.
fn spans(text: &[char], width: usize) -> (found: Vec<(usize, usize)>)
    ensures
        found@.map_values(|span: (usize, usize)| (span.0 as int, span.1 as int)) == text_spans(
            text@,
            width as nat,
        ),
{
    let wide = if width < 1 {
        1
    } else {
        width
    };
    let ghost whole = spans_from(text@, 0, wide as int);
    let mut found: Vec<(usize, usize)> = Vec::new();
    let mut position: usize = 0;
    loop
        invariant
            wide >= 1,
            wide as int == (if width < 1 {
                1int
            } else {
                width as int
            }),
            position <= text@.len(),
            whole == spans_from(text@, 0, wide as int),
            found@.map_values(|span: (usize, usize)| (span.0 as int, span.1 as int)) + spans_from(
                text@,
                position as int,
                wide as int,
            ) == whole,
        decreases text.len() - position,
    {
        let end = find_newline(text, position);
        let ghost before = found@.map_values(|span: (usize, usize)| (span.0 as int, span.1 as int));
        let ghost stretch = stretch_spans(text@, position as int, end as int, wide as int);
        let mut start = position;
        while end - start > wide
            invariant
                wide >= 1,
                position <= start <= end <= text@.len(),
                found@.map_values(|span: (usize, usize)| (span.0 as int, span.1 as int))
                    + stretch_spans(text@, start as int, end as int, wide as int) == before
                    + stretch,
            decreases end - start,
        {
            let limit = start + wide;
            // The break may fall on the character just past the
            // line, since a space there costs nothing to drop.
            let window_end = if limit + 1 < end {
                limit + 1
            } else {
                end
            };
            let ghost earlier = found@;
            match find_last_space(text, start, window_end) {
                Some(point) if point > start => {
                    found.push((start, point));
                    start = point + 1;
                },
                _ => {
                    found.push((start, limit));
                    start = limit;
                },
            }
            proof {
                assert(found@.map_values(|span: (usize, usize)| (span.0 as int, span.1 as int))
                    =~= earlier.map_values(|span: (usize, usize)| (span.0 as int, span.1 as int)).push(
                    (found@.last().0 as int, found@.last().1 as int),
                ));
            }
        }
        proof {
            assert(stretch_spans(text@, start as int, end as int, wide as int) == seq![
                (start as int, end as int),
            ]);
        }
        let ghost earlier = found@;
        found.push((start, end));
        proof {
            assert(found@.map_values(|span: (usize, usize)| (span.0 as int, span.1 as int))
                =~= earlier.map_values(|span: (usize, usize)| (span.0 as int, span.1 as int)).push(
                (start as int, end as int),
            ));
        }
        if end >= text.len() {
            proof {
                assert(spans_from(text@, position as int, wide as int) == stretch);
                assert(found@.map_values(|span: (usize, usize)| (span.0 as int, span.1 as int))
                    =~= whole);
                assert(whole == text_spans(text@, width as nat));
            }
            return found;
        }
        proof {
            let rest = spans_from(text@, end + 1, wide as int);
            assert(spans_from(text@, position as int, wide as int) == stretch + rest);
            let now = found@.map_values(|span: (usize, usize)| (span.0 as int, span.1 as int));
            assert(now == before + stretch);
            assert(now + rest =~= before + (stretch + rest));
        }
        position = end + 1;
    }
}


/// Greedy breaks stay inside their stretch, in order, none wider
/// than the width.
pub proof fn lemma_stretch_bounds(text: Seq<char>, start: int, end: int, width: int)
    requires
        0 <= start <= end <= text.len(),
        width >= 1,
    ensures
        forall|i: int|
            0 <= i < stretch_spans(text, start, end, width).len() ==> {
                let span = #[trigger] stretch_spans(text, start, end, width)[i];
                &&& start <= span.0 <= span.1 <= end
                &&& span.1 - span.0 <= width
            },
    decreases end - start,
{
    if end - start > width {
        let limit = start + width;
        let window_end = if limit + 1 < end {
            limit + 1
        } else {
            end
        };
        let point = last_space(text, start, window_end);
        lemma_last_space_bounds(text, start, window_end);
        if point > start {
            lemma_stretch_bounds(text, point + 1, end, width);
            let spans = stretch_spans(text, start, end, width);
            assert forall|i: int| 0 <= i < spans.len() implies {
                let span = #[trigger] spans[i];
                &&& start <= span.0 <= span.1 <= end
                &&& span.1 - span.0 <= width
            } by {
                if i > 0 {
                    assert(spans[i] == stretch_spans(text, point + 1, end, width)[i - 1]);
                }
            }
        } else {
            lemma_stretch_bounds(text, limit, end, width);
            let spans = stretch_spans(text, start, end, width);
            assert forall|i: int| 0 <= i < spans.len() implies {
                let span = #[trigger] spans[i];
                &&& start <= span.0 <= span.1 <= end
                &&& span.1 - span.0 <= width
            } by {
                if i > 0 {
                    assert(spans[i] == stretch_spans(text, limit, end, width)[i - 1]);
                }
            }
        }
    }
}

/// Where the next newline can fall.
pub proof fn lemma_next_newline_bounds(text: Seq<char>, from: int)
    requires
        0 <= from <= text.len(),
    ensures
        from <= next_newline(text, from) <= text.len(),
    decreases text.len() - from,
{
    if from < text.len() && text[from] != '\n' {
        lemma_next_newline_bounds(text, from + 1);
    }
}

/// Every display line lies inside the text, in order, and none is
/// wider than the width.
pub proof fn lemma_spans_bounds(text: Seq<char>, position: int, width: int)
    requires
        0 <= position <= text.len(),
        width >= 1,
    ensures
        spans_from(text, position, width).len() > 0,
        forall|i: int|
            0 <= i < spans_from(text, position, width).len() ==> {
                let span = #[trigger] spans_from(text, position, width)[i];
                &&& position <= span.0 <= span.1 <= text.len()
                &&& span.1 - span.0 <= width
            },
    decreases text.len() - position,
{
    let end = next_newline(text, position);
    lemma_next_newline_bounds(text, position);
    lemma_stretch_bounds(text, position, end, width);
    let stretch = stretch_spans(text, position, end, width);
    if end < text.len() {
        lemma_spans_bounds(text, end + 1, width);
        let spans = spans_from(text, position, width);
        assert forall|i: int| 0 <= i < spans.len() implies {
            let span = #[trigger] spans[i];
            &&& position <= span.0 <= span.1 <= text.len()
            &&& span.1 - span.0 <= width
        } by {
            if i < stretch.len() {
                assert(spans[i] == stretch[i]);
            } else {
                assert(spans[i] == spans_from(text, end + 1, width)[i - stretch.len()]);
            }
        }
    }
}

/// No display line is wider than the width (clamped to one), and
/// every line is a range of the text.
pub proof fn lines_fit_the_width(text: Seq<char>, width: nat)
    ensures
        forall|i: int|
            0 <= i < text_spans(text, width).len() ==> {
                let span = #[trigger] text_spans(text, width)[i];
                &&& 0 <= span.0 <= span.1 <= text.len()
                &&& span.1 - span.0 <= if width < 1 {
                    1
                } else {
                    width as int
                }
            },
{
    lemma_spans_bounds(text, 0, if width < 1 {
        1
    } else {
        width as int
    });
}

/// The characters of a range, as a string.
fn string_of_range(chars: &[char], from: usize, to: usize) -> (text: String)
    requires
        from <= to <= chars@.len(),
    ensures
        text@ == chars@.subrange(from as int, to as int),
{
    let mut text = String::new();
    let mut at = from;
    while at < to
        invariant
            from <= at <= to <= chars@.len(),
            text@ == chars@.subrange(from as int, at as int),
        decreases to - at,
    {
        push_char(&mut text, chars[at]);
        at += 1;
        proof {
            assert(chars@.subrange(from as int, at as int) =~= chars@.subrange(
                from as int,
                at - 1,
            ).push(chars@[at - 1]));
        }
    }
    text
}

/// Break text into lines of at most width characters.
pub fn wrap(text: &str, width: usize) -> (lines: Vec<String>)
    ensures
        lines@.len() == text_spans(text@, width as nat).len(),
        forall|i: int|
            0 <= i < lines@.len() ==> (#[trigger] lines@[i])@ == text@.subrange(
                text_spans(text@, width as nat)[i].0,
                text_spans(text@, width as nat)[i].1,
            ),
{
    let characters = chars_of(text);
    let found = spans(characters.as_slice(), width);
    let ghost spans_view = text_spans(text@, width as nat);
    proof {
        lines_fit_the_width(text@, width as nat);
        assert(found@.len() == spans_view.len());
    }
    let mut lines: Vec<String> = Vec::new();
    let mut index: usize = 0;
    while index < found.len()
        invariant
            index <= found@.len(),
            found@.len() == spans_view.len(),
            characters@ == text@,
            spans_view == text_spans(text@, width as nat),
            found@.map_values(|span: (usize, usize)| (span.0 as int, span.1 as int)) == spans_view,
            forall|i: int|
                0 <= i < spans_view.len() ==> 0 <= (#[trigger] spans_view[i]).0 <= spans_view[i].1
                    <= text@.len(),
            lines@.len() == index,
            forall|i: int|
                0 <= i < index ==> (#[trigger] lines@[i])@ == text@.subrange(
                    spans_view[i].0,
                    spans_view[i].1,
                ),
        decreases found.len() - index,
    {
        let (start, end) = found[index];
        proof {
            assert(spans_view[index as int] == (start as int, end as int));
        }
        lines.push(string_of_range(characters.as_slice(), start, end));
        index += 1;
    }
    lines
}

/// The text of a display line, without its styling.
pub fn plain<K>(line: &[Segment<K>]) -> (text: String)
    ensures
        text@ == flat(line_view(line@)),
{
    let mut text = String::new();
    let mut index: usize = 0;
    while index < line.len()
        invariant
            index <= line@.len(),
            text@ == flat(line_view(line@.take(index as int))),
        decreases line.len() - index,
    {
        text.append(line[index].1.as_str());
        proof {
            assert(line_view(line@.take(index + 1)).drop_last() =~= line_view(
                line@.take(index as int),
            ));
        }
        index += 1;
    }
    proof {
        assert(line@.take(line@.len() as int) =~= line@);
    }
    text
}


/// Whether one line's range follows another's in the text: right after
/// it, or after one space or newline that the break drops.
pub open spec fn follows(text: Seq<char>, earlier: (int, int), later: (int, int)) -> bool {
    ||| later.0 == earlier.1
    ||| later.0 == earlier.1 + 1 && (text[earlier.1] == ' ' || text[earlier.1] == '\n')
}

/// Whether line ranges rejoin into the text from `start` to `end`: the
/// first begins at `start`, the last ends at `end`, each is in order,
/// and each follows the one before.
pub open spec fn rejoins(text: Seq<char>, spans: Seq<(int, int)>, start: int, end: int) -> bool {
    &&& spans.len() > 0
    &&& spans[0].0 == start
    &&& spans.last().1 == end
    &&& forall|i: int| 0 <= i < spans.len() ==> (#[trigger] spans[i]).0 <= spans[i].1
    &&& forall|i: int|
        0 <= i < spans.len() - 1 ==> follows(text, #[trigger] spans[i], spans[i + 1])
}

/// The next newline is a newline, and none comes before it.
proof fn lemma_next_newline_is_first(text: Seq<char>, from: int)
    requires
        0 <= from <= text.len(),
    ensures
        next_newline(text, from) < text.len() ==> text[next_newline(text, from)] == '\n',
        forall|j: int| from <= j < next_newline(text, from) ==> text[j] != '\n',
    decreases text.len() - from,
{
    if from < text.len() && text[from] != '\n' {
        lemma_next_newline_is_first(text, from + 1);
    }
}

/// A stretch's lines rejoin into the stretch.
proof fn lemma_stretch_rejoins(text: Seq<char>, start: int, end: int, width: int)
    requires
        0 <= start <= end <= text.len(),
        width >= 1,
    ensures
        rejoins(text, stretch_spans(text, start, end, width), start, end),
    decreases end - start,
{
    let spans = stretch_spans(text, start, end, width);
    if end - start > width {
        let limit = start + width;
        let window_end = if limit + 1 < end {
            limit + 1
        } else {
            end
        };
        let point = last_space(text, start, window_end);
        lemma_last_space_bounds(text, start, window_end);
        let next = if point > start {
            point + 1
        } else {
            limit
        };
        lemma_stretch_rejoins(text, next, end, width);
        let rest = stretch_spans(text, next, end, width);
        assert(spans == seq![(start, next - (if point > start { 1int } else { 0int }))] + rest);
        assert forall|i: int| 0 <= i < spans.len() implies (#[trigger] spans[i]).0 <= spans[i].1 by {
            if i > 0 {
                assert(spans[i] == rest[i - 1]);
            }
        }
        assert forall|i: int| 0 <= i < spans.len() - 1 implies follows(
            text,
            #[trigger] spans[i],
            spans[i + 1],
        ) by {
            if i > 0 {
                assert(spans[i] == rest[i - 1]);
                assert(spans[i + 1] == rest[i]);
            } else {
                assert(spans[1] == rest[0]);
            }
        }
        assert(spans.last() == rest.last());
    }
}

/// Lines from a position on rejoin into the rest of the text.
proof fn lemma_spans_rejoin(text: Seq<char>, position: int, width: int)
    requires
        0 <= position <= text.len(),
        width >= 1,
    ensures
        rejoins(text, spans_from(text, position, width), position, text.len() as int),
        forall|i: int, j: int|
            0 <= i < spans_from(text, position, width).len() && #[trigger] spans_from(
                text,
                position,
                width,
            )[i].0 <= j < spans_from(text, position, width)[i].1 ==> #[trigger] text[j] != '\n',
    decreases text.len() - position,
{
    let end = next_newline(text, position);
    lemma_next_newline_bounds(text, position);
    lemma_next_newline_is_first(text, position);
    lemma_stretch_rejoins(text, position, end, width);
    lemma_stretch_bounds(text, position, end, width);
    let stretch = stretch_spans(text, position, end, width);
    let spans = spans_from(text, position, width);
    if end < text.len() {
        lemma_spans_rejoin(text, end + 1, width);
        let rest = spans_from(text, end + 1, width);
        assert(spans == stretch + rest);
        assert forall|i: int| 0 <= i < spans.len() implies (#[trigger] spans[i]).0 <= spans[i].1 by {
            if i >= stretch.len() {
                assert(spans[i] == rest[i - stretch.len()]);
            }
        }
        assert forall|i: int| 0 <= i < spans.len() - 1 implies follows(
            text,
            #[trigger] spans[i],
            spans[i + 1],
        ) by {
            if i + 1 < stretch.len() {
            } else if i + 1 == stretch.len() {
                assert(spans[i] == stretch.last());
                assert(spans[i + 1] == rest[0]);
            } else {
                assert(spans[i] == rest[i - stretch.len()]);
                assert(spans[i + 1] == rest[i + 1 - stretch.len()]);
            }
        }
        assert(spans.last() == rest.last());
        assert forall|i: int, j: int|
            0 <= i < spans.len() && #[trigger] spans[i].0 <= j < spans[i].1 implies #[trigger] text[j]
            != '\n' by {
            if i >= stretch.len() {
                assert(spans[i] == rest[i - stretch.len()]);
            } else {
                assert(spans[i] == stretch[i]);
            }
        }
    } else {
        assert(spans == stretch);
    }
}

/// Wrapped lines rejoin into the text: the first begins at the text's
/// start and the last ends at its end, each follows the one before
/// directly or past one dropped space or newline, and no line holds a
/// newline, so that a newline stands only between two lines.
pub proof fn lines_rejoin_to_the_text(text: Seq<char>, width: nat)
    ensures
        rejoins(text, text_spans(text, width), 0, text.len() as int),
        forall|i: int, j: int|
            0 <= i < text_spans(text, width).len() && #[trigger] text_spans(text, width)[i].0 <= j
                < text_spans(text, width)[i].1 ==> #[trigger] text[j] != '\n',
{
    lemma_spans_rejoin(
        text,
        0,
        if width < 1 {
            1
        } else {
            width as int
        },
    );
}

/// Line ranges moved along by an offset.
pub open spec fn shifted(spans: Seq<(int, int)>, by: int) -> Seq<(int, int)> {
    spans.map_values(|span: (int, int)| (span.0 + by, span.1 + by))
}

/// The last space found in text placed after a prefix is the last space
/// of the text, moved along by the prefix.
proof fn lemma_last_space_after(prefix: Seq<char>, text: Seq<char>, from: int, to: int)
    requires
        0 <= from,
        to <= text.len(),
    ensures
        last_space(prefix + text, from + prefix.len(), to + prefix.len()) == last_space(
            text,
            from,
            to,
        ) + prefix.len(),
    decreases to - from,
{
    if to > from {
        assert((prefix + text)[to + prefix.len() - 1] == text[to - 1]);
        lemma_last_space_after(prefix, text, from, to - 1);
    }
}

/// A stretch's breaks in text placed after a prefix are the stretch's
/// breaks in the text, moved along by the prefix.
proof fn lemma_stretch_after(prefix: Seq<char>, text: Seq<char>, start: int, end: int, width: int)
    requires
        0 <= start <= end <= text.len(),
        width >= 1,
    ensures
        stretch_spans(prefix + text, start + prefix.len(), end + prefix.len(), width) == shifted(
            stretch_spans(text, start, end, width),
            prefix.len() as int,
        ),
    decreases end - start,
{
    let p = prefix.len() as int;
    let here = stretch_spans(text, start, end, width);
    let there = stretch_spans(prefix + text, start + p, end + p, width);
    if end - start > width {
        let limit = start + width;
        let window_end = if limit + 1 < end {
            limit + 1
        } else {
            end
        };
        let point = last_space(text, start, window_end);
        lemma_last_space_after(prefix, text, start, window_end);
        lemma_last_space_bounds(text, start, window_end);
        if point > start {
            lemma_stretch_after(prefix, text, point + 1, end, width);
        } else {
            lemma_stretch_after(prefix, text, limit, end, width);
        }
    }
    assert(there =~= shifted(here, p));
}

/// The next newline in text placed after a prefix is the text's next
/// newline, moved along by the prefix.
proof fn lemma_next_newline_after(prefix: Seq<char>, text: Seq<char>, from: int)
    requires
        0 <= from <= text.len(),
    ensures
        next_newline(prefix + text, from + prefix.len()) == next_newline(text, from)
            + prefix.len(),
    decreases text.len() - from,
{
    if from < text.len() {
        assert((prefix + text)[from + prefix.len()] == text[from]);
        if text[from] != '\n' {
            lemma_next_newline_after(prefix, text, from + 1);
        }
    }
}

/// The lines of text placed after a prefix are the text's own lines,
/// moved along by the prefix.
proof fn lemma_spans_after(prefix: Seq<char>, text: Seq<char>, position: int, width: int)
    requires
        0 <= position <= text.len(),
        width >= 1,
    ensures
        spans_from(prefix + text, position + prefix.len(), width) == shifted(
            spans_from(text, position, width),
            prefix.len() as int,
        ),
    decreases text.len() - position,
{
    let p = prefix.len() as int;
    let end = next_newline(text, position);
    lemma_next_newline_after(prefix, text, position);
    lemma_next_newline_bounds(text, position);
    lemma_stretch_after(prefix, text, position, end, width);
    if end < text.len() {
        lemma_spans_after(prefix, text, end + 1, width);
        assert(shifted(stretch_spans(text, position, end, width) + spans_from(text, end + 1, width), p)
            =~= shifted(stretch_spans(text, position, end, width), p) + shifted(
            spans_from(text, end + 1, width),
            p,
        ));
    }
}

/// Lines from a position in one text are those of the text with a
/// newline and more text after it, up to that newline, followed by
/// the added text's own lines moved along past the newline.
proof fn lemma_spans_before(first: Seq<char>, second: Seq<char>, position: int, width: int)
    requires
        0 <= position <= first.len(),
        width >= 1,
    ensures
        spans_from(first + seq!['\n'] + second, position, width) == spans_from(
            first,
            position,
            width,
        ) + shifted(spans_from(second, 0, width), first.len() + 1int),
    decreases first.len() - position,
{
    let whole = first + seq!['\n'] + second;
    let head = first + seq!['\n'];
    assert(whole =~= head + second);
    let end = next_newline(first, position);
    lemma_next_newline_bounds(first, position);
    lemma_next_newline_is_first(first, position);
    lemma_next_newline_is_first(whole, position);
    lemma_next_newline_bounds(whole, position);
    assert(next_newline(whole, position) == end) by {
        let found = next_newline(whole, position);
        if end < first.len() {
            assert(whole[end] == '\n');
            assert(found <= end) by {
                if found > end {
                    assert(whole[end] != '\n');
                }
            }
            if found < end {
                assert(first[found] == whole[found]);
            }
        } else {
            assert(whole[first.len() as int] == '\n');
            assert(found <= end) by {
                if found > end {
                    assert(whole[end] != '\n');
                }
            }
            if found < end {
                assert(first[found] == whole[found]);
            }
        }
    }
    lemma_stretch_within(first, whole, position, end, width);
    if end < first.len() {
        lemma_spans_before(first, second, end + 1, width);
        assert(spans_from(whole, position, width) =~= stretch_spans(first, position, end, width)
            + (spans_from(first, end + 1, width) + shifted(
            spans_from(second, 0, width),
            first.len() + 1int,
        )));
    } else {
        lemma_spans_after(head, second, 0, width);
        assert(spans_from(head + second, 0 + head.len() as int, width) == spans_from(whole, end + 1, width));
    }
}

/// A stretch's breaks depend only on the text inside the stretch.
proof fn lemma_stretch_within(text: Seq<char>, other: Seq<char>, start: int, end: int, width: int)
    requires
        0 <= start <= end <= text.len(),
        end <= other.len(),
        forall|i: int| start <= i < end ==> #[trigger] other[i] == text[i],
        width >= 1,
    ensures
        stretch_spans(other, start, end, width) == stretch_spans(text, start, end, width),
    decreases end - start,
{
    if end - start > width {
        let limit = start + width;
        let window_end = if limit + 1 < end {
            limit + 1
        } else {
            end
        };
        lemma_last_space_within(text, other, start, window_end);
        lemma_last_space_bounds(text, start, window_end);
        let point = last_space(text, start, window_end);
        if point > start {
            lemma_stretch_within(text, other, point + 1, end, width);
        } else {
            lemma_stretch_within(text, other, limit, end, width);
        }
    }
}

/// The last space in a range depends only on the text inside it.
proof fn lemma_last_space_within(text: Seq<char>, other: Seq<char>, from: int, to: int)
    requires
        0 <= from,
        to <= text.len(),
        to <= other.len(),
        forall|i: int| from <= i < to ==> #[trigger] other[i] == text[i],
    ensures
        last_space(other, from, to) == last_space(text, from, to),
    decreases to - from,
{
    if to > from {
        assert(other[to - 1] == text[to - 1]);
        lemma_last_space_within(text, other, from, to - 1);
    }
}

/// Paragraphs' text joined with a newline between each two.
pub open spec fn joined<K>(paragraphs: Seq<Seq<(K, Seq<char>)>>) -> Seq<char>
    decreases paragraphs.len(),
{
    if paragraphs.len() <= 1 {
        if paragraphs.len() == 0 {
            Seq::empty()
        } else {
            flat(paragraphs[0])
        }
    } else {
        joined(paragraphs.drop_last()) + seq!['\n'] + flat(paragraphs.last())
    }
}

/// A wrapper's whole text: the completed paragraphs and the open one,
/// joined by newlines.
pub open spec fn all_text<K>(text: Paragraphs<K>) -> Seq<char> {
    joined(text.history.push(text.current))
}

/// A paragraph's lines hold its text, an empty paragraph included.
proof fn lemma_paragraph_lines<K>(segments: Seq<(K, Seq<char>)>, width: nat)
    ensures
        wrapped(segments, width).len() == text_spans(flat(segments), width).len(),
        forall|i: int|
            0 <= i < wrapped(segments, width).len() ==> flat(#[trigger] wrapped(segments, width)[i])
                == flat(segments).subrange(
                text_spans(flat(segments), width)[i].0,
                text_spans(flat(segments), width)[i].1,
            ),
{
    if segments.len() > 0 {
        styled_lines_are_the_text_wrapped(segments, width);
    } else {
        let text = flat(segments);
        assert(text =~= Seq::<char>::empty());
        let wide = if width < 1 {
            1
        } else {
            width as int
        };
        assert(next_newline(text, 0) == 0);
        assert(text_spans(text, width) == seq![(0int, 0int)]);
        assert(wrapped(segments, width)[0] =~= Seq::<(K, Seq<char>)>::empty());
        assert(flat(Seq::<(K, Seq<char>)>::empty()) =~= Seq::<char>::empty());
        assert(text.subrange(0, 0) =~= Seq::<char>::empty());
    }
}

/// Paragraphs' display lines hold the joined text: there are as many
/// lines as the joined text wraps to, and each line's pieces, joined,
/// are the joined text in that line's range.
pub proof fn paragraphs_read_as_their_text_wrapped<K>(
    paragraphs: Seq<Seq<(K, Seq<char>)>>,
    width: nat,
)
    requires
        paragraphs.len() > 0,
    ensures
        paragraphs_wrapped(paragraphs, width).len() == text_spans(joined(paragraphs), width).len(),
        forall|i: int|
            0 <= i < paragraphs_wrapped(paragraphs, width).len() ==> flat(
                #[trigger] paragraphs_wrapped(paragraphs, width)[i],
            ) == joined(paragraphs).subrange(
                text_spans(joined(paragraphs), width)[i].0,
                text_spans(joined(paragraphs), width)[i].1,
            ),
    decreases paragraphs.len(),
{
    let wide = if width < 1 {
        1
    } else {
        width as int
    };
    let last = paragraphs.last();
    let rest = paragraphs.drop_last();
    lemma_paragraph_lines(last, width);
    if paragraphs.len() == 1 {
        assert(rest =~= Seq::<Seq<(K, Seq<char>)>>::empty());
        assert(paragraphs_wrapped(paragraphs, width) =~= wrapped(last, width));
        assert(paragraphs[0] == last);
    } else {
        paragraphs_read_as_their_text_wrapped(rest, width);
        let before = joined(rest);
        let text = joined(paragraphs);
        let tail = flat(last);
        assert(text == before + seq!['\n'] + tail);
        lemma_spans_before(before, tail, 0, wide);
        lemma_spans_bounds(before, 0, wide);
        lemma_spans_bounds(tail, 0, wide);
        let spans = text_spans(text, width);
        let early = text_spans(before, width);
        let late = text_spans(tail, width);
        assert(spans == early + shifted(late, before.len() + 1int));
        let lines = paragraphs_wrapped(paragraphs, width);
        let n = paragraphs_wrapped(rest, width).len();
        assert(lines == paragraphs_wrapped(rest, width) + wrapped(last, width));
        assert forall|i: int| 0 <= i < lines.len() implies flat(#[trigger] lines[i])
            == text.subrange(spans[i].0, spans[i].1) by {
            if i < n {
                assert(lines[i] == paragraphs_wrapped(rest, width)[i]);
                assert(spans[i] == early[i]);
                let span = early[i];
                assert(0 <= span.0 <= span.1 <= before.len());
                assert(before.subrange(span.0, span.1) =~= text.subrange(span.0, span.1));
            } else {
                let k = i - n;
                assert(lines[i] == wrapped(last, width)[k]);
                assert(spans[i] == (late[k].0 + before.len() + 1, late[k].1 + before.len() + 1));
                let span = late[k];
                assert(0 <= span.0 <= span.1 <= tail.len());
                assert(tail.subrange(span.0, span.1) =~= text.subrange(
                    span.0 + before.len() + 1,
                    span.1 + before.len() + 1,
                ));
            }
        }
    }
}

/// The text of a concatenation of runs is the texts of each part.
pub proof fn lemma_flat_concat<K>(a: Seq<(K, Seq<char>)>, b: Seq<(K, Seq<char>)>)
    ensures
        flat(a + b) == flat(a) + flat(b),
    decreases b.len(),
{
    if b.len() == 0 {
        assert(a + b =~= a);
        assert(flat(a) + flat(b) =~= flat(a));
    } else {
        lemma_flat_concat(a, b.drop_last());
        assert((a + b).drop_last() =~= a + b.drop_last());
        assert(flat(a + b) =~= flat(a) + flat(b));
    }
}

/// A paragraph cut to a range holds the paragraph's text in that range,
/// the range clipped to the text.
pub proof fn lemma_line_cut_text<K>(segments: Seq<(K, Seq<char>)>, begin: int, finish: int)
    requires
        0 <= begin <= finish,
    ensures
        flat(line_cut(segments, begin, finish)) == flat(segments).subrange(
            if begin < flat(segments).len() {
                begin
            } else {
                flat(segments).len() as int
            },
            if finish < flat(segments).len() {
                finish
            } else {
                flat(segments).len() as int
            },
        ),
    decreases segments.len(),
{
    if segments.len() == 0 {
        assert(flat(segments).subrange(0, 0) =~= Seq::<char>::empty());
    } else {
        let rest = segments.drop_last();
        lemma_line_cut_text(rest, begin, finish);
        let at = flat(rest).len() as int;
        let last = segments.last();
        let piece = segment_cut(last, at, begin, finish);
        lemma_flat_concat(line_cut(rest, begin, finish), piece);
        if piece.len() > 0 {
            assert(piece.len() == 1);
            assert(piece.drop_last() =~= Seq::<(K, Seq<char>)>::empty());
            assert(flat(piece.drop_last()) =~= Seq::<char>::empty());
            assert(flat(piece) =~= piece[0].1);
        } else {
            assert(flat(piece) =~= Seq::<char>::empty());
        }
        let whole = flat(segments);
        assert(whole =~= flat(rest) + last.1);
        let low = if begin < whole.len() {
            begin
        } else {
            whole.len() as int
        };
        let high = if finish < whole.len() {
            finish
        } else {
            whole.len() as int
        };
        assert(flat(line_cut(segments, begin, finish)) =~= whole.subrange(low, high));
    }
}

/// A paragraph's display lines hold its text: each line's pieces,
/// joined, are the text in that line's range, so that the styled lines
/// read as the paragraph's plain text wrapped.
pub proof fn styled_lines_are_the_text_wrapped<K>(segments: Seq<(K, Seq<char>)>, width: nat)
    requires
        segments.len() > 0,
    ensures
        wrapped(segments, width).len() == text_spans(flat(segments), width).len(),
        forall|i: int|
            0 <= i < wrapped(segments, width).len() ==> flat(#[trigger] wrapped(segments, width)[i])
                == flat(segments).subrange(
                text_spans(flat(segments), width)[i].0,
                text_spans(flat(segments), width)[i].1,
            ),
{
    let text = flat(segments);
    let spans = text_spans(text, width);
    lines_fit_the_width(text, width);
    assert forall|i: int| 0 <= i < wrapped(segments, width).len() implies flat(
        #[trigger] wrapped(segments, width)[i],
    ) == text.subrange(spans[i].0, spans[i].1) by {
        let span = spans[i];
        assert(0 <= span.0 <= span.1 <= text.len());
        lemma_line_cut_text(segments, span.0, span.1);
    }
}

/// A longer prefix of a paragraph holds at least as much text.
pub proof fn lemma_flat_prefix<K>(segments: Seq<(K, Seq<char>)>, j: int, k: int)
    requires
        0 <= j <= k <= segments.len(),
    ensures
        flat(segments.take(j)).len() <= flat(segments.take(k)).len(),
        j < k ==> flat(segments.take(j + 1)) == flat(segments.take(j)) + segments[j].1,
    decreases k - j,
{
    if j < k {
        assert(segments.take(j + 1).drop_last() =~= segments.take(j));
        lemma_flat_prefix(segments, j + 1, k);
    }
}

/// Break one styled paragraph into styled display lines.
pub fn wrap_segments<K: Copy>(segments: &[Segment<K>], width: usize) -> (lines: Vec<
    Vec<Segment<K>>,
>)
    ensures
        lines_view(lines@) == wrapped(line_view(segments@), width as nat),
{
    let ghost view = line_view(segments@);
    if segments.len() == 0 {
        let mut lines: Vec<Vec<Segment<K>>> = Vec::new();
        let empty: Vec<Segment<K>> = Vec::new();
        lines.push(empty);
        proof {
            assert(line_view(lines@[0]@) =~= Seq::<(K, Seq<char>)>::empty());
            assert(lines_view(lines@) =~= wrapped(view, width as nat));
        }
        return lines;
    }
    let mut pieces: Vec<Vec<char>> = Vec::new();
    let mut text: Vec<char> = Vec::new();
    let mut starts: Vec<usize> = Vec::new();
    let mut index: usize = 0;
    while index < segments.len()
        invariant
            index <= segments@.len(),
            view == line_view(segments@),
            text@ == flat(view.take(index as int)),
            pieces@.len() == index,
            starts@.len() == index,
            forall|j: int| 0 <= j < index ==> (#[trigger] pieces@[j])@ == segments@[j].1@,
            forall|j: int|
                0 <= j < index ==> #[trigger] starts@[j] == flat(view.take(j)).len(),
        decreases segments.len() - index,
    {
        starts.push(text.len());
        let piece = chars_of(segments[index].1.as_str());
        let mut at: usize = 0;
        let ghost before = text@;
        while at < piece.len()
            invariant
                at <= piece@.len(),
                text@ == before + piece@.take(at as int),
            decreases piece.len() - at,
        {
            text.push(piece[at]);
            at += 1;
            proof {
                assert(piece@.take(at as int) =~= piece@.take(at - 1).push(piece@[at - 1]));
            }
        }
        pieces.push(piece);
        proof {
            assert(piece@.take(piece@.len() as int) =~= piece@);
            lemma_flat_prefix(view, index as int, index as int + 1);
        }
        index += 1;
    }
    proof {
        assert(view.take(view.len() as int) =~= view);
    }
    let total = text.len();
    let found = spans(text.as_slice(), width);
    let ghost spans_view = text_spans(flat(view), width as nat);
    proof {
        lines_fit_the_width(flat(view), width as nat);
    }
    let mut lines: Vec<Vec<Segment<K>>> = Vec::new();
    let mut line_index: usize = 0;
    while line_index < found.len()
        invariant
            line_index <= found@.len(),
            view == line_view(segments@),
            segments@.len() > 0,
            pieces@.len() == segments@.len(),
            starts@.len() == segments@.len(),
            text@ == flat(view),
            total == text@.len(),
            forall|j: int| 0 <= j < segments@.len() ==> (#[trigger] pieces@[j])@ == segments@[j].1@,
            forall|j: int|
                0 <= j < segments@.len() ==> #[trigger] starts@[j] == flat(view.take(j)).len(),
            spans_view == text_spans(flat(view), width as nat),
            found@.map_values(|span: (usize, usize)| (span.0 as int, span.1 as int)) == spans_view,
            lines@.len() == line_index,
            forall|i: int|
                0 <= i < line_index ==> line_view((#[trigger] lines@[i])@) == line_cut(
                    view,
                    spans_view[i].0,
                    spans_view[i].1,
                ),
        decreases found.len() - line_index,
    {
        let (begin, finish) = found[line_index];
        proof {
            assert(spans_view[line_index as int] == (begin as int, finish as int));
        }
        let mut line: Vec<Segment<K>> = Vec::new();
        let mut index: usize = 0;
        while index < segments.len()
            invariant
                index <= segments@.len(),
                view == line_view(segments@),
                pieces@.len() == segments@.len(),
                starts@.len() == segments@.len(),
                text@ == flat(view),
                total == text@.len(),
                forall|j: int|
                    0 <= j < segments@.len() ==> (#[trigger] pieces@[j])@ == segments@[j].1@,
                forall|j: int|
                    0 <= j < segments@.len() ==> #[trigger] starts@[j] == flat(view.take(j)).len(),
                line_view(line@) == line_cut(view.take(index as int), begin as int, finish as int),
            decreases segments.len() - index,
        {
            let at = starts[index];
            proof {
                lemma_flat_prefix(view, index as int, index as int + 1);
                lemma_flat_prefix(view, index as int + 1, view.len() as int);
                assert(view.take(view.len() as int) =~= view);
                assert(view.take(index as int + 1).drop_last() =~= view.take(index as int));
                assert(view[index as int] == seg_view(segments@[index as int]));
                assert(pieces@[index as int]@.len() == view[index as int].1.len());
                assert(at + pieces@[index as int]@.len() == flat(view.take(index as int + 1)).len());
                assert(flat(view.take(index as int + 1)).len() <= text@.len());
            }
            let to = at + pieces[index].len();
            let low = if begin > at {
                begin
            } else {
                at
            };
            let high = if finish < to {
                finish
            } else {
                to
            };
            let ghost earlier = line@;
            if low < high {
                let piece = string_of_range(pieces[index].as_slice(), low - at, high - at);
                line.push((segments[index].0, piece));
                proof {
                    assert(line_view(line@) =~= line_view(earlier).push(
                        (segments@[index as int].0, piece@),
                    ));
                }
            }
            index += 1;
        }
        proof {
            assert(view.take(view.len() as int) =~= view);
        }
        lines.push(line);
        line_index += 1;
    }
    proof {
        assert(lines_view(lines@) =~= wrapped(view, width as nat));
    }
    lines
}


/// How many completed paragraphs to remember. Past this the oldest
/// are dropped -- a terminal cannot scroll back to them anyway, and a
/// long game would otherwise accumulate its entire transcript.
pub const SCROLLBACK: usize = 2000;

/// How many of the oldest paragraphs go at once when the scrollback
/// overflows.
pub const TRIM: usize = 200;

/// What a window should be showing at this moment.
#[derive(Debug, Clone, PartialEq, Eq)]
pub struct Viewport<K> {
    /// The display lines to show, oldest first.
    pub lines: Vec<Vec<Segment<K>>>,
    /// The index in the wrapper's lines that these begin at, for
    /// anything anchored to a line number.
    pub start: usize,
    /// Whether text is waiting that this view could not fit -- what
    /// a pause prompt announces.
    pub more: bool,
}

/// Paragraphs broken into display lines, one after another.
pub open spec fn paragraphs_wrapped<K>(paragraphs: Seq<Seq<(K, Seq<char>)>>, width: nat) -> Seq<
    Seq<(K, Seq<char>)>,
>
    decreases paragraphs.len(),
{
    if paragraphs.len() == 0 {
        Seq::empty()
    } else {
        paragraphs_wrapped(paragraphs.drop_last(), width) + wrapped(paragraphs.last(), width)
    }
}

/// A wrapper's text: the completed paragraphs and the open one.
#[verifier::ext_equal]
pub struct Paragraphs<K> {
    pub history: Seq<Seq<(K, Seq<char>)>>,
    pub current: Seq<(K, Seq<char>)>,
}

/// The open paragraph with more text of a key: nothing for empty
/// text, fused into the last segment when the keys are equal, a new
/// segment otherwise.
pub open spec fn extended<K: PartialEq>(
    current: Seq<(K, Seq<char>)>,
    key: K,
    piece: Seq<char>,
) -> Seq<(K, Seq<char>)> {
    if piece.len() == 0 {
        current
    } else if current.len() > 0 && current.last().0.eq_spec(&key) {
        current.drop_last().push((current.last().0, current.last().1 + piece))
    } else {
        current.push((key, piece))
    }
}

/// The paragraphs after the open one completes; past the
/// scrollback's limit and its batch, the oldest batch is dropped.
pub open spec fn broken<K>(text: Paragraphs<K>) -> Paragraphs<K> {
    let history = text.history.push(text.current);
    Paragraphs {
        history: if history.len() > SCROLLBACK + TRIM {
            history.skip(TRIM as int)
        } else {
            history
        },
        current: Seq::empty(),
    }
}

/// Characters fed in one run: each newline completes the open
/// paragraph, the text between extending it.
pub open spec fn fed<K: PartialEq>(
    text: Paragraphs<K>,
    key: K,
    pending: Seq<char>,
    rest: Seq<char>,
) -> Paragraphs<K>
    decreases rest.len(),
{
    if rest.len() == 0 {
        Paragraphs { current: extended(text.current, key, pending), ..text }
    } else if rest[0] == '\n' {
        fed(
            broken(Paragraphs { current: extended(text.current, key, pending), ..text }),
            key,
            Seq::empty(),
            rest.drop_first(),
        )
    } else {
        fed(text, key, pending.push(rest[0]), rest.drop_first())
    }
}

/// Runs folded in, one after another; empty runs change nothing.
pub open spec fn runs_added<K: PartialEq>(text: Paragraphs<K>, runs: Seq<(K, Seq<char>)>) -> Paragraphs<
    K,
>
    decreases runs.len(),
{
    if runs.len() == 0 {
        text
    } else {
        let before = runs_added(text, runs.drop_last());
        if runs.last().1.len() == 0 {
            before
        } else {
            fed(before, runs.last().0, Seq::empty(), runs.last().1)
        }
    }
}

/// Every display line of some text at a width, oldest first.
pub open spec fn all_lines<K>(text: Paragraphs<K>, width: nat) -> Seq<Seq<(K, Seq<char>)>> {
    paragraphs_wrapped(text.history, width) + wrapped(text.current, width)
}

/// Every paragraph wraps to at least one line.
pub proof fn lemma_wrapped_nonempty<K>(segments: Seq<(K, Seq<char>)>, width: nat)
    ensures
        wrapped(segments, width).len() >= 1,
{
    if segments.len() > 0 {
        lemma_spans_bounds(flat(segments), 0, if width < 1 {
            1
        } else {
            width as int
        });
    }
}

/// A copy of a line, segment for segment.
fn copy_line<K: Copy>(line: &Vec<Segment<K>>) -> (copy: Vec<Segment<K>>)
    ensures
        line_view(copy@) == line_view(line@),
{
    let mut copy: Vec<Segment<K>> = Vec::new();
    let mut index: usize = 0;
    while index < line.len()
        invariant
            index <= line@.len(),
            line_view(copy@) == line_view(line@.take(index as int)),
        decreases line.len() - index,
    {
        let text = line[index].1.clone();
        let ghost before = copy@;
        copy.push((line[index].0, text));
        proof {
            assert(copy@ == before.push((line@[index as int].0, text)));
            assert(line@.take(index + 1) =~= line@.take(index as int).push(line@[index as int]));
            assert(seg_view((line@[index as int].0, text)) == seg_view(line@[index as int]));
            assert(line_view(copy@) =~= line_view(before).push(seg_view(line@[index as int])));
            assert(line_view(line@.take(index + 1)) =~= line_view(line@.take(index as int)).push(
                seg_view(line@[index as int]),
            ));
        }
        index += 1;
    }
    proof {
        assert(line@.take(line@.len() as int) =~= line@);
    }
    copy
}

/// Lines appended as copies.
fn append_lines<K: Copy>(into: &mut Vec<Vec<Segment<K>>>, lines: &Vec<Vec<Segment<K>>>)
    ensures
        lines_view(final(into)@) == lines_view(old(into)@) + lines_view(lines@),
{
    let ghost start = lines_view(into@);
    let mut index: usize = 0;
    while index < lines.len()
        invariant
            index <= lines@.len(),
            lines_view(into@) == start + lines_view(lines@.take(index as int)),
        decreases lines.len() - index,
    {
        let line = copy_line(&lines[index]);
        let ghost before = into@;
        into.push(line);
        proof {
            assert(lines@.take(index + 1) =~= lines@.take(index as int).push(lines@[index as int]));
            assert(lines_view(into@) =~= lines_view(before).push(line_view(line@)));
            assert(lines_view(lines@.take(index + 1)) =~= lines_view(lines@.take(index as int)).push(
                line_view(lines@[index as int]@),
            ));
            assert(lines_view(into@) =~= start + lines_view(lines@.take(index + 1)));
        }
        index += 1;
    }
    proof {
        assert(lines@.take(lines@.len() as int) =~= lines@);
    }
}

/// Lines of text per page: the window less the prompt's line, and
/// never fewer than one.
pub open spec fn page_len(height: nat) -> nat {
    if height <= 2 {
        1
    } else {
        (height - 1) as nat
    }
}

/// Where a page begins: one line before the last line seen, so the
/// page break does not read as a gap.
pub open spec fn page_begin(seen: nat) -> nat {
    if seen == 0 {
        0
    } else {
        (seen - 1) as nat
    }
}

/// What a view shows, and how much has been seen once it is shown.
#[verifier::ext_equal]
pub struct Showing<K> {
    pub lines: Seq<Seq<(K, Seq<char>)>>,
    pub start: nat,
    pub more: bool,
    pub seen: nat,
}

/// The view of display lines with seen lines already read, in a
/// window of some height. A window with no rows shows nothing. When
/// everything unseen fits, the newest windowful is shown and all of
/// it counts as seen; otherwise the page from page_begin is shown and
/// nothing more counts as seen until an advance.
pub open spec fn viewed<K>(display: Seq<Seq<(K, Seq<char>)>>, seen: nat, height: nat) -> Showing<K> {
    let count = display.len();
    let read = if seen < count {
        seen
    } else {
        count
    };
    if height == 0 {
        Showing { lines: Seq::empty(), start: 0, more: false, seen }
    } else if count - read <= height {
        let start: nat = if count > height {
            (count - height) as nat
        } else {
            0
        };
        Showing { lines: display.skip(start as int), start, more: false, seen: count }
    } else {
        let start = page_begin(seen);
        let end = if start + page_len(height) < count {
            start + page_len(height)
        } else {
            count
        };
        Showing { lines: display.subrange(start as int, end as int), start, more: true, seen }
    }
}

/// How much has been seen after the player reads a page: at least
/// one line further on, and never past the end.
pub open spec fn advanced(count: nat, seen: nat, height: nat) -> nat {
    let page = page_begin(seen) + page_len(height);
    let further = if seen + 1 < page {
        page
    } else {
        seen + 1
    };
    if count < further {
        count
    } else {
        further
    }
}

/// Viewing twice in a row shows the same thing and leaves the same
/// lines seen: a repaint on every keystroke moves nothing.
pub proof fn viewing_again_changes_nothing<K>(
    display: Seq<Seq<(K, Seq<char>)>>,
    seen: nat,
    height: nat,
)
    ensures
        viewed(display, viewed(display, seen, height).seen, height) == viewed(
            display,
            seen,
            height,
        ),
{
}

/// A view never shows more lines than the window has rows.
pub proof fn views_fit_the_window<K>(display: Seq<Seq<(K, Seq<char>)>>, seen: nat, height: nat)
    ensures
        viewed(display, seen, height).lines.len() <= height,
{
}

/// Reading a page always moves at least one line on while lines are
/// left, and never past the last line.
pub proof fn advancing_moves_on(count: nat, seen: nat, height: nat)
    requires
        seen < count,
    ensures
        seen < advanced(count, seen, height) <= count,
{
}

/// Once everything has been read, no view waits for more.
pub proof fn read_views_wait_for_nothing<K>(display: Seq<Seq<(K, Seq<char>)>>, height: nat)
    ensures
        !viewed(display, display.len(), height).more,
{
}

/// A run of lines copied, from one index up to another.
fn copy_range<K: Copy>(lines: &Vec<Vec<Segment<K>>>, from: usize, to: usize) -> (copy: Vec<
    Vec<Segment<K>>,
>)
    requires
        from <= to <= lines@.len(),
    ensures
        lines_view(copy@) == lines_view(lines@).subrange(from as int, to as int),
{
    let mut copy: Vec<Vec<Segment<K>>> = Vec::new();
    let mut index: usize = from;
    while index < to
        invariant
            from <= index <= to <= lines@.len(),
            lines_view(copy@) == lines_view(lines@).subrange(from as int, index as int),
        decreases to - index,
    {
        let line = copy_line(&lines[index]);
        let ghost before = copy@;
        copy.push(line);
        proof {
            assert(lines_view(copy@) =~= lines_view(before).push(line_view(line@)));
            assert(lines_view(lines@).subrange(from as int, index + 1) =~= lines_view(
                lines@,
            ).subrange(from as int, index as int).push(line_view(lines@[index as int]@)));
        }
        index += 1;
    }
    copy
}

/// Accumulates one window's styled output and wraps it to a width.
///
/// Keeps every paragraph, because a full-screen display repaints
/// from scratch and cannot re-ask the window for text it has
/// already drained.
pub struct Wrapper<K> {
    /// The width lines are currently wrapped to.
    pub width: usize,
    // Completed paragraphs, and the one still being written.
    history: Vec<Vec<Segment<K>>>,
    current: Vec<Segment<K>>,
    // Wrapped forms of each, recomputed only when they change.
    done: Option<Vec<Vec<Segment<K>>>>,
    tail: Option<Vec<Vec<Segment<K>>>>,
    /// How many display lines the player has been shown.
    pub seen: usize,
}

impl<K: Copy + PartialEq> Wrapper<K> {
    /// The text held, as paragraphs.
    pub closed spec fn text(&self) -> Paragraphs<K> {
        Paragraphs { history: lines_view(self.history@), current: line_view(self.current@) }
    }

    /// The width lines are wrapped to.
    pub closed spec fn wrap_width(&self) -> nat {
        self.width as nat
    }

    /// How many display lines the player has been shown.
    pub closed spec fn seen_lines(&self) -> nat {
        self.seen as nat
    }

    /// The width lines are wrapped to: the `width` field, which the
    /// contracts speak of as `wrap_width`.
    pub fn line_width(&self) -> (width: usize)
        ensures
            width == self.wrap_width(),
    {
        self.width
    }

    /// How many display lines the player has been shown: the `seen`
    /// field, which the contracts speak of as `seen_lines`.
    pub fn lines_seen(&self) -> (seen: usize)
        ensures
            seen == self.seen_lines(),
    {
        self.seen
    }

    /// Whether the open paragraph's wrapped form is held.
    pub closed spec fn tail_held(&self) -> bool {
        self.tail is Some
    }

    /// Every display line at the current width.
    pub closed spec fn display(&self) -> Seq<Seq<(K, Seq<char>)>> {
        all_lines(self.text(), self.width as nat)
    }

    /// The width is at least one, the scrollback within its bound,
    /// and the completed paragraphs' wrapped form, where held,
    /// matches them.
    closed spec fn settled(&self) -> bool {
        &&& self.width >= 1
        &&& self.history@.len() <= SCROLLBACK + TRIM
        &&& self.done matches Some(done) ==> lines_view(done@) == paragraphs_wrapped(
            lines_view(self.history@),
            self.width as nat,
        )
    }

    /// Everything settled holds, and the open paragraph's wrapped
    /// form, where held, matches it too.
    pub closed spec fn wf(&self) -> bool {
        &&& self.settled()
        &&& self.tail matches Some(tail) ==> lines_view(tail@) == wrapped(
            line_view(self.current@),
            self.width as nat,
        )
    }

    /// What a wrapper displays is every line of its text at its width:
    /// the completed paragraphs and the open one, each wrapped.
    pub proof fn display_is_the_text_wrapped(&self)
        ensures
            self.display() == all_lines(self.text(), self.wrap_width()),
    {
    }

    /// A wrapper's lines are all its text wrapped: the completed
    /// paragraphs and the open one, joined by newlines, wrap to as many
    /// lines as it displays, and each displayed line's pieces, joined,
    /// are that text in the line's range.
    pub proof fn lines_are_all_text_wrapped(&self)
        ensures
            self.display().len() == text_spans(all_text(self.text()), self.wrap_width()).len(),
            forall|i: int|
                0 <= i < self.display().len() ==> flat(#[trigger] self.display()[i]) == all_text(
                    self.text(),
                ).subrange(
                    text_spans(all_text(self.text()), self.wrap_width())[i].0,
                    text_spans(all_text(self.text()), self.wrap_width())[i].1,
                ),
    {
        let text = self.text();
        let paragraphs = text.history.push(text.current);
        assert(paragraphs.drop_last() =~= text.history);
        assert(paragraphs_wrapped(paragraphs, self.wrap_width()) == all_lines(text, self.wrap_width()));
        paragraphs_read_as_their_text_wrapped(paragraphs, self.wrap_width());
    }

    /// However much is added, no more completed paragraphs are kept
    /// than the scrollback and one batch.
    pub proof fn scrollback_is_bounded(&self)
        requires
            self.wf(),
        ensures
            self.text().history.len() <= SCROLLBACK + TRIM,
    {
    }

    /// Start empty, wrapping to the given width.
    pub fn new(width: usize) -> (wrapper: Self)
        ensures
            wrapper.wf(),
            wrapper.wrap_width() == if width < 1 {
                1
            } else {
                width as nat
            },
            wrapper.text() == (Paragraphs::<K> { history: Seq::empty(), current: Seq::empty() }),
            wrapper.seen_lines() == 0,
            wrapper.display() == all_lines(wrapper.text(), wrapper.wrap_width()),
    {
        let wrapper = Self {
            width: if width < 1 {
                1
            } else {
                width
            },
            history: Vec::new(),
            current: Vec::new(),
            done: Some(Vec::new()),
            tail: None,
            seen: 0,
        };
        proof {
            assert(wrapper.text() =~= (Paragraphs::<K> {
                history: Seq::empty(),
                current: Seq::empty(),
            }));
        }
        wrapper
    }

    /// Extend the open paragraph with text of a key.
    fn extend(&mut self, key: K, text: &str)
        requires
            old(self).settled(),
        ensures
            final(self).settled(),
            final(self).history@ == old(self).history@,
            final(self).width == old(self).width,
            final(self).seen == old(self).seen,
            final(self).done == old(self).done,
            final(self).tail == old(self).tail,
            K::obeys_eq_spec() ==> line_view(final(self).current@) == extended(
                line_view(old(self).current@),
                key,
                text@,
            ),
    {
        if text.is_empty() {
            return;
        }
        let count = self.current.len();
        let ghost before = self.current@;
        if count > 0 && self.current[count - 1].0 == key {
            match self.current.pop() {
                Some((held, mut chunk)) => {
                    chunk.append(text);
                    self.current.push((held, chunk));
                    proof {
                        if K::obeys_eq_spec() {
                            assert(line_view(self.current@) =~= extended(
                                line_view(before),
                                key,
                                text@,
                            ));
                        }
                    }
                },
                None => {},
            }
        } else {
            self.current.push((key, String::from_str(text)));
            proof {
                if K::obeys_eq_spec() {
                    assert(line_view(self.current@) =~= extended(line_view(before), key, text@));
                }
            }
        }
    }

    /// Complete the open paragraph.
    fn break_paragraph(&mut self)
        requires
            old(self).settled(),
        ensures
            final(self).settled(),
            final(self).width == old(self).width,
            final(self).seen == old(self).seen,
            final(self).tail == old(self).tail,
            final(self).text() == broken(old(self).text()),
    {
        let mut paragraph: Vec<Segment<K>> = Vec::new();
        std::mem::swap(&mut paragraph, &mut self.current);
        let mut held: Option<Vec<Vec<Segment<K>>>> = None;
        std::mem::swap(&mut held, &mut self.done);
        match held {
            Some(mut done) => {
                let lines = wrap_segments(paragraph.as_slice(), self.width);
                append_lines(&mut done, &lines);
                self.done = Some(done);
            },
            None => {},
        }
        let ghost earlier = self.history@;
        self.history.push(paragraph);
        proof {
            assert(lines_view(self.history@) =~= lines_view(earlier).push(line_view(paragraph@)));
            assert(lines_view(self.history@).drop_last() =~= lines_view(earlier));
        }
        if self.history.len() > SCROLLBACK + TRIM {
            // Trimmed in batches, so this is not paid on every line.
            let ghost full = self.history@;
            self.history = self.history.split_off(TRIM);
            self.done = None;
            proof {
                assert(lines_view(self.history@) =~= lines_view(full).skip(TRIM as int));
            }
        }
        proof {
            assert(line_view(self.current@) =~= Seq::<(K, Seq<char>)>::empty());
            assert(self.text() =~= broken(old(self).text()));
        }
    }

    /// Fold more styled output in, continuing the open paragraph.
    pub fn add(&mut self, runs: Vec<Segment<K>>)
        requires
            old(self).wf(),
        ensures
            final(self).wf(),
            final(self).wrap_width() == old(self).wrap_width(),
            final(self).seen_lines() == old(self).seen_lines(),
            K::obeys_eq_spec() ==> final(self).text() == runs_added(old(self).text(), line_view(runs@)),
            final(self).display() == all_lines(final(self).text(), final(self).wrap_width()),
    {
        let ghost runs_view = line_view(runs@);
        let mut index: usize = 0;
        while index < runs.len()
            invariant
                index <= runs@.len(),
                runs_view == line_view(runs@),
                self.settled(),
                self.width == old(self).width,
                self.seen == old(self).seen,
                K::obeys_eq_spec() ==> self.text() == runs_added(
                    old(self).text(),
                    runs_view.take(index as int),
                ),
            decreases runs.len() - index,
        {
            let key = runs[index].0;
            let ghost start = self.text();
            proof {
                assert(runs_view.take(index + 1).drop_last() =~= runs_view.take(index as int));
                assert(runs_view.take(index + 1).last() == seg_view(runs@[index as int]));
            }
            if !runs[index].1.as_str().is_empty() {
                let characters = chars_of(runs[index].1.as_str());
                let mut pending = String::new();
                let mut at: usize = 0;
                proof {
                    assert(characters@.skip(0) =~= characters@);
                    assert(pending@ == Seq::<char>::empty());
                }
                while at < characters.len()
                    invariant
                        at <= characters@.len(),
                        self.settled(),
                        self.width == old(self).width,
                        self.seen == old(self).seen,
                        K::obeys_eq_spec() ==> fed(
                            self.text(),
                            key,
                            pending@,
                            characters@.skip(at as int),
                        ) == fed(start, key, Seq::empty(), characters@),
                    decreases characters.len() - at,
                {
                    let ch = characters[at];
                    proof {
                        assert(characters@.skip(at as int).drop_first() =~= characters@.skip(
                            at + 1,
                        ));
                        assert(characters@.skip(at as int)[0] == ch);
                    }
                    if ch == '\n' {
                        let ghost before = self.text();
                        self.extend(key, pending.as_str());
                        proof {
                            if K::obeys_eq_spec() {
                                assert(self.text() =~= (Paragraphs {
                                    current: extended(before.current, key, pending@),
                                    ..before
                                }));
                            }
                        }
                        self.break_paragraph();
                        pending = String::new();
                    } else {
                        push_char(&mut pending, ch);
                    }
                    at += 1;
                }
                let ghost before = self.text();
                self.extend(key, pending.as_str());
                proof {
                    assert(characters@.skip(at as int) =~= Seq::<char>::empty());
                    if K::obeys_eq_spec() {
                        assert(self.text() =~= (Paragraphs {
                            current: extended(before.current, key, pending@),
                            ..before
                        }));
                    }
                }
            }
            index += 1;
        }
        proof {
            assert(runs_view.take(runs_view.len() as int) =~= runs_view);
        }
        self.tail = None;
    }

    /// Every display line, oldest first.
    pub fn lines(&mut self) -> (lines: Vec<Vec<Segment<K>>>)
        requires
            old(self).wf(),
        ensures
            final(self).wf(),
            final(self).text() == old(self).text(),
            final(self).wrap_width() == old(self).wrap_width(),
            final(self).seen_lines() == old(self).seen_lines(),
            final(self).display() == old(self).display(),
            lines_view(lines@) == old(self).display(),
            final(self).tail_held(),
    {
        if self.done.is_none() {
            let mut done: Vec<Vec<Segment<K>>> = Vec::new();
            let mut index: usize = 0;
            while index < self.history.len()
                invariant
                    index <= self.history@.len(),
                    self.settled(),
                    self.history == old(self).history,
                    lines_view(done@) == paragraphs_wrapped(
                        lines_view(self.history@.take(index as int)),
                        self.width as nat,
                    ),
                decreases self.history.len() - index,
            {
                let lines = wrap_segments(self.history[index].as_slice(), self.width);
                append_lines(&mut done, &lines);
                proof {
                    assert(lines_view(self.history@.take(index + 1)).drop_last() =~= lines_view(
                        self.history@.take(index as int),
                    ));
                }
                index += 1;
            }
            proof {
                assert(self.history@.take(self.history@.len() as int) =~= self.history@);
            }
            self.done = Some(done);
        }
        if self.tail.is_none() {
            self.tail = Some(wrap_segments(self.current.as_slice(), self.width));
        }
        let mut lines: Vec<Vec<Segment<K>>> = Vec::new();
        match &self.done {
            Some(done) => append_lines(&mut lines, done),
            None => {},
        }
        match &self.tail {
            Some(tail) => append_lines(&mut lines, tail),
            None => {},
        }
        proof {
            assert(lines_view(lines@) =~= old(self).display());
        }
        lines
    }

    /// The display lines as if runs had been added, without adding.
    ///
    /// A display draws the line the player is typing this way: it is
    /// part of the layout, but it is not part of the window's
    /// contents until the game accepts it.
    pub fn preview(&mut self, runs: &[Segment<K>]) -> (lines: Vec<Vec<Segment<K>>>)
        requires
            old(self).wf(),
        ensures
            final(self).wf(),
            final(self).text() == old(self).text(),
            final(self).wrap_width() == old(self).wrap_width(),
            final(self).seen_lines() == old(self).seen_lines(),
            final(self).display() == old(self).display(),
            lines_view(lines@) == if runs@.len() == 0 {
                old(self).display()
            } else {
                old(self).display().take(
                    old(self).display().len() - wrapped(
                        old(self).text().current,
                        old(self).wrap_width(),
                    ).len(),
                ) + wrapped(old(self).text().current + line_view(runs@), old(self).wrap_width())
            },
    {
        if runs.len() == 0 {
            return self.lines();
        }
        let lines = self.lines();
        let tail = match &self.tail {
            Some(tail) => if tail.len() > 1 {
                tail.len()
            } else {
                1
            },
            None => 1,
        };
        proof {
            lemma_wrapped_nonempty(line_view(self.current@), self.width as nat);
            assert(self.tail is Some);
            let held = self.tail->0;
            assert(lines_view(held@) == wrapped(line_view(self.current@), self.width as nat));
            assert(tail == held@.len());
            assert(lines_view(lines@) == self.display());
            assert(lines@.len() == self.display().len());
        }
        let keep = lines.len() - tail;
        let mut previewed: Vec<Vec<Segment<K>>> = Vec::new();
        let mut index: usize = 0;
        while index < keep
            invariant
                index <= keep <= lines@.len(),
                lines_view(previewed@) == lines_view(lines@.take(index as int)),
            decreases keep - index,
        {
            let line = copy_line(&lines[index]);
            let ghost before = previewed@;
            previewed.push(line);
            proof {
                assert(lines_view(lines@.take(index + 1)) =~= lines_view(lines@.take(index as int)).push(
                    line_view(lines@[index as int]@),
                ));
                assert(lines_view(previewed@) =~= lines_view(before).push(line_view(line@)));
            }
            index += 1;
        }
        let mut composed = copy_line(&self.current);
        let mut at: usize = 0;
        let ghost base = line_view(composed@);
        while at < runs.len()
            invariant
                at <= runs@.len(),
                line_view(composed@) == base + line_view(runs@.take(at as int)),
            decreases runs.len() - at,
        {
            let text = runs[at].1.clone();
            let ghost before = composed@;
            composed.push((runs[at].0, text));
            proof {
                assert(line_view(runs@.take(at + 1)) =~= line_view(runs@.take(at as int)).push(
                    seg_view(runs@[at as int]),
                ));
                assert(line_view(composed@) =~= line_view(before).push(seg_view(runs@[at as int])));
            }
            at += 1;
        }
        proof {
            assert(runs@.take(runs@.len() as int) =~= runs@);
        }
        let wrapped_lines = wrap_segments(composed.as_slice(), self.width);
        append_lines(&mut previewed, &wrapped_lines);
        proof {
            assert(lines_view(lines@.take(keep as int)) =~= lines_view(lines@).take(keep as int));
        }
        previewed
    }

    /// Lines of text per page: the window, less the prompt's line.
    fn page(&self, height: usize) -> (lines: usize)
        ensures
            lines == page_len(height as nat),
    {
        if height <= 2 {
            1
        } else {
            height - 1
        }
    }

    /// Where the next page begins.
    fn page_start(&self) -> (line: usize)
        ensures
            line == page_begin(self.seen as nat),
    {
        if self.seen == 0 {
            0
        } else {
            self.seen - 1
        }
    }

    /// What to show now, where it starts, and whether more waits.
    ///
    /// Calling this *is* the display showing them, so it advances
    /// seen -- but only when there is nothing left waiting. While
    /// there is, the view stays put until advance is called, which
    /// is what makes the pause a pause.
    pub fn view(&mut self, height: usize) -> (shown: Viewport<K>)
        requires
            old(self).wf(),
        ensures
            final(self).wf(),
            final(self).text() == old(self).text(),
            final(self).wrap_width() == old(self).wrap_width(),
            lines_view(shown.lines@) == viewed(
                old(self).display(),
                old(self).seen_lines(),
                height as nat,
            ).lines,
            shown.start == viewed(old(self).display(), old(self).seen_lines(), height as nat).start,
            shown.more == viewed(old(self).display(), old(self).seen_lines(), height as nat).more,
            final(self).seen_lines() == viewed(
                old(self).display(),
                old(self).seen_lines(),
                height as nat,
            ).seen,
    {
        let lines = self.lines();
        if height == 0 {
            let nothing: Vec<Vec<Segment<K>>> = Vec::new();
            proof {
                assert(lines_view(nothing@) =~= Seq::<Seq<(K, Seq<char>)>>::empty());
            }
            return Viewport { lines: nothing, start: 0, more: false };
        }
        let count = lines.len();
        let read = if self.seen < count {
            self.seen
        } else {
            count
        };
        if count - read <= height {
            // Everything unseen fits: show the newest windowful, and the
            // player has now had the lot. Idempotent, which matters -- a
            // repaint happens on every keystroke.
            self.seen = count;
            let start = if count > height {
                count - height
            } else {
                0
            };
            let shown = copy_range(&lines, start, count);
            proof {
                assert(lines_view(lines@).subrange(start as int, count as int) =~= lines_view(
                    lines@,
                ).skip(start as int));
            }
            return Viewport { lines: shown, start, more: false };
        }
        let start = self.page_start();
        let page = self.page(height);
        let end = if start + page < count {
            start + page
        } else {
            count
        };
        let shown = copy_range(&lines, start, end);
        Viewport { lines: shown, start, more: true }
    }

    /// The player has read a page; move on to the next.
    ///
    /// Always at least one line further on. In a window one or two
    /// lines tall the page and the overlap are both a single line,
    /// and without this the pair cancel out and the prompt never
    /// clears.
    pub fn advance(&mut self, height: usize)
        requires
            old(self).wf(),
            old(self).seen_lines() < usize::MAX,
            page_begin(old(self).seen_lines()) + page_len(height as nat) <= usize::MAX,
        ensures
            final(self).wf(),
            final(self).text() == old(self).text(),
            final(self).wrap_width() == old(self).wrap_width(),
            final(self).display() == old(self).display(),
            final(self).seen_lines() == advanced(
                old(self).display().len(),
                old(self).seen_lines(),
                height as nat,
            ),
    {
        let page = self.page_start() + self.page(height);
        let further = if self.seen + 1 < page {
            page
        } else {
            self.seen + 1
        };
        let count = self.lines().len();
        self.seen = if count < further {
            count
        } else {
            further
        };
    }

    /// Treat everything as read, however much of it there is.
    ///
    /// For the moments when pausing would be wrong: a file prompt, or
    /// a window the game has just cleared.
    pub fn catch_up(&mut self)
        requires
            old(self).wf(),
        ensures
            final(self).wf(),
            final(self).text() == old(self).text(),
            final(self).wrap_width() == old(self).wrap_width(),
            final(self).display() == old(self).display(),
            final(self).seen_lines() == old(self).display().len(),
    {
        self.seen = self.lines().len();
    }

    /// Re-wrap everything for a new width.
    ///
    /// The display lines are recomputed from the paragraphs as they
    /// were given, not re-broken from lines that already lost their
    /// spaces at the break points.
    pub fn resize(&mut self, width: usize)
        requires
            old(self).wf(),
        ensures
            final(self).wf(),
            final(self).text() == old(self).text(),
            final(self).seen_lines() == old(self).seen_lines(),
            final(self).wrap_width() == if width < 1 {
                1
            } else {
                width as nat
            },
            final(self).display() == all_lines(old(self).text(), final(self).wrap_width()),
    {
        let width = if width < 1 {
            1
        } else {
            width
        };
        if width == self.width {
            return;
        }
        self.width = width;
        self.done = None;
        self.tail = None;
    }

    /// Forget everything, as a cleared window has.
    pub fn clear(&mut self)
        requires
            old(self).wf(),
        ensures
            final(self).wf(),
            final(self).wrap_width() == old(self).wrap_width(),
            final(self).text() == (Paragraphs::<K> { history: Seq::empty(), current: Seq::empty() }),
            final(self).seen_lines() == 0,
            final(self).display() == all_lines(final(self).text(), final(self).wrap_width()),
    {
        self.history.clear();
        self.current.clear();
        self.done = Some(Vec::new());
        self.tail = None;
        self.seen = 0;
        proof {
            assert(self.text() =~= (Paragraphs::<K> {
                history: Seq::empty(),
                current: Seq::empty(),
            }));
        }
    }
}

} // verus!
