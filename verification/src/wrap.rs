//! Greedy word wrapping of preview text to a column budget, measured in
//! terminal display width and never splitting a grapheme cluster.

use vstd::prelude::*;
use crate::text::{char_is_white_space, chars_of, is_white_space, string_from_chars};
use crate::unicode::{display_width, grapheme_clusters, graphemes, str_width};

verus! {

/// Sum of the display widths of `segs`, each segment measured on its own.
pub open spec fn segments_width(segs: Seq<Seq<char>>) -> int
    decreases segs.len(),
{
    if segs.len() == 0 {
        0
    } else {
        segments_width(segs.drop_last()) + display_width(segs.last())
    }
}

/// A segment made only of white space.
pub open spec fn is_blank(seg: Seq<char>) -> bool {
    forall|i: int| 0 <= i < seg.len() ==> is_white_space(#[trigger] seg[i])
}

/// Index of the last blank segment of `segs`, or -1 when there is none.
pub open spec fn last_blank(segs: Seq<Seq<char>>) -> int
    decreases segs.len(),
{
    if segs.len() == 0 {
        -1
    } else if is_blank(segs.last()) {
        segs.len() - 1
    } else {
        last_blank(segs.drop_last())
    }
}

/// What happens to the row being built (`current`) before a cluster of
/// display width `incoming` is appended: while the row is not empty in width
/// and the cluster would overflow `width`, the row is cut after its last
/// blank segment (or emitted whole when it has none). Yields the emitted rows
/// and what remains of the row.
pub open spec fn make_room(current: Seq<Seq<char>>, incoming: int, width: int) -> (
    Seq<Seq<Seq<char>>>,
    Seq<Seq<char>>,
)
    decreases current.len(),
{
    if segments_width(current) > 0 && segments_width(current) + incoming > width {
        let b = last_blank(current);
        if 0 <= b < current.len() {
            let rest = make_room(current.skip(b + 1), incoming, width);
            (seq![current.take(b + 1)] + rest.0, rest.1)
        } else {
            (seq![current], Seq::empty())
        }
    } else {
        (Seq::empty(), current)
    }
}

/// The rows completed and the row in progress after greedily placing the
/// clusters `gs`.
pub open spec fn wrap_state(gs: Seq<Seq<char>>, width: int) -> (
    Seq<Seq<Seq<char>>>,
    Seq<Seq<char>>,
)
    decreases gs.len(),
{
    if gs.len() == 0 {
        (Seq::empty(), Seq::empty())
    } else {
        let prev = wrap_state(gs.drop_last(), width);
        let room = make_room(prev.1, display_width(gs.last()) as int, width);
        (prev.0 + room.0, room.1.push(gs.last()))
    }
}

/// The rows, as lists of clusters, that greedy wrapping makes of `gs`.
pub open spec fn wrap_rows(gs: Seq<Seq<char>>, width: int) -> Seq<Seq<Seq<char>>> {
    let state = wrap_state(gs, width);
    state.0.push(state.1)
}

/// Each row's clusters joined into its text.
pub open spec fn join_rows(rows: Seq<Seq<Seq<char>>>) -> Seq<Seq<char>> {
    rows.map_values(|row: Seq<Seq<char>>| row.flatten())
}

/// The rows that one logical line is wrapped into: the line itself when the
/// budget is 0 or the line already fits, else the greedy rows of its
/// grapheme clusters.
pub open spec fn wrap_line(line: Seq<char>, width: int) -> Seq<Seq<char>> {
    if width == 0 || display_width(line) <= width {
        seq![line]
    } else {
        join_rows(wrap_rows(grapheme_clusters(line), width))
    }
}

/// `line` without one trailing carriage return.
pub open spec fn strip_cr(line: Seq<char>) -> Seq<char> {
    if line.len() > 0 && line.last() == '\r' {
        line.drop_last()
    } else {
        line
    }
}

/// The pieces of `s` between line feeds, as `str::split('\n')` gives them:
/// one more piece than there are line feeds.
pub open spec fn split_lines(s: Seq<char>) -> Seq<Seq<char>>
    decreases s.len(),
{
    if s.len() == 0 {
        seq![Seq::empty()]
    } else {
        let prev = split_lines(s.drop_last());
        if s.last() == '\n' {
            prev.push(Seq::empty())
        } else {
            prev.drop_last().push(prev.last().push(s.last()))
        }
    }
}

/// The rows of `lines`, each wrapped on its own after losing its trailing
/// carriage return.
pub open spec fn wrap_lines(lines: Seq<Seq<char>>, width: int) -> Seq<Seq<char>>
    decreases lines.len(),
{
    if lines.len() == 0 {
        Seq::empty()
    } else {
        wrap_lines(lines.drop_last(), width) + wrap_line(strip_cr(lines.last()), width)
    }
}

/// The visual rows of `content` wrapped to `width` columns.
pub open spec fn wrapped_text(content: Seq<char>, width: int) -> Seq<Seq<char>> {
    wrap_lines(split_lines(content), width)
}

/// Every segment holds at least one character.
pub open spec fn segments_nonempty(segs: Seq<Seq<char>>) -> bool {
    forall|i: int| 0 <= i < segs.len() ==> (#[trigger] segs[i]).len() > 0
}

/// What wrapping promises of one logical line: its rows join back into it,
/// when it is not empty none of its rows is, and when it had to be broken
/// every row's clusters fit the budget in summed width (see [`row_fits`]).
pub open spec fn line_wrapped_whole(line: Seq<char>, width: int) -> bool {
    &&& wrap_line(line, width).flatten() == line
    &&& line.len() > 0 ==> forall|j: int|
        0 <= j < wrap_line(line, width).len() ==> (#[trigger] wrap_line(line, width)[j]).len() > 0
    &&& width > 0 && display_width(line) > width ==> forall|j: int|
        0 <= j < wrap_rows(grapheme_clusters(line), width).len() ==> row_fits(
            #[trigger] wrap_rows(grapheme_clusters(line), width)[j],
            width,
        )
}

/// A row respects the budget when its width is within it, or when everything
/// before its last cluster has zero width (a single cluster wider than the
/// budget has to stand on a row of its own).
pub open spec fn row_fits(row: Seq<Seq<char>>, width: int) -> bool {
    segments_width(row) <= width || segments_width(row.drop_last()) == 0
}

// ---------------------------------------------------------------------------
// Facts about widths and blank segments.

proof fn lemma_segments_width_nonneg(segs: Seq<Seq<char>>)
    ensures
        segments_width(segs) >= 0,
    decreases segs.len(),
{
    if segs.len() > 0 {
        lemma_segments_width_nonneg(segs.drop_last());
    }
}

proof fn lemma_segments_width_concat(a: Seq<Seq<char>>, b: Seq<Seq<char>>)
    ensures
        segments_width(a + b) == segments_width(a) + segments_width(b),
    decreases b.len(),
{
    if b.len() == 0 {
        assert(a + b == a);
    } else {
        lemma_segments_width_concat(a, b.drop_last());
        assert((a + b).drop_last() == a + b.drop_last());
        assert((a + b).last() == b.last());
    }
}

proof fn lemma_segments_width_split(segs: Seq<Seq<char>>, k: int)
    requires
        0 <= k <= segs.len(),
    ensures
        segments_width(segs) == segments_width(segs.take(k)) + segments_width(segs.skip(k)),
        segments_width(segs.take(k)) <= segments_width(segs),
        segments_width(segs.skip(k)) <= segments_width(segs),
{
    assert(segs == segs.take(k) + segs.skip(k));
    lemma_segments_width_concat(segs.take(k), segs.skip(k));
    lemma_segments_width_nonneg(segs.take(k));
    lemma_segments_width_nonneg(segs.skip(k));
}

proof fn lemma_last_blank_range(segs: Seq<Seq<char>>)
    ensures
        -1 <= last_blank(segs) < segs.len(),
        last_blank(segs) >= 0 ==> is_blank(segs[last_blank(segs)]),
        forall|j: int| last_blank(segs) < j < segs.len() ==> !is_blank(#[trigger] segs[j]),
    decreases segs.len(),
{
    if segs.len() > 0 && !is_blank(segs.last()) {
        lemma_last_blank_range(segs.drop_last());
        assert forall|j: int| last_blank(segs) < j < segs.len() implies !is_blank(
            #[trigger] segs[j],
        ) by {
            if j < segs.len() - 1 {
                assert(segs[j] == segs.drop_last()[j]);
            }
        }
    }
}

// ---------------------------------------------------------------------------
// Laws of the greedy wrap.

proof fn lemma_make_room(current: Seq<Seq<char>>, incoming: int, width: int)
    requires
        width >= 0,
        row_fits(current, width),
    ensures
        ({
            let (emitted, rest) = make_room(current, incoming, width);
            &&& emitted.flatten() + rest == current
            &&& forall|j: int| 0 <= j < emitted.len() ==> row_fits(#[trigger] emitted[j], width)
            &&& forall|j: int| 0 <= j < emitted.len() ==> (#[trigger] emitted[j]).len() > 0
            &&& row_fits(rest, width)
            &&& !(segments_width(rest) > 0 && segments_width(rest) + incoming > width)
        }),
    decreases current.len(),
{
    if segments_width(current) > 0 && segments_width(current) + incoming > width {
        let b = last_blank(current);
        lemma_last_blank_range(current);
        if 0 <= b < current.len() {
            let head = current.take(b + 1);
            let tail = current.skip(b + 1);
            lemma_segments_width_split(current, b + 1);
            if segments_width(current) > width {
                // Everything but the last cluster has zero width.
                let init = current.drop_last();
                lemma_segments_width_nonneg(init);
                if b + 1 < current.len() {
                    lemma_segments_width_split(init, b + 1);
                    assert(init.take(b + 1) == head);
                    assert(init.skip(b + 1) == tail.drop_last());
                } else {
                    assert(head == current);
                    assert(tail.len() == 0);
                }
            }
            lemma_make_room(tail, incoming, width);
            let rest = make_room(tail, incoming, width);
            lemma_flatten_concat_rows(seq![head], rest.0);
            assert(seq![head].flatten() == head) by {
                seq![head].lemma_flatten_one_element();
            }
            assert(head + tail == current);
            let emitted = seq![head] + rest.0;
            assert forall|j: int| 0 <= j < emitted.len() implies row_fits(
                #[trigger] emitted[j],
                width,
            ) && emitted[j].len() > 0 by {
                if j > 0 {
                    assert(emitted[j] == rest.0[j - 1]);
                }
            }
        } else {
            assert(seq![current].flatten() == current) by {
                seq![current].lemma_flatten_one_element();
            }
            assert(current.len() > 0);
        }
    }
}

proof fn lemma_flatten_concat_rows(x: Seq<Seq<Seq<char>>>, y: Seq<Seq<Seq<char>>>)
    ensures
        (x + y).flatten() == x.flatten() + y.flatten(),
{
    vstd::seq_lib::lemma_flatten_concat(x, y);
}

proof fn lemma_wrap_state(gs: Seq<Seq<char>>, width: int)
    requires
        width >= 0,
    ensures
        ({
            let (rows, current) = wrap_state(gs, width);
            &&& rows.flatten() + current == gs
            &&& forall|j: int| 0 <= j < rows.len() ==> row_fits(#[trigger] rows[j], width)
            &&& forall|j: int| 0 <= j < rows.len() ==> (#[trigger] rows[j]).len() > 0
            &&& row_fits(current, width)
            &&& gs.len() > 0 ==> current.len() > 0
        }),
    decreases gs.len(),
{
    if gs.len() > 0 {
        let prev = wrap_state(gs.drop_last(), width);
        lemma_wrap_state(gs.drop_last(), width);
        let g = gs.last();
        let gw = display_width(g) as int;
        lemma_make_room(prev.1, gw, width);
        let room = make_room(prev.1, gw, width);
        lemma_flatten_concat_rows(prev.0, room.0);
        assert(gs == gs.drop_last().push(g));
        let rows = prev.0 + room.0;
        assert forall|j: int| 0 <= j < rows.len() implies row_fits(#[trigger] rows[j], width)
            && rows[j].len() > 0 by {
            if j >= prev.0.len() {
                assert(rows[j] == room.0[j - prev.0.len()]);
            }
        }
        let cur = room.1.push(g);
        assert(cur.drop_last() == room.1);
        lemma_segments_width_nonneg(room.1);
    }
}

/// Wrapping never splits or drops a grapheme cluster: the rows, taken
/// cluster by cluster, give back exactly the clusters of the line.
pub proof fn lemma_wrap_rows_keep_clusters(gs: Seq<Seq<char>>, width: int)
    requires
        width >= 0,
    ensures
        wrap_rows(gs, width).flatten() == gs,
{
    lemma_wrap_state(gs, width);
    let (rows, current) = wrap_state(gs, width);
    rows.lemma_flatten_push(current);
}

/// Every wrapped row is within the column budget, except a row whose only
/// cluster of non-zero width is itself wider than the budget.
pub proof fn lemma_wrap_rows_fit(gs: Seq<Seq<char>>, width: int)
    requires
        width >= 0,
    ensures
        forall|j: int|
            0 <= j < wrap_rows(gs, width).len() ==> row_fits(#[trigger] wrap_rows(gs, width)[j], width),
{
    lemma_wrap_state(gs, width);
}

/// When there is anything to wrap, no row is left empty.
pub proof fn lemma_wrap_rows_nonempty(gs: Seq<Seq<char>>, width: int)
    requires
        width >= 0,
        gs.len() > 0,
    ensures
        forall|j: int|
            0 <= j < wrap_rows(gs, width).len() ==> (#[trigger] wrap_rows(gs, width)[j]).len() > 0,
{
    lemma_wrap_state(gs, width);
}

proof fn lemma_make_room_nonempty(current: Seq<Seq<char>>, incoming: int, width: int)
    requires
        segments_nonempty(current),
    ensures
        forall|j: int|
            0 <= j < make_room(current, incoming, width).0.len() ==> segments_nonempty(
                #[trigger] make_room(current, incoming, width).0[j],
            ),
        segments_nonempty(make_room(current, incoming, width).1),
    decreases current.len(),
{
    if segments_width(current) > 0 && segments_width(current) + incoming > width {
        let b = last_blank(current);
        if 0 <= b < current.len() {
            let head = current.take(b + 1);
            let tail = current.skip(b + 1);
            assert forall|i: int| 0 <= i < tail.len() implies (#[trigger] tail[i]).len() > 0 by {
                assert(tail[i] == current[b + 1 + i]);
            }
            assert forall|i: int| 0 <= i < head.len() implies (#[trigger] head[i]).len() > 0 by {
                assert(head[i] == current[i]);
            }
            lemma_make_room_nonempty(tail, incoming, width);
            let rest = make_room(tail, incoming, width);
            let emitted = seq![head] + rest.0;
            assert forall|j: int| 0 <= j < emitted.len() implies segments_nonempty(
                #[trigger] emitted[j],
            ) by {
                if j > 0 {
                    assert(emitted[j] == rest.0[j - 1]);
                }
            }
        }
    }
}

proof fn lemma_wrap_state_nonempty(gs: Seq<Seq<char>>, width: int)
    requires
        segments_nonempty(gs),
    ensures
        forall|j: int|
            0 <= j < wrap_state(gs, width).0.len() ==> segments_nonempty(
                #[trigger] wrap_state(gs, width).0[j],
            ),
        segments_nonempty(wrap_state(gs, width).1),
    decreases gs.len(),
{
    if gs.len() > 0 {
        let init = gs.drop_last();
        assert forall|i: int| 0 <= i < init.len() implies (#[trigger] init[i]).len() > 0 by {
            assert(init[i] == gs[i]);
        }
        lemma_wrap_state_nonempty(init, width);
        let prev = wrap_state(init, width);
        let g = gs.last();
        lemma_make_room_nonempty(prev.1, display_width(g) as int, width);
        let room = make_room(prev.1, display_width(g) as int, width);
        let rows = prev.0 + room.0;
        assert forall|j: int| 0 <= j < rows.len() implies segments_nonempty(#[trigger] rows[j]) by {
            if j >= prev.0.len() {
                assert(rows[j] == room.0[j - prev.0.len()]);
            }
        }
        let cur = room.1.push(g);
        assert forall|i: int| 0 <= i < cur.len() implies (#[trigger] cur[i]).len() > 0 by {
            if i < room.1.len() {
                assert(cur[i] == room.1[i]);
            }
        }
    }
}

/// When every cluster holds a character, so does every wrapped row.
pub proof fn lemma_wrapped_rows_not_blank(gs: Seq<Seq<char>>, width: int)
    requires
        width >= 0,
        gs.len() > 0,
        segments_nonempty(gs),
    ensures
        forall|j: int|
            0 <= j < join_rows(wrap_rows(gs, width)).len() ==> (#[trigger] join_rows(
                wrap_rows(gs, width),
            )[j]).len() > 0,
{
    lemma_wrap_state(gs, width);
    lemma_wrap_state_nonempty(gs, width);
    let rows = wrap_rows(gs, width);
    let state = wrap_state(gs, width);
    assert forall|j: int| 0 <= j < join_rows(rows).len() implies (#[trigger] join_rows(
        rows,
    )[j]).len() > 0 by {
        let row = rows[j];
        if j < state.0.len() {
            assert(row == state.0[j]);
        } else {
            assert(row == state.1);
        }
        assert(row.len() > 0);
        assert(row[0].len() > 0);
        assert(row.flatten() == row.first() + row.drop_first().flatten());
        assert(join_rows(rows)[j] == row.flatten());
    }
}

// ---------------------------------------------------------------------------
// Executable wrapping.

/// The segments joined into one string.
fn concat_segments(segs: &Vec<String>) -> (r: String)
    ensures
        r@ == segs.deep_view().flatten(),
{
    let mut r = String::new();
    let mut i: usize = 0;
    while i < segs.len()
        invariant
            i <= segs.len(),
            r@ == segs.deep_view().take(i as int).flatten(),
        decreases segs.len() - i,
    {
        r.append(segs[i].as_str());
        proof {
            let dv = segs.deep_view();
            assert(dv.take(i + 1) == dv.take(i as int).push(dv[i as int]));
            dv.take(i as int).lemma_flatten_push(dv[i as int]);
        }
        i = i + 1;
    }
    assert(segs.deep_view().take(segs.len() as int) == segs.deep_view());
    r
}

/// The summed display width of the segments.
fn total_width(segs: &Vec<String>) -> (r: usize)
    requires
        segments_width(segs.deep_view()) <= usize::MAX,
    ensures
        r == segments_width(segs.deep_view()),
{
    let ghost dv = segs.deep_view();
    let mut sum: usize = 0;
    let mut i: usize = 0;
    while i < segs.len()
        invariant
            i <= segs.len(),
            dv == segs.deep_view(),
            segments_width(dv) <= usize::MAX,
            sum == segments_width(dv.take(i as int)),
        decreases segs.len() - i,
    {
        let w = str_width(segs[i].as_str());
        proof {
            assert(dv.take(i + 1).drop_last() == dv.take(i as int));
            assert(dv.take(i + 1).last() == dv[i as int]);
            lemma_segments_width_split(dv, i + 1);
        }
        sum = sum + w;
        i = i + 1;
    }
    assert(dv.take(segs.len() as int) == dv);
    sum
}

/// Whether every character of `seg` is white space.
fn blank_segment(seg: &String) -> (r: bool)
    ensures
        r == is_blank(seg@),
{
    let cs = chars_of(seg.as_str());
    let mut i: usize = 0;
    while i < cs.len()
        invariant
            i <= cs.len(),
            cs@ == seg@,
            forall|j: int| 0 <= j < i ==> is_white_space(#[trigger] cs@[j]),
        decreases cs.len() - i,
    {
        if !char_is_white_space(cs[i]) {
            return false;
        }
        i = i + 1;
    }
    true
}

/// The index of the last blank segment, if any.
fn find_last_blank(segs: &Vec<String>) -> (r: Option<usize>)
    ensures
        match r {
            Some(b) => b as int == last_blank(segs.deep_view()),
            None => last_blank(segs.deep_view()) == -1,
        },
{
    let ghost dv = segs.deep_view();
    let mut i: usize = segs.len();
    assert(dv.take(i as int) == dv);
    while i > 0
        invariant
            i <= segs.len(),
            dv == segs.deep_view(),
            last_blank(dv) == last_blank(dv.take(i as int)),
        decreases i,
    {
        proof {
            assert(dv.take(i as int).drop_last() == dv.take(i - 1));
            assert(dv.take(i as int).last() == segs@[i - 1]@);
        }
        if blank_segment(&segs[i - 1]) {
            return Some(i - 1);
        }
        i = i - 1;
    }
    None
}

/// Appends the rows of one logical line (already stripped of its carriage
/// return) to `output`.
fn wrap_line_into(output: &mut Vec<String>, line: String, width: usize)
    ensures
        final(output).deep_view() == old(output).deep_view() + wrap_line(line@, width as int),
        wrap_line(line@, width as int).len() > 0,
        line_wrapped_whole(line@, width as int),
{
    if width == 0 || str_width(line.as_str()) <= width {
        proof {
            seq![line@].lemma_flatten_one_element();
        }
        output.push(line);
        return;
    }
    let gs = graphemes(line.as_str());
    let ghost gsv = gs.deep_view();
    let ghost out0 = output.deep_view();
    let ghost w = width as int;
    let mut current: Vec<String> = Vec::new();
    let mut current_width: usize = 0;
    let ghost mut rows: Seq<Seq<Seq<char>>> = Seq::empty();
    let mut k: usize = 0;
    assert(gsv.take(0) == Seq::<Seq<char>>::empty());
    assert(current.deep_view() == Seq::<Seq<char>>::empty());
    while k < gs.len()
        invariant
            k <= gs.len(),
            gsv == gs.deep_view(),
            w == width,
            width > 0,
            wrap_state(gsv.take(k as int), w) == (rows, current.deep_view()),
            output.deep_view() == out0 + join_rows(rows),
            current_width == segments_width(current.deep_view()),
        decreases gs.len() - k,
    {
        let gw = str_width(gs[k].as_str());
        let ghost cur0 = current.deep_view();
        let ghost mut emitted: Seq<Seq<Seq<char>>> = Seq::empty();
        proof {
            assert(emitted + make_room(cur0, gw as int, w).0 == make_room(cur0, gw as int, w).0);
        }
        while current_width > 0 && (gw > width || current_width > width - gw)
            invariant
                w == width,
                make_room(cur0, gw as int, w) == (
                    emitted + make_room(current.deep_view(), gw as int, w).0,
                    make_room(current.deep_view(), gw as int, w).1,
                ),
                output.deep_view() == out0 + join_rows(rows + emitted),
                current_width == segments_width(current.deep_view()),
            decreases current.len(),
        {
            let ghost cv = current.deep_view();
            proof {
                lemma_last_blank_range(cv);
                lemma_segments_width_nonneg(cv);
            }
            match find_last_blank(&current) {
                Some(b) => {
                    let rest = current.split_off(b + 1);
                    proof {
                        assert(current.deep_view() == cv.take(b + 1));
                        assert(rest.deep_view() == cv.skip(b + 1));
                        lemma_segments_width_split(cv, b + 1);
                    }
                    let row = concat_segments(&current);
                    let ghost before = output.deep_view();
                    output.push(row);
                    proof {
                        assert(output.deep_view() == before.push(cv.take(b + 1).flatten()));
                        let rem = make_room(cv.skip(b + 1), gw as int, w);
                        assert(make_room(cv, gw as int, w).0 == seq![cv.take(b + 1)] + rem.0);
                        assert(emitted + (seq![cv.take(b + 1)] + rem.0) == emitted.push(
                            cv.take(b + 1),
                        ) + rem.0);
                        assert(join_rows(rows + emitted.push(cv.take(b + 1))) == join_rows(
                            rows + emitted,
                        ).push(cv.take(b + 1).flatten()));
                        emitted = emitted.push(cv.take(b + 1));
                    }
                    current = rest;
                    current_width = total_width(&current);
                },
                None => {
                    let row = concat_segments(&current);
                    let ghost before = output.deep_view();
                    output.push(row);
                    proof {
                        assert(output.deep_view() == before.push(cv.flatten()));
                        assert(join_rows(rows + emitted.push(cv)) == join_rows(rows + emitted).push(
                            cv.flatten(),
                        ));
                        assert(make_room(cv, gw as int, w).0 == seq![cv]);
                        assert(emitted + seq![cv] == emitted.push(cv));
                        assert(make_room(Seq::<Seq<char>>::empty(), gw as int, w).0 == Seq::<
                            Seq<Seq<char>>,
                        >::empty());
                        emitted = emitted.push(cv);
                        assert(emitted + Seq::<Seq<Seq<char>>>::empty() == emitted);
                    }
                    current = Vec::new();
                    current_width = 0;
                    assert(current.deep_view() == Seq::<Seq<char>>::empty());
                },
            }
        }
        let ghost cur1 = current.deep_view();
        proof {
            assert(make_room(cur1, gw as int, w) == (Seq::<Seq<Seq<char>>>::empty(), cur1));
            assert(emitted + Seq::<Seq<Seq<char>>>::empty() == emitted);
            assert(gsv.take(k + 1).drop_last() == gsv.take(k as int));
            assert(gsv.take(k + 1).last() == gsv[k as int]);
        }
        current.push(gs[k].clone());
        current_width = current_width + gw;
        proof {
            assert(current.deep_view() == cur1.push(gsv[k as int]));
            assert(current.deep_view().drop_last() == cur1);
            rows = rows + emitted;
        }
        k = k + 1;
    }
    let row = concat_segments(&current);
    let ghost before = output.deep_view();
    output.push(row);
    proof {
        assert(output.deep_view() == before.push(current.deep_view().flatten()));
        assert(gsv.take(gs.len() as int) == gsv);
        assert(wrap_rows(gsv, w) == rows.push(current.deep_view()));
        assert(grapheme_clusters(line@) == gsv);
        assert(wrap_line(line@, w) == join_rows(rows.push(current.deep_view())));
        assert(join_rows(rows.push(current.deep_view())) == join_rows(rows).push(
            current.deep_view().flatten(),
        ));
        lemma_join_rows_flatten(wrap_rows(gsv, w));
        lemma_wrap_rows_keep_clusters(gsv, w);
        lemma_wrap_rows_fit(gsv, w);
        if line@.len() > 0 {
            assert(gsv.len() > 0);
            assert forall|i: int| 0 <= i < gsv.len() implies (#[trigger] gsv[i]).len() > 0 by {
                assert(gsv[i] == gs@[i]@);
            }
            lemma_wrapped_rows_not_blank(gsv, w);
        }
    }
}

proof fn lemma_join_rows_flatten(rows: Seq<Seq<Seq<char>>>)
    ensures
        join_rows(rows).flatten() == rows.flatten().flatten(),
        join_rows(rows).len() == rows.len(),
    decreases rows.len(),
{
    if rows.len() > 0 {
        lemma_join_rows_flatten(rows.drop_first());
        assert(join_rows(rows).drop_first() == join_rows(rows.drop_first()));
        vstd::seq_lib::lemma_flatten_concat(rows.first(), rows.drop_first().flatten());
    }
}

/// Greedy word-wrap `content` to `width` terminal columns, returning one
/// string per visual row. It preserves all whitespace and keeps Unicode
/// grapheme clusters intact, while splitting oversized words at grapheme
/// boundaries when necessary.
pub fn wrap_text(content: &str, width: usize) -> (r: Vec<String>)
    ensures
        r.deep_view() == wrapped_text(content@, width as int),
        forall|i: int|
            0 <= i < split_lines(content@).len() ==> line_wrapped_whole(
                strip_cr(#[trigger] split_lines(content@)[i]),
                width as int,
            ),
{
    let chars = chars_of(content);
    let mut output: Vec<String> = Vec::new();
    let mut line: Vec<char> = Vec::new();
    let ghost mut done: Seq<Seq<char>> = Seq::empty();
    let mut i: usize = 0;
    assert(chars@.take(0) == Seq::<char>::empty());
    while i < chars.len()
        invariant
            i <= chars.len(),
            chars@ == content@,
            split_lines(chars@.take(i as int)) == done.push(line@),
            output.deep_view() == wrap_lines(done, width as int),
            forall|j: int|
                0 <= j < done.len() ==> line_wrapped_whole(
                    strip_cr(#[trigger] done[j]),
                    width as int,
                ),
        decreases chars.len() - i,
    {
        let c = chars[i];
        proof {
            assert(chars@.take(i + 1).drop_last() == chars@.take(i as int));
            assert(chars@.take(i + 1).last() == c);
        }
        if c == '\n' {
            let stripped = without_carriage_return(line);
            wrap_line_into(&mut output, stripped, width);
            proof {
                assert(done.push(line@).drop_last() == done);
                done = done.push(line@);
            }
            line = Vec::new();
            assert(line@ == Seq::<char>::empty());
        } else {
            proof {
                assert(done.push(line@).drop_last() == done);
                assert(done.push(line@).last() == line@);
            }
            line.push(c);
        }
        i = i + 1;
    }
    let ghost last_line = line@;
    let stripped = without_carriage_return(line);
    wrap_line_into(&mut output, stripped, width);
    proof {
        assert(chars@.take(chars.len() as int) == chars@);
        assert(done.push(last_line).drop_last() == done);
        let all = done.push(last_line);
        assert forall|j: int| 0 <= j < all.len() implies line_wrapped_whole(
            strip_cr(#[trigger] all[j]),
            width as int,
        ) by {
            if j < done.len() {
                assert(all[j] == done[j]);
            }
        }
    }
    output
}

/// `line` as a string, without one trailing carriage return.
fn without_carriage_return(line: Vec<char>) -> (r: String)
    ensures
        r@ == strip_cr(line@),
{
    let ghost original = line@;
    let mut line = line;
    let n = line.len();
    if n > 0 && line[n - 1] == '\r' {
        line.pop();
        assert(line@ == original.drop_last());
    }
    string_from_chars(line.as_slice())
}

} // verus!
