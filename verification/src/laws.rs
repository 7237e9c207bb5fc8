//! Properties that span the operations of a glyph outline.

use vstd::prelude::*;
use crate::outline::{
    closed_elements, lemma_close_wf, lemma_move_to_wf, lemma_push_segment_wf, occurs_in,
    segments_between, ContourView, OpenView, OutlineView, PathEl,
};

verus! {

/// The state reached by issuing `el` as a builder command: a move starts a
/// contour, a segment draws, a close closes.
pub open spec fn feed<P>(o: OutlineView<P>, el: PathEl<P>) -> OutlineView<P> {
    match el {
        PathEl::MoveTo(p) => o.move_to(p),
        PathEl::LineTo(p) => o.line_to(p),
        PathEl::QuadTo(p1, p) => o.quad_to(p1, p),
        PathEl::CurveTo(p1, p2, p) => o.curve_to(p1, p2, p),
        PathEl::ClosePath => o.close(),
    }
}

/// The state reached by issuing the commands `els` in order.
pub open spec fn feed_all<P>(o: OutlineView<P>, els: Seq<PathEl<P>>) -> OutlineView<P>
    decreases els.len(),
{
    if els.len() == 0 {
        o
    } else {
        feed(feed_all(o, els.drop_last()), els.last())
    }
}

/// Every element is recorded as issued: after any sequence of builder
/// commands the outline emits its earlier path followed by exactly those
/// commands, and it stays well formed.
pub proof fn lemma_emits_what_was_drawn<P>(o: OutlineView<P>, els: Seq<PathEl<P>>)
    requires
        o.wf(),
    ensures
        feed_all(o, els).path == o.path + els,
        feed_all(o, els).wf(),
    decreases els.len(),
{
    if els.len() == 0 {
        assert(o.path + els =~= o.path);
    } else {
        let prev = feed_all(o, els.drop_last());
        lemma_emits_what_was_drawn(o, els.drop_last());
        match els.last() {
            PathEl::MoveTo(p) => lemma_move_to_wf(prev, p),
            PathEl::LineTo(p) => lemma_push_segment_wf(prev, PathEl::LineTo(p)),
            PathEl::QuadTo(p1, p) => lemma_push_segment_wf(prev, PathEl::QuadTo(p1, p)),
            PathEl::CurveTo(p1, p2, p) => lemma_push_segment_wf(
                prev,
                PathEl::CurveTo(p1, p2, p),
            ),
            PathEl::ClosePath => lemma_close_wf(prev),
        }
        assert(o.path + els =~= (o.path + els.drop_last()).push(els.last()));
    }
}

/// Finishing the open contour never changes what the outline emits.
pub proof fn lemma_finish_keeps_path<P>(o: OutlineView<P>, closed: bool)
    ensures
        o.finish_open_contour(closed).path == o.path,
{
}

/// The overlay is stable: a second request, with nothing drawn in between,
/// finds the same state and the same closed contours.
pub proof fn lemma_overlay_stable<P>(o: OutlineView<P>)
    ensures
        o.finish_open_contour(false).finish_open_contour(false) == o.finish_open_contour(false),
        o.finish_open_contour(false).finish_open_contour(false).closed_contours()
            == o.finish_open_contour(false).closed_contours(),
{
}

/// Every closed element list comes from a closed contour.
proof fn lemma_closed_elements_from<P>(cs: Seq<ContourView<P>>, j: int)
    requires
        0 <= j < closed_elements(cs).len(),
    ensures
        exists|k: int| 0 <= k < cs.len() && (#[trigger] cs[k]).closed && cs[k].elements == closed_elements(cs)[j],
    decreases cs.len(),
{
    let rest = closed_elements(cs.drop_last());
    if cs.last().closed && j == rest.len() {
        assert(cs[cs.len() - 1].closed);
    } else {
        lemma_closed_elements_from(cs.drop_last(), j);
        let k = choose|k: int| 0 <= k < cs.drop_last().len() && (#[trigger] cs.drop_last()[k]).closed
            && cs.drop_last()[k].elements == rest[j];
        assert(cs[k] == cs.drop_last()[k]);
    }
}

/// Only closed subpaths are emboldened: each contour handed to the overlay
/// starts with a move, goes on with segments, ends with a close, and occurs
/// as a contiguous run of what the outline emits.
pub proof fn lemma_overlay_contours_are_closed_subpaths<P>(o: OutlineView<P>)
    requires
        o.wf(),
    ensures
        forall|j: int|
            0 <= j < o.closed_contours().len() ==> {
                let c = #[trigger] o.closed_contours()[j];
                &&& c.len() >= 2
                &&& c[0] is MoveTo
                &&& c[c.len() - 1] is ClosePath
                &&& segments_between(c, 1, c.len() - 1)
                &&& occurs_in(o.path, c)
            },
{
    reveal(OutlineView::wf);
    assert forall|j: int| 0 <= j < o.closed_contours().len() implies {
        let c = #[trigger] o.closed_contours()[j];
        &&& c.len() >= 2
        &&& c[0] is MoveTo
        &&& c[c.len() - 1] is ClosePath
        &&& segments_between(c, 1, c.len() - 1)
        &&& occurs_in(o.path, c)
    } by {
        lemma_closed_elements_from(o.contours, j);
        let k = choose|k: int| 0 <= k < o.contours.len() && (#[trigger] o.contours[k]).closed
            && o.contours[k].elements == closed_elements(o.contours)[j];
        assert(o.contours[k].wf());
    }
}

/// Closing an open contour always hands it to the overlay, even when it is
/// only a move: it gains a close and is kept closed.
pub proof fn lemma_close_adds_contour<P>(o: OutlineView<P>)
    requires
        o.wf(),
        o.open is Some,
    ensures
        o.close().closed_contours() == o.closed_contours().push(
            o.open.unwrap().elements.push(PathEl::ClosePath),
        ),
{
    reveal(OutlineView::wf);
    let q = o.close();
    let ce = o.open.unwrap().elements.push(PathEl::ClosePath);
    assert(q.contours == o.contours.push(ContourView { elements: ce, closed: true }));
    assert(q.contours.drop_last() =~= o.contours);
}

/// Moving, drawing and finishing never add to the contours that the overlay
/// widens: only a close does.
pub proof fn lemma_only_close_adds_overlay<P>(o: OutlineView<P>, p: P, el: PathEl<P>)
    requires
        el.is_segment(),
    ensures
        o.move_to(p).closed_contours() == o.closed_contours(),
        o.push(el).closed_contours() == o.closed_contours(),
        o.finish_open_contour(false).closed_contours() == o.closed_contours(),
        o.open is None ==> o.close().closed_contours() == o.closed_contours(),
{
    let f = o.finish_open_contour(false);
    if f.contours.len() > o.contours.len() {
        assert(f.contours.drop_last() =~= o.contours);
    }
}

/// A contour that only moved is dropped when the next one starts: two moves
/// in a row record nothing for the first.
pub proof fn lemma_lone_move_dropped<P>(o: OutlineView<P>, p: P, q: P)
    ensures
        o.move_to(p).move_to(q).contours == o.finish_open_contour(false).contours,
{
}

/// A contour that drew something is kept, unclosed, when the next one starts.
pub proof fn lemma_drawn_contour_kept<P>(o: OutlineView<P>, p: P)
    requires
        o.open is Some,
        o.open.unwrap().elements.len() > 1,
    ensures
        o.move_to(p).contours == o.contours.push(
            ContourView { elements: o.open.unwrap().elements, closed: false },
        ),
{
}

/// Drawing a segment extends the open contour by exactly that segment,
/// whatever the segment and however long the contour already is; the finished
/// contours stay as they were, the segment is emitted, and the pen moves to
/// its end point.
pub proof fn lemma_segment_extends_open_contour<P>(o: OutlineView<P>, el: PathEl<P>)
    requires
        o.open is Some,
        el.is_segment(),
    ensures
        o.push(el).open == Some(
            OpenView { elements: o.open.unwrap().elements.push(el), start: o.open.unwrap().start },
        ),
        o.push(el).contours == o.contours,
        o.push(el).path == o.path.push(el),
        o.push(el).current == el.end_point(),
{
}

/// Each drawing command is the segment it names, drawn onto the open contour.
pub proof fn lemma_drawing_commands_extend_open_contour<P>(o: OutlineView<P>, c1: P, c2: P, p: P)
    requires
        o.open is Some,
    ensures
        o.line_to(p).open == Some(
            OpenView {
                elements: o.open.unwrap().elements.push(PathEl::LineTo(p)),
                start: o.open.unwrap().start,
            },
        ),
        o.quad_to(c1, p).open == Some(
            OpenView {
                elements: o.open.unwrap().elements.push(PathEl::QuadTo(c1, p)),
                start: o.open.unwrap().start,
            },
        ),
        o.curve_to(c1, c2, p).open == Some(
            OpenView {
                elements: o.open.unwrap().elements.push(PathEl::CurveTo(c1, c2, p)),
                start: o.open.unwrap().start,
            },
        ),
        o.line_to(p).contours == o.contours,
        o.quad_to(c1, p).contours == o.contours,
        o.curve_to(c1, c2, p).contours == o.contours,
        o.line_to(p).path == o.path.push(PathEl::LineTo(p)),
        o.quad_to(c1, p).path == o.path.push(PathEl::QuadTo(c1, p)),
        o.curve_to(c1, c2, p).path == o.path.push(PathEl::CurveTo(c1, c2, p)),
{
}

/// A move always opens a fresh contour at its point, whatever came before;
/// a contour still open is kept, unclosed, exactly when it drew something.
pub proof fn lemma_move_opens_fresh_contour<P>(o: OutlineView<P>, p: P)
    ensures
        o.move_to(p).open == Some(OpenView { elements: seq![PathEl::MoveTo(p)], start: p }),
        o.move_to(p).path == o.path.push(PathEl::MoveTo(p)),
        o.move_to(p).current == Some(p),
        o.move_to(p).contours == match o.open {
            Some(op) => if op.elements.len() > 1 {
                o.contours.push(ContourView { elements: op.elements, closed: false })
            } else {
                o.contours
            },
            None => o.contours,
        },
{
}

/// A close emits a close, lifts the pen, and ends the open contour: it is
/// kept closed, with the close appended.
pub proof fn lemma_close_keeps_contour_closed<P>(o: OutlineView<P>)
    requires
        o.open is Some,
        o.open.unwrap().elements.len() >= 1,
    ensures
        o.close().path == o.path.push(PathEl::ClosePath),
        o.close().open is None,
        o.close().current is None,
        o.close().contours == o.contours.push(
            ContourView { elements: o.open.unwrap().elements.push(PathEl::ClosePath), closed: true },
        ),
{
}

/// After a move and any run of segments, the open contour is that move
/// followed by exactly those segments, and no contour was finished since the
/// move.
pub proof fn lemma_open_run<P>(o: OutlineView<P>, p: P, segs: Seq<PathEl<P>>)
    requires
        forall|i: int| 0 <= i < segs.len() ==> (#[trigger] segs[i]).is_segment(),
    ensures
        feed_all(o.move_to(p), segs).open == Some(
            OpenView { elements: seq![PathEl::MoveTo(p)] + segs, start: p },
        ),
        feed_all(o.move_to(p), segs).contours == o.move_to(p).contours,
    decreases segs.len(),
{
    if segs.len() == 0 {
        assert(seq![PathEl::MoveTo(p)] + segs =~= seq![PathEl::MoveTo(p)]);
    } else {
        let init = segs.drop_last();
        assert forall|i: int| 0 <= i < init.len() implies (#[trigger] init[i]).is_segment() by {
            assert(init[i] == segs[i]);
        }
        lemma_open_run(o, p, init);
        let last = segs.last();
        assert(last.is_segment());
        assert((seq![PathEl::MoveTo(p)] + init).push(last) =~= seq![PathEl::MoveTo(p)] + segs);
    }
}

/// A contour drawn as a move, any segments, and a close is handed to the
/// overlay exactly as drawn: the closed contours gain exactly that run, with
/// the close, after those already there.
pub proof fn lemma_drawn_closed_contour_is_widened<P>(o: OutlineView<P>, p: P, segs: Seq<PathEl<P>>)
    requires
        forall|i: int| 0 <= i < segs.len() ==> (#[trigger] segs[i]).is_segment(),
    ensures
        feed_all(o.move_to(p), segs).close().closed_contours() == o.closed_contours().push(
            seq![PathEl::MoveTo(p)] + segs.push(PathEl::ClosePath),
        ),
{
    lemma_open_run(o, p, segs);
    lemma_only_close_adds_overlay(o, p, PathEl::LineTo(p));
    let q = feed_all(o.move_to(p), segs);
    let ce = (seq![PathEl::MoveTo(p)] + segs).push(PathEl::ClosePath);
    assert(ce =~= seq![PathEl::MoveTo(p)] + segs.push(PathEl::ClosePath));
    let r = q.close();
    assert(r.contours == q.contours.push(ContourView { elements: ce, closed: true }));
    assert(r.contours.drop_last() =~= q.contours);
}

/// Finishing unclosed (what the overlay does first) emits nothing, leaves no
/// contour open and the pen where it was, and keeps the open contour,
/// unclosed, exactly when it drew something.
pub proof fn lemma_finish_unclosed_keeps_drawn_contour<P>(o: OutlineView<P>)
    ensures
        o.finish_open_contour(false).path == o.path,
        o.finish_open_contour(false).open is None,
        o.finish_open_contour(false).current == o.current,
        o.finish_open_contour(false).contours == match o.open {
            Some(op) => if op.elements.len() > 1 {
                o.contours.push(ContourView { elements: op.elements, closed: false })
            } else {
                o.contours
            },
            None => o.contours,
        },
{
}

/// A fresh outline has emitted nothing, has no contour and no pen position,
/// and hands nothing to the overlay.
pub proof fn lemma_fresh_outline_is_blank<P>()
    ensures
        OutlineView::<P>::empty().path.len() == 0,
        OutlineView::<P>::empty().contours.len() == 0,
        OutlineView::<P>::empty().open is None,
        OutlineView::<P>::empty().current is None,
        OutlineView::<P>::empty().closed_contours().len() == 0,
{
}

} // verus!
