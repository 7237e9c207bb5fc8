use vstd::prelude::*;

verus! {

/// One element of a glyph outline, over points of type `P`.
#[derive(Copy, Debug, PartialEq)]
pub enum PathEl<P> {
    MoveTo(P),
    LineTo(P),
    QuadTo(P, P),
    CurveTo(P, P, P),
    ClosePath,
}

impl<P: Copy> Clone for PathEl<P> {
    fn clone(&self) -> (res: Self)
        ensures
            res == *self,
    {
        *self
    }
}

impl<P> PathEl<P> {
    /// A line, quadratic or cubic segment: what may follow the start of a contour.
    pub open spec fn is_segment(self) -> bool {
        self is LineTo || self is QuadTo || self is CurveTo
    }

    /// The point where the pen stands after this element, if it names one.
    pub open spec fn end_point(self) -> Option<P> {
        match self {
            PathEl::MoveTo(p) => Some(p),
            PathEl::LineTo(p) => Some(p),
            PathEl::QuadTo(_, p) => Some(p),
            PathEl::CurveTo(_, _, p) => Some(p),
            PathEl::ClosePath => None,
        }
    }
}

/// A finished contour: its elements and whether it was closed.
pub struct ContourView<P> {
    pub elements: Seq<PathEl<P>>,
    pub closed: bool,
}

/// The contour that is being drawn: its elements so far and its start point.
pub struct OpenView<P> {
    pub elements: Seq<PathEl<P>>,
    pub start: P,
}

/// The abstract state of a glyph outline.
pub struct OutlineView<P> {
    /// Every element recorded so far, in order: what the outline emits.
    pub path: Seq<PathEl<P>>,
    /// The contours finished so far, in order.
    pub contours: Seq<ContourView<P>>,
    /// The contour being drawn, if any.
    pub open: Option<OpenView<P>>,
    /// The current pen position.
    pub current: Option<P>,
}

/// `s` holds only segments between the indices `from` (inclusive) and `to`.
pub open spec fn segments_between<P>(s: Seq<PathEl<P>>, from: int, to: int) -> bool {
    forall|i: int| from <= i < to ==> (#[trigger] s[i]).is_segment()
}

/// `sub` occurs as a contiguous run in `s`.
pub open spec fn occurs_in<P>(s: Seq<PathEl<P>>, sub: Seq<PathEl<P>>) -> bool {
    exists|i: int| 0 <= i <= s.len() - sub.len() && #[trigger] s.subrange(i, i + sub.len()) == sub
}

/// The elements of the closed contours among `cs`, in order.
pub open spec fn closed_elements<P>(cs: Seq<ContourView<P>>) -> Seq<Seq<PathEl<P>>>
    decreases cs.len(),
{
    if cs.len() == 0 {
        Seq::empty()
    } else {
        let rest = closed_elements(cs.drop_last());
        if cs.last().closed {
            rest.push(cs.last().elements)
        } else {
            rest
        }
    }
}

/// The pen position after `path`: the end point of its last element.
pub open spec fn last_end<P>(path: Seq<PathEl<P>>) -> Option<P> {
    if path.len() == 0 {
        None
    } else {
        path.last().end_point()
    }
}

impl<P> ContourView<P> {
    /// A contour starts with a move, goes on with segments, and ends with a
    /// close exactly when it is closed; it has at least two elements.
    pub open spec fn wf(self) -> bool {
        let n = self.elements.len() as int;
        &&& n >= 2
        &&& self.elements[0] is MoveTo
        &&& if self.closed {
            self.elements[n - 1] is ClosePath && segments_between(self.elements, 1, n - 1)
        } else {
            segments_between(self.elements, 1, n)
        }
    }
}

impl<P> OpenView<P> {
    /// An open contour starts with a move to its start point, then segments.
    pub open spec fn wf(self) -> bool {
        &&& self.elements.len() >= 1
        &&& self.elements[0] == PathEl::MoveTo(self.start)
        &&& segments_between(self.elements, 1, self.elements.len() as int)
    }
}

impl<P> OutlineView<P> {
    /// The state of a fresh outline.
    pub open spec fn empty() -> Self {
        OutlineView { path: Seq::empty(), contours: Seq::empty(), open: None, current: None }
    }

    /// What a reachable outline satisfies.
    #[verifier::opaque]
    pub open spec fn wf(self) -> bool {
        &&& forall|k: int| 0 <= k < self.contours.len() ==> (#[trigger] self.contours[k]).wf()
        &&& forall|k: int|
            0 <= k < self.contours.len() ==> occurs_in(self.path, #[trigger] self.contours[k].elements)
        &&& match self.open {
            Some(o) => {
                &&& o.wf()
                &&& o.elements.len() <= self.path.len()
                &&& self.path.subrange(self.path.len() - o.elements.len(), self.path.len() as int)
                    == o.elements
            },
            None => true,
        }
        &&& self.current == last_end(self.path)
    }

    /// Ends the open contour, if any: with a close when `closed`; it is kept
    /// when it has more than one element.
    pub open spec fn finish_open_contour(self, closed: bool) -> Self {
        match self.open {
            None => self,
            Some(o) => {
                let elements = if closed {
                    o.elements.push(PathEl::ClosePath)
                } else {
                    o.elements
                };
                OutlineView {
                    path: self.path,
                    contours: if elements.len() > 1 {
                        self.contours.push(ContourView { elements, closed })
                    } else {
                        self.contours
                    },
                    open: None,
                    current: self.current,
                }
            },
        }
    }

    /// Records `el` on the path and on the open contour, and moves the pen.
    pub open spec fn push(self, el: PathEl<P>) -> Self {
        OutlineView {
            path: self.path.push(el),
            contours: self.contours,
            open: match self.open {
                Some(o) => Some(OpenView { elements: o.elements.push(el), start: o.start }),
                None => None,
            },
            current: match el {
                PathEl::ClosePath => match self.open {
                    Some(o) => Some(o.start),
                    None => None,
                },
                _ => el.end_point(),
            },
        }
    }

    /// Finishes the open contour unclosed and starts a new one at `p`.
    pub open spec fn move_to(self, p: P) -> Self {
        let f = self.finish_open_contour(false);
        OutlineView {
            path: f.path.push(PathEl::MoveTo(p)),
            contours: f.contours,
            open: Some(OpenView { elements: seq![PathEl::MoveTo(p)], start: p }),
            current: Some(p),
        }
    }

    pub open spec fn line_to(self, p: P) -> Self {
        self.push(PathEl::LineTo(p))
    }

    pub open spec fn quad_to(self, p1: P, p: P) -> Self {
        self.push(PathEl::QuadTo(p1, p))
    }

    pub open spec fn curve_to(self, p1: P, p2: P, p: P) -> Self {
        self.push(PathEl::CurveTo(p1, p2, p))
    }

    /// Records a close on the path, finishes the open contour closed, and
    /// lifts the pen.
    pub open spec fn close(self) -> Self {
        let f = OutlineView {
            path: self.path.push(PathEl::ClosePath),
            contours: self.contours,
            open: self.open,
            current: self.current,
        }.finish_open_contour(true);
        OutlineView { path: f.path, contours: f.contours, open: f.open, current: None }
    }

    /// The elements of the closed contours, in the order they were finished.
    pub open spec fn closed_contours(self) -> Seq<Seq<PathEl<P>>> {
        closed_elements(self.contours)
    }
}


/// A finished contour.
struct Contour<P> {
    elements: Vec<PathEl<P>>,
    closed: bool,
}

/// The contour being drawn.
struct OpenContour<P> {
    elements: Vec<PathEl<P>>,
    start: P,
}

/// A recorded glyph outline whose closed contours can be geometrically
/// emboldened before emission.
pub struct GlyphOutline<P> {
    path: Vec<PathEl<P>>,
    contours: Vec<Contour<P>>,
    open: Option<OpenContour<P>>,
    current: Option<P>,
}

impl<P> Contour<P> {
    spec fn view_contour(self) -> ContourView<P> {
        ContourView { elements: self.elements@, closed: self.closed }
    }
}

impl<P> View for GlyphOutline<P> {
    type V = OutlineView<P>;

    closed spec fn view(&self) -> OutlineView<P> {
        OutlineView {
            path: self.path@,
            contours: self.contours@.map_values(|c: Contour<P>| c.view_contour()),
            open: match self.open {
                Some(o) => Some(OpenView { elements: o.elements@, start: o.start }),
                None => None,
            },
            current: self.current,
        }
    }
}

impl<P: Copy> GlyphOutline<P> {
    /// Create an empty outline.
    pub fn new() -> (s: Self)
        ensures
            s@ == OutlineView::<P>::empty(),
            s@.wf(),
    {
        let s = GlyphOutline { path: Vec::new(), contours: Vec::new(), open: None, current: None };
        assert(s@.contours =~= Seq::<ContourView<P>>::empty());
        proof {
            reveal(OutlineView::wf);
        }
        s
    }

    fn finish_open_contour(&mut self, closed: bool)
        ensures
            final(self)@ == old(self)@.finish_open_contour(closed),
    {
        let ghost pre = self@;
        if let Some(mut open) = self.open.take() {
            if closed {
                open.elements.push(PathEl::ClosePath);
            }
            if open.elements.len() > 1 {
                self.contours.push(Contour { elements: open.elements, closed });
            }
        }
        assert(self@.contours =~= pre.finish_open_contour(closed).contours);
    }

    fn push(&mut self, element: PathEl<P>)
        ensures
            final(self)@ == old(self)@.push(element),
    {
        let ghost pre = self@;
        self.path.push(element);
        match self.open.take() {
            Some(mut open) => {
                open.elements.push(element);
                self.open = Some(open);
            },
            None => {},
        }
        self.current = match element {
            PathEl::MoveTo(p) => Some(p),
            PathEl::LineTo(p) => Some(p),
            PathEl::QuadTo(_, p) => Some(p),
            PathEl::CurveTo(_, _, p) => Some(p),
            PathEl::ClosePath => match &self.open {
                Some(open) => Some(open.start),
                None => None,
            },
        };
        assert(self@.contours =~= pre.push(element).contours);
    }

    /// Begin a new contour at `point`; a contour still open is finished
    /// unclosed, and kept only if it drew anything.
    pub fn move_to(&mut self, point: P)
        ensures
            final(self)@ == old(self)@.move_to(point),
            old(self)@.wf() ==> final(self)@.wf(),
    {
        proof {
            if self@.wf() {
                lemma_move_to_wf(self@, point);
            }
        }
        let ghost pre = self@;
        self.finish_open_contour(false);
        self.open = Some(OpenContour { elements: vec![PathEl::MoveTo(point)], start: point });
        self.path.push(PathEl::MoveTo(point));
        self.current = Some(point);
        assert(self@.contours =~= pre.move_to(point).contours);
        assert(self@.open == pre.move_to(point).open) by {
            assert(self@.open.unwrap().elements =~= seq![PathEl::MoveTo(point)]);
        }
    }

    /// Draw a line to `point`.
    pub fn line_to(&mut self, point: P)
        ensures
            final(self)@ == old(self)@.line_to(point),
            old(self)@.wf() ==> final(self)@.wf(),
    {
        proof {
            if self@.wf() {
                lemma_push_segment_wf(self@, PathEl::LineTo(point));
            }
        }
        self.push(PathEl::LineTo(point));
    }

    /// Draw a quadratic curve through the control point `control` to `point`.
    pub fn quad_to(&mut self, control: P, point: P)
        ensures
            final(self)@ == old(self)@.quad_to(control, point),
            old(self)@.wf() ==> final(self)@.wf(),
    {
        proof {
            if self@.wf() {
                lemma_push_segment_wf(self@, PathEl::QuadTo(control, point));
            }
        }
        self.push(PathEl::QuadTo(control, point));
    }

    /// Draw a cubic curve through the control points `control1` and
    /// `control2` to `point`.
    pub fn curve_to(&mut self, control1: P, control2: P, point: P)
        ensures
            final(self)@ == old(self)@.curve_to(control1, control2, point),
            old(self)@.wf() ==> final(self)@.wf(),
    {
        proof {
            if self@.wf() {
                lemma_push_segment_wf(self@, PathEl::CurveTo(control1, control2, point));
            }
        }
        self.push(PathEl::CurveTo(control1, control2, point));
    }

    /// Close the current contour: it is finished and kept as a closed contour.
    pub fn close(&mut self)
        ensures
            final(self)@ == old(self)@.close(),
            old(self)@.wf() ==> final(self)@.wf(),
    {
        proof {
            if self@.wf() {
                lemma_close_wf(self@);
            }
        }
        self.path.push(PathEl::ClosePath);
        self.finish_open_contour(true);
        self.current = None;
    }

    /// The elements this outline emits, in order.
    pub fn emit(&self) -> (elements: Vec<PathEl<P>>)
        ensures
            elements@ == self@.path,
    {
        let mut elements: Vec<PathEl<P>> = Vec::new();
        let n = self.path.len();
        for i in 0..n
            invariant
                n == self.path@.len(),
                elements@ == self.path@.take(i as int),
        {
            elements.push(self.path[i]);
            assert(elements@ =~= self.path@.take(i + 1));
        }
        assert(self.path@.take(n as int) =~= self.path@);
        elements
    }

    /// Finish the open contour unclosed and return the elements of the
    /// closed contours that a synthetic weight overlay widens: none when the
    /// strength is zero (`emboldens` is false), else all of them in order.
    pub fn synthetic_weight_overlay(&mut self, emboldens: bool) -> (contours: Vec<Vec<PathEl<P>>>)
        ensures
            final(self)@ == old(self)@.finish_open_contour(false),
            old(self)@.wf() ==> final(self)@.wf(),
            contours@.map_values(|c: Vec<PathEl<P>>| c@) == if emboldens {
                final(self)@.closed_contours()
            } else {
                Seq::<Seq<PathEl<P>>>::empty()
            },
    {
        proof {
            if self@.wf() {
                lemma_finish_unclosed_wf(self@);
            }
        }
        self.finish_open_contour(false);
        let mut out: Vec<Vec<PathEl<P>>> = Vec::new();
        if !emboldens {
            assert(out@.map_values(|c: Vec<PathEl<P>>| c@) =~= Seq::<Seq<PathEl<P>>>::empty());
            return out;
        }
        let ghost cs = self@.contours;
        let n = self.contours.len();
        for i in 0..n
            invariant
                n == self.contours@.len(),
                cs == self@.contours,
                out@.map_values(|c: Vec<PathEl<P>>| c@) == closed_elements(cs.take(i as int)),
        {
            let contour = &self.contours[i];
            assert(cs.take(i + 1).drop_last() =~= cs.take(i as int));
            assert(cs[i as int] == contour.view_contour());
            if contour.closed {
                let mut copy: Vec<PathEl<P>> = Vec::new();
                let m = contour.elements.len();
                for j in 0..m
                    invariant
                        m == contour.elements@.len(),
                        copy@ == contour.elements@.take(j as int),
                {
                    copy.push(contour.elements[j]);
                    assert(copy@ =~= contour.elements@.take(j + 1));
                }
                assert(contour.elements@.take(m as int) =~= contour.elements@);
                out.push(copy);
            }
            assert(out@.map_values(|c: Vec<PathEl<P>>| c@) =~= closed_elements(cs.take(i + 1)));
        }
        assert(cs.take(n as int) =~= cs);
        out
    }
}

impl<P: Copy> Default for GlyphOutline<P> {
    fn default() -> (s: Self)
        ensures
            s@ == OutlineView::<P>::empty(),
    {
        Self::new()
    }
}


/// A run of `s` is still a run of `s` with one more element at its end.
pub proof fn lemma_occurs_push<P>(s: Seq<PathEl<P>>, sub: Seq<PathEl<P>>, x: PathEl<P>)
    requires
        occurs_in(s, sub),
    ensures
        occurs_in(s.push(x), sub),
{
    let i = choose|i: int| 0 <= i <= s.len() - sub.len() && #[trigger] s.subrange(i, i + sub.len()) == sub;
    assert(s.push(x).subrange(i, i + sub.len()) =~= s.subrange(i, i + sub.len()));
}

/// A suffix of `s` is a run of `s`.
pub proof fn lemma_occurs_suffix<P>(s: Seq<PathEl<P>>, sub: Seq<PathEl<P>>)
    requires
        sub.len() <= s.len(),
        s.subrange(s.len() - sub.len(), s.len() as int) == sub,
    ensures
        occurs_in(s, sub),
{
    let i = s.len() - sub.len();
    assert(s.subrange(i, i + sub.len()) == sub);
}

/// Every contour of a reachable outline still occurs in its path after one
/// more element is recorded.
proof fn lemma_contours_occur_push<P>(o: OutlineView<P>, x: PathEl<P>)
    requires
        o.wf(),
    ensures
        forall|k: int|
            0 <= k < o.contours.len() ==> occurs_in(o.path.push(x), #[trigger] o.contours[k].elements),
{
    reveal(OutlineView::wf);
    assert forall|k: int| 0 <= k < o.contours.len() implies occurs_in(
        o.path.push(x),
        #[trigger] o.contours[k].elements,
    ) by {
        lemma_occurs_push(o.path, o.contours[k].elements, x);
    }
}

/// Finishing the open contour unclosed keeps an outline reachable.
pub proof fn lemma_finish_unclosed_wf<P>(o: OutlineView<P>)
    requires
        o.wf(),
    ensures
        o.finish_open_contour(false).wf(),
{
    reveal(OutlineView::wf);
    let f = o.finish_open_contour(false);
    if let Some(op) = o.open {
        if op.elements.len() > 1 {
            lemma_occurs_suffix(o.path, op.elements);
            let c = ContourView { elements: op.elements, closed: false };
            assert(f.contours.last() == c);
            assert forall|k: int| 0 <= k < f.contours.len() implies (#[trigger] f.contours[k]).wf()
                && occurs_in(f.path, f.contours[k].elements) by {
                if k < o.contours.len() {
                    assert(f.contours[k] == o.contours[k]);
                }
            }
        }
    }
}

/// Recording a segment keeps an outline reachable.
pub proof fn lemma_push_segment_wf<P>(o: OutlineView<P>, el: PathEl<P>)
    requires
        o.wf(),
        el.is_segment(),
    ensures
        o.push(el).wf(),
{
    reveal(OutlineView::wf);
    let q = o.push(el);
    lemma_contours_occur_push(o, el);
    if let Some(op) = o.open {
        let qe = op.elements.push(el);
        assert(q.path.subrange(q.path.len() - qe.len(), q.path.len() as int) =~= qe);
        assert(segments_between(qe, 1, qe.len() as int)) by {
            assert forall|i: int| 1 <= i < qe.len() implies (#[trigger] qe[i]).is_segment() by {
                if i < op.elements.len() {
                    assert(qe[i] == op.elements[i]);
                }
            }
        }
    }
}

/// Starting a contour keeps an outline reachable.
pub proof fn lemma_move_to_wf<P>(o: OutlineView<P>, p: P)
    requires
        o.wf(),
    ensures
        o.move_to(p).wf(),
{
    reveal(OutlineView::wf);
    let f = o.finish_open_contour(false);
    lemma_finish_unclosed_wf(o);
    lemma_contours_occur_push(f, PathEl::MoveTo(p));
    let q = o.move_to(p);
    assert(q.path.subrange(q.path.len() - 1, q.path.len() as int) =~= seq![PathEl::MoveTo(p)]);
}

/// Closing keeps an outline reachable.
pub proof fn lemma_close_wf<P>(o: OutlineView<P>)
    requires
        o.wf(),
    ensures
        o.close().wf(),
{
    reveal(OutlineView::wf);
    let q = o.close();
    lemma_contours_occur_push(o, PathEl::ClosePath);
    if let Some(op) = o.open {
        let ce = op.elements.push(PathEl::ClosePath);
        let np = o.path.push(PathEl::ClosePath);
        assert(np.subrange(np.len() - ce.len(), np.len() as int) =~= ce);
        lemma_occurs_suffix(np, ce);
        let c = ContourView { elements: ce, closed: true };
        assert(q.contours.last() == c);
        assert(segments_between(ce, 1, ce.len() - 1)) by {
            assert forall|i: int| 1 <= i < ce.len() - 1 implies (#[trigger] ce[i]).is_segment() by {
                assert(ce[i] == op.elements[i]);
            }
        }
        assert forall|k: int| 0 <= k < q.contours.len() implies (#[trigger] q.contours[k]).wf()
            && occurs_in(q.path, q.contours[k].elements) by {
            if k < o.contours.len() {
                assert(q.contours[k] == o.contours[k]);
            }
        }
    }
}

} // verus!
