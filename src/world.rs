use vstd::prelude::*;
use crate::geometry::{seek, seek_step, Point, FIELD, SUBUNITS};

verus! {

/// Jitter on each axis lies in `[-JITTER, JITTER)`: half a world unit.
pub const JITTER: i64 = 500;

/// `v` held to the field `[-FIELD, FIELD]`.
pub open spec fn clamp_field(v: int) -> int {
    if v < -FIELD {
        -FIELD as int
    } else if v > FIELD {
        FIELD as int
    } else {
        v
    }
}

/// Both components of a jitter draw lie in `[-JITTER, JITTER)`.
pub open spec fn jitter_ok(j: (i64, i64)) -> bool {
    -JITTER <= j.0 < JITTER && -JITTER <= j.1 < JITTER
}

/// Every jitter draw of `js` is in range.
pub open spec fn jitters_ok(js: Seq<(i64, i64)>) -> bool {
    forall|i: int| 0 <= i < js.len() ==> #[trigger] jitter_ok(js[i])
}

/// Whether a frame moves the elements: a target is present and it is not
/// the origin.
pub open spec fn steers(target: Option<Point>) -> bool {
    match target {
        Some(m) => m.x != 0 || m.y != 0,
        None => false,
    }
}

/// The target, when present, lies in the field.
pub open spec fn target_ok(target: Option<Point>) -> bool {
    match target {
        Some(m) => m.in_field(),
        None => true,
    }
}

/// Where an element at `e` lands after a seek step toward `m` and jitter
/// `j`; a coordinate that would leave the field stops at its edge.
pub open spec fn moved(e: Point, m: Point, j: (i64, i64)) -> Point {
    Point {
        x: clamp_field(e.x + seek(e, m).0 + j.0) as i64,
        y: clamp_field(e.y + seek(e, m).1 + j.1) as i64,
    }
}

/// The positions after one frame toward `target`, the element at index `i`
/// taking jitter `js[i]`. Positions stay as they are unless the frame steers.
pub open spec fn after_frame(ps: Seq<Point>, target: Option<Point>, js: Seq<(i64, i64)>) -> Seq<Point> {
    if steers(target) {
        Seq::new(ps.len(), |i: int| moved(ps[i], target->0, js[i]))
    } else {
        ps
    }
}

/// The positions after one frame per entry of `frames`, all toward `target`.
pub open spec fn after_frames(
    ps: Seq<Point>,
    target: Option<Point>,
    frames: Seq<Seq<(i64, i64)>>,
) -> Seq<Point>
    decreases frames.len(),
{
    if frames.len() == 0 {
        ps
    } else {
        after_frames(after_frame(ps, target, frames[0]), target, frames.drop_first())
    }
}

/// `after` is what a frame toward `target` makes of `before` for some
/// in-range jitter draws, one per element.
pub open spec fn frame_outcome(before: Seq<Point>, after: Seq<Point>, target: Option<Point>) -> bool {
    exists|js: Seq<(i64, i64)>|
        js.len() == before.len() && jitters_ok(js) && #[trigger] after_frame(before, target, js)
            == after
}

/// Every position lies in the field.
pub open spec fn all_in_field(ps: Seq<Point>) -> bool {
    forall|i: int| 0 <= i < ps.len() ==> #[trigger] ps[i].in_field()
}

/// A frame that does not steer (no target, or a target at the origin)
/// leaves every position as it was, and so does any number of such frames,
/// whatever jitter they were handed.
pub proof fn lemma_frames_without_steering(
    ps: Seq<Point>,
    target: Option<Point>,
    frames: Seq<Seq<(i64, i64)>>,
)
    requires
        !steers(target),
    ensures
        after_frames(ps, target, frames) == ps,
    decreases frames.len(),
{
    if frames.len() > 0 {
        lemma_frames_without_steering(ps, target, frames.drop_first());
    }
}

/// In a frame that steers, each element lands within half a world unit of
/// the end of its seek step on each axis, in `[-JITTER, JITTER)`, wherever
/// that end lies at least `JITTER` inside the field (so that the edge of the
/// field does not stop it).
pub proof fn lemma_jitter_bounded(before: Seq<Point>, after: Seq<Point>, m: Point, i: int)
    requires
        steers(Some(m)),
        frame_outcome(before, after, Some(m)),
        0 <= i < before.len(),
        -FIELD + JITTER <= before[i].x + seek(before[i], m).0 <= FIELD - JITTER,
        -FIELD + JITTER <= before[i].y + seek(before[i], m).1 <= FIELD - JITTER,
    ensures
        -JITTER <= after[i].x - (before[i].x + seek(before[i], m).0) < JITTER,
        -JITTER <= after[i].y - (before[i].y + seek(before[i], m).1) < JITTER,
{
    let js = choose|js: Seq<(i64, i64)>|
        js.len() == before.len() && jitters_ok(js) && #[trigger] after_frame(before, Some(m), js)
            == after;
    assert(jitter_ok(js[i]));
    assert(after[i] == moved(before[i], m, js[i]));
}

/// Relies on nannou::rand::random_range: for `lo < hi` it calls
/// `thread_rng().gen_range(lo..hi)`, which returns a value in `[lo, hi)`;
/// `gen_range` panics on an empty range, which `requires` leaves out.
#[verifier::external_body]
fn random_range(lo: i64, hi: i64) -> (r: i64)
    requires
        lo < hi,
    ensures
        lo <= r < hi,
{
    nannou::rand::random_range(lo, hi)
}

/// Whether a frame toward `target` moves the elements.
pub fn frame_steers(target: &Option<Point>) -> (r: bool)
    ensures
        r == steers(*target),
{
    match target {
        Some(m) => m.x != 0 || m.y != 0,
        None => false,
    }
}

/// `v` held to the field.
fn clamp_to_field(v: i64) -> (r: i64)
    ensures
        r == clamp_field(v as int),
{
    if v < -FIELD {
        -FIELD
    } else if v > FIELD {
        FIELD
    } else {
        v
    }
}

/// One particle: a position and nothing else.
#[derive(Clone, Copy, Debug, PartialEq, Eq, Structural)]
pub struct Element {
    pub position: Point,
}

impl Element {
    pub fn new(p: Point) -> (r: Element)
        ensures
            r.position == p,
    {
        Element { position: p }
    }
}

/// The fixed, ordered population of elements.
pub struct World {
    elements: Vec<Element>,
}

impl View for World {
    type V = Seq<Point>;

    closed spec fn view(&self) -> Seq<Point> {
        self.elements@.map_values(|e: Element| e.position)
    }
}

impl World {
    /// Every element lies in the field.
    pub open spec fn wf(&self) -> bool {
        all_in_field(self@)
    }

    /// A world with one element at each of `points`, in that order.
    pub fn from_points(points: &Vec<Point>) -> (w: World)
        requires
            all_in_field(points@),
        ensures
            w@ == points@,
            w.wf(),
    {
        let mut elements: Vec<Element> = Vec::new();
        let mut i: usize = 0;
        while i < points.len()
            invariant
                i <= points.len(),
                elements@.len() == i,
                forall|k: int| 0 <= k < i ==> #[trigger] elements@[k].position == points@[k],
            decreases points.len() - i,
        {
            elements.push(Element::new(points[i]));
            i = i + 1;
        }
        let w = World { elements };
        assert(w@ =~= points@);
        w
    }

    /// `n` elements placed uniformly at random over a `width` by `height`
    /// surface (in world units) centred on the origin.
    pub fn initialize(n: usize, width: u32, height: u32) -> (w: World)
        requires
            0 < width,
            0 < height,
            width * SUBUNITS <= 2 * FIELD,
            height * SUBUNITS <= 2 * FIELD,
        ensures
            w@.len() == n,
            w.wf(),
            forall|i: int|
                0 <= i < n ==> -width * JITTER <= #[trigger] w@[i].x < width * JITTER
                    && -height * JITTER <= w@[i].y < height * JITTER,
    {
        let half_w: i64 = width as i64 * JITTER;
        let half_h: i64 = height as i64 * JITTER;
        let mut elements: Vec<Element> = Vec::new();
        let mut i: usize = 0;
        while i < n
            invariant
                i <= n,
                elements@.len() == i,
                half_w == width * JITTER,
                half_h == height * JITTER,
                0 < half_w <= FIELD,
                0 < half_h <= FIELD,
                forall|k: int|
                    0 <= k < i ==> -half_w <= #[trigger] elements@[k].position.x < half_w
                        && -half_h <= elements@[k].position.y < half_h,
            decreases n - i,
        {
            let x = random_range(-half_w, half_w);
            let y = random_range(-half_h, half_h);
            elements.push(Element::new(Point::new(x, y)));
            i = i + 1;
        }
        let w = World { elements };
        assert forall|k: int| 0 <= k < n implies #[trigger] w@[k].in_field() by {
            assert(w@[k] == elements@[k].position);
        }
        w
    }

    /// One frame toward `target` with the given jitter draws, `jitter[i]`
    /// for the element at index `i`.
    pub fn advance(&mut self, target: Option<Point>, jitter: &Vec<(i64, i64)>)
        requires
            old(self).wf(),
            target_ok(target),
            jitter@.len() == old(self)@.len(),
            jitters_ok(jitter@),
        ensures
            final(self)@ == after_frame(old(self)@, target, jitter@),
            final(self).wf(),
    {
        let m = match target {
            Some(m) => m,
            None => {
                return;
            },
        };
        if m.x == 0 && m.y == 0 {
            return;
        }
        let ghost before = self@;
        let mut i: usize = 0;
        while i < self.elements.len()
            invariant
                i <= self.elements@.len(),
                self.elements@.len() == before.len(),
                before.len() == jitter@.len(),
                all_in_field(before),
                m.in_field(),
                jitters_ok(jitter@),
                forall|k: int|
                    0 <= k < i ==> #[trigger] self.elements@[k].position == moved(
                        before[k],
                        m,
                        jitter@[k],
                    ),
                forall|k: int|
                    i <= k < before.len() ==> #[trigger] self.elements@[k].position == before[k],
            decreases self.elements@.len() - i,
        {
            let e = self.elements[i].position;
            assert(e == before[i as int]);
            assert(e.in_field());
            let s = seek_step(e, m);
            let j = jitter[i];
            assert(jitter_ok(jitter@[i as int]));
            let x = clamp_to_field(e.x + s.0 + j.0);
            let y = clamp_to_field(e.y + s.1 + j.1);
            self.elements.set(i, Element::new(Point::new(x, y)));
            i = i + 1;
        }
        assert(self@ =~= after_frame(before, target, jitter@));
        assert forall|k: int| 0 <= k < self@.len() implies #[trigger] self@[k].in_field() by {
            assert(self@[k] == self.elements@[k].position);
        }
    }

    /// One frame toward `target`: when the frame steers, each element takes
    /// a seek step and jitter drawn at random, `x` before `y`, element by
    /// element; otherwise nothing moves and nothing is drawn.
    pub fn update(&mut self, target: Option<Point>)
        requires
            old(self).wf(),
            target_ok(target),
        ensures
            final(self).wf(),
            final(self)@.len() == old(self)@.len(),
            !steers(target) ==> final(self)@ == old(self)@,
            frame_outcome(old(self)@, final(self)@, target),
    {
        let ghost before = self@;
        if frame_steers(&target) {
            let n = self.len();
            let mut js: Vec<(i64, i64)> = Vec::new();
            let mut i: usize = 0;
            while i < n
                invariant
                    i <= n,
                    js@.len() == i,
                    jitters_ok(js@),
                decreases n - i,
            {
                let jx = random_range(-JITTER, JITTER);
                let jy = random_range(-JITTER, JITTER);
                js.push((jx, jy));
                i = i + 1;
                assert(jitter_ok(js@[i - 1]));
            }
            self.advance(target, &js);
            assert(after_frame(before, target, js@) == self@);
        } else {
            let ghost js = Seq::new(before.len(), |i: int| (0i64, 0i64));
            assert(jitters_ok(js));
            assert(after_frame(before, target, js) == self@);
        }
    }

    pub fn len(&self) -> (r: usize)
        ensures
            r == self@.len(),
    {
        self.elements.len()
    }

    pub fn position(&self, i: usize) -> (r: Point)
        requires
            i < self@.len(),
        ensures
            r == self@[i as int],
    {
        self.elements[i].position
    }

    /// The positions of all elements, in order.
    pub fn positions(&self) -> (r: Vec<Point>)
        ensures
            r@ == self@,
    {
        let mut r: Vec<Point> = Vec::new();
        let mut i: usize = 0;
        while i < self.elements.len()
            invariant
                i <= self.elements@.len(),
                r@ == self@.take(i as int),
            decreases self.elements@.len() - i,
        {
            r.push(self.elements[i].position);
            i = i + 1;
            assert(r@ =~= self@.take(i as int));
        }
        assert(self@.take(self@.len() as int) =~= self@);
        r
    }
}

} // verus!
