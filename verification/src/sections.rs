use vstd::prelude::*;

use crate::error::GeometryError;
use crate::ids::{advance, next_id, IdCounter};
use crate::id_set::IdSet;
use crate::types::{Entity, Line, Point};
use vstd::std_specs::cmp::PartialEqSpec;

verus! {

broadcast use crate::types::group_fields;

/// What stands for a floating point scale factor: its place in the order
/// of floating point numbers. `Number` holds an order key (equal numbers,
/// such as the two zeros, have equal keys; a smaller number has a smaller
/// key); `NotANumber` stands for NaN, which is neither less than, nor equal
/// to, anything.
#[derive(Debug, Clone, Copy, PartialEq, Eq)]
pub enum ScaleFactor {
    Number(i64),
    NotANumber,
}

impl ScaleFactor {
    /// Floating point `<`.
    pub open spec fn is_less(self, other: ScaleFactor) -> bool {
        match (self, other) {
            (ScaleFactor::Number(a), ScaleFactor::Number(b)) => a < b,
            _ => false,
        }
    }

    /// Floating point `==`.
    pub open spec fn is_equal(self, other: ScaleFactor) -> bool {
        match (self, other) {
            (ScaleFactor::Number(a), ScaleFactor::Number(b)) => a == b,
            _ => false,
        }
    }

    /// Whether `self` is less than `other`, as floating point `<` says.
    pub fn less_than(&self, other: &ScaleFactor) -> (r: bool)
        ensures
            r == self.is_less(*other),
    {
        match (self, other) {
            (ScaleFactor::Number(a), ScaleFactor::Number(b)) => *a < *b,
            _ => false,
        }
    }

    /// Whether `self` equals `other`, as floating point `==` says.
    pub fn equals(&self, other: &ScaleFactor) -> (r: bool)
        ensures
            r == self.is_equal(*other),
    {
        match (self, other) {
            (ScaleFactor::Number(a), ScaleFactor::Number(b)) => *a == *b,
            _ => false,
        }
    }
}

/// Where a ray meets a line: the point, and the scale factor that says how
/// far along the ray it lies. The caller computes it from the coordinates.
#[derive(Debug, Clone, Copy)]
pub struct Hit<C> {
    pub x: C,
    pub y: C,
    pub scale_factor: ScaleFactor,
}

/// A point where a ray meets the plan: the point, how far along the ray it
/// lies, and the lines of the plan that pass through it.
#[derive(Debug)]
pub struct Intersection<C> {
    pub point: Point<C>,
    pub scale_factor: ScaleFactor,
    pub lines: IdSet,
}

/// The mathematical content of an intersection.
pub ghost struct IntersectionView<C> {
    pub point: Point<C>,
    pub scale_factor: ScaleFactor,
    pub lines: Set<u32>,
}

impl<C> View for Intersection<C> {
    type V = IntersectionView<C>;

    open spec fn view(&self) -> IntersectionView<C> {
        IntersectionView { point: self.point, scale_factor: self.scale_factor, lines: self.lines@ }
    }
}

/// The content of an optional intersection.
pub open spec fn option_view<C>(o: Option<Intersection<C>>) -> Option<IntersectionView<C>> {
    match o {
        Some(i) => Some(i@),
        None => None,
    }
}

/// The contents of a sequence of optional intersections.
pub open spec fn options_view<C>(s: Seq<Option<Intersection<C>>>) -> Seq<Option<IntersectionView<C>>> {
    s.map_values(|o: Option<Intersection<C>>| option_view(o))
}

impl<C: Copy> Clone for Intersection<C> {
    fn clone(&self) -> (r: Intersection<C>)
        ensures
            r@ == self@,
    {
        Intersection { point: self.point, scale_factor: self.scale_factor, lines: self.lines.clone() }
    }
}

impl<C: Copy> Intersection<C> {
    /// Merges `other` into `self`: the point and scale factor of `self`,
    /// with the lines of both. `can_merge` says whether the two points lie
    /// close enough to be merged (`Point::can_merge`); where they do not,
    /// the merge fails.
    pub fn merge(&self, other: &Intersection<C>, can_merge: bool) -> (res: Result<Intersection<C>, GeometryError>)
        ensures
            match res {
                Ok(m) => can_merge && m@ == (IntersectionView {
                    point: self.point,
                    scale_factor: self.scale_factor,
                    lines: self@.lines.union(other@.lines),
                }),
                Err(e) => !can_merge && e == GeometryError::TooFarApartToMerge,
            },
    {
        if !can_merge {
            return Err(GeometryError::TooFarApartToMerge);
        }
        let mut lines = self.lines.clone();
        lines.extend(&other.lines);
        Ok(Intersection { point: self.point, scale_factor: self.scale_factor, lines })
    }
}

/// The intersection that a hit on `line` makes, whose point carries
/// identifier `id`.
pub open spec fn hit_view<C>(line: Line<C>, hit: Hit<C>, id: u32) -> IntersectionView<C> {
    IntersectionView {
        point: Point::spec_new(hit.x, hit.y, id),
        scale_factor: hit.scale_factor,
        lines: set![line.spec_id()],
    }
}

/// Where a ray meets `line`, given the hit the caller computed from the
/// coordinates (`None` where they do not meet): an intersection whose point
/// gets a fresh identifier and whose only line is `line`.
pub fn section_point<C: Copy>(line: &Line<C>, hit: Option<Hit<C>>, ids: &mut IdCounter) -> (res: Option<Intersection<C>>)
    ensures
        match hit {
            None => res is None && final(ids).peek() == old(ids).peek(),
            Some(h) => option_view(res) == Some(hit_view(*line, h, old(ids).peek()))
                && final(ids).peek() == next_id(old(ids).peek()),
        },
{
    match hit {
        None => None,
        Some(h) => {
            let point = Point::new_ordered(h.x, h.y, ids);
            Some(Intersection { point, scale_factor: h.scale_factor, lines: IdSet::singleton(line.id()) })
        },
    }
}

/// The closest of a sequence of sections of one ray: the first one with the
/// least scale factor, holding the lines of every section with that scale
/// factor. Comparisons follow floating point: a NaN scale factor that comes
/// first stays; one that comes later is passed over.
pub open spec fn closest_spec<C>(cands: Seq<Option<IntersectionView<C>>>) -> Option<IntersectionView<C>>
    decreases cands.len(),
{
    if cands.len() == 0 {
        None
    } else {
        let best = closest_spec(cands.drop_last());
        match cands.last() {
            None => best,
            Some(iv) => match best {
                None => Some(iv),
                Some(b) => if iv.scale_factor.is_less(b.scale_factor) {
                    Some(iv)
                } else if b.scale_factor.is_equal(iv.scale_factor) {
                    Some(IntersectionView { point: b.point, scale_factor: b.scale_factor, lines: b.lines.union(iv.lines) })
                } else {
                    Some(b)
                },
            },
        }
    }
}

/// The closest of the sections of a ray with the lines of a plan, one
/// entry per line (`None` where the ray misses the line).
pub fn closest_section<C: Copy>(candidates: &Vec<Option<Intersection<C>>>) -> (res: Option<Intersection<C>>)
    ensures
        option_view(res) == closest_spec(options_view(candidates@)),
{
    let ghost views = options_view(candidates@);
    let mut best: Option<Intersection<C>> = None;
    let n = candidates.len();
    let mut i: usize = 0;
    while i < n
        invariant
            n == candidates@.len(),
            0 <= i <= n,
            views == options_view(candidates@),
            option_view(best) == closest_spec(views.take(i as int)),
        decreases n - i,
    {
        proof {
            assert(views.take(i + 1).drop_last() == views.take(i as int));
            assert(views.take(i + 1).last() == views[i as int]);
        }
        match &candidates[i] {
            None => {},
            Some(iv) => {
                let current = best;
                best = match current {
                    None => Some(iv.clone()),
                    Some(b) => {
                        if iv.scale_factor.less_than(&b.scale_factor) {
                            Some(iv.clone())
                        } else if b.scale_factor.equals(&iv.scale_factor) {
                            let mut merged = b;
                            merged.lines.extend(&iv.lines);
                            Some(merged)
                        } else {
                            Some(b)
                        }
                    },
                };
            },
        }
        i = i + 1;
    }
    assert(views.take(n as int) == views);
    best
}

/// Where the two extra targets of the rays along a line lie: just before
/// its start and just beyond its end. The caller computes them from the
/// coordinates.
#[derive(Debug, Clone, Copy)]
pub struct RayExtension<C> {
    pub before_x: C,
    pub before_y: C,
    pub beyond_x: C,
    pub beyond_y: C,
}

/// The targets of the rays cast along `line`: the point before its start
/// (identifier `id`), its two ends, and the point beyond its end (the
/// identifier after `id`).
pub open spec fn ray_points_spec<C>(line: Line<C>, ext: RayExtension<C>, id: u32) -> Seq<Point<C>> {
    seq![
        Point::spec_new(ext.before_x, ext.before_y, id),
        line.spec_a(),
        line.spec_b(),
        Point::spec_new(ext.beyond_x, ext.beyond_y, next_id(id)),
    ]
}

/// The four targets of the rays cast along `line`; the two extra points get
/// fresh identifiers, the one before the start first.
pub fn get_ray_points<C: Copy>(line: &Line<C>, extension: &RayExtension<C>, ids: &mut IdCounter) -> (points: Vec<Point<C>>)
    ensures
        points@ == ray_points_spec(*line, *extension, old(ids).peek()),
        final(ids).peek() == advance(old(ids).peek(), 2),
{
    let before = Point::new_ordered(extension.before_x, extension.before_y, ids);
    let beyond = Point::new_ordered(extension.beyond_x, extension.beyond_y, ids);
    let mut points: Vec<Point<C>> = Vec::new();
    points.push(before);
    points.push(line.a);
    points.push(line.b);
    points.push(beyond);
    assert(points@ =~= ray_points_spec(*line, *extension, old(ids).peek()));
    assert(advance(old(ids).peek(), 2) == next_id(next_id(old(ids).peek()))) by {
        reveal_with_fuel(advance, 3);
    }
    points
}

/// The number of hits in a row.
pub open spec fn hit_count<C>(row: Seq<Option<Hit<C>>>) -> nat
    decreases row.len(),
{
    if row.len() == 0 {
        0
    } else {
        hit_count(row.drop_last()) + if row.last() is Some { 1nat } else { 0nat }
    }
}

/// The sections that one ray makes with `lines`, given the hit on each
/// line; the points get identifiers from `start` on, in the order of the
/// lines.
pub open spec fn sections_spec<C>(lines: Seq<Line<C>>, row: Seq<Option<Hit<C>>>, start: u32) -> Seq<Option<IntersectionView<C>>>
    decreases row.len(),
{
    if row.len() == 0 {
        seq![]
    } else {
        sections_spec(lines, row.drop_last(), start).push(
            match row.last() {
                None => None,
                Some(h) => Some(hit_view(lines[row.len() - 1], h, advance(start, hit_count(row.drop_last())))),
            },
        )
    }
}

/// The sections of one ray with every line, in the order of the lines.
fn sections_of_ray<C: Copy>(lines: &Vec<Line<C>>, row: &Vec<Option<Hit<C>>>, ids: &mut IdCounter) -> (sections: Vec<Option<Intersection<C>>>)
    requires
        row@.len() == lines@.len(),
    ensures
        options_view(sections@) == sections_spec(lines@, row@, old(ids).peek()),
        final(ids).peek() == advance(old(ids).peek(), hit_count(row@)),
{
    let ghost start = ids.peek();
    let mut sections: Vec<Option<Intersection<C>>> = Vec::new();
    let n = row.len();
    let mut k: usize = 0;
    while k < n
        invariant
            n == row@.len(),
            n == lines@.len(),
            0 <= k <= n,
            options_view(sections@) == sections_spec(lines@, row@.take(k as int), start),
            ids.peek() == advance(start, hit_count(row@.take(k as int))),
        decreases n - k,
    {
        let ghost before = sections@;
        let s = section_point(&lines[k], row[k], ids);
        sections.push(s);
        proof {
            let taken = row@.take(k + 1);
            assert(taken.drop_last() == row@.take(k as int));
            assert(taken.last() == row@[k as int]);
            assert(sections@ == before.push(s));
            assert(options_view(sections@) =~= options_view(before).push(option_view(s)));
        }
        k = k + 1;
    }
    assert(row@.take(n as int) == row@);
    sections
}

/// The progress of a scan over the vertices of a plan: the next identifier
/// to hand out, the ray targets visited so far, and the intersections found
/// so far.
pub ghost struct ScanState<C> {
    pub next: u32,
    pub seen: Seq<Point<C>>,
    pub found: Seq<IntersectionView<C>>,
}

/// Whether `p` and `q` lie at the same place: their coordinates are equal
/// (as `==` on the coordinate type says); their identifiers do not matter.
pub open spec fn same_place<C: PartialEq>(p: Point<C>, q: Point<C>) -> bool {
    p.spec_x().eq_spec(&q.spec_x()) && p.spec_y().eq_spec(&q.spec_y())
}

/// Whether a target at the place of `t` was visited before.
pub open spec fn visited<C: PartialEq>(seen: Seq<Point<C>>, t: Point<C>) -> bool {
    exists|k: int| 0 <= k < seen.len() && same_place(#[trigger] seen[k], t)
}

/// A visit of one ray target. A target at a place visited before is passed
/// over. Otherwise the ray towards it gets the next identifier, its sections
/// follow, and the closest of them, if any, is found.
pub open spec fn visit_spec<C: PartialEq>(s: ScanState<C>, target: Point<C>, lines: Seq<Line<C>>, row: Seq<Option<Hit<C>>>) -> ScanState<C> {
    if visited(s.seen, target) {
        s
    } else {
        let start = next_id(s.next);
        ScanState {
            next: advance(start, hit_count(row)),
            seen: s.seen.push(target),
            found: match closest_spec(sections_spec(lines, row, start)) {
                Some(iv) => s.found.push(iv),
                None => s.found,
            },
        }
    }
}

/// The visits of the first `t` targets, the `j`-th with the hits `rows[j]`.
pub open spec fn visits_spec<C: PartialEq>(s: ScanState<C>, targets: Seq<Point<C>>, lines: Seq<Line<C>>, rows: Seq<Seq<Option<Hit<C>>>>, t: nat) -> ScanState<C>
    decreases t,
{
    if t == 0 {
        s
    } else {
        let prev = visits_spec(s, targets, lines, rows, (t - 1) as nat);
        visit_spec(prev, targets[t - 1], lines, rows[t - 1])
    }
}

/// The visits of the four ray targets of one line.
pub open spec fn line_scan_spec<C: PartialEq>(s: ScanState<C>, line: Line<C>, ext: RayExtension<C>, lines: Seq<Line<C>>, rows: Seq<Seq<Option<Hit<C>>>>) -> ScanState<C> {
    let targets = ray_points_spec(line, ext, s.next);
    let after_targets = ScanState { next: advance(s.next, 2), seen: s.seen, found: s.found };
    visits_spec(after_targets, targets, lines, rows, 4)
}

/// Whether a target at the place of `t` is among `seen`.
fn visited_before<C: PartialEq>(seen: &Vec<Point<C>>, t: &Point<C>) -> (r: bool)
    requires
        C::obeys_eq_spec(),
    ensures
        r == visited(seen@, *t),
{
    let mut k: usize = 0;
    while k < seen.len()
        invariant
            C::obeys_eq_spec(),
            0 <= k <= seen@.len(),
            forall|q: int| 0 <= q < k ==> !same_place(#[trigger] seen@[q], *t),
        decreases seen@.len() - k,
    {
        if seen[k].x == t.x && seen[k].y == t.y {
            assert(same_place(seen@[k as int], *t));
            return true;
        }
        k = k + 1;
    }
    false
}

/// The rows of hits, as sequences.
pub open spec fn rows_view<C>(hits: Seq<Vec<Option<Hit<C>>>>) -> Seq<Seq<Option<Hit<C>>>> {
    hits.map_values(|row: Vec<Option<Hit<C>>>| row@)
}

/// The scan over the first `count` lines: the `j`-th target of line `i`
/// is met with the hits `rows[4 * i + j]`.
pub open spec fn scan_spec<C: PartialEq>(s: ScanState<C>, lines: Seq<Line<C>>, exts: Seq<RayExtension<C>>, rows: Seq<Seq<Option<Hit<C>>>>, count: nat) -> ScanState<C>
    decreases count,
{
    if count == 0 {
        s
    } else {
        let i = count - 1;
        let prev = scan_spec(s, lines, exts, rows, i as nat);
        line_scan_spec(prev, lines[i], exts[i], lines, rows.subrange(4 * i, 4 * i + 4))
    }
}

/// The views of a sequence of intersections.
pub open spec fn intersections_view<C>(s: Seq<Intersection<C>>) -> Seq<IntersectionView<C>> {
    s.map_values(|i: Intersection<C>| i@)
}

/// Casts a ray from `point` towards every vertex of the plan, and just past
/// either end of each line, and keeps the closest intersection of each ray.
///
/// A place is visited once: a target whose coordinates equal those of a
/// target visited before is passed over. `extensions[i]` gives the extra targets of `lines[i]`;
/// `hits[4 * i + j]` gives, for each line, where the ray towards the `j`-th
/// target of `lines[i]` meets it.
pub fn closest_intersections_to_all_vertices<C: Copy + PartialEq>(
    point: &Point<C>,
    lines: &Vec<Line<C>>,
    extensions: &Vec<RayExtension<C>>,
    hits: &Vec<Vec<Option<Hit<C>>>>,
    ids: &mut IdCounter,
) -> (results: Vec<Intersection<C>>)
    requires
        C::obeys_eq_spec(),
        extensions@.len() == lines@.len(),
        hits@.len() == 4 * lines@.len(),
        forall|j: int| 0 <= j < hits@.len() ==> (#[trigger] hits@[j])@.len() == lines@.len(),
    ensures
        ({
            let end = scan_spec(
                ScanState { next: old(ids).peek(), seen: seq![], found: seq![] },
                lines@,
                extensions@,
                rows_view(hits@),
                lines@.len(),
            );
            &&& intersections_view(results@) == end.found
            &&& final(ids).peek() == end.next
        }),
{
    let ghost init = ScanState { next: ids.peek(), seen: Seq::<Point<C>>::empty(), found: Seq::<IntersectionView<C>>::empty() };
    let ghost rows = rows_view(hits@);
    let mut results: Vec<Intersection<C>> = Vec::new();
    let mut seen: Vec<Point<C>> = Vec::new();
    let n = lines.len();
    let hits_len = hits.len();
    let mut i: usize = 0;
    while i < n
        invariant
            n == lines@.len(),
            0 <= i <= n,
            C::obeys_eq_spec(),
            extensions@.len() == n,
            hits@.len() == 4 * n,
            hits_len == hits@.len(),
            forall|j: int| 0 <= j < hits@.len() ==> (#[trigger] hits@[j])@.len() == lines@.len(),
            rows == rows_view(hits@),
            ({
                let s = scan_spec(init, lines@, extensions@, rows, i as nat);
                &&& s.next == ids.peek()
                &&& s.seen == seen@
                &&& s.found == intersections_view(results@)
            }),
        decreases n - i,
    {
        let ghost s = scan_spec(init, lines@, extensions@, rows, i as nat);
        let ghost line_rows = rows.subrange(4 * i, 4 * i + 4);
        let targets = get_ray_points(&lines[i], &extensions[i], ids);
        let ghost s0 = ScanState { next: advance(s.next, 2), seen: s.seen, found: s.found };
        let mut t: usize = 0;
        while t < 4
            invariant
                n == lines@.len(),
                i < n,
                0 <= t <= 4,
                C::obeys_eq_spec(),
                hits@.len() == 4 * n,
                hits_len == hits@.len(),
                forall|j: int| 0 <= j < hits@.len() ==> (#[trigger] hits@[j])@.len() == lines@.len(),
                rows == rows_view(hits@),
                line_rows == rows.subrange(4 * i, 4 * i + 4),
                targets@.len() == 4,
                ({
                    let v = visits_spec(s0, targets@, lines@, line_rows, t as nat);
                    &&& v.next == ids.peek()
                    &&& v.seen == seen@
                    &&& v.found == intersections_view(results@)
                }),
            decreases 4 - t,
        {
            let ghost v = visits_spec(s0, targets@, lines@, line_rows, t as nat);
            let target = targets[t];
            let j = 4 * i + t;
            proof {
                assert(line_rows[t as int] == rows[j as int]);
                assert(rows[j as int] == hits@[j as int]@);
            }
            if !visited_before(&seen, &target) {
                seen.push(target);
                let _ray = Line::from_points(point, &target, ids);
                let sections = sections_of_ray(lines, &hits[j], ids);
                let closest = closest_section(&sections);
                let ghost before = results@;
                match closest {
                    Some(c) => {
                        results.push(c);
                        assert(intersections_view(results@) =~= intersections_view(before).push(c@));
                    },
                    None => {},
                }
            }
            t = t + 1;
        }
        proof {
            assert(rows.subrange(4 * (i + 1) - 4, 4 * (i + 1)) == line_rows);
        }
        i = i + 1;
    }
    results
}

/// Whether index `i` comes before index `j` when ordered by decreasing
/// angle, equal angles keeping their given order.
pub open spec fn angle_before(angles: Seq<i64>, i: int, j: int) -> bool {
    angles[i] > angles[j] || (angles[i] == angles[j] && i < j)
}

/// `order` lists the indices of `angles` by decreasing angle, equal angles
/// in their given order (as a stable sort puts them).
pub open spec fn is_angle_order(angles: Seq<i64>, order: Seq<int>) -> bool {
    &&& order.len() == angles.len()
    &&& forall|k: int| 0 <= k < order.len() ==> 0 <= #[trigger] order[k] < angles.len()
    &&& forall|k: int, l: int| 0 <= k < l < order.len() ==> angle_before(angles, #[trigger] order[k], #[trigger] order[l])
}

/// The indices of `angles` by decreasing angle, equal angles in their given
/// order.
fn angle_order(angles: &Vec<i64>) -> (order: Vec<usize>)
    ensures
        is_angle_order(angles@, order@.map_values(|u: usize| u as int)),
{
    let n = angles.len();
    let mut order: Vec<usize> = Vec::new();
    let mut i: usize = 0;
    while i < n
        invariant
            n == angles@.len(),
            0 <= i <= n,
            order@.len() == i,
            forall|k: int| 0 <= k < order@.len() ==> #[trigger] order@[k] < i,
            forall|k: int, l: int| 0 <= k < l < order@.len() ==> angle_before(angles@, #[trigger] order@[k] as int, #[trigger] order@[l] as int),
        decreases n - i,
    {
        let mut p = order.len();
        while p > 0 && angles[order[p - 1]] < angles[i]
            invariant
                n == angles@.len(),
                i < n,
                0 <= p <= order@.len(),
                forall|k: int| 0 <= k < order@.len() ==> #[trigger] order@[k] < i,
                forall|q: int| p <= q < order@.len() ==> angles@[#[trigger] order@[q] as int] < angles@[i as int],
            decreases p,
        {
            p = p - 1;
        }
        let ghost before = order@;
        order.insert(p, i);
        proof {
            assert(order@ == before.insert(p as int, i));
            assert forall|k: int| 0 <= k < order@.len() implies #[trigger] order@[k] < i + 1 by {
                if k < p {
                    assert(order@[k] == before[k]);
                } else if k > p {
                    assert(order@[k] == before[k - 1]);
                }
            }
            assert forall|k: int, l: int| 0 <= k < l < order@.len() implies angle_before(angles@, #[trigger] order@[k] as int, #[trigger] order@[l] as int) by {
                if l < p {
                    assert(order@[k] == before[k] && order@[l] == before[l]);
                } else if l == p {
                    assert(order@[k] == before[k]);
                    assert(angle_before(angles@, before[k] as int, before[p - 1] as int) || k == p - 1);
                } else if k < p {
                    assert(order@[k] == before[k] && order@[l] == before[l - 1]);
                } else if k == p {
                    assert(order@[l] == before[l - 1]);
                } else {
                    assert(order@[k] == before[k - 1] && order@[l] == before[l - 1]);
                }
            }
        }
        i = i + 1;
    }
    order
}

/// The intersections by decreasing angle around the observation point,
/// equal angles in their given order. `angles[i]` is the order key of the
/// angle of `intersections[i]` (its place in the order of the angles).
pub fn sort_intersections<'l, C>(intersections: &'l Vec<Intersection<C>>, angles: &Vec<i64>) -> (sorted: Vec<&'l Intersection<C>>)
    requires
        angles@.len() == intersections@.len(),
    ensures
        exists|order: Seq<int>|
            {
                &&& is_angle_order(angles@, order)
                &&& sorted@.len() == order.len()
                &&& forall|k: int| 0 <= k < order.len() ==> *sorted@[k] == intersections@[#[trigger] order[k]]
                &&& forall|k: int, l: int|
                    0 <= k < l < order.len() ==> angles@[#[trigger] order[k]] >= angles@[#[trigger] order[l]]
            },
{
    let order = angle_order(angles);
    let ghost o = order@.map_values(|u: usize| u as int);
    let mut sorted: Vec<&'l Intersection<C>> = Vec::new();
    let mut k: usize = 0;
    while k < order.len()
        invariant
            o == order@.map_values(|u: usize| u as int),
            is_angle_order(angles@, o),
            angles@.len() == intersections@.len(),
            0 <= k <= order@.len(),
            sorted@.len() == k,
            forall|q: int| 0 <= q < k ==> *sorted@[q] == intersections@[#[trigger] o[q]],
        decreases order@.len() - k,
    {
        assert(0 <= o[k as int] < angles@.len());
        sorted.push(&intersections[order[k]]);
        k = k + 1;
    }
    assert forall|k: int, l: int| 0 <= k < l < o.len() implies angles@[#[trigger] o[k]] >= angles@[#[trigger] o[l]] by {
        assert(angle_before(angles@, o[k], o[l]));
    }
    sorted
}

/// `a` with `b` merged into it.
pub open spec fn merged_view<C>(a: IntersectionView<C>, b: IntersectionView<C>) -> IntersectionView<C> {
    IntersectionView { point: a.point, scale_factor: a.scale_factor, lines: a.lines.union(b.lines) }
}

/// The collation of `items`: each item either joins the group before it
/// (`joins` says which), merging into the group's first item, or starts a
/// new group. The first item always starts one.
pub open spec fn collate_spec<C>(items: Seq<IntersectionView<C>>, joins: Seq<bool>) -> Seq<IntersectionView<C>>
    decreases items.len(),
{
    if items.len() == 0 || joins.len() == 0 {
        seq![]
    } else {
        let prev = collate_spec(items.drop_last(), joins.drop_last());
        if prev.len() > 0 && joins.last() {
            prev.update(prev.len() - 1, merged_view(prev.last(), items.last()))
        } else {
            prev.push(items.last())
        }
    }
}

/// The views of a sequence of references to intersections.
pub open spec fn refs_view<C>(s: Seq<&Intersection<C>>) -> Seq<IntersectionView<C>> {
    s.map_values(|i: &Intersection<C>| i@)
}

/// The group before each item of `items` took that item in, or did not,
/// as `can_merge` answered for the group's point and the item's point.
pub open spec fn joins_answered<C, F: Fn(&Point<C>, &Point<C>) -> bool>(
    items: Seq<IntersectionView<C>>,
    joins: Seq<bool>,
    can_merge: F,
) -> bool {
    &&& joins.len() == items.len()
    &&& forall|i: int| 1 <= i < items.len() ==> can_merge.ensures(
        (&collate_spec(items.take(i), joins.take(i)).last().point, &#[trigger] items[i].point),
        joins[i],
    )
}

/// Merges runs of neighbouring intersections whose points lie close
/// together: each intersection joins the group before it when `can_merge`
/// says that the group's point (that of its first intersection) and its own
/// can be merged; the group keeps the point and scale factor of its first
/// intersection and gathers the lines of all of them.
pub fn collate_intersections<C: Copy, F: Fn(&Point<C>, &Point<C>) -> bool>(
    sorted_intersections: &Vec<&Intersection<C>>,
    can_merge: F,
) -> (collated: Vec<Intersection<C>>)
    requires
        forall|p: &Point<C>, q: &Point<C>| can_merge.requires((p, q)),
    ensures
        exists|joins: Seq<bool>|
            {
                &&& joins_answered(refs_view(sorted_intersections@), joins, can_merge)
                &&& joins.len() == sorted_intersections@.len()
                &&& forall|i: int| 1 <= i < sorted_intersections@.len() ==> can_merge.ensures(
                    (
                        &collate_spec(refs_view(sorted_intersections@).take(i), joins.take(i)).last().point,
                        &(#[trigger] sorted_intersections@[i]).point,
                    ),
                    joins[i],
                )
                &&& intersections_view(collated@) == collate_spec(refs_view(sorted_intersections@), joins)
            },
{
    let ghost items = refs_view(sorted_intersections@);
    let ghost mut joins: Seq<bool> = Seq::empty();
    let mut collated: Vec<Intersection<C>> = Vec::new();
    let mut candidate: Option<Intersection<C>> = None;
    let n = sorted_intersections.len();
    let mut i: usize = 0;
    while i < n
        invariant
            n == sorted_intersections@.len(),
            items == refs_view(sorted_intersections@),
            forall|p: &Point<C>, q: &Point<C>| can_merge.requires((p, q)),
            0 <= i <= n,
            joins_answered(items.take(i as int), joins, can_merge),
            candidate is Some <==> i > 0,
            collate_spec(items.take(i as int), joins) == match candidate {
                Some(c) => intersections_view(collated@).push(c@),
                None => intersections_view(collated@),
            },
        decreases n - i,
    {
        let item = sorted_intersections[i];
        let ghost prefix = items.take(i as int);
        let ghost before = collated@;
        proof {
            assert(items.take(i + 1).drop_last() == prefix);
            assert(items.take(i + 1).last() == item@);
        }
        let current = candidate;
        match current {
            None => {
                candidate = Some(item.clone());
                proof {
                    joins = joins.push(false);
                    assert(i == 0);
                    assert(joins.drop_last() == Seq::<bool>::empty());
                    assert(collate_spec(items.take(i + 1).drop_last(), joins.drop_last()) == Seq::<IntersectionView<C>>::empty());
                    assert(collate_spec(items.take(i + 1), joins) =~= seq![item@]);
                }
            },
            Some(last) => {
                let join = can_merge(&last.point, &item.point);
                proof {
                    let old_joins = joins;
                    joins = joins.push(join);
                    assert(joins.drop_last() == old_joins);
                    assert(joins.take(i as int) == old_joins);
                    assert forall|k: int| 1 <= k < i + 1 implies can_merge.ensures(
                        (&collate_spec(items.take(i + 1).take(k), joins.take(k)).last().point, &#[trigger] items.take(i + 1)[k].point),
                        joins[k],
                    ) by {
                        if k < i {
                            assert(items.take(i + 1).take(k) == prefix.take(k));
                            assert(joins.take(k) == old_joins.take(k));
                        } else {
                            assert(items.take(i + 1).take(k) == prefix);
                        }
                    }
                }
                if join {
                    // The merge succeeds: `join` says the two points can be merged.
                    match last.merge(item, true) {
                        Ok(m) => {
                            candidate = Some(m);
                        },
                        Err(_) => {
                            candidate = None;
                        },
                    }
                    proof {
                        assert(intersections_view(collated@).push(candidate->0@) =~= intersections_view(before).push(last@).update(
                            intersections_view(before).len() as int, merged_view(last@, item@)));
                    }
                } else {
                    collated.push(last);
                    candidate = Some(item.clone());
                    proof {
                        assert(intersections_view(collated@) =~= intersections_view(before).push(last@));
                    }
                }
            },
        }
        i = i + 1;
    }
    proof {
        assert(items.take(n as int) == items);
    }
    let ghost before = collated@;
    match candidate {
        Some(last) => {
            collated.push(last);
            assert(intersections_view(collated@) =~= intersections_view(before).push(last@));
        },
        None => {},
    }
    collated
}

} // verus!
