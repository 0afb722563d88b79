use vstd::prelude::*;

use crate::ids::advance;
use crate::isovist::border_spec;
use crate::sections::{
    angle_before, closest_spec, collate_spec, hit_count, is_angle_order, joins_answered, merged_view,
    ray_points_spec, scan_spec, sections_spec, visit_spec, visits_spec, Hit, IntersectionView,
    RayExtension, ScanState,
};
use crate::types::Point;
use crate::types::Line;

verus! {

broadcast use crate::types::group_fields;

/// The counter after `k` identifiers, as an integer: `start + k`, less
/// 2^32 once that passes `u32::MAX`.
proof fn lemma_advance_value(start: u32, k: nat)
    requires
        k <= u32::MAX,
    ensures
        advance(start, k) as int == if start + k <= u32::MAX { start + k } else { start + k - 0x1_0000_0000 },
    decreases k,
{
    if k > 0 {
        lemma_advance_value(start, (k - 1) as nat);
    }
}

/// Identifiers handed out by one counter are distinct until the counter
/// wraps around: the `i`-th and the `j`-th differ for `i < j < 2^32`.
pub proof fn lemma_ids_distinct(start: u32, i: nat, j: nat)
    requires
        i < j,
        j <= u32::MAX,
    ensures
        advance(start, i) != advance(start, j),
{
    lemma_advance_value(start, i);
    lemma_advance_value(start, j);
}

/// The closest section exists exactly when some section does.
pub proof fn lemma_closest_exists<C>(cands: Seq<Option<IntersectionView<C>>>)
    ensures
        closest_spec(cands) is Some <==> exists|i: int| 0 <= i < cands.len() && cands[i] is Some,
    decreases cands.len(),
{
    if cands.len() > 0 {
        let prefix = cands.drop_last();
        lemma_closest_exists(prefix);
        if closest_spec(prefix) is Some {
            let i = choose|i: int| 0 <= i < prefix.len() && prefix[i] is Some;
            assert(cands[i] is Some);
        }
        if exists|i: int| 0 <= i < cands.len() && cands[i] is Some {
            let i = choose|i: int| 0 <= i < cands.len() && cands[i] is Some;
            if i < cands.len() - 1 {
                assert(prefix[i] is Some);
            }
        }
    }
}

/// The closest section is one of the sections: it has the point and scale
/// factor of one of them, and all of that section's lines.
pub proof fn lemma_closest_is_a_section<C>(cands: Seq<Option<IntersectionView<C>>>)
    requires
        closest_spec(cands) is Some,
    ensures
        exists|i: int|
            {
                &&& 0 <= i < cands.len()
                &&& #[trigger] cands[i] is Some
                &&& cands[i]->0.point == closest_spec(cands)->0.point
                &&& cands[i]->0.scale_factor == closest_spec(cands)->0.scale_factor
                &&& cands[i]->0.lines.subset_of(closest_spec(cands)->0.lines)
            },
    decreases cands.len(),
{
    let prefix = cands.drop_last();
    let r = closest_spec(cands)->0;
    let last = cands.len() - 1;
    match closest_spec(prefix) {
        None => {
            assert(cands[last] is Some && cands[last]->0 == r);
        },
        Some(b) => {
            lemma_closest_is_a_section(prefix);
            let i = choose|i: int|
                {
                    &&& 0 <= i < prefix.len()
                    &&& #[trigger] prefix[i] is Some
                    &&& prefix[i]->0.point == b.point
                    &&& prefix[i]->0.scale_factor == b.scale_factor
                    &&& prefix[i]->0.lines.subset_of(b.lines)
                };
            assert(cands[i] == prefix[i]);
            if cands[last] is Some {
                let iv = cands[last]->0;
                if iv.scale_factor.is_less(b.scale_factor) {
                    assert(cands[last] is Some && cands[last]->0 == r);
                } else {
                    assert(b.lines.subset_of(r.lines));
                }
            }
        },
    }
}

/// No section is closer than the closest one: where the closest section has
/// a number as its scale factor, every section whose scale factor is a
/// number has one at least as large, and the closest section holds the
/// lines of every section as close as it.
pub proof fn lemma_closest_is_least<C>(cands: Seq<Option<IntersectionView<C>>>, i: int)
    requires
        0 <= i < cands.len(),
        closest_spec(cands) matches Some(r) && r.scale_factor is Number,
        cands[i] matches Some(c) && c.scale_factor is Number,
    ensures
        closest_spec(cands)->0.scale_factor->0 <= cands[i]->0.scale_factor->0,
        cands[i]->0.scale_factor == closest_spec(cands)->0.scale_factor
            ==> cands[i]->0.lines.subset_of(closest_spec(cands)->0.lines),
    decreases cands.len(),
{
    let prefix = cands.drop_last();
    let last = cands.len() - 1;
    let r = closest_spec(cands)->0;
    match closest_spec(prefix) {
        None => {
            if i < last {
                lemma_closest_exists(prefix);
                assert(prefix[i] is Some);
            }
        },
        Some(b) => {
            if i < last {
                assert(prefix[i] == cands[i]);
                if b.scale_factor is Number {
                    lemma_closest_is_least(prefix, i);
                } else {
                    // A NaN best is never replaced, so `r` would be NaN too.
                    assert(r == b);
                }
            } else {
                if b.scale_factor is Number {
                    if !(cands[i]->0.scale_factor.is_less(b.scale_factor)) {
                        assert(!b.scale_factor.is_equal(cands[i]->0.scale_factor) ==> r == b);
                    }
                } else {
                    assert(r == b);
                }
            }
        },
    }
}

/// The lines gathered in a sequence of intersections.
pub open spec fn all_lines<C>(s: Seq<IntersectionView<C>>) -> Set<u32>
    decreases s.len(),
{
    if s.len() == 0 {
        Set::empty()
    } else {
        all_lines(s.drop_last()).union(s.last().lines)
    }
}

/// Collating loses no line and adds none: the collated intersections hold
/// exactly the lines of the given ones.
pub proof fn lemma_collate_keeps_lines<C>(items: Seq<IntersectionView<C>>, joins: Seq<bool>)
    requires
        joins.len() == items.len(),
    ensures
        all_lines(collate_spec(items, joins)) == all_lines(items),
    decreases items.len(),
{
    if items.len() > 0 {
        let prev = collate_spec(items.drop_last(), joins.drop_last());
        lemma_collate_keeps_lines(items.drop_last(), joins.drop_last());
        if prev.len() > 0 && joins.last() {
            let merged = merged_view(prev.last(), items.last());
            let out = prev.update(prev.len() - 1, merged);
            assert(out.drop_last() == prev.drop_last());
            assert(all_lines(out) =~= all_lines(items));
        } else {
            assert(prev.push(items.last()).drop_last() == prev);
        }
    }
}

/// Collating never lengthens: there are at most as many collated
/// intersections as given ones, and at least one where any is given.
pub proof fn lemma_collate_len<C>(items: Seq<IntersectionView<C>>, joins: Seq<bool>)
    requires
        joins.len() == items.len(),
    ensures
        collate_spec(items, joins).len() <= items.len(),
        items.len() > 0 ==> collate_spec(items, joins).len() > 0,
    decreases items.len(),
{
    if items.len() > 0 {
        lemma_collate_len(items.drop_last(), joins.drop_last());
    }
}

/// Each collated intersection sits at the point, and has the scale factor,
/// of one of the given intersections: the first of its group.
pub proof fn lemma_collate_points<C>(items: Seq<IntersectionView<C>>, joins: Seq<bool>, k: int)
    requires
        joins.len() == items.len(),
        0 <= k < collate_spec(items, joins).len(),
    ensures
        exists|i: int|
            0 <= i < items.len() && #[trigger] items[i].point == collate_spec(items, joins)[k].point
                && items[i].scale_factor == collate_spec(items, joins)[k].scale_factor,
    decreases items.len(),
{
    let prefix = items.drop_last();
    let prev = collate_spec(prefix, joins.drop_last());
    let out = collate_spec(items, joins);
    let last = items.len() - 1;
    if k < prev.len() {
        lemma_collate_points(prefix, joins.drop_last(), k);
        let i = choose|i: int|
            0 <= i < prefix.len() && #[trigger] prefix[i].point == prev[k].point
                && prefix[i].scale_factor == prev[k].scale_factor;
        assert(items[i] == prefix[i]);
        assert(out[k].point == prev[k].point && out[k].scale_factor == prev[k].scale_factor);
        assert(items[i].point == out[k].point);
    } else {
        assert(out[k] == items[last]);
        assert(items[last].point == out[k].point);
    }
}

/// The border of an isovist is closed: each stretch ends where the next one
/// starts, and the last ends where the first starts.
pub proof fn lemma_borders_close<C>(intersections: Seq<IntersectionView<C>>, start: u32, k: int)
    requires
        intersections.len() >= 3,
        0 <= k < intersections.len(),
    ensures
        ({
            let n = intersections.len() as int;
            let here = border_spec(intersections[k], intersections[(k + 1) % n], advance(start, k as nat));
            let next = border_spec(
                intersections[(k + 1) % n],
                intersections[((k + 1) % n + 1) % n],
                advance(start, ((k + 1) % n) as nat),
            );
            here.line.spec_b() == next.line.spec_a()
        }),
{
}

/// A visit finds at most one intersection, and only at a place not
/// visited before.
pub proof fn lemma_visit_counts<C: PartialEq>(s: ScanState<C>, target: Point<C>, lines: Seq<Line<C>>, row: Seq<Option<Hit<C>>>)
    requires
        s.found.len() <= s.seen.len(),
    ensures
        visit_spec(s, target, lines, row).found.len() <= visit_spec(s, target, lines, row).seen.len(),
{
}

proof fn lemma_visits_counts<C: PartialEq>(
    s: ScanState<C>,
    targets: Seq<Point<C>>,
    lines: Seq<Line<C>>,
    rows: Seq<Seq<Option<Hit<C>>>>,
    t: nat,
)
    requires
        s.found.len() <= s.seen.len(),
    ensures
        visits_spec(s, targets, lines, rows, t).found.len() <= visits_spec(s, targets, lines, rows, t).seen.len(),
    decreases t,
{
    if t > 0 {
        lemma_visits_counts(s, targets, lines, rows, (t - 1) as nat);
        lemma_visit_counts(visits_spec(s, targets, lines, rows, (t - 1) as nat), targets[t - 1], lines, rows[t - 1]);
    }
}

/// Casting rays towards the vertices of a plan finds at most one
/// intersection per place it visits.
pub proof fn lemma_scan_counts<C: PartialEq>(
    lines: Seq<Line<C>>,
    exts: Seq<RayExtension<C>>,
    rows: Seq<Seq<Option<Hit<C>>>>,
    count: nat,
    start: u32,
)
    ensures
        ({
            let end = scan_spec(ScanState { next: start, seen: seq![], found: seq![] }, lines, exts, rows, count);
            end.found.len() <= end.seen.len()
        }),
    decreases count,
{
    let init = ScanState::<C> { next: start, seen: seq![], found: seq![] };
    if count > 0 {
        let i = count - 1;
        lemma_scan_counts(lines, exts, rows, i as nat, start);
        let prev = scan_spec(init, lines, exts, rows, i as nat);
        let after_targets = ScanState { next: advance(prev.next, 2), seen: prev.seen, found: prev.found };
        lemma_visits_counts(
            after_targets,
            ray_points_spec(lines[i], exts[i], prev.next),
            lines,
            rows.subrange(4 * i, 4 * i + 4),
            4,
        );
    }
}

/// Two sequences of indices ordered by `angle_before` that hold the same
/// indices are equal.
proof fn lemma_sorted_same_members(angles: Seq<i64>, o1: Seq<int>, o2: Seq<int>)
    requires
        o1.len() == o2.len(),
        forall|k: int, l: int| 0 <= k < l < o1.len() ==> angle_before(angles, #[trigger] o1[k], #[trigger] o1[l]),
        forall|k: int, l: int| 0 <= k < l < o2.len() ==> angle_before(angles, #[trigger] o2[k], #[trigger] o2[l]),
        o1.to_set() == o2.to_set(),
    ensures
        o1 == o2,
    decreases o1.len(),
{
    if o1.len() > 0 {
        let last = o1.len() - 1;
        let a = o1[last];
        let b = o2[last];
        if a != b {
            assert(o2.to_set().contains(a));
            let i = choose|i: int| 0 <= i < o2.len() && o2[i] == a;
            assert(angle_before(angles, o2[i], o2[last]));
            assert(o1.to_set().contains(b));
            let j = choose|j: int| 0 <= j < o1.len() && o1[j] == b;
            assert(angle_before(angles, o1[j], o1[last]));
            assert(false);
        }
        assert(a == b);
        let d1 = o1.drop_last();
        let d2 = o2.drop_last();
        assert forall|x: int| d1.to_set().contains(x) implies d2.to_set().contains(x) by {
            let k = choose|k: int| 0 <= k < d1.len() && d1[k] == x;
            assert(o2.to_set().contains(x));
            let m = choose|m: int| 0 <= m < o2.len() && o2[m] == x;
            if m == last {
                assert(angle_before(angles, o1[k], o1[last]));
            }
            assert(d2[m] == x);
        }
        assert forall|x: int| d2.to_set().contains(x) implies d1.to_set().contains(x) by {
            let k = choose|k: int| 0 <= k < d2.len() && d2[k] == x;
            assert(o1.to_set().contains(x));
            let m = choose|m: int| 0 <= m < o1.len() && o1[m] == x;
            if m == last {
                assert(angle_before(angles, o2[k], o2[last]));
            }
            assert(d1[m] == x);
        }
        assert(d1.to_set() =~= d2.to_set());
        lemma_sorted_same_members(angles, d1, d2);
        assert forall|k: int| 0 <= k < o1.len() implies o1[k] == o2[k] by {
            if k < last {
                assert(d1[k] == d2[k]);
            }
        }
        assert(o1 =~= o2);
    }
}

/// An angle order holds every index exactly once.
proof fn lemma_angle_order_members(angles: Seq<i64>, o: Seq<int>)
    requires
        is_angle_order(angles, o),
    ensures
        o.to_set() == vstd::set_lib::set_int_range(0, angles.len() as int),
{
    let range = vstd::set_lib::set_int_range(0, angles.len() as int);
    assert(o.no_duplicates()) by {
        assert forall|k: int, l: int| 0 <= k < o.len() && 0 <= l < o.len() && k != l implies o[k] != o[l] by {
            if k < l {
                assert(angle_before(angles, o[k], o[l]));
            } else {
                assert(angle_before(angles, o[l], o[k]));
            }
        }
    }
    o.unique_seq_to_set();
    vstd::set_lib::lemma_int_range(0, angles.len() as int);
    assert(o.to_set().subset_of(range)) by {
        assert forall|x: int| o.to_set().contains(x) implies range.contains(x) by {
            let k = choose|k: int| 0 <= k < o.len() && o[k] == x;
        }
    }
    vstd::seq_lib::seq_to_set_is_finite(o);
    vstd::set_lib::lemma_subset_equality(o.to_set(), range);
}

/// There is one order of the intersections by decreasing angle with equal
/// angles in their given order: the order `sort_intersections` produces is
/// determined by the angles.
pub proof fn lemma_angle_order_unique(angles: Seq<i64>, o1: Seq<int>, o2: Seq<int>)
    requires
        is_angle_order(angles, o1),
        is_angle_order(angles, o2),
    ensures
        o1 == o2,
{
    lemma_angle_order_members(angles, o1);
    lemma_angle_order_members(angles, o2);
    lemma_sorted_same_members(angles, o1, o2);
}

/// The section that a ray makes with the `k`-th line of the plan exists
/// exactly where the ray hits that line; it lies at the hit, has the hit's
/// scale factor, and its only line is the `k`-th line of the plan.
pub proof fn lemma_section_of_line<C>(lines: Seq<Line<C>>, row: Seq<Option<Hit<C>>>, start: u32, k: int)
    requires
        row.len() <= lines.len(),
        0 <= k < row.len(),
    ensures
        sections_spec(lines, row, start).len() == row.len(),
        sections_spec(lines, row, start)[k] is Some <==> row[k] is Some,
        row[k] is Some ==> {
            let s = sections_spec(lines, row, start)[k]->0;
            let h = row[k]->0;
            &&& s.lines == set![lines[k].spec_id()]
            &&& s.scale_factor == h.scale_factor
            &&& s.point == Point::spec_new(h.x, h.y, advance(start, hit_count(row.take(k))))
        },
    decreases row.len(),
{
    lemma_sections_len(lines, row, start);
    let last = row.len() - 1;
    if k < last {
        lemma_section_of_line(lines, row.drop_last(), start, k);
        assert(row.drop_last()[k] == row[k]);
        assert(row.drop_last().take(k) == row.take(k));
    } else {
        assert(row.take(k) == row.drop_last());
    }
}

proof fn lemma_sections_len<C>(lines: Seq<Line<C>>, row: Seq<Option<Hit<C>>>, start: u32)
    ensures
        sections_spec(lines, row, start).len() == row.len(),
    decreases row.len(),
{
    if row.len() > 0 {
        lemma_sections_len(lines, row.drop_last(), start);
    }
}

/// Every line of the closest section is a line of some section with the
/// same scale factor.
proof fn lemma_closest_lines_come_from_ties<C>(cands: Seq<Option<IntersectionView<C>>>, id: u32)
    requires
        closest_spec(cands) is Some,
        closest_spec(cands)->0.lines.contains(id),
    ensures
        exists|i: int|
            {
                &&& 0 <= i < cands.len()
                &&& #[trigger] cands[i] is Some
                &&& cands[i]->0.scale_factor == closest_spec(cands)->0.scale_factor
                &&& cands[i]->0.lines.contains(id)
            },
    decreases cands.len(),
{
    let prefix = cands.drop_last();
    let last = cands.len() - 1;
    let r = closest_spec(cands)->0;
    match closest_spec(prefix) {
        None => {
            assert(cands[last] is Some && cands[last]->0 == r);
        },
        Some(b) => {
            let iv = cands[last];
            if iv is Some && iv->0.scale_factor.is_less(b.scale_factor) {
                assert(cands[last]->0 == r);
            } else if iv is Some && b.scale_factor.is_equal(iv->0.scale_factor) && iv->0.lines.contains(id) {
                assert(iv->0.scale_factor == b.scale_factor);
            } else {
                lemma_closest_lines_come_from_ties(prefix, id);
                let i = choose|i: int|
                    {
                        &&& 0 <= i < prefix.len()
                        &&& #[trigger] prefix[i] is Some
                        &&& prefix[i]->0.scale_factor == b.scale_factor
                        &&& prefix[i]->0.lines.contains(id)
                    };
                assert(cands[i] == prefix[i]);
            }
        },
    }
}

/// The lines of the intersection a ray finds are the lines the ray hits at
/// that intersection's scale factor: each of its lines is a plan line whose
/// hit has exactly that scale factor, and, where the scale factor is a
/// number, every plan line hit at that scale factor is among them.
pub proof fn lemma_ray_lines<C>(lines: Seq<Line<C>>, row: Seq<Option<Hit<C>>>, start: u32)
    requires
        row.len() == lines.len(),
        closest_spec(sections_spec(lines, row, start)) is Some,
    ensures
        ({
            let r = closest_spec(sections_spec(lines, row, start))->0;
            &&& forall|id: u32| #[trigger] r.lines.contains(id) ==> exists|k: int|
                {
                    &&& 0 <= k < row.len()
                    &&& #[trigger] row[k] is Some
                    &&& row[k]->0.scale_factor == r.scale_factor
                    &&& lines[k].spec_id() == id
                }
            &&& r.scale_factor is Number ==> forall|k: int|
                0 <= k < row.len() && #[trigger] row[k] is Some && row[k]->0.scale_factor == r.scale_factor
                    ==> r.lines.contains(lines[k].spec_id())
        }),
{
    let cands = sections_spec(lines, row, start);
    let r = closest_spec(cands)->0;
    lemma_sections_len(lines, row, start);
    assert forall|id: u32| #[trigger] r.lines.contains(id) implies exists|k: int|
        {
            &&& 0 <= k < row.len()
            &&& #[trigger] row[k] is Some
            &&& row[k]->0.scale_factor == r.scale_factor
            &&& lines[k].spec_id() == id
        } by {
        lemma_closest_lines_come_from_ties(cands, id);
        let i = choose|i: int|
            {
                &&& 0 <= i < cands.len()
                &&& #[trigger] cands[i] is Some
                &&& cands[i]->0.scale_factor == r.scale_factor
                &&& cands[i]->0.lines.contains(id)
            };
        lemma_section_of_line(lines, row, start, i);
    }
    if r.scale_factor is Number {
        assert forall|k: int|
            0 <= k < row.len() && #[trigger] row[k] is Some && row[k]->0.scale_factor == r.scale_factor
            implies r.lines.contains(lines[k].spec_id()) by {
            lemma_section_of_line(lines, row, start, k);
            lemma_closest_is_least(cands, k);
        }
    }
}

/// A border is bounded exactly when the two intersections it joins share a
/// line, whatever else their line sets hold; its line runs from the first
/// point to the second.
pub proof fn lemma_border_bounded<C>(a: IntersectionView<C>, b: IntersectionView<C>, id: u32)
    ensures
        border_spec(a, b, id).is_bounded <==> exists|l: u32| a.lines.contains(l) && b.lines.contains(l),
        border_spec(a, b, id).line.spec_a() == a.point,
        border_spec(a, b, id).line.spec_b() == b.point,
        border_spec(a, b, id).line.spec_id() == id,
{
}

/// Each item after the first joins the group before it exactly when the
/// merge predicate answered so for the group's point and the item's point;
/// nothing else, the lines of either among them, enters the decision.
pub proof fn lemma_joins_follow_answers<C, F: Fn(&Point<C>, &Point<C>) -> bool>(
    items: Seq<IntersectionView<C>>,
    joins: Seq<bool>,
    can_merge: F,
)
    requires
        joins.len() == items.len(),
        forall|i: int| 1 <= i < items.len() ==> can_merge.ensures(
            (&collate_spec(items.take(i), joins.take(i)).last().point, &#[trigger] items[i].point),
            joins[i],
        ),
    ensures
        joins_answered(items, joins, can_merge),
{
}

/// Collating one more item either merges it into the last group (its point
/// and scale factor stay, the item's lines are added) when it joins, or
/// appends it as a group of its own when it does not: the number of groups
/// grows by one for each item that does not join.
pub proof fn lemma_collate_step<C>(items: Seq<IntersectionView<C>>, joins: Seq<bool>, i: int)
    requires
        joins.len() == items.len(),
        1 <= i < items.len(),
    ensures
        ({
            let before = collate_spec(items.take(i), joins.take(i));
            let after = collate_spec(items.take(i + 1), joins.take(i + 1));
            &&& before.len() > 0
            &&& joins[i] ==> {
                &&& after.len() == before.len()
                &&& after.drop_last() == before.drop_last()
                &&& after.last().point == before.last().point
                &&& after.last().scale_factor == before.last().scale_factor
                &&& after.last().lines == before.last().lines.union(items[i].lines)
            }
            &&& !joins[i] ==> after == before.push(items[i])
        }),
{
    lemma_collate_len(items.take(i), joins.take(i));
    assert(items.take(i + 1).drop_last() == items.take(i));
    assert(joins.take(i + 1).drop_last() == joins.take(i));
    assert(items.take(i + 1).last() == items[i]);
    assert(joins.take(i + 1).last() == joins[i]);
    let before = collate_spec(items.take(i), joins.take(i));
    let after = collate_spec(items.take(i + 1), joins.take(i + 1));
    if joins[i] {
        assert(after.drop_last() =~= before.drop_last());
    }
}

/// The first item always starts a group of its own: the collation of the
/// first item alone is that item.
pub proof fn lemma_collate_first_group<C>(items: Seq<IntersectionView<C>>, joins: Seq<bool>)
    requires
        joins.len() == items.len(),
        items.len() >= 1,
    ensures
        collate_spec(items.take(1), joins.take(1)) == seq![items[0]],
{
    assert(items.take(1).drop_last().len() == 0);
    assert(collate_spec(items.take(1).drop_last(), joins.take(1).drop_last()) == Seq::<IntersectionView<C>>::empty());
    assert(items.take(1).last() == items[0]);
    assert(collate_spec(items.take(1), joins.take(1)) =~= seq![items[0]]);
}

/// An angle order lists the intersections by angle key, largest first, as
/// integers (negative keys included); equal keys keep their given order.
pub proof fn lemma_angle_order_descending(angles: Seq<i64>, o: Seq<int>)
    requires
        is_angle_order(angles, o),
    ensures
        forall|k: int, l: int| 0 <= k < l < o.len() ==> angles[#[trigger] o[k]] >= angles[#[trigger] o[l]],
        forall|k: int, l: int|
            0 <= k < l < o.len() && angles[#[trigger] o[k]] == angles[#[trigger] o[l]] ==> o[k] < o[l],
{
    assert forall|k: int, l: int| 0 <= k < l < o.len() implies angles[#[trigger] o[k]] >= angles[#[trigger] o[l]] by {
        assert(angle_before(angles, o[k], o[l]));
    }
    assert forall|k: int, l: int| 0 <= k < l < o.len() && angles[#[trigger] o[k]] == angles[#[trigger] o[l]] implies o[k] < o[l] by {
        assert(angle_before(angles, o[k], o[l]));
    }
}

} // verus!
