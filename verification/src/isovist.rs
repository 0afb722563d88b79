use vstd::prelude::*;

use crate::error::IsovistError;
use crate::ids::{advance, next_id, IdCounter};
use crate::sections::{Intersection, IntersectionView};
use crate::types::Line;

verus! {

/// A stretch of the border of an isovist: the line between two neighbouring
/// intersections, and whether a line of the plan bounds it (whether the two
/// intersections lie on a common line of the plan).
#[derive(Debug)]
pub struct Border<C> {
    pub line: Line<C>,
    pub is_bounded: bool,
}

/// The border from `a` to `b`, whose line carries identifier `id`.
pub open spec fn border_spec<C>(a: IntersectionView<C>, b: IntersectionView<C>, id: u32) -> Border<C> {
    Border {
        line: Line::spec_new(a.point, b.point, id),
        is_bounded: exists|l: u32| a.lines.contains(l) && b.lines.contains(l),
    }
}

impl<C> Border<C> {
    /// The word that describes the border when it is displayed.
    pub fn bound_label(&self) -> (s: &'static str)
        ensures
            s@ == if self.is_bounded { "bounded"@ } else { "unbounded"@ },
    {
        if self.is_bounded {
            "bounded"
        } else {
            "unbounded"
        }
    }
}

impl<C: Copy> Border<C> {
    /// The border from the point of `i1` to the point of `i2`; it is
    /// bounded when the two intersections share a line of the plan.
    pub fn from_intersections(i1: &Intersection<C>, i2: &Intersection<C>, ids: &mut IdCounter) -> (b: Border<C>)
        ensures
            b == border_spec(i1@, i2@, old(ids).peek()),
            b.line == Line::spec_new(i1.point, i2.point, old(ids).peek()),
            b.is_bounded == (exists|l: u32| i1.lines@.contains(l) && i2.lines@.contains(l)),
            final(ids).peek() == next_id(old(ids).peek()),
    {
        let bounded = i1.lines.intersects(&i2.lines);
        assert(i1@.lines == i1.lines@ && i2@.lines == i2.lines@);
        assert(bounded == (exists|l: u32| i1@.lines.contains(l) && i2@.lines.contains(l))) by {
            if bounded {
                let l = choose|l: u32| i1.lines@.contains(l) && i2.lines@.contains(l);
                assert(i1@.lines.contains(l) && i2@.lines.contains(l));
            }
        }
        Border { line: Line::from_points(&i1.point, &i2.point, ids), is_bounded: bounded }
    }
}

/// The border of the isovist that runs through the intersections in turn
/// and back to the first: border `k` goes from intersection `k` to the
/// next one, its line carrying the `k`-th identifier handed out. Fewer than
/// three intersections make no isovist.
pub fn find_isovist<C: Copy>(intersections: &Vec<Intersection<C>>, ids: &mut IdCounter) -> (res: Result<Vec<Border<C>>, IsovistError>)
    ensures
        match res {
            Err(e) => intersections@.len() < 3
                && e.msg@ == "Too few points to construct isovist"@
                && final(ids).peek() == old(ids).peek(),
            Ok(borders) => {
                let n = intersections@.len() as int;
                &&& n >= 3
                &&& borders@.len() == n
                &&& forall|k: int| 0 <= k < n ==> #[trigger] borders@[k] == border_spec(
                    intersections@[k]@,
                    intersections@[(k + 1) % (n as int)]@,
                    advance(old(ids).peek(), k as nat),
                )
                &&& final(ids).peek() == advance(old(ids).peek(), n as nat)
            },
        },
{
    let n = intersections.len();
    if n < 3 {
        return Err(IsovistError::new("Too few points to construct isovist"));
    }
    let ghost start = ids.peek();
    let mut borders: Vec<Border<C>> = Vec::new();
    let mut k: usize = 1;
    while k < n
        invariant
            n == intersections@.len(),
            n >= 3,
            1 <= k <= n,
            borders@.len() == k - 1,
            forall|q: int| 0 <= q < k - 1 ==> #[trigger] borders@[q] == border_spec(
                intersections@[q]@,
                intersections@[(q + 1) % (n as int)]@,
                advance(start, q as nat),
            ),
            ids.peek() == advance(start, (k - 1) as nat),
        decreases n - k,
    {
        let b = Border::from_intersections(&intersections[k - 1], &intersections[k], ids);
        proof {
            vstd::arithmetic::div_mod::lemma_small_mod(k as nat, n as nat);
        }
        borders.push(b);
        k = k + 1;
    }
    let b = Border::from_intersections(&intersections[n - 1], &intersections[0], ids);
    proof {
        vstd::arithmetic::div_mod::lemma_mod_self_0(n as int);
    }
    borders.push(b);
    Ok(borders)
}

} // verus!
