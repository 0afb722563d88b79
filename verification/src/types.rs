use vstd::prelude::*;

use crate::ids::{get_id, next_id, IdCounter};

verus! {

/// Anything that carries an identifier.
pub trait Entity {
    fn id(&self) -> u32;
}

/// A point of the plan. Its coordinates have the caller's type `C`; its
/// identifier is handed out when the point is created.
#[derive(Debug, Clone, Copy, PartialEq, Eq, Hash)]
pub struct Point<C> {
    pub x: C,
    pub y: C,
    pub(crate) id: u32,
}

impl<C> Point<C> {
    /// The point at (`x`, `y`) with identifier `id`.
    pub closed spec fn spec_new(x: C, y: C, id: u32) -> Point<C> {
        Point { x, y, id }
    }

    /// The identifier of the point.
    pub closed spec fn spec_id(self) -> u32 {
        self.id
    }

    /// The first coordinate of the point.
    pub closed spec fn spec_x(self) -> C {
        self.x
    }

    /// The second coordinate of the point.
    pub closed spec fn spec_y(self) -> C {
        self.y
    }

    /// A point at (`x`, `y`) with a fresh identifier.
    pub fn new_ordered(x: C, y: C, ids: &mut IdCounter) -> (p: Point<C>)
        ensures
            p == Point::spec_new(x, y, old(ids).peek()),
            final(ids).peek() == next_id(old(ids).peek()),
    {
        Point { x, y, id: get_id(ids) }
    }
}

impl<C> Entity for Point<C> {
    fn id(&self) -> (r: u32)
        ensures
            r == self.spec_id(),
    {
        self.id
    }
}

/// A straight segment from `a` to `b`, with an identifier of its own.
#[derive(Debug, Clone, Copy)]
pub struct Line<C> {
    pub a: Point<C>,
    pub b: Point<C>,
    pub(crate) id: u32,
}

impl<C> Line<C> {
    /// The segment from `a` to `b` with identifier `id`.
    pub closed spec fn spec_new(a: Point<C>, b: Point<C>, id: u32) -> Line<C> {
        Line { a, b, id }
    }

    /// The identifier of the line.
    pub closed spec fn spec_id(self) -> u32 {
        self.id
    }

    /// The start of the line.
    pub closed spec fn spec_a(self) -> Point<C> {
        self.a
    }

    /// The end of the line.
    pub closed spec fn spec_b(self) -> Point<C> {
        self.b
    }
}

impl<C: Copy> Line<C> {
    /// The segment between copies of `a` and `b`, with a fresh identifier.
    pub fn from_points(a: &Point<C>, b: &Point<C>, ids: &mut IdCounter) -> (l: Line<C>)
        ensures
            l == Line::spec_new(*a, *b, old(ids).peek()),
            final(ids).peek() == next_id(old(ids).peek()),
    {
        Line { a: *a, b: *b, id: get_id(ids) }
    }
}

impl<C> Entity for Line<C> {
    fn id(&self) -> (r: u32)
        ensures
            r == self.spec_id(),
    {
        self.id
    }
}

/// Inside the crate, the identifier of a point is its field.
pub(crate) broadcast proof fn lemma_point_id<C>(p: Point<C>)
    ensures
        #[trigger] p.spec_id() == p.id,
{
}

/// Inside the crate, the first coordinate of a point is its field.
pub(crate) broadcast proof fn lemma_point_x<C>(p: Point<C>)
    ensures
        #[trigger] p.spec_x() == p.x,
{
}

/// Inside the crate, the second coordinate of a point is its field.
pub(crate) broadcast proof fn lemma_point_y<C>(p: Point<C>)
    ensures
        #[trigger] p.spec_y() == p.y,
{
}

/// Inside the crate, a point built by `spec_new` has the given fields.
pub(crate) broadcast proof fn lemma_point_new<C>(x: C, y: C, id: u32)
    ensures
        #[trigger] Point::spec_new(x, y, id) == (Point { x, y, id }),
{
}

/// Inside the crate, the identifier of a line is its field.
pub(crate) broadcast proof fn lemma_line_id<C>(l: Line<C>)
    ensures
        #[trigger] l.spec_id() == l.id,
{
}

/// Inside the crate, the start of a line is its field.
pub(crate) broadcast proof fn lemma_line_start<C>(l: Line<C>)
    ensures
        #[trigger] l.spec_a() == l.a,
{
}

/// Inside the crate, the end of a line is its field.
pub(crate) broadcast proof fn lemma_line_end<C>(l: Line<C>)
    ensures
        #[trigger] l.spec_b() == l.b,
{
}

/// Inside the crate, a line built by `spec_new` has the given fields.
pub(crate) broadcast proof fn lemma_line_new<C>(a: Point<C>, b: Point<C>, id: u32)
    ensures
        #[trigger] Line::spec_new(a, b, id) == (Line { a, b, id }),
{
}

pub(crate) broadcast group group_fields {
    lemma_point_id,
    lemma_point_x,
    lemma_point_y,
    lemma_point_new,
    lemma_line_id,
    lemma_line_start,
    lemma_line_end,
    lemma_line_new,
}

} // verus!
