//! The spatial partition: a quadtree over a rectangular boundary.
//!
//! A node stores particles up to its capacity; when full it splits once into
//! four quarters and delegates further inserts to them.  Subdivision depth is
//! capped so that a cluster of coincident points, which no split can
//! separate, is absorbed by the deepest node instead of recursing forever;
//! past the cap a node accepts items beyond its nominal capacity.

use vstd::prelude::*;
use vstd::seq_lib::lemma_multiset_commutative;
use crate::geometry::{Region, Vec2};
use crate::geometry::{lemma_quartering, lemma_quarters_wf, lemma_common_point_overlaps};
use crate::particle::Particle;

verus! {

/// Subdivision budget of a fresh root: a node subdivides at most this many
/// times along any path.
pub const MAX_DEPTH: u32 = 32;

/// One node of the quadtree.  `depth` is the remaining subdivision budget;
/// a node with `depth == 0` never splits and instead absorbs every insert
/// that falls inside its boundary.
pub struct QuadTree {
    pub boundary: Region,
    pub capacity: u32,
    pub depth: u32,
    pub items: Vec<Particle>,
    pub divided: bool,
    pub top_left: Option<Box<QuadTree>>,
    pub top_right: Option<Box<QuadTree>>,
    pub bottom_left: Option<Box<QuadTree>>,
    pub bottom_right: Option<Box<QuadTree>>,
}

impl QuadTree {
    /// All particles stored under an optional child, in fixed traversal
    /// order.
    pub open spec fn sub_particles(node: Option<Box<QuadTree>>) -> Seq<Particle>
        decreases node,
    {
        match node {
            None => Seq::empty(),
            Some(t) => t.particles(),
        }
    }

    /// All particles stored in this subtree: the node's own items, then the
    /// four children's, in fixed order.
    pub open spec fn particles(self) -> Seq<Particle>
        decreases self,
    {
        if self.divided {
            self.items@ + Self::sub_particles(self.top_left) + Self::sub_particles(self.top_right)
                + Self::sub_particles(self.bottom_left) + Self::sub_particles(self.bottom_right)
        } else {
            self.items@
        }
    }

    /// A child is well formed with the given boundary and a depth one less
    /// than its parent's.
    pub open spec fn child_wf(
        node: Option<Box<QuadTree>>,
        boundary: Region,
        capacity: u32,
        parent_depth: u32,
    ) -> bool
        decreases node,
    {
        match node {
            None => false,
            Some(t) => {
                &&& t.wf()
                &&& t.boundary == boundary
                &&& t.capacity == capacity
                &&& t.depth + 1 == parent_depth
            },
        }
    }

    /// Well-formedness: the boundary is a sound rectangle, every stored item
    /// lies inside it, a leaf respects its capacity unless its subdivision
    /// budget is spent, and a divided node has exactly four children on the
    /// four quarters of its boundary.
    pub open spec fn wf(self) -> bool
        decreases self,
    {
        &&& self.boundary.wf()
        &&& self.capacity >= 1
        &&& (forall|i: int|
            0 <= i < self.items@.len() ==> self.boundary.contains(
                (#[trigger] self.items@[i]).position,
            ))
        &&& if self.divided {
            &&& self.items@.len() <= self.capacity as int
            &&& self.depth >= 1
            &&& Self::child_wf(
                self.top_left,
                self.boundary.quarter_tl(),
                self.capacity,
                self.depth,
            )
            &&& Self::child_wf(
                self.top_right,
                self.boundary.quarter_tr(),
                self.capacity,
                self.depth,
            )
            &&& Self::child_wf(
                self.bottom_left,
                self.boundary.quarter_bl(),
                self.capacity,
                self.depth,
            )
            &&& Self::child_wf(
                self.bottom_right,
                self.boundary.quarter_br(),
                self.capacity,
                self.depth,
            )
        } else {
            &&& self.top_left is None
            &&& self.top_right is None
            &&& self.bottom_left is None
            &&& self.bottom_right is None
            &&& (self.depth == 0 || self.items@.len() <= self.capacity as int)
        }
    }

    /// A leaf on the given boundary with the given subdivision budget.
    fn with_depth(boundary: Region, capacity: u32, depth: u32) -> (t: QuadTree)
        requires
            boundary.wf(),
            capacity >= 1,
        ensures
            t.wf(),
            t.boundary == boundary,
            t.capacity == capacity,
            t.depth == depth,
            !t.divided,
            t.particles() == Seq::<Particle>::empty(),
    {
        let t = QuadTree {
            boundary,
            capacity,
            depth,
            items: Vec::new(),
            divided: false,
            top_left: None,
            top_right: None,
            bottom_left: None,
            bottom_right: None,
        };
        proof {
            assert(t.particles() =~= Seq::<Particle>::empty());
        }
        t
    }

    /// A fresh, empty partition over `boundary`.  A capacity below one is a
    /// configuration error and is excluded: it would make every insert
    /// subdivide at once.
    pub fn new(boundary: Region, capacity: u32) -> (t: QuadTree)
        requires
            boundary.wf(),
            capacity >= 1,
        ensures
            t.wf(),
            t.boundary == boundary,
            t.capacity == capacity,
            t.depth == MAX_DEPTH,
            !t.divided,
            t.particles() == Seq::<Particle>::empty(),
    {
        Self::with_depth(boundary, capacity, MAX_DEPTH)
    }

    /// Splits this leaf once into four children on the quarters of its
    /// boundary.  The node's own items stay where they are; the stored
    /// multiset is unchanged.
    fn subdivide(&mut self)
        requires
            old(self).wf(),
            !old(self).divided,
            old(self).depth >= 1,
        ensures
            final(self).wf(),
            final(self).divided,
            final(self).boundary == old(self).boundary,
            final(self).capacity == old(self).capacity,
            final(self).depth == old(self).depth,
            final(self).items@ == old(self).items@,
            final(self).particles() == old(self).particles(),
    {
        proof {
            lemma_quarters_wf(self.boundary);
        }
        let bx = self.boundary.origin.x;
        let by = self.boundary.origin.y;
        let hw = ((self.boundary.width as u64) / 2) as i64;
        let hh = ((self.boundary.height as u64) / 2) as i64;
        let rw = self.boundary.width - hw;
        let rh = self.boundary.height - hh;
        let mx = bx + hw;
        let my = by + hh;
        let cap = self.capacity;
        let d = self.depth - 1;
        let tl = Self::with_depth(
            Region { origin: Vec2 { x: bx, y: by }, width: hw, height: hh },
            cap,
            d,
        );
        let tr = Self::with_depth(
            Region { origin: Vec2 { x: mx, y: by }, width: rw, height: hh },
            cap,
            d,
        );
        let bl = Self::with_depth(
            Region { origin: Vec2 { x: bx, y: my }, width: hw, height: rh },
            cap,
            d,
        );
        let br = Self::with_depth(
            Region { origin: Vec2 { x: mx, y: my }, width: rw, height: rh },
            cap,
            d,
        );
        self.top_left = Some(Box::new(tl));
        self.top_right = Some(Box::new(tr));
        self.bottom_left = Some(Box::new(bl));
        self.bottom_right = Some(Box::new(br));
        self.divided = true;
        proof {
            assert(self.particles() =~= old(self).particles());
        }
    }

    /// Recurses an insert into one child.  The child owns the outcome: a
    /// particle outside the child's boundary comes back rejected and the
    /// child is unchanged.
    fn insert_opt(node: &mut Option<Box<QuadTree>>, particle: Particle) -> (rejected: Option<
        Particle,
    >)
        requires
            *old(node) is Some,
            old(node).unwrap().wf(),
        ensures
            *final(node) is Some,
            final(node).unwrap().wf(),
            final(node).unwrap().boundary == old(node).unwrap().boundary,
            final(node).unwrap().capacity == old(node).unwrap().capacity,
            final(node).unwrap().depth == old(node).unwrap().depth,
            if old(node).unwrap().boundary.contains(particle.position) {
                &&& rejected is None
                &&& final(node).unwrap().particles().to_multiset() == old(
                    node,
                ).unwrap().particles().to_multiset().insert(particle)
            } else {
                &&& rejected == Some(particle)
                &&& *final(node) == *old(node)
            },
        decreases old(node).unwrap().depth, 1int,
    {
        let mut boxed = node.take().unwrap();
        let rejected = (&mut *boxed).insert(particle);
        *node = Some(boxed);
        rejected
    }

    /// Inserts a particle.  A particle outside the boundary is returned to
    /// the caller and the partition is unchanged; otherwise it is stored
    /// (appending here if there is room or the subdivision budget is spent,
    /// else delegating to the first child, in fixed order, whose inclusive
    /// bounds contain it) and the stored multiset grows by exactly that
    /// particle.
    pub fn insert(&mut self, particle: Particle) -> (rejected: Option<Particle>)
        requires
            old(self).wf(),
        ensures
            final(self).wf(),
            final(self).boundary == old(self).boundary,
            final(self).capacity == old(self).capacity,
            final(self).depth == old(self).depth,
            if old(self).boundary.contains(particle.position) {
                &&& rejected is None
                &&& final(self).particles().to_multiset() == old(
                    self,
                ).particles().to_multiset().insert(particle)
            } else {
                &&& rejected == Some(particle)
                &&& *final(self) == *old(self)
            },
        decreases old(self).depth, 0int,
    {
        broadcast use vstd::seq_lib::group_to_multiset_ensures;

        if !self.boundary.contains_point(&particle.position) {
            return Some(particle);
        }
        if !self.divided {
            if self.items.len() < self.capacity as usize || self.depth == 0 {
                self.items.push(particle);
                return None;
            }
            self.subdivide();
        }
        let ghost pre = *self;
        proof {
            lemma_multiset_5(
                pre.items@,
                Self::sub_particles(pre.top_left),
                Self::sub_particles(pre.top_right),
                Self::sub_particles(pre.bottom_left),
                Self::sub_particles(pre.bottom_right),
            );
        }
        let r1 = Self::insert_opt(&mut self.top_left, particle);
        let p1 = match r1 {
            None => {
                proof {
                    lemma_multiset_5(
                        self.items@,
                        Self::sub_particles(self.top_left),
                        Self::sub_particles(self.top_right),
                        Self::sub_particles(self.bottom_left),
                        Self::sub_particles(self.bottom_right),
                    );
                    assert(self.particles().to_multiset() =~= pre.particles().to_multiset().insert(
                        particle,
                    ));
                }
                return None;
            },
            Some(p) => p,
        };
        let r2 = Self::insert_opt(&mut self.top_right, p1);
        let p2 = match r2 {
            None => {
                proof {
                    lemma_multiset_5(
                        self.items@,
                        Self::sub_particles(self.top_left),
                        Self::sub_particles(self.top_right),
                        Self::sub_particles(self.bottom_left),
                        Self::sub_particles(self.bottom_right),
                    );
                    assert(self.particles().to_multiset() =~= pre.particles().to_multiset().insert(
                        particle,
                    ));
                }
                return None;
            },
            Some(p) => p,
        };
        let r3 = Self::insert_opt(&mut self.bottom_left, p2);
        let p3 = match r3 {
            None => {
                proof {
                    lemma_multiset_5(
                        self.items@,
                        Self::sub_particles(self.top_left),
                        Self::sub_particles(self.top_right),
                        Self::sub_particles(self.bottom_left),
                        Self::sub_particles(self.bottom_right),
                    );
                    assert(self.particles().to_multiset() =~= pre.particles().to_multiset().insert(
                        particle,
                    ));
                }
                return None;
            },
            Some(p) => p,
        };
        let r4 = Self::insert_opt(&mut self.bottom_right, p3);
        match r4 {
            None => {
                proof {
                    lemma_multiset_5(
                        self.items@,
                        Self::sub_particles(self.top_left),
                        Self::sub_particles(self.top_right),
                        Self::sub_particles(self.bottom_left),
                        Self::sub_particles(self.bottom_right),
                    );
                    assert(self.particles().to_multiset() =~= pre.particles().to_multiset().insert(
                        particle,
                    ));
                }
                None
            },
            Some(_) => {
                proof {
                    lemma_quartering(pre.boundary, particle.position);
                    assert(false);
                }
                None
            },
        }
    }

    /// Collects every stored particle whose own position lies in `range`,
    /// testing each item individually and recursing into all four children,
    /// in fixed order.  A subtree whose boundary does not overlap `range`
    /// contributes nothing and is skipped.
    pub fn query(&self, range: &Region) -> (found: Vec<Particle>)
        requires
            self.wf(),
            range.wf(),
        ensures
            found@ == self.particles().filter(|q: Particle| range.contains(q.position)),
        decreases self.depth, 0int,
    {
        let ghost pred = |q: Particle| range.contains(q.position);
        let mut found: Vec<Particle> = Vec::new();
        if !self.boundary.overlaps_region(range) {
            proof {
                self.lemma_no_overlap_filter_empty(*range);
            }
            return found;
        }
        let mut i: usize = 0;
        while i < self.items.len()
            invariant
                self.wf(),
                range.wf(),
                i <= self.items@.len(),
                found@ == self.items@.take(i as int).filter(pred),
                pred == (|q: Particle| range.contains(q.position)),
            decreases self.items@.len() - i,
        {
            let p = self.items[i];
            proof {
                reveal(Seq::filter);
                assert(self.items@.take(i + 1).drop_last() =~= self.items@.take(i as int));
                assert(self.items@.take(i + 1).last() == p);
            }
            if range.contains_point(&p.position) {
                found.push(p);
            }
            i += 1;
        }
        proof {
            assert(self.items@.take(self.items@.len() as int) =~= self.items@);
        }
        if !self.divided {
            return found;
        }
        let mut sub_tl = Self::query_opt(&self.top_left, range);
        let mut sub_tr = Self::query_opt(&self.top_right, range);
        let mut sub_bl = Self::query_opt(&self.bottom_left, range);
        let mut sub_br = Self::query_opt(&self.bottom_right, range);
        found.append(&mut sub_tl);
        found.append(&mut sub_tr);
        found.append(&mut sub_bl);
        found.append(&mut sub_br);
        proof {
            let a = self.items@;
            let tl = Self::sub_particles(self.top_left);
            let tr = Self::sub_particles(self.top_right);
            let bl = Self::sub_particles(self.bottom_left);
            let br = Self::sub_particles(self.bottom_right);
            Seq::filter_distributes_over_add(a, tl, pred);
            Seq::filter_distributes_over_add(a + tl, tr, pred);
            Seq::filter_distributes_over_add(a + tl + tr, bl, pred);
            Seq::filter_distributes_over_add(a + tl + tr + bl, br, pred);
        }
        found
    }

    /// Queries one child.
    fn query_opt(node: &Option<Box<QuadTree>>, range: &Region) -> (found: Vec<Particle>)
        requires
            *node is Some,
            node.unwrap().wf(),
            range.wf(),
        ensures
            found@ == Self::sub_particles(*node).filter(
                |q: Particle| range.contains(q.position),
            ),
        decreases node.unwrap().depth, 1int,
    {
        match node {
            Some(t) => t.query(range),
            None => {
                proof {
                    assert(false);
                }
                Vec::new()
            },
        }
    }

    /// Discards all items and children, resetting this node to a single
    /// empty leaf with the same boundary, capacity and subdivision budget.
    pub fn clear(&mut self)
        requires
            old(self).wf(),
        ensures
            final(self).wf(),
            final(self).boundary == old(self).boundary,
            final(self).capacity == old(self).capacity,
            final(self).depth == old(self).depth,
            !final(self).divided,
            final(self).particles() == Seq::<Particle>::empty(),
    {
        self.items.clear();
        self.divided = false;
        self.top_left = None;
        self.top_right = None;
        self.bottom_left = None;
        self.bottom_right = None;
        proof {
            assert(self.particles() =~= Seq::<Particle>::empty());
        }
    }

    /// Every particle stored in a well-formed subtree lies inside that
    /// subtree's boundary.
    pub proof fn lemma_particles_in_boundary(self)
        requires
            self.wf(),
        ensures
            forall|i: int|
                0 <= i < self.particles().len() ==> self.boundary.contains(
                    (#[trigger] self.particles()[i]).position,
                ),
        decreases self,
    {
        if self.divided {
            let tl = self.top_left.unwrap();
            let tr = self.top_right.unwrap();
            let bl = self.bottom_left.unwrap();
            let br = self.bottom_right.unwrap();
            tl.lemma_particles_in_boundary();
            tr.lemma_particles_in_boundary();
            bl.lemma_particles_in_boundary();
            br.lemma_particles_in_boundary();
            assert forall|i: int| 0 <= i < self.particles().len() implies self.boundary.contains(
                (#[trigger] self.particles()[i]).position,
            ) by {
                let p = self.particles()[i];
                let n0 = self.items@.len() as int;
                let n1 = n0 + tl.particles().len();
                let n2 = n1 + tr.particles().len();
                let n3 = n2 + bl.particles().len();
                if i < n0 {
                    assert(self.boundary.contains(p.position));
                } else {
                    if i < n1 {
                        assert(p == tl.particles()[i - n0]);
                        lemma_quartering(self.boundary, p.position);
                    } else if i < n2 {
                        assert(p == tr.particles()[i - n1]);
                        lemma_quartering(self.boundary, p.position);
                    } else if i < n3 {
                        assert(p == bl.particles()[i - n2]);
                        lemma_quartering(self.boundary, p.position);
                    } else {
                        assert(p == br.particles()[i - n3]);
                        lemma_quartering(self.boundary, p.position);
                    }
                }
            }
        }
    }

    /// A subtree whose boundary does not overlap the query range holds no
    /// particle inside the range.
    pub proof fn lemma_no_overlap_filter_empty(self, range: Region)
        requires
            self.wf(),
            !self.boundary.overlaps(range),
        ensures
            self.particles().filter(|q: Particle| range.contains(q.position)) == Seq::<
                Particle,
            >::empty(),
    {
        let pred = |q: Particle| range.contains(q.position);
        let out = self.particles().filter(pred);
        if out.len() > 0 {
            let elem = out[0];
            assert(out.contains(elem));
            self.particles().lemma_filter_contains_rev(pred, elem);
            self.particles().lemma_filter_pred(pred, 0);
            let j = choose|j: int|
                0 <= j < self.particles().len() && self.particles()[j] == elem;
            self.lemma_particles_in_boundary();
            lemma_common_point_overlaps(self.boundary, range, elem.position);
            assert(false);
        }
        assert(out =~= Seq::<Particle>::empty());
    }
}

/// Concatenating five sequences adds their multisets.
proof fn lemma_multiset_5(
    a: Seq<Particle>,
    b: Seq<Particle>,
    c: Seq<Particle>,
    d: Seq<Particle>,
    e: Seq<Particle>,
)
    ensures
        (a + b + c + d + e).to_multiset() == a.to_multiset().add(b.to_multiset()).add(
            c.to_multiset(),
        ).add(d.to_multiset()).add(e.to_multiset()),
{
    lemma_multiset_commutative(a, b);
    lemma_multiset_commutative(a + b, c);
    lemma_multiset_commutative(a + b + c, d);
    lemma_multiset_commutative(a + b + c + d, e);
}

/// Partition containment: in a well-formed partition every stored particle
/// lies in the root boundary, so a query over the full boundary keeps every
/// stored particle — nothing is lost and nothing is duplicated.
pub proof fn lemma_full_boundary_query(t: QuadTree)
    requires
        t.wf(),
    ensures
        t.particles().filter(|q: Particle| t.boundary.contains(q.position)) == t.particles(),
{
    t.lemma_particles_in_boundary();
    lemma_filter_all(t.particles(), |q: Particle| t.boundary.contains(q.position));
}

/// Clear idempotence: a partition holding no particles answers every query
/// with the empty sequence, whatever the range.
pub proof fn lemma_empty_tree_query(t: QuadTree, range: Region)
    requires
        t.wf(),
        t.particles() == Seq::<Particle>::empty(),
    ensures
        t.particles().filter(|q: Particle| range.contains(q.position)) == Seq::<
            Particle,
        >::empty(),
{
    reveal(Seq::filter);
}

/// Filtering with a predicate every element satisfies keeps the sequence.
proof fn lemma_filter_all(s: Seq<Particle>, pred: spec_fn(Particle) -> bool)
    requires
        forall|i: int| 0 <= i < s.len() ==> pred(#[trigger] s[i]),
    ensures
        s.filter(pred) == s,
    decreases s.len(),
{
    reveal(Seq::filter);
    if s.len() > 0 {
        lemma_filter_all(s.drop_last(), pred);
        assert(s.drop_last().push(s.last()) =~= s);
    }
}

} // verus!
