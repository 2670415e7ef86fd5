//! How wide a signal is drawn along a pipe.
//!
//! A width is a fixed-point fraction: `WIDTH_SCALE` is the full width, 0 is
//! hidden. A profile is a list of widths at evenly spaced points along a
//! pipe, from its start to its end.

use vstd::prelude::*;

use crate::signal::{Signal, POSITION_SCALE};

verus! {

/// The full width.
pub const WIDTH_SCALE: u32 = 1000;

/// `s` in reverse order.
pub open spec fn reversed(s: Seq<u32>) -> Seq<u32> {
    Seq::new(s.len(), |i: int| s[s.len() - 1 - i])
}

/// The width profile of a junction: `outgoing` along pipes that leave it,
/// `incoming`, the same widths in reverse order, along pipes that reach it.
pub struct Buldge {
    incoming: Vec<u32>,
    outgoing: Vec<u32>,
}

impl Buldge {
    pub closed spec fn outgoing(self) -> Seq<u32> {
        self.outgoing@
    }

    pub closed spec fn incoming(self) -> Seq<u32> {
        self.incoming@
    }

    /// A profile whose outgoing widths are `from`.
    pub fn new(from: &Vec<u32>) -> (r: Buldge)
        ensures
            r.outgoing() == from@,
            r.incoming() == reversed(from@),
    {
        let mut outgoing: Vec<u32> = Vec::new();
        let mut incoming: Vec<u32> = Vec::new();
        let n = from.len();
        let mut i: usize = 0;
        while i < n
            invariant
                n == from@.len(),
                i <= n,
                outgoing@ == from@.take(i as int),
                incoming@ == reversed(from@).take(i as int),
            decreases n - i,
        {
            outgoing.push(from[i]);
            incoming.push(from[n - 1 - i]);
            assert(outgoing@ =~= from@.take(i + 1));
            assert(incoming@ =~= reversed(from@).take(i + 1));
            i = i + 1;
        }
        assert(outgoing@ =~= from@);
        assert(incoming@ =~= reversed(from@));
        Buldge { incoming, outgoing }
    }

    /// The profile of an opening that hides the signal near it: hidden for
    /// the first three points, then widening to the full width.
    pub fn no_cover() -> (r: Buldge)
        ensures
            r.outgoing() == seq![0u32, 0, 0, 150, 500, 750, 1000, 1000],
            r.incoming() == reversed(seq![0u32, 0, 0, 150, 500, 750, 1000, 1000]),
    {
        let from: Vec<u32> = vec![0, 0, 0, 150, 500, 750, 1000, 1000];
        assert(from@ =~= seq![0u32, 0, 0, 150, 500, 750, 1000, 1000]);
        Buldge::new(&from)
    }
}

/// The smaller of two widths.
pub open spec fn min_width(a: u32, b: u32) -> u32 {
    if a <= b {
        a
    } else {
        b
    }
}

/// The profile along a pipe between junctions with the given profiles: the
/// pointwise minimum of the source's outgoing and the destination's incoming
/// widths, as long as the shorter of the two, where both have one; the one
/// there is, where only one has; the full width alone where neither has.
pub open spec fn merged(from: Option<Buldge>, to: Option<Buldge>) -> Seq<u32> {
    match (from, to) {
        (Some(f), Some(t)) => {
            let n = if f.outgoing().len() <= t.incoming().len() {
                f.outgoing().len()
            } else {
                t.incoming().len()
            };
            Seq::new(n, |i: int| min_width(f.outgoing()[i], t.incoming()[i]))
        },
        (Some(f), None) => f.outgoing(),
        (None, Some(t)) => t.incoming(),
        (None, None) => seq![WIDTH_SCALE],
    }
}

/// The width at `pos` (in position units, below `POSITION_SCALE`) along a
/// profile `g`: `pos` is scaled to the points of the profile, and the two
/// points around it are blended linearly, rounding down. A profile of one
/// point has that width everywhere.
pub open spec fn interpolate(g: Seq<u32>, pos: int) -> int {
    if g.len() > 1 {
        let scaled = pos * (g.len() - 1);
        let index = scaled / (POSITION_SCALE as int);
        let part = scaled % (POSITION_SCALE as int);
        (g[index] * (POSITION_SCALE - part) + g[index + 1] * part) / (POSITION_SCALE as int)
    } else {
        g[0] as int
    }
}

/// The width profiles of the junctions, by junction identity.
pub struct BuldgeQuery {
    profiles: Vec<Option<Buldge>>,
}

impl BuldgeQuery {
    pub closed spec fn profiles(self) -> Seq<Option<Buldge>> {
        self.profiles@
    }

    /// The profile of junction `id`, if it has one.
    pub open spec fn profile(self, id: usize) -> Option<Buldge> {
        if id < self.profiles().len() {
            self.profiles()[id as int]
        } else {
            None
        }
    }

    /// The profile along the pipe from `from` to `to`.
    pub open spec fn spec_graph(self, from: usize, to: usize) -> Seq<u32> {
        merged(self.profile(from), self.profile(to))
    }

    /// Holds `profiles[id]` as the profile of junction `id`.
    pub fn new(profiles: Vec<Option<Buldge>>) -> (r: BuldgeQuery)
        ensures
            r.profiles() == profiles@,
    {
        BuldgeQuery { profiles }
    }

    fn lookup(&self, id: usize) -> (r: Option<&Buldge>)
        ensures
            r is Some <==> self.profile(id) is Some,
            r is Some ==> *r->Some_0 == self.profile(id)->Some_0,
    {
        if id < self.profiles.len() {
            self.profiles[id].as_ref()
        } else {
            None
        }
    }

    /// The profile along the pipe from `from` to `to`, as `merged` states.
    pub fn graph(&self, from: usize, to: usize) -> (r: Vec<u32>)
        ensures
            r@ == self.spec_graph(from, to),
    {
        let mut r: Vec<u32> = Vec::new();
        match (self.lookup(from), self.lookup(to)) {
            (Some(f), Some(t)) => {
                let n = if f.outgoing.len() <= t.incoming.len() {
                    f.outgoing.len()
                } else {
                    t.incoming.len()
                };
                let mut i: usize = 0;
                while i < n
                    invariant
                        i <= n,
                        n <= f.outgoing@.len(),
                        n <= t.incoming@.len(),
                        r@ == Seq::new(
                            i as nat,
                            |k: int| min_width(f.outgoing@[k], t.incoming@[k]),
                        ),
                    decreases n - i,
                {
                    let a = f.outgoing[i];
                    let b = t.incoming[i];
                    r.push(if a <= b { a } else { b });
                    assert(r@ =~= Seq::new(
                        (i + 1) as nat,
                        |k: int| min_width(f.outgoing@[k], t.incoming@[k]),
                    ));
                    i = i + 1;
                }
            },
            (Some(f), None) => {
                r = copy_widths(&f.outgoing);
            },
            (None, Some(t)) => {
                r = copy_widths(&t.incoming);
            },
            (None, None) => {
                r.push(WIDTH_SCALE);
                assert(r@ =~= seq![WIDTH_SCALE]);
            },
        }
        r
    }

    /// The width at `pos` along the pipe from `from` to `to`, as
    /// `interpolate` states. `pos` must lie on the pipe, below its end.
    pub fn at(&self, from: usize, to: usize, pos: u64) -> (r: u32)
        requires
            pos < POSITION_SCALE,
            self.spec_graph(from, to).len() > 0,
        ensures
            r == interpolate(self.spec_graph(from, to), pos as int),
    {
        let g = self.graph(from, to);
        if g.len() > 1 {
            let len_1 = (g.len() - 1) as u128;
            let scale = POSITION_SCALE as u128;
            let p = pos as u128;
            assert(p * len_1 < scale * (len_1 + 1)) by (nonlinear_arith)
                requires
                    p < scale,
                    len_1 >= 1,
                    scale == 1_000_000,
            ;
            assert(p * len_1 <= 1_000_000 * 0xffff_ffff_ffff_ffffu128) by (nonlinear_arith)
                requires
                    p < 1_000_000,
                    len_1 <= 0xffff_ffff_ffff_ffffu128,
            ;
            let scaled = p * len_1;
            let index = scaled / scale;
            let part = scaled % scale;
            assert(index < len_1) by (nonlinear_arith)
                requires
                    scaled == p * len_1,
                    index == scaled / scale,
                    p < scale,
                    scale > 0,
                    len_1 >= 1,
            ;
            let i = index as usize;
            let a = g[i] as u128;
            let b = g[i + 1] as u128;
            assert(a * (scale - part) + b * part <= 0xffff_ffffu128 * scale) by (nonlinear_arith)
                requires
                    a <= 0xffff_ffffu128,
                    b <= 0xffff_ffffu128,
                    part < scale,
            ;
            let numerator = a * (scale - part) + b * part;
            let blended = numerator / scale;
            assert(blended <= 0xffff_ffffu128) by (nonlinear_arith)
                requires
                    blended as int == numerator as int / scale as int,
                    numerator <= 0xffff_ffffu128 * scale,
                    scale > 0,
            ;
            blended as u32
        } else {
            g[0]
        }
    }

    /// The width at which `signal` is drawn: along the pipe it travels, at
    /// its position, held just below the end of the pipe where it has
    /// reached or passed it. None for a signal without a destination, or
    /// where the profile along its pipe is empty.
    pub fn signal_width(&self, signal: &Signal) -> (r: Option<u32>)
        ensures
            r == (match signal.destination {
                Some(d) => if self.spec_graph(signal.source, d).len() > 0 {
                    Some(
                        interpolate(
                            self.spec_graph(signal.source, d),
                            if signal.position < POSITION_SCALE {
                                signal.position as int
                            } else {
                                POSITION_SCALE - 1
                            },
                        ) as u32,
                    )
                } else {
                    None
                },
                None => None,
            }),
    {
        match signal.destination {
            Some(d) => {
                if self.profile_is_empty(signal.source, d) {
                    return None;
                }
                let pos = if signal.position < POSITION_SCALE {
                    signal.position
                } else {
                    POSITION_SCALE - 1
                };
                Some(self.at(signal.source, d, pos))
            },
            None => None,
        }
    }

    fn profile_is_empty(&self, from: usize, to: usize) -> (r: bool)
        ensures
            r == (self.spec_graph(from, to).len() == 0),
    {
        match (self.lookup(from), self.lookup(to)) {
            (Some(f), Some(t)) => f.outgoing.len() == 0 || t.incoming.len() == 0,
            (Some(f), None) => f.outgoing.len() == 0,
            (None, Some(t)) => t.incoming.len() == 0,
            (None, None) => false,
        }
    }
}

/// A copy of `v`.
fn copy_widths(v: &Vec<u32>) -> (r: Vec<u32>)
    ensures
        r@ == v@,
{
    let mut r: Vec<u32> = Vec::new();
    let mut i: usize = 0;
    while i < v.len()
        invariant
            i <= v@.len(),
            r@ == v@.take(i as int),
        decreases v@.len() - i,
    {
        r.push(v[i]);
        assert(r@ =~= v@.take(i + 1));
        i = i + 1;
    }
    assert(r@ =~= v@);
    r
}

/// At the start of a pipe the width is the first width of the profile, and
/// along a profile of one point the width is that point's everywhere.
pub proof fn lemma_interpolate_boundary(g: Seq<u32>, pos: int)
    requires
        g.len() > 0,
        0 <= pos < POSITION_SCALE,
    ensures
        interpolate(g, 0) == g[0],
        g.len() == 1 ==> interpolate(g, pos) == g[0],
{
    if g.len() > 1 {
        assert(0 * (g.len() - 1) == 0);
        assert((g[0] * POSITION_SCALE + g[1] * 0) / (POSITION_SCALE as int) == g[0]) by (
        nonlinear_arith);
    }
}

/// The same law through a query: `at` at position 0 gives the first width
/// of the merged profile, and a merged profile of one point gives that width
/// at every position on the pipe.
pub proof fn lemma_at_boundary(q: BuldgeQuery, from: usize, to: usize, pos: int)
    requires
        q.spec_graph(from, to).len() > 0,
        0 <= pos < POSITION_SCALE,
    ensures
        interpolate(q.spec_graph(from, to), 0) == q.spec_graph(from, to)[0],
        q.spec_graph(from, to).len() == 1 ==> interpolate(q.spec_graph(from, to), pos)
            == q.spec_graph(from, to)[0],
{
    lemma_interpolate_boundary(q.spec_graph(from, to), pos);
}

} // verus!
