//! Canonical sub-pixel sample positions for a given sample count.
//!
//! Positions are exact values, free of rounding: a hand-tuned pattern is a
//! pair of coordinates in sixteenths of the unit pixel, and a fallback grid
//! position is a cell of the `isqrt(count)`-wide grid. A consumer turns a
//! position into continuous coordinates as documented on [`SamplePosition`].

use vstd::prelude::*;

verus! {

/// One sub-pixel sample position inside the unit pixel square.
///
/// `Sixteenths { x, y }` is the point `(x / 16, y / 16)`.
///
/// `GridCell { col, row }` is the point
/// `(col * step + step / 2, row * step + step / 2)` with `step` the
/// reciprocal square root of the sample count the position was generated
/// for. The cell indices come from `index % g` and `index / g` with
/// `g = isqrt(count)`, so for counts that are not perfect squares the rows
/// run past the unit square rather than forming a clean grid; that skew is
/// part of the fixed, documented pattern and is kept for reproducibility.
#[derive(Clone, Copy, PartialEq, Eq, Structural, Debug)]
pub enum SamplePosition {
    Sixteenths { x: u8, y: u8 },
    GridCell { col: u32, row: u32 },
}

/// The integer square root: the largest `r` with `r * r <= n`.
pub open spec fn spec_isqrt(n: nat) -> nat
    decreases n,
{
    if n == 0 {
        0
    } else {
        let r = spec_isqrt((n - 1) as nat);
        if (r + 1) * (r + 1) <= n {
            r + 1
        } else {
            r
        }
    }
}

/// `spec_isqrt(n)` squares to at most `n`, and the next integer squares past it.
pub proof fn lemma_isqrt_bounds(n: nat)
    ensures
        spec_isqrt(n) * spec_isqrt(n) <= n,
        n < (spec_isqrt(n) + 1) * (spec_isqrt(n) + 1),
    decreases n,
{
    if n == 0 {
        assert(spec_isqrt(0) == 0);
        assert(0 < (spec_isqrt(0) + 1) * (spec_isqrt(0) + 1)) by (nonlinear_arith)
            requires
                spec_isqrt(0) == 0,
        ;
    } else {
        lemma_isqrt_bounds((n - 1) as nat);
        let r = spec_isqrt((n - 1) as nat);
        if (r + 1) * (r + 1) <= n {
            assert(spec_isqrt(n) == r + 1);
            assert(n - 1 < (r + 1) * (r + 1));
            assert(n < ((r + 1) + 1) * ((r + 1) + 1)) by (nonlinear_arith)
                requires
                    n <= (r + 1) * (r + 1),
                    r >= 0,
            ;
        } else {
            assert(spec_isqrt(n) == r);
            assert(r * r <= n - 1);
        }
    }
}

/// Any `r` bracketed by the square-root bounds is the integer square root.
pub proof fn lemma_isqrt_unique(n: nat, r: nat)
    requires
        r * r <= n,
        n < (r + 1) * (r + 1),
    ensures
        r == spec_isqrt(n),
{
    lemma_isqrt_bounds(n);
    let q = spec_isqrt(n);
    if r < q {
        assert((r + 1) * (r + 1) <= q * q) by (nonlinear_arith)
            requires
                0 <= r + 1 <= q,
        ;
    }
    if q < r {
        assert((q + 1) * (q + 1) <= r * r) by (nonlinear_arith)
            requires
                0 <= q + 1 <= r,
        ;
    }
}

/// Computes the integer square root of `n`.
fn isqrt(n: u32) -> (r: u32)
    ensures
        r == spec_isqrt(n as nat),
        r * r <= n,
        n < (r + 1) * (r + 1),
{
    let mut r: u32 = 0;
    while (r as u64 + 1) * (r as u64 + 1) <= n as u64
        invariant
            r * r <= n,
            r <= n,
            r <= 0xFFFF,
            (r as int + 1) * (r as int + 1) <= 0x1_0000_0000,
        decreases n - r,
    {
        r = r + 1;
        proof {
            assert(r <= n && r <= 0xFFFF && (r as int + 1) * (r as int + 1) <= 0x1_0000_0000)
                by (nonlinear_arith)
                requires
                    1 <= r,
                    r as int * r as int <= n as int,
                    n <= 0xFFFF_FFFF,
            ;
        }
    }
    proof {
        lemma_isqrt_unique(n as nat, r as nat);
    }
    r
}

/// The ordered sample positions for a sample count: hand-tuned patterns for
/// counts 1, 2, 4 and 8, and otherwise the grid fallback over
/// `isqrt(count)`-wide rows.
pub open spec fn spec_sample_positions(n: nat) -> Seq<SamplePosition> {
    if n == 1 {
        seq![SamplePosition::Sixteenths { x: 8, y: 8 }]
    } else if n == 2 {
        seq![
            SamplePosition::Sixteenths { x: 4, y: 4 },
            SamplePosition::Sixteenths { x: 12, y: 12 },
        ]
    } else if n == 4 {
        seq![
            SamplePosition::Sixteenths { x: 6, y: 2 },
            SamplePosition::Sixteenths { x: 14, y: 6 },
            SamplePosition::Sixteenths { x: 2, y: 10 },
            SamplePosition::Sixteenths { x: 10, y: 14 },
        ]
    } else if n == 8 {
        seq![
            SamplePosition::Sixteenths { x: 1, y: 1 },
            SamplePosition::Sixteenths { x: 5, y: 1 },
            SamplePosition::Sixteenths { x: 9, y: 1 },
            SamplePosition::Sixteenths { x: 13, y: 1 },
            SamplePosition::Sixteenths { x: 3, y: 5 },
            SamplePosition::Sixteenths { x: 7, y: 5 },
            SamplePosition::Sixteenths { x: 11, y: 5 },
            SamplePosition::Sixteenths { x: 15, y: 5 },
        ]
    } else {
        Seq::new(
            n,
            |i: int| SamplePosition::GridCell {
                col: (i % spec_isqrt(n) as int) as u32,
                row: (i / spec_isqrt(n) as int) as u32,
            },
        )
    }
}

/// Generates the ordered sub-pixel sample positions for `sample_count`:
/// exactly `sample_count` positions, deterministic for a given count.
pub fn generate_sample_positions(sample_count: u32) -> (positions: Vec<SamplePosition>)
    ensures
        positions@ == spec_sample_positions(sample_count as nat),
        positions@.len() == sample_count,
{
    if sample_count == 1 {
        let v = vec![SamplePosition::Sixteenths { x: 8, y: 8 }];
        proof {
            assert(v@ =~= spec_sample_positions(1));
        }
        v
    } else if sample_count == 2 {
        let v = vec![
            SamplePosition::Sixteenths { x: 4, y: 4 },
            SamplePosition::Sixteenths { x: 12, y: 12 },
        ];
        proof {
            assert(v@ =~= spec_sample_positions(2));
        }
        v
    } else if sample_count == 4 {
        let v = vec![
            SamplePosition::Sixteenths { x: 6, y: 2 },
            SamplePosition::Sixteenths { x: 14, y: 6 },
            SamplePosition::Sixteenths { x: 2, y: 10 },
            SamplePosition::Sixteenths { x: 10, y: 14 },
        ];
        proof {
            assert(v@ =~= spec_sample_positions(4));
        }
        v
    } else if sample_count == 8 {
        let v = vec![
            SamplePosition::Sixteenths { x: 1, y: 1 },
            SamplePosition::Sixteenths { x: 5, y: 1 },
            SamplePosition::Sixteenths { x: 9, y: 1 },
            SamplePosition::Sixteenths { x: 13, y: 1 },
            SamplePosition::Sixteenths { x: 3, y: 5 },
            SamplePosition::Sixteenths { x: 7, y: 5 },
            SamplePosition::Sixteenths { x: 11, y: 5 },
            SamplePosition::Sixteenths { x: 15, y: 5 },
        ];
        proof {
            assert(v@ =~= spec_sample_positions(8));
        }
        v
    } else {
        let g = isqrt(sample_count);
        let mut positions: Vec<SamplePosition> = Vec::new();
        let mut i: u32 = 0;
        while i < sample_count
            invariant
                g == spec_isqrt(sample_count as nat),
                g * g <= sample_count,
                sample_count < (g + 1) * (g + 1),
                0 <= i <= sample_count,
                positions@.len() == i,
                forall|k: int|
                    0 <= k < i ==> positions@[k] == spec_sample_positions(
                        sample_count as nat,
                    )[k],
                !(sample_count == 1 || sample_count == 2 || sample_count == 4
                    || sample_count == 8),
            decreases sample_count - i,
        {
            proof {
                if g == 0 {
                    assert(sample_count < 1) by (nonlinear_arith)
                        requires
                            g == 0,
                            sample_count < (g + 1) * (g + 1),
                    ;
                }
            }
            let pos = SamplePosition::GridCell { col: i % g, row: i / g };
            positions.push(pos);
            i = i + 1;
        }
        proof {
            assert(positions@ =~= spec_sample_positions(sample_count as nat));
        }
        positions
    }
}

} // verus!
