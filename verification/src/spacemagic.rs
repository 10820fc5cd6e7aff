//! Where the particles of the gravity simulation start.
use vstd::prelude::*;
use vstd::arithmetic::div_mod::lemma_fundamental_div_mod_converse;

verus! {

/// The number of rows of particles laid out at start.
pub const PARTICLE_ROWS: u32 = 150;

/// The number of particles in each row.
pub const PARTICLE_COLUMNS: u32 = 3;

/// The distance between neighbouring particles.
pub const PARTICLE_SPACING: u32 = 8;

/// The start position of particle number `n` in a grid of `columns`
/// particles per row, `spacing` apart: row `n / columns` gives the first
/// coordinate and column `n % columns` the second.
pub open spec fn spawn_point(n: int, columns: int, spacing: int) -> (u64, u64) {
    (((n / columns) * spacing) as u64, ((n % columns) * spacing) as u64)
}

/// The start positions of `rows * columns` particles laid out row by row,
/// `spacing` apart: particle `i * columns + j` starts at
/// `(i * spacing, j * spacing)`.
pub fn particle_spawn_points(rows: u32, columns: u32, spacing: u32) -> (r: Vec<(u64, u64)>)
    requires
        rows * columns <= usize::MAX,
    ensures
        r.len() == rows * columns,
        forall|n: int| 0 <= n < r.len() ==> #[trigger] r@[n] == spawn_point(n, columns as int, spacing as int),
{
    let mut r: Vec<(u64, u64)> = Vec::new();
    let mut i: u32 = 0;
    while i < rows
        invariant
            i <= rows,
            rows * columns <= usize::MAX,
            r.len() == i * columns,
            forall|n: int| 0 <= n < r.len() ==> #[trigger] r@[n] == spawn_point(n, columns as int, spacing as int),
        decreases rows - i,
    {
        let mut j: u32 = 0;
        while j < columns
            invariant
                j <= columns,
                i < rows,
                rows * columns <= usize::MAX,
                r.len() == i * columns + j,
                forall|n: int| 0 <= n < r.len() ==> #[trigger] r@[n] == spawn_point(n, columns as int, spacing as int),
            decreases columns - j,
        {
            assert(i * columns + j < rows * columns) by (nonlinear_arith)
                requires
                    i < rows,
                    j < columns,
            ;
            assert((i as u64) * (spacing as u64) <= 0xffff_ffff * 0xffff_ffff) by (nonlinear_arith)
                requires
                    i <= 0xffff_ffff,
                    spacing <= 0xffff_ffff,
            ;
            assert((j as u64) * (spacing as u64) <= 0xffff_ffff * 0xffff_ffff) by (nonlinear_arith)
                requires
                    j <= 0xffff_ffff,
                    spacing <= 0xffff_ffff,
            ;
            let ghost n = i * columns + j;
            proof {
                lemma_fundamental_div_mod_converse(n, columns as int, i as int, j as int);
            }
            r.push(((i as u64) * (spacing as u64), (j as u64) * (spacing as u64)));
            j += 1;
        }
        assert(i * columns + columns == (i + 1) * columns) by (nonlinear_arith);
        i += 1;
    }
    r
}

} // verus!
