use vstd::prelude::*;

use crate::biome_picker::{has_choices, picked, Biome, BiomeGenerator};
use crate::utils::{default_hash_of, hash_u64};

verus! {

/// Added to the seed before hashing the x offset of a feature point.
pub const POINT_X_SALT: u64 = 1337;

/// Added to the seed before hashing the z offset of a feature point.
pub const POINT_Z_SALT: u64 = 7331;

/// Number of cells in the neighbourhood of a query: the owning cell and its
/// eight neighbours.
pub const NEIGHBORHOOD_SIZE: usize = 9;

/// Low 16 bits of the hash of `(salted_seed, x, z)`.
pub open spec fn point_offset_of(salted_seed: u64, x: i32, z: i32) -> u16 {
    (default_hash_of(salted_seed, x, z) % 0x1_0000) as u16
}

/// One cell of a query's neighbourhood: its position, its feature point as
/// offsets of `offset / 65535` from the cell's corner, and its biome.
pub struct CellCandidate<BiomeT> {
    pub cell_x: i32,
    pub cell_z: i32,
    pub offset_x: u16,
    pub offset_z: u16,
    pub biome: BiomeT,
}

/// Candidate `c` is cell `i` of the neighbourhood of `(cell_x, cell_z)`: the
/// cells are enumerated with x outermost, each axis going -1, 0, +1.
pub open spec fn is_candidate<BiomeT: Biome>(
    c: CellCandidate<BiomeT>,
    g: BiomeGenerator<BiomeT>,
    variants: Seq<BiomeT>,
    seed: u64,
    cell_x: i32,
    cell_z: i32,
    i: int,
) -> bool {
    &&& c.cell_x == cell_x + i / 3 - 1
    &&& c.cell_z == cell_z + i % 3 - 1
    &&& c.offset_x == point_offset_of(seed.wrapping_add(POINT_X_SALT), c.cell_x, c.cell_z)
    &&& c.offset_z == point_offset_of(seed.wrapping_add(POINT_Z_SALT), c.cell_x, c.cell_z)
    &&& picked(g, variants, seed, c.cell_x, c.cell_z) == Some(c.biome)
}

/// `r` is the neighbourhood of `(cell_x, cell_z)` in enumeration order, or
/// `None` when the generator has nothing to choose from.
pub open spec fn is_neighborhood<BiomeT: Biome>(
    r: Option<Vec<CellCandidate<BiomeT>>>,
    g: BiomeGenerator<BiomeT>,
    variants: Seq<BiomeT>,
    seed: u64,
    cell_x: i32,
    cell_z: i32,
) -> bool {
    match r {
        None => !has_choices(g, variants),
        Some(cs) => {
            &&& has_choices(g, variants)
            &&& cs@.len() == NEIGHBORHOOD_SIZE
            &&& forall|i: int|
                0 <= i < NEIGHBORHOOD_SIZE ==> is_candidate(
                    #[trigger] cs@[i],
                    g,
                    variants,
                    seed,
                    cell_x,
                    cell_z,
                    i,
                )
        },
    }
}

/// The feature point of cell `(cell_x, cell_z)`, as two offsets in units of
/// 1/65535 of a cell, each hashed from the seed with its own salt.
pub fn cell_point(seed: u64, cell_x: i32, cell_z: i32) -> (r: (u16, u16))
    ensures
        r.0 == point_offset_of(seed.wrapping_add(POINT_X_SALT), cell_x, cell_z),
        r.1 == point_offset_of(seed.wrapping_add(POINT_Z_SALT), cell_x, cell_z),
{
    let h1 = hash_u64(seed.wrapping_add(POINT_X_SALT), cell_x, cell_z);
    let h2 = hash_u64(seed.wrapping_add(POINT_Z_SALT), cell_x, cell_z);
    assert(h1 & 0xFFFF == h1 % 0x1_0000) by (bit_vector);
    assert(h2 & 0xFFFF == h2 % 0x1_0000) by (bit_vector);
    ((h1 & 0xFFFF) as u16, (h2 & 0xFFFF) as u16)
}

/// The neighbourhood of the cell `(cell_x, cell_z)`, a uniform draw being made
/// over `variants`.
pub fn neighborhood_from<BiomeT: Biome + 'static>(
    generator: &BiomeGenerator<BiomeT>,
    variants: &[BiomeT],
    seed: u64,
    cell_x: i32,
    cell_z: i32,
) -> (r: Option<Vec<CellCandidate<BiomeT>>>)
    requires
        i32::MIN < cell_x < i32::MAX,
        i32::MIN < cell_z < i32::MAX,
    ensures
        is_neighborhood(r, *generator, variants@, seed, cell_x, cell_z),
{
    let mut cs: Vec<CellCandidate<BiomeT>> = Vec::new();
    let mut i: usize = 0;
    while i < NEIGHBORHOOD_SIZE
        invariant
            i32::MIN < cell_x < i32::MAX,
            i32::MIN < cell_z < i32::MAX,
            i <= NEIGHBORHOOD_SIZE,
            cs@.len() == i,
            i > 0 ==> has_choices(*generator, variants@),
            forall|j: int|
                0 <= j < i ==> is_candidate(
                    #[trigger] cs@[j],
                    *generator,
                    variants@,
                    seed,
                    cell_x,
                    cell_z,
                    j,
                ),
        decreases NEIGHBORHOOD_SIZE - i,
    {
        let cx = cell_x + ((i / 3) as i32 - 1);
        let cz = cell_z + ((i % 3) as i32 - 1);
        let (offset_x, offset_z) = cell_point(seed, cx, cz);
        match generator.pick_from(variants, seed, cx, cz) {
            None => {
                return None;
            },
            Some(biome) => {
                cs.push(CellCandidate { cell_x: cx, cell_z: cz, offset_x, offset_z, biome });
            },
        }
        i += 1;
    }
    Some(cs)
}

/// The neighbourhood of the cell `(cell_x, cell_z)`, a uniform draw being made
/// over `BiomeT::variants()`. A weighted draw does not depend on the declared
/// variants.
pub fn neighborhood<BiomeT: Biome + 'static>(
    generator: &BiomeGenerator<BiomeT>,
    seed: u64,
    cell_x: i32,
    cell_z: i32,
) -> (r: Option<Vec<CellCandidate<BiomeT>>>)
    requires
        i32::MIN < cell_x < i32::MAX,
        i32::MIN < cell_z < i32::MAX,
    ensures
        exists|variants: Seq<BiomeT>|
            is_neighborhood(r, *generator, variants, seed, cell_x, cell_z),
        generator is Weighted ==> is_neighborhood(
            r,
            *generator,
            Seq::empty(),
            seed,
            cell_x,
            cell_z,
        ),
{
    let variants = BiomeT::variants();
    let r = neighborhood_from(generator, variants, seed, cell_x, cell_z);
    proof {
        if r is Some && generator is Weighted {
            let cs = r->Some_0;
            assert forall|i: int| 0 <= i < NEIGHBORHOOD_SIZE implies is_candidate(
                #[trigger] cs@[i],
                *generator,
                variants@,
                seed,
                cell_x,
                cell_z,
                i,
            ) == is_candidate(cs@[i], *generator, Seq::empty(), seed, cell_x, cell_z, i) by {}
        }
    }
    r
}

/// The key under which the float with bit pattern `bits` sorts in the IEEE 754
/// total order: non-negative floats keep their bits, negative ones have all
/// bits but the sign flipped, so that larger magnitudes come first.
pub fn total_order_key(bits: u64) -> (r: i64)
    ensures
        r == if bits < 0x8000_0000_0000_0000 {
            bits as i64
        } else {
            (bits ^ 0x7FFF_FFFF_FFFF_FFFF) as i64
        },
{
    if bits < 0x8000_0000_0000_0000 {
        bits as i64
    } else {
        (bits ^ 0x7FFF_FFFF_FFFF_FFFF) as i64
    }
}

/// Candidate `a` comes before candidate `b`: its key is smaller, or the keys are
/// equal and `a` was enumerated first.
pub open spec fn precedes(keys: Seq<i64>, a: int, b: int) -> bool {
    keys[a] < keys[b] || (keys[a] == keys[b] && a < b)
}

/// `r` lists the `min(k, |keys|)` candidates that come first, in order: each
/// index is valid, the list is ordered by `precedes`, and every candidate left
/// out comes after every candidate listed.
pub open spec fn is_nearest_selection(keys: Seq<i64>, k: int, r: Seq<usize>) -> bool {
    &&& r.len() == if k < keys.len() { k } else { keys.len() as int }
    &&& forall|i: int| 0 <= i < r.len() ==> r[i] < keys.len()
    &&& forall|i: int, j: int| 0 <= i < j < r.len() ==> precedes(keys, r[i] as int, r[j] as int)
    &&& forall|i: int, c: int|
        0 <= i < r.len() && 0 <= c < keys.len() && !r.contains(c as usize) ==> precedes(
            keys,
            r[i] as int,
            c,
        )
}

/// Inserting candidate `i`, which follows every listed candidate in
/// enumeration, before the first listed candidate with a larger key keeps the
/// list ordered and complete.
proof fn lemma_insert_in_order(keys: Seq<i64>, before: Seq<usize>, pos: int, i: usize)
    requires
        i < keys.len(),
        0 <= pos <= before.len(),
        forall|q: int| 0 <= q < before.len() ==> before[q] < i,
        forall|q: int, p: int|
            0 <= q < p < before.len() ==> precedes(keys, before[q] as int, before[p] as int),
        forall|c: int| 0 <= c < i ==> #[trigger] before.contains(c as usize),
        forall|q: int| 0 <= q < pos ==> keys[before[q] as int] <= keys[i as int],
        pos < before.len() ==> keys[i as int] < keys[before[pos] as int],
    ensures
        forall|q: int|
            0 <= q < before.insert(pos, i).len() ==> before.insert(pos, i)[q] < i + 1,
        forall|q: int, p: int|
            0 <= q < p < before.insert(pos, i).len() ==> precedes(
                keys,
                before.insert(pos, i)[q] as int,
                before.insert(pos, i)[p] as int,
            ),
        forall|c: int| 0 <= c < i + 1 ==> #[trigger] before.insert(pos, i).contains(c as usize),
{
    let after = before.insert(pos, i);
    before.insert_ensures(pos, i);
    if pos < before.len() {
        assert forall|p: int| pos <= p < before.len() implies keys[i as int] < keys[before[p] as int] by {
            if p > pos {
                assert(precedes(keys, before[pos] as int, before[p] as int));
            }
        }
    }
    assert forall|c: int| 0 <= c < i + 1 implies #[trigger] after.contains(c as usize) by {
        if c < i {
            assert(before.contains(c as usize));
            let q = choose|q: int| 0 <= q < before.len() && before[q] == c as usize;
            if q < pos {
                assert(after[q] == c as usize);
            } else {
                assert(after[q + 1] == c as usize);
            }
        } else {
            assert(after[pos] == c as usize);
        }
    }
    assert forall|q: int, p: int| 0 <= q < p < after.len() implies precedes(
        keys,
        after[q] as int,
        after[p] as int,
    ) by {
        if p > pos {
            assert(after[p] == before[p - 1]);
        }
        if q > pos {
            assert(after[q] == before[q - 1]);
        }
    }
}

/// Selects the `k` candidates with the smallest keys (all of them when `k`
/// exceeds their number), smallest first. Equal keys go to the candidate that
/// was enumerated first.
pub fn select_nearest(keys: &Vec<i64>, k: usize) -> (r: Vec<usize>)
    ensures
        is_nearest_selection(keys@, k as int, r@),
{
    let n = keys.len();
    let mut order: Vec<usize> = Vec::new();
    let mut i: usize = 0;
    while i < n
        invariant
            n == keys.len(),
            i <= n,
            order.len() == i,
            forall|q: int| 0 <= q < order.len() ==> order[q] < i,
            forall|q: int, p: int|
                0 <= q < p < order.len() ==> precedes(keys@, order[q] as int, order[p] as int),
            forall|c: int| 0 <= c < i ==> #[trigger] order@.contains(c as usize),
        decreases n - i,
    {
        let ki = keys[i];
        let mut pos: usize = 0;
        while pos < order.len() && keys[order[pos]] <= ki
            invariant
                n == keys.len(),
                i < n,
                ki == keys@[i as int],
                pos <= order.len(),
                forall|q: int| 0 <= q < order.len() ==> order[q] < i,
                forall|q: int| 0 <= q < pos ==> keys@[order[q] as int] <= ki,
            decreases order.len() - pos,
        {
            pos += 1;
        }
        let ghost before = order@;
        order.insert(pos, i);
        proof {
            lemma_insert_in_order(keys@, before, pos as int, i);
        }
        i += 1;
    }
    let m = if k < n { k } else { n };
    let mut r: Vec<usize> = Vec::new();
    let mut j: usize = 0;
    while j < m
        invariant
            m <= n,
            n == keys.len(),
            order.len() == n,
            j <= m,
            r@ == order@.subrange(0, j as int),
        decreases m - j,
    {
        r.push(order[j]);
        j += 1;
        proof {
            assert(r@ =~= order@.subrange(0, j as int));
        }
    }
    proof {
        assert forall|a: int, c: int|
            0 <= a < r.len() && 0 <= c < keys.len() && !r@.contains(c as usize) implies precedes(
            keys@,
            r[a] as int,
            c,
        ) by {
            assert(order@.contains(c as usize));
            let p = choose|p: int| 0 <= p < order.len() && order[p] == c as usize;
            if p < m {
                assert(r@[p] == c as usize);
            }
        }
    }
    r
}

} // verus!

verus! {

/// Two selections for the same keys and `k` agree at every position up to `p`.
proof fn lemma_selection_agree_upto(keys: Seq<i64>, k: int, r1: Seq<usize>, r2: Seq<usize>, p: int)
    requires
        is_nearest_selection(keys, k, r1),
        is_nearest_selection(keys, k, r2),
        0 <= p < r1.len(),
    ensures
        forall|q: int| 0 <= q <= p ==> r1[q] == r2[q],
    decreases p,
{
    if p > 0 {
        lemma_selection_agree_upto(keys, k, r1, r2, p - 1);
    }
    let a = r1[p] as int;
    let b = r2[p] as int;
    if a != b {
        if precedes(keys, a, b) {
            if r2.contains(a as usize) {
                let q = choose|q: int| 0 <= q < r2.len() && r2[q] == a as usize;
                if q < p {
                    assert(precedes(keys, r1[q] as int, r1[p] as int));
                } else if q > p {
                    assert(precedes(keys, r2[p] as int, r2[q] as int));
                }
            } else {
                assert(precedes(keys, r2[p] as int, a));
            }
        } else {
            if r1.contains(b as usize) {
                let q = choose|q: int| 0 <= q < r1.len() && r1[q] == b as usize;
                if q < p {
                    assert(precedes(keys, r2[q] as int, r2[p] as int));
                } else if q > p {
                    assert(precedes(keys, r1[p] as int, r1[q] as int));
                }
            } else {
                assert(precedes(keys, r1[p] as int, b));
            }
        }
    }
}

/// A selection is determined by the keys and `k`: two lists that both meet
/// `is_nearest_selection` are equal.
pub proof fn lemma_selection_unique(keys: Seq<i64>, k: int, r1: Seq<usize>, r2: Seq<usize>)
    requires
        is_nearest_selection(keys, k, r1),
        is_nearest_selection(keys, k, r2),
    ensures
        r1 == r2,
{
    if r1.len() > 0 {
        lemma_selection_agree_upto(keys, k, r1, r2, r1.len() - 1);
    }
    assert(r1 =~= r2);
}

/// Of two candidates at the same distance, the one enumerated first is kept
/// whenever the later one is, and it comes before the later one.
pub proof fn lemma_tie_goes_to_earlier(keys: Seq<i64>, k: int, r: Seq<usize>, a: usize, b: usize)
    requires
        is_nearest_selection(keys, k, r),
        a < b < keys.len(),
        keys[a as int] == keys[b as int],
        r.contains(b),
    ensures
        exists|i: int, j: int| 0 <= i < j < r.len() && r[i] == a && r[j] == b,
{
    let j = choose|j: int| 0 <= j < r.len() && r[j] == b;
    if !r.contains(a) {
        assert(precedes(keys, r[j] as int, a as int));
    } else {
        let i = choose|i: int| 0 <= i < r.len() && r[i] == a;
        if j < i {
            assert(precedes(keys, r[j] as int, r[i] as int));
        }
        assert(0 <= i < j < r.len() && r[i] == a && r[j] == b);
    }
}

/// The neighbourhood of a cell is determined by the generator, the declared
/// variants, the seed and the cell.
pub proof fn lemma_neighborhood_unique<BiomeT: Biome>(
    r1: Option<Vec<CellCandidate<BiomeT>>>,
    r2: Option<Vec<CellCandidate<BiomeT>>>,
    g: BiomeGenerator<BiomeT>,
    variants: Seq<BiomeT>,
    seed: u64,
    cell_x: i32,
    cell_z: i32,
)
    requires
        is_neighborhood(r1, g, variants, seed, cell_x, cell_z),
        is_neighborhood(r2, g, variants, seed, cell_x, cell_z),
    ensures
        r1 is Some <==> r2 is Some,
        r1 is Some ==> r1->Some_0@ == r2->Some_0@,
{
    if let Some(cs1) = r1 {
        let cs2 = r2->Some_0;
        assert forall|i: int| 0 <= i < cs1@.len() implies cs1@[i] == cs2@[i] by {
            assert(is_candidate(cs1@[i], g, variants, seed, cell_x, cell_z, i));
            assert(is_candidate(cs2@[i], g, variants, seed, cell_x, cell_z, i));
        }
        assert(cs1@ =~= cs2@);
    }
}

} // verus!
