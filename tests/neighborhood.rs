use worley_biomes::biome_picker::{Biome, BiomeGenerator};
use worley_biomes::utils::hash_u64;
use worley_biomes::worley::{
    cell_point, neighborhood, neighborhood_from, select_nearest, total_order_key,
    NEIGHBORHOOD_SIZE, POINT_X_SALT, POINT_Z_SALT,
};

#[derive(Clone, Copy, Debug, PartialEq, Eq)]
enum Tile {
    Sand,
    Grass,
    Ice,
}

impl Biome for Tile {
    fn variants() -> &'static [Self] {
        &[Tile::Sand, Tile::Grass, Tile::Ice]
    }
}

fn key(d: f64) -> i64 {
    total_order_key(d.to_bits())
}

#[test]
fn cell_point_takes_low_hash_bits() {
    let (ox, oz) = cell_point(10, -3, 8);
    assert_eq!(ox as u64, hash_u64(10 + POINT_X_SALT, -3, 8) & 0xFFFF);
    assert_eq!(oz as u64, hash_u64(10 + POINT_Z_SALT, -3, 8) & 0xFFFF);
    let (wx, wz) = cell_point(u64::MAX, 0, 0);
    assert_eq!(wx as u64, hash_u64(POINT_X_SALT - 1, 0, 0) & 0xFFFF);
    assert_eq!(wz as u64, hash_u64(POINT_Z_SALT - 1, 0, 0) & 0xFFFF);
}

#[test]
fn neighborhood_enumerates_in_fixed_order() {
    let g: BiomeGenerator<Tile> = BiomeGenerator::UniformDistribution;
    let cs = neighborhood(&g, 3, 10, -4).unwrap();
    assert_eq!(cs.len(), NEIGHBORHOOD_SIZE);
    let order = [(-1, -1), (-1, 0), (-1, 1), (0, -1), (0, 0), (0, 1), (1, -1), (1, 0), (1, 1)];
    for (c, (dx, dz)) in cs.iter().zip(order) {
        assert_eq!((c.cell_x, c.cell_z), (10 + dx, -4 + dz));
        assert_eq!((c.offset_x, c.offset_z), cell_point(3, c.cell_x, c.cell_z));
        assert_eq!(Some(c.biome), g.pick_biome(3, c.cell_x, c.cell_z));
    }
}

#[test]
fn neighborhood_is_reproducible() {
    let g = BiomeGenerator::Weighted(vec![(Tile::Sand, 1 << 23), (Tile::Ice, 1 << 23)]);
    let a = neighborhood(&g, 8, 0, 0).unwrap();
    let b = neighborhood(&g, 8, 0, 0).unwrap();
    for (x, y) in a.iter().zip(b.iter()) {
        assert_eq!((x.cell_x, x.cell_z, x.offset_x, x.offset_z), (y.cell_x, y.cell_z, y.offset_x, y.offset_z));
        assert_eq!(x.biome, y.biome);
    }
}

#[test]
fn neighborhood_without_choices_is_none() {
    let g: BiomeGenerator<Tile> = BiomeGenerator::UniformDistribution;
    assert!(neighborhood_from(&g, &[], 0, 0, 0).is_none());
    let w: BiomeGenerator<Tile> = BiomeGenerator::Weighted(vec![]);
    assert!(neighborhood(&w, 0, 0, 0).is_none());
}

#[test]
fn selection_has_min_of_k_and_nine_entries() {
    let keys: Vec<i64> = vec![9, 8, 7, 6, 5, 4, 3, 2, 1];
    for k in [0usize, 1, 3, 8, 9, 10, 100] {
        assert_eq!(select_nearest(&keys, k).len(), k.min(9));
    }
}

#[test]
fn selection_is_smallest_first() {
    let keys: Vec<i64> = vec![40, 10, 90, 20, 70, 30, 80, 60, 50];
    assert_eq!(select_nearest(&keys, 3), vec![1, 3, 5]);
    assert_eq!(select_nearest(&keys, 9), vec![1, 3, 5, 0, 8, 7, 4, 6, 2]);
    assert_eq!(select_nearest(&keys, 1), vec![1]);
    assert_eq!(select_nearest(&keys, 0), Vec::<usize>::new());
}

#[test]
fn selection_ties_go_to_earlier_candidate() {
    let keys: Vec<i64> = vec![5, 3, 3, 7, 3, 9, 9, 9, 9];
    assert_eq!(select_nearest(&keys, 1), vec![1]);
    assert_eq!(select_nearest(&keys, 2), vec![1, 2]);
    assert_eq!(select_nearest(&keys, 4), vec![1, 2, 4, 0]);
    let same: Vec<i64> = vec![0; 9];
    assert_eq!(select_nearest(&same, 5), vec![0, 1, 2, 3, 4]);
    for _ in 0..3 {
        assert_eq!(select_nearest(&keys, 3), vec![1, 2, 4]);
    }
}

#[test]
fn total_order_key_orders_as_total_cmp() {
    assert_eq!(total_order_key(0), 0);
    assert_eq!(key(1.5), 1.5f64.to_bits() as i64);
    let vals = [f64::NEG_INFINITY, -2.0, -0.5, -0.0, 0.0, 1e-300, 0.5, 5.0, f64::INFINITY, f64::NAN];
    for a in vals {
        for b in vals {
            assert_eq!(key(a).cmp(&key(b)), a.total_cmp(&b), "{} {}", a, b);
        }
    }
    assert!(key(-0.0) < key(0.0));
}

#[test]
fn single_nearest_cell_gets_full_weight() {
    // seed 0, zoom 100, k 1, sharpness 20, Euclidean, no warp, query (0, 0)
    let g: BiomeGenerator<Tile> = BiomeGenerator::UniformDistribution;
    let zoom = 100.0f64;
    let (x, z) = ((0.0f64 / zoom) as f32 as f64, (0.0f64 / zoom) as f32 as f64);
    let cs = neighborhood(&g, 0, x.floor() as i32, z.floor() as i32).unwrap();
    let dists: Vec<f64> = cs
        .iter()
        .map(|c| {
            let fx = c.cell_x as f64 + c.offset_x as f64 / 65535.0;
            let fz = c.cell_z as f64 + c.offset_z as f64 / 65535.0;
            ((x - fx) * (x - fx) + (z - fz) * (z - fz)).sqrt()
        })
        .collect();
    let keys: Vec<i64> = dists.iter().map(|d| key(*d)).collect();
    let picked = select_nearest(&keys, 1);
    assert_eq!(picked.len(), 1);
    let best = (0..9).fold(0, |b, i| if dists[i] < dists[b] { i } else { b });
    assert_eq!(picked[0], best);
    let w = 1.0 / dists[best].powf(20.0);
    assert_eq!(w / w, 1.0);
    assert_eq!(Some(cs[best].biome), g.pick_biome(0, cs[best].cell_x, cs[best].cell_z));
}
