use minkraft::geom::Point3i;
use minkraft::terrain::generate_chunk_stack;
use minkraft::voxel::{TerrainConfig, Voxel};
use simdnoise::NoiseBuilder;

fn noise_heights(x0: i32, z0: i32, edge: usize, seed: i32, freq: f32, scale: f32) -> Vec<i32> {
    let (noise, _, _) = NoiseBuilder::ridge_2d_offset(x0 as f32, edge, z0 as f32, edge)
        .with_seed(seed)
        .with_freq(freq)
        .generate();
    noise.iter().map(|v| (scale * v + 8.0).ceil() as i32).collect()
}

#[test]
fn generation_is_reproducible_for_fixed_noise_settings() {
    let t = TerrainConfig { y_offset: 0, y_scale: 100 };
    let a = noise_heights(0, 0, 16, 1234, 0.15, 20.0);
    let b = noise_heights(0, 0, 16, 1234, 0.15, 20.0);
    assert_eq!(a, b);
    let first = generate_chunk_stack(Point3i { x: 0, y: 0, z: 0 }, 4, &a, t);
    let second = generate_chunk_stack(Point3i { x: 0, y: 0, z: 0 }, 4, &b, t);
    assert_eq!(first, second);
    assert!(!first.is_empty());
    for (min, voxels) in &first {
        assert_eq!((min.x, min.z), (0, 0));
        for z in 0..16usize {
            for x in 0..16usize {
                let h = a[z * 16 + x];
                for y in 0..16usize {
                    let v = voxels[x + 16 * (y + 16 * z)];
                    assert_eq!(v == Voxel(0), min.y + y as i32 >= h);
                }
            }
        }
    }
}

