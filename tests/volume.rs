use terrain_synth::volume::{lattice_point, pack_volume, read_texel, TexelFormat};

fn samples(side: u32) -> Vec<u32> {
    (0..side * side * side).map(|n| 0x0102_0304u32.wrapping_mul(n + 1) ^ (n << 24)).collect()
}

#[test]
fn volume_single_channel_layout() {
    let s = 3u32;
    let data = samples(s);
    let v = pack_volume(s, TexelFormat::R32Float, &data);
    assert_eq!(v.bytes.len(), 27 * 4);
    assert_eq!(v.side, 3);
    assert_eq!(v.format, TexelFormat::R32Float);
    for k in 0..s {
        for j in 0..s {
            for i in 0..s {
                let cell = (i + j * s + k * s * s) as usize;
                let off = 4 * cell;
                let word = u32::from_le_bytes(v.bytes[off..off + 4].try_into().unwrap());
                assert_eq!(word, data[cell]);
                assert_eq!(read_texel(&v, i, j, k, 0), data[cell]);
            }
        }
    }
}

#[test]
fn volume_rgba_broadcasts_each_sample() {
    let s = 2u32;
    let data = samples(s);
    let v = pack_volume(s, TexelFormat::Rgba32Float, &data);
    assert_eq!(v.bytes.len(), 8 * 4 * 4);
    for cell in 0..8usize {
        let (i, j, k) = lattice_point(s, cell);
        for ch in 0..4usize {
            let off = 4 * (4 * cell + ch);
            assert_eq!(u32::from_le_bytes(v.bytes[off..off + 4].try_into().unwrap()), data[cell]);
            assert_eq!(read_texel(&v, i, j, k, ch), data[cell]);
        }
    }
}

#[test]
fn volume_float_round_trip() {
    let values = [1.5f32, -0.25, 85.0, -85.0, 0.0, f32::MIN_POSITIVE, 3.0e-7, 1234.5];
    let bits: Vec<u32> = values.iter().map(|f| f.to_bits()).collect();
    let v = pack_volume(2, TexelFormat::R32Float, &bits);
    assert_eq!(&v.bytes[0..4], &1.5f32.to_le_bytes());
    for (cell, expected) in values.iter().enumerate() {
        let (i, j, k) = lattice_point(2, cell);
        assert_eq!(f32::from_bits(read_texel(&v, i, j, k, 0)), *expected);
    }
}

#[test]
fn volume_lattice_point_order() {
    assert_eq!(lattice_point(3, 0), (0, 0, 0));
    assert_eq!(lattice_point(3, 1), (1, 0, 0));
    assert_eq!(lattice_point(3, 3), (0, 1, 0));
    assert_eq!(lattice_point(3, 14), (2, 1, 1));
    assert_eq!(lattice_point(3, 26), (2, 2, 2));
}

#[test]
fn volume_empty_lattice() {
    let v = pack_volume(0, TexelFormat::Rgba32Float, &Vec::new());
    assert!(v.bytes.is_empty());
    assert_eq!(TexelFormat::R32Float.channels(), 1);
    assert_eq!(TexelFormat::Rgba32Float.channels(), 4);
}
