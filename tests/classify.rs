use terrain_synth::classify::{classify, classify_all, Surface, Thresholds};

#[test]
fn classify_sea_and_peak_defaults() {
    let t = Thresholds::default();
    assert_eq!(classify(-20_000, 1000, &t), Surface::Sea);
    assert_eq!(classify(30_000, 1000, &t), Surface::Peak);
    assert_eq!(classify(30_000, 999, &t), Surface::Peak);
}

#[test]
fn classify_slopes_between_sea_and_peak() {
    let t = Thresholds::default();
    assert_eq!(classify(0, 500, &t), Surface::Cliff);
    assert_eq!(classify(0, 990, &t), Surface::Flat);
    assert_eq!(classify(0, 900, &t), Surface::Steep);
    assert_eq!(classify(30_000, 100, &t), Surface::Cliff);
    assert_eq!(classify(-20_000, 0, &t), Surface::Sea);
}

#[test]
fn classify_threshold_edges() {
    let t = Thresholds::default();
    assert_eq!(classify(-14_500, 1000, &t), Surface::Flat);
    assert_eq!(classify(-14_501, 1000, &t), Surface::Sea);
    assert_eq!(classify(24_000, 1000, &t), Surface::Peak);
    assert_eq!(classify(23_999, 1000, &t), Surface::Flat);
    assert_eq!(classify(0, 600, &t), Surface::Steep);
    assert_eq!(classify(0, 599, &t), Surface::Cliff);
    assert_eq!(classify(0, 980, &t), Surface::Steep);
    assert_eq!(classify(0, 981, &t), Surface::Flat);
}

#[test]
fn classify_every_vertex() {
    let t = Thresholds::default();
    let heights = vec![-20_000, 0, 0, 0, 30_000];
    let normals_y = vec![1000, 500, 900, 990, 1000];
    assert_eq!(
        classify_all(&heights, &normals_y, &t),
        vec![Surface::Sea, Surface::Cliff, Surface::Steep, Surface::Flat, Surface::Peak]
    );
    assert!(classify_all(&Vec::new(), &Vec::new(), &t).is_empty());
}

#[test]
fn classify_custom_thresholds() {
    let t = Thresholds { sea_height: 0, peak_height: 10, cliff_normal_y: 100, flat_normal_y: 200 };
    assert_eq!(classify(-1, 1000, &t), Surface::Sea);
    assert_eq!(classify(5, 150, &t), Surface::Steep);
    assert_eq!(classify(5, 250, &t), Surface::Flat);
    assert_eq!(classify(10, 250, &t), Surface::Peak);
}
