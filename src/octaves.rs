//! Octave tables of the fractal heightmaps. A composed height is the sum
//! over its octaves of `noise(x / divisor, y / divisor) * amplitude`; since
//! one octave of noise stays within `[-1, 1]`, the sum of the amplitudes
//! bounds the composed height.

use vstd::prelude::*;

verus! {

/// One noise layer: its spatial divisor (wavelength) and its amplitude.
#[derive(Clone, Copy, Debug, PartialEq, Eq, Structural)]
pub struct Octave {
    pub divisor: u32,
    pub amplitude: u32,
}

/// Sum of the amplitudes of `octaves`.
pub open spec fn amplitude_sum_spec(octaves: Seq<Octave>) -> nat
    decreases octaves.len(),
{
    if octaves.len() == 0 {
        0
    } else {
        amplitude_sum_spec(octaves.drop_last()) + octaves.last().amplitude as nat
    }
}

/// The four octaves of the terrain and sky heightmaps: divisors 3, 13, 43
/// and 197 with amplitudes 1, 4, 16 and 64.
pub fn terrain_octaves() -> (r: Vec<Octave>)
    ensures
        r@ == seq![
            Octave { divisor: 3, amplitude: 1 },
            Octave { divisor: 13, amplitude: 4 },
            Octave { divisor: 43, amplitude: 16 },
            Octave { divisor: 197, amplitude: 64 },
        ],
{
    vec![
        Octave { divisor: 3, amplitude: 1 },
        Octave { divisor: 13, amplitude: 4 },
        Octave { divisor: 43, amplitude: 16 },
        Octave { divisor: 197, amplitude: 64 },
    ]
}

/// The sum of the amplitudes of `octaves`: the largest magnitude their
/// composed height can reach.
pub fn amplitude_sum(octaves: &Vec<Octave>) -> (r: u64)
    requires
        octaves@.len() <= u32::MAX,
    ensures
        r as nat == amplitude_sum_spec(octaves@),
{
    let mut sum: u64 = 0;
    let mut i: usize = 0;
    while i < octaves.len()
        invariant
            octaves@.len() <= u32::MAX,
            i <= octaves@.len(),
            sum as nat == amplitude_sum_spec(octaves@.subrange(0, i as int)),
            sum <= i * (u32::MAX as int),
        decreases octaves@.len() - i,
    {
        assert(octaves@.subrange(0, i + 1).drop_last() =~= octaves@.subrange(0, i as int));
        assert(sum + octaves@[i as int].amplitude <= (i + 1) * (u32::MAX as int)) by (nonlinear_arith)
            requires
                sum <= i * (u32::MAX as int),
                octaves@[i as int].amplitude <= u32::MAX,
        ;
        assert((i + 1) * (u32::MAX as int) <= u64::MAX) by (nonlinear_arith)
            requires
                i < u32::MAX,
        ;
        sum = sum + octaves[i].amplitude as u64;
        i = i + 1;
    }
    assert(octaves@.subrange(0, i as int) =~= octaves@);
    sum
}

/// The terrain octaves bound the composed terrain height to `[-85, 85]`.
pub proof fn lemma_terrain_amplitude_sum()
    ensures
        amplitude_sum_spec(
            seq![
                Octave { divisor: 3, amplitude: 1 },
                Octave { divisor: 13, amplitude: 4 },
                Octave { divisor: 43, amplitude: 16 },
                Octave { divisor: 197, amplitude: 64 },
            ],
        ) == 85,
{
    reveal_with_fuel(amplitude_sum_spec, 5);
    let s = seq![
        Octave { divisor: 3, amplitude: 1 },
        Octave { divisor: 13, amplitude: 4 },
        Octave { divisor: 43, amplitude: 16 },
        Octave { divisor: 197, amplitude: 64 },
    ];
    assert(s.drop_last() =~= s.subrange(0, 3));
    assert(s.subrange(0, 3).drop_last() =~= s.subrange(0, 2));
    assert(s.subrange(0, 2).drop_last() =~= s.subrange(0, 1));
    assert(s.subrange(0, 1).drop_last() =~= s.subrange(0, 0));
}

} // verus!
