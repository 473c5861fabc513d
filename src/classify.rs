//! Classification of terrain vertices into surface categories by height and
//! by the up-component of the smoothed normal. Both quantities are given in
//! thousandths of a unit (a height of `-14.5` is `-14500`, a normal
//! up-component of `0.6` is `600`).

use vstd::prelude::*;

verus! {

/// Surface category of a terrain vertex.
#[derive(Clone, Copy, Debug, PartialEq, Eq, Structural)]
pub enum Surface {
    /// Below sea level.
    Sea,
    /// Too steep to hold vegetation.
    Cliff,
    /// Vegetated ground on a moderate slope.
    Steep,
    /// Vegetated ground that is nearly level.
    Flat,
    /// At or above the peak height.
    Peak,
}

/// The cut values of the classifier, in thousandths of a unit.
#[derive(Clone, Copy, Debug)]
pub struct Thresholds {
    /// A vertex lower than this is sea.
    pub sea_height: i32,
    /// A vertex at least this high (and not sea or cliff) is a peak.
    pub peak_height: i32,
    /// A normal whose up-component is below this marks a cliff.
    pub cliff_normal_y: i32,
    /// A normal whose up-component is above this marks flat ground.
    pub flat_normal_y: i32,
}

/// The category of a vertex at height `h` whose normal has up-component `ny`.
pub open spec fn classify_spec(h: int, ny: int, t: Thresholds) -> Surface {
    if h < t.sea_height {
        Surface::Sea
    } else if ny < t.cliff_normal_y {
        Surface::Cliff
    } else if h < t.peak_height {
        if ny > t.flat_normal_y {
            Surface::Flat
        } else {
            Surface::Steep
        }
    } else {
        Surface::Peak
    }
}

impl Default for Thresholds {
    /// Sea below `-14.5`, peaks from `24.0`, cliffs where the normal's
    /// up-component is below `0.6`, flat ground where it is above `0.98`.
    fn default() -> (r: Thresholds)
        ensures
            r.sea_height == -14500,
            r.peak_height == 24000,
            r.cliff_normal_y == 600,
            r.flat_normal_y == 980,
    {
        Thresholds { sea_height: -14500, peak_height: 24000, cliff_normal_y: 600, flat_normal_y: 980 }
    }
}

/// The category of a vertex at height `h` whose normal has up-component
/// `ny`: sea below the sea height; otherwise cliff where the normal is too
/// far from vertical; otherwise, below the peak height, flat or steep
/// ground by the normal; otherwise peak.
pub fn classify(h: i32, ny: i32, t: &Thresholds) -> (r: Surface)
    ensures
        r == classify_spec(h as int, ny as int, *t),
{
    if h < t.sea_height {
        Surface::Sea
    } else if ny < t.cliff_normal_y {
        Surface::Cliff
    } else if h < t.peak_height {
        if ny > t.flat_normal_y {
            Surface::Flat
        } else {
            Surface::Steep
        }
    } else {
        Surface::Peak
    }
}

/// The category of every vertex, from its height and its normal's
/// up-component at the same position.
pub fn classify_all(heights: &Vec<i32>, normals_y: &Vec<i32>, t: &Thresholds) -> (r: Vec<Surface>)
    requires
        heights@.len() == normals_y@.len(),
    ensures
        r@.len() == heights@.len(),
        forall|v: int|
            0 <= v < r@.len() ==> #[trigger] r@[v] == classify_spec(
                heights@[v] as int,
                normals_y@[v] as int,
                *t,
            ),
{
    let mut r: Vec<Surface> = Vec::with_capacity(heights.len());
    let mut v: usize = 0;
    while v < heights.len()
        invariant
            heights@.len() == normals_y@.len(),
            v <= heights@.len(),
            r@.len() == v,
            forall|u: int|
                0 <= u < v ==> #[trigger] r@[u] == classify_spec(
                    heights@[u] as int,
                    normals_y@[u] as int,
                    *t,
                ),
        decreases heights@.len() - v,
    {
        r.push(classify(heights[v], normals_y[v], t));
        v = v + 1;
    }
    r
}

} // verus!
