//! The material table: which material a terrain sample gets, by its height.

use vstd::prelude::*;

verus! {

/// One entry of the material table. Heights and limits are normalized heights in the
/// same fixed-point unit; the entry covers every height up to and including its limit.
#[derive(Clone, Copy, Debug, PartialEq, Eq, Structural)]
pub struct Material {
    pub height_limit: u32,
}

impl Material {
    pub fn new(height_limit: u32) -> (material: Material)
        ensures
            material.height_limit == height_limit,
    {
        Material { height_limit }
    }
}

/// The first entry at or after `start` whose limit is at least `height`.
pub open spec fn first_covering_from(materials: Seq<Material>, height: u32, start: int) -> Option<
    int,
>
    decreases materials.len() - start,
{
    if start < 0 || start >= materials.len() {
        None
    } else if height <= materials[start].height_limit {
        Some(start)
    } else {
        first_covering_from(materials, height, start + 1)
    }
}

/// The material of a sample: the first entry of the table whose limit is at least the
/// sample's height. `None` when the height lies above every limit.
pub open spec fn material_for(materials: Seq<Material>, height: u32) -> Option<int> {
    first_covering_from(materials, height, 0)
}

/// True when limits never fall from one entry to the next.
pub open spec fn height_limits_ascend(materials: Seq<Material>) -> bool {
    forall|i: int, j: int|
        0 <= i <= j < materials.len() ==> materials[i].height_limit <= materials[j].height_limit
}

/// What the search returns: the entry it names covers the height and no earlier one does;
/// it names none only when no entry from `start` on covers the height.
pub proof fn lemma_first_covering_from(materials: Seq<Material>, height: u32, start: int)
    requires
        0 <= start,
    ensures
        match first_covering_from(materials, height, start) {
            Some(i) => {
                &&& start <= i < materials.len()
                &&& height <= materials[i].height_limit
                &&& forall|j: int| start <= j < i ==> height > (#[trigger] materials[j]).height_limit
            },
            None => forall|j: int|
                start <= j < materials.len() ==> height > (#[trigger] materials[j]).height_limit,
        },
    decreases materials.len() - start,
{
    if start < materials.len() && height > materials[start].height_limit {
        lemma_first_covering_from(materials, height, start + 1);
    }
}

/// Tells whether the table is sorted by limit.
pub fn limits_ascend(materials: &Vec<Material>) -> (sorted: bool)
    ensures
        sorted == height_limits_ascend(materials@),
{
    let mut i: usize = 1;
    while i < materials.len()
        invariant
            1 <= i,
            forall|a: int, b: int|
                0 <= a <= b < i && b < materials@.len() ==> materials@[a].height_limit
                    <= materials@[b].height_limit,
        decreases materials@.len() - i,
    {
        if materials[i - 1].height_limit > materials[i].height_limit {
            return false;
        }
        i = i + 1;
    }
    true
}

/// Finds the material of a sample of the given height.
pub fn select_material(materials: &Vec<Material>, height: u32) -> (selected: Option<usize>)
    ensures
        match selected {
            Some(i) => material_for(materials@, height) == Some(i as int),
            None => material_for(materials@, height).is_none(),
        },
{
    let mut i: usize = 0;
    while i < materials.len()
        invariant
            0 <= i <= materials@.len(),
            material_for(materials@, height) == first_covering_from(materials@, height, i as int),
        decreases materials@.len() - i,
    {
        if height <= materials[i].height_limit {
            return Some(i);
        }
        i = i + 1;
    }
    None
}

} // verus!
