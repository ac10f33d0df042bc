//! The level-of-detail policy: distance bands and the detail reduction each one asks for.

use vstd::prelude::*;

verus! {

/// One band of the policy: beyond `distance`, geometry is reduced by the factor `lod`.
/// A factor of zero means full resolution.
#[derive(Clone, Copy, Debug, PartialEq, Eq, Structural)]
pub struct LevelOfDetailInfo {
    pub lod: u32,
    pub distance: u32,
}

impl LevelOfDetailInfo {
    pub fn new(lod: u32, distance: u32) -> (info: Self)
        ensures
            info.lod == lod,
            info.distance == distance,
    {
        Self { lod, distance }
    }
}

/// True when a squared distance lies strictly beyond a trigger distance.
pub open spec fn exceeds(distance_squared: int, trigger: int) -> bool {
    distance_squared > trigger * trigger
}

/// The highest index below `n` whose trigger distance is exceeded, or zero when there is none.
pub open spec fn selected_below(table: Seq<LevelOfDetailInfo>, distance_squared: int, n: int) -> int
    decreases n,
{
    if n <= 0 {
        0
    } else if exceeds(distance_squared, table[n - 1].distance as int) {
        n - 1
    } else {
        selected_below(table, distance_squared, n - 1)
    }
}

/// The level that the policy selects for a chunk at the given squared distance.
pub open spec fn selected_level(table: Seq<LevelOfDetailInfo>, distance_squared: int) -> int {
    selected_below(table, distance_squared, table.len() as int)
}

/// True when detail factors never fall from one band to the next.
pub open spec fn detail_factors_ascend(table: Seq<LevelOfDetailInfo>) -> bool {
    forall|i: int, j: int| 0 <= i <= j < table.len() ==> table[i].lod <= table[j].lod
}

/// True when trigger distances never fall from one band to the next.
pub open spec fn trigger_distances_ascend(table: Seq<LevelOfDetailInfo>) -> bool {
    forall|i: int, j: int| 0 <= i <= j < table.len() ==> table[i].distance <= table[j].distance
}

/// The policy that a container starts with.
pub open spec fn standard_detail_levels() -> Seq<LevelOfDetailInfo> {
    seq![
        LevelOfDetailInfo { lod: 0, distance: 200 },
        LevelOfDetailInfo { lod: 1, distance: 300 },
        LevelOfDetailInfo { lod: 2, distance: 400 },
        LevelOfDetailInfo { lod: 4, distance: 600 },
    ]
}

/// What the selected index is: it names a band, its trigger is exceeded unless it is the
/// default zero, and no later band's trigger is exceeded.
pub proof fn lemma_selected_below_is_highest(
    table: Seq<LevelOfDetailInfo>,
    distance_squared: int,
    n: int,
)
    requires
        0 <= n <= table.len(),
    ensures
        0 <= selected_below(table, distance_squared, n),
        n > 0 ==> selected_below(table, distance_squared, n) < n,
        selected_below(table, distance_squared, n) != 0 ==> exceeds(
            distance_squared,
            table[selected_below(table, distance_squared, n)].distance as int,
        ),
        forall|j: int|
            selected_below(table, distance_squared, n) < j < n ==> !exceeds(
                distance_squared,
                #[trigger] table[j].distance as int,
            ),
    decreases n,
{
    if n > 0 && !exceeds(distance_squared, table[n - 1].distance as int) {
        lemma_selected_below_is_highest(table, distance_squared, n - 1);
    }
}

/// A chunk that is farther away is never given a lower index.
pub proof fn lemma_selected_below_monotonic(
    table: Seq<LevelOfDetailInfo>,
    nearer: int,
    farther: int,
    n: int,
)
    requires
        nearer <= farther,
        0 <= n <= table.len(),
    ensures
        selected_below(table, nearer, n) <= selected_below(table, farther, n),
    decreases n,
{
    if n > 0 {
        lemma_selected_below_is_highest(table, nearer, n);
        lemma_selected_below_is_highest(table, farther, n);
        if !exceeds(farther, table[n - 1].distance as int) {
            lemma_selected_below_monotonic(table, nearer, farther, n - 1);
        }
    }
}

/// Moving the viewpoint away from a chunk never lowers the detail factor selected for it:
/// geometry gets coarser or stays as it is.
pub proof fn lemma_detail_factor_monotonic(
    table: Seq<LevelOfDetailInfo>,
    nearer: int,
    farther: int,
)
    requires
        table.len() > 0,
        detail_factors_ascend(table),
        nearer <= farther,
    ensures
        selected_level(table, nearer) <= selected_level(table, farther),
        table[selected_level(table, nearer)].lod <= table[selected_level(table, farther)].lod,
{
    lemma_selected_below_monotonic(table, nearer, farther, table.len() as int);
    lemma_selected_below_is_highest(table, nearer, table.len() as int);
    lemma_selected_below_is_highest(table, farther, table.len() as int);
}

/// The standard policy is sorted by distance and by detail factor.
pub proof fn lemma_standard_detail_levels_ascend()
    ensures
        standard_detail_levels().len() == 4,
        detail_factors_ascend(standard_detail_levels()),
        trigger_distances_ascend(standard_detail_levels()),
{
}

/// Builds the policy that a container starts with.
pub fn default_detail_levels() -> (table: Vec<LevelOfDetailInfo>)
    ensures
        table@ == standard_detail_levels(),
{
    let mut table: Vec<LevelOfDetailInfo> = Vec::new();
    table.push(LevelOfDetailInfo::new(0, 200));
    table.push(LevelOfDetailInfo::new(1, 300));
    table.push(LevelOfDetailInfo::new(2, 400));
    table.push(LevelOfDetailInfo::new(4, 600));
    assert(table@ =~= standard_detail_levels());
    table
}

/// Tells whether a squared distance lies strictly beyond a trigger distance.
pub fn is_beyond(distance_squared: u128, trigger: u32) -> (beyond: bool)
    ensures
        beyond == exceeds(distance_squared as int, trigger as int),
{
    assert(trigger * trigger <= 0xffff_ffff * 0xffff_ffff) by (nonlinear_arith)
        requires
            0 <= trigger <= 0xffff_ffff,
    {
    }
    let squared: u64 = (trigger as u64) * (trigger as u64);
    distance_squared > squared as u128
}

/// Selects the level for a chunk at the given squared distance: the highest band whose
/// trigger distance is exceeded, or the first band when none is.
pub fn select_level(table: &Vec<LevelOfDetailInfo>, distance_squared: u128) -> (index: usize)
    ensures
        index == selected_level(table@, distance_squared as int),
        table@.len() > 0 ==> index < table@.len(),
{
    let mut index: usize = 0;
    let mut i: usize = 0;
    while i < table.len()
        invariant
            0 <= i <= table@.len(),
            index == selected_below(table@, distance_squared as int, i as int),
        decreases table@.len() - i,
    {
        if is_beyond(distance_squared, table[i].distance) {
            index = i;
        }
        i = i + 1;
    }
    proof {
        lemma_selected_below_is_highest(table@, distance_squared as int, table@.len() as int);
    }
    index
}

} // verus!
