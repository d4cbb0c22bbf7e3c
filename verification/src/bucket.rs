use crate::types::{property_views, Property, PropertyView};
use vstd::prelude::*;
use vstd::relations::{sorted_by, total_ordering};
use vstd::seq_lib::{group_to_multiset_ensures, lemma_sorted_unique};

verus! {

/// The inclusive band of prices whose sales a bucket lists one by one.
#[derive(Clone, Copy, Debug, PartialEq, Eq, Structural)]
pub struct PriceBand {
    pub min: i32,
    pub max: i32,
}

impl PriceBand {
    /// `price` lies in the band, both ends included.
    pub open spec fn holds(self, price: i32) -> bool {
        self.min <= price <= self.max
    }

    /// Whether `price` lies in the band, both ends included.
    pub fn contains(&self, price: i32) -> (inside: bool)
        ensures
            inside == self.holds(price),
    {
        self.min <= price && price <= self.max
    }
}

impl Default for PriceBand {
    /// The band from 300,000 to 800,000.
    fn default() -> (band: Self)
        ensures
            band.min == 300_000,
            band.max == 800_000,
    {
        PriceBand { min: 300_000, max: 800_000 }
    }
}

/// A median of whole prices, held exactly: `doubled` is twice the median, so
/// that the mean of two middle prices needs no fraction.
#[derive(Clone, Copy, Debug, PartialEq, Eq, Structural)]
pub struct Median {
    pub doubled: i64,
}

/// The summary of the sales of one postcode, property type and property age
/// within one year.
#[derive(Debug)]
pub struct PriceBucket {
    pub count: usize,
    pub median: Median,
    /// The lowest and the highest price.
    pub range: (i32, i32),
    /// The sales whose price lies in the band, in the order they came.
    pub properties: Vec<Property>,
}

/// What a `PriceBucket` holds, as plain values.
pub struct PriceBucketView {
    pub count: nat,
    pub median_doubled: int,
    pub range: (int, int),
    pub properties: Seq<PropertyView>,
}

impl View for PriceBucket {
    type V = PriceBucketView;

    open spec fn view(&self) -> PriceBucketView {
        PriceBucketView {
            count: self.count as nat,
            median_doubled: self.median.doubled as int,
            range: (self.range.0 as int, self.range.1 as int),
            properties: property_views(self.properties@),
        }
    }
}

/// The prices of a run of samples, in order.
pub open spec fn prices_of(samples: Seq<PropertyView>) -> Seq<i32> {
    samples.map_values(|p: PropertyView| p.price)
}

/// No price is followed by a lower one.
pub open spec fn ascending(prices: Seq<i32>) -> bool {
    forall|i: int, j: int| 0 <= i <= j < prices.len() ==> prices[i] <= prices[j]
}

/// The prices rearranged into ascending order.
pub open spec fn sorted_prices(prices: Seq<i32>) -> Seq<i32> {
    choose|sorted: Seq<i32>| ascending(sorted) && sorted.to_multiset() == prices.to_multiset()
}

/// Twice the middle of `prices` as they stand: the sum of the two middle
/// prices where the count is even, twice the middle price where it is odd,
/// and zero where there is none.
pub open spec fn middle_doubled(prices: Seq<i32>) -> int {
    let n = prices.len() as int;
    if n == 0 {
        0
    } else if n % 2 == 0 {
        prices[n / 2 - 1] + prices[n / 2]
    } else {
        2 * prices[n / 2]
    }
}

/// Twice the statistical median of `prices`, zero for no prices.
pub open spec fn median_doubled(prices: Seq<i32>) -> int {
    middle_doubled(sorted_prices(prices))
}

/// `low` occurs among `prices`, and none of them is lower.
pub open spec fn is_lowest(low: int, prices: Seq<i32>) -> bool {
    &&& exists|i: int| 0 <= i < prices.len() && prices[i] == low
    &&& forall|i: int| 0 <= i < prices.len() ==> low <= prices[i]
}

/// `high` occurs among `prices`, and none of them is higher.
pub open spec fn is_highest(high: int, prices: Seq<i32>) -> bool {
    &&& exists|i: int| 0 <= i < prices.len() && prices[i] == high
    &&& forall|i: int| 0 <= i < prices.len() ==> prices[i] <= high
}

/// The lowest of `prices`, zero for no prices.
pub open spec fn lowest(prices: Seq<i32>) -> int {
    if prices.len() == 0 {
        0
    } else {
        choose|low: int| is_lowest(low, prices)
    }
}

/// The highest of `prices`, zero for no prices.
pub open spec fn highest(prices: Seq<i32>) -> int {
    if prices.len() == 0 {
        0
    } else {
        choose|high: int| is_highest(high, prices)
    }
}

/// The samples whose price lies in `band`, in their order.
pub open spec fn in_band(samples: Seq<PropertyView>, band: PriceBand) -> Seq<PropertyView> {
    samples.filter(|p: PropertyView| band.holds(p.price))
}

/// The bucket that summarises `samples`: how many there are, their median,
/// their lowest and highest price, and those within `band`.
pub open spec fn bucket_of(samples: Seq<PropertyView>, band: PriceBand) -> PriceBucketView {
    PriceBucketView {
        count: samples.len(),
        median_doubled: median_doubled(prices_of(samples)),
        range: (lowest(prices_of(samples)), highest(prices_of(samples))),
        properties: in_band(samples, band),
    }
}

/// Lists with the same elements are as long as each other and have the
/// same members.
proof fn lemma_same_members(a: Seq<i32>, b: Seq<i32>)
    requires
        a.to_multiset() == b.to_multiset(),
    ensures
        a.len() == b.len(),
        forall|x: i32| a.contains(x) <==> b.contains(x),
{
    broadcast use group_to_multiset_ensures;

    assert(a.len() == a.to_multiset().len());
    assert(b.len() == b.to_multiset().len());
    assert forall|x: i32| a.contains(x) <==> b.contains(x) by {
        assert(a.contains(x) <==> a.to_multiset().count(x) > 0);
        assert(b.contains(x) <==> b.to_multiset().count(x) > 0);
    }
}

/// Every list of prices has an ascending rearrangement, and
/// `sorted_prices` is one.
pub proof fn lemma_sorted_prices(prices: Seq<i32>)
    ensures
        ascending(sorted_prices(prices)),
        sorted_prices(prices).to_multiset() == prices.to_multiset(),
        sorted_prices(prices).len() == prices.len(),
{
    let leq = |a: i32, b: i32| a <= b;
    assert(total_ordering(leq));
    let sorted = prices.sort_by(leq);
    prices.lemma_sort_by_ensures(leq);
    assert(ascending(sorted)) by {
        assert forall|i: int, j: int| 0 <= i <= j < sorted.len() implies sorted[i] <= sorted[j] by {
            if i < j {
                assert(leq(sorted[i], sorted[j]));
            }
        }
    }
    assert(sorted.to_multiset() == prices.to_multiset());
    lemma_same_members(sorted_prices(prices), prices);
}

/// The ascending rearrangement of a list of prices is unique.
pub proof fn lemma_sorted_prices_unique(prices: Seq<i32>, sorted: Seq<i32>)
    requires
        ascending(sorted),
        sorted.to_multiset() == prices.to_multiset(),
    ensures
        sorted_prices(prices) == sorted,
{
    let leq = |a: i32, b: i32| a <= b;
    let chosen = sorted_prices(prices);
    assert(ascending(chosen) && chosen.to_multiset() == prices.to_multiset());
    assert(total_ordering(leq));
    assert(sorted_by(sorted, leq));
    assert(sorted_by(chosen, leq));
    lemma_sorted_unique(chosen, sorted, leq);
}

/// Among prices that are not empty, `lowest` and `highest` are the true
/// minimum and maximum: each occurs in the list and bounds all of it. They
/// are the ends of the ascending rearrangement.
pub proof fn lemma_range_is_min_max(prices: Seq<i32>)
    requires
        prices.len() > 0,
    ensures
        is_lowest(lowest(prices), prices),
        is_highest(highest(prices), prices),
        lowest(prices) == sorted_prices(prices).first(),
        highest(prices) == sorted_prices(prices).last(),
        lowest(prices) <= highest(prices),
{
    lemma_sorted_prices(prices);
    let sorted = sorted_prices(prices);
    lemma_same_members(sorted, prices);
    let low = sorted.first();
    let high = sorted.last();
    assert(sorted.contains(low));
    assert(sorted.contains(high));
    assert(prices.contains(low));
    assert(prices.contains(high));
    assert forall|i: int| 0 <= i < prices.len() implies low <= #[trigger] prices[i] <= high by {
        assert(prices.contains(prices[i]));
        assert(sorted.contains(prices[i]));
        let j = choose|j: int| 0 <= j < sorted.len() && sorted[j] == prices[i];
        assert(sorted[0] <= sorted[j] <= sorted[sorted.len() - 1]);
    }
    assert(is_lowest(low as int, prices));
    assert(is_highest(high as int, prices));
    let chosen_low = lowest(prices);
    let chosen_high = highest(prices);
    assert(is_lowest(chosen_low, prices));
    assert(is_highest(chosen_high, prices));
    let at_low = choose|i: int| 0 <= i < prices.len() && prices[i] == chosen_low;
    let at_high = choose|i: int| 0 <= i < prices.len() && prices[i] == chosen_high;
    assert(low <= prices[at_low] && prices[at_high] <= high);
    let low_at = choose|i: int| 0 <= i < prices.len() && prices[i] == low;
    let high_at = choose|i: int| 0 <= i < prices.len() && prices[i] == high;
    assert(chosen_low <= prices[low_at] && prices[high_at] <= chosen_high);
}

/// The median of prices that are not empty is the standard one: with the
/// prices in ascending order, the single middle price where their count is
/// odd, and the mean of the two middle prices where it is even.
pub proof fn lemma_median_is_statistical(prices: Seq<i32>)
    requires
        prices.len() > 0,
    ensures
        ascending(sorted_prices(prices)),
        sorted_prices(prices).to_multiset() == prices.to_multiset(),
        prices.len() % 2 == 1 ==> median_doubled(prices) == 2 * sorted_prices(prices)[prices.len()
            as int / 2],
        prices.len() % 2 == 0 ==> median_doubled(prices) == sorted_prices(prices)[prices.len()
            as int / 2 - 1] + sorted_prices(prices)[prices.len() as int / 2],
        2 * lowest(prices) <= median_doubled(prices) <= 2 * highest(prices),
{
    lemma_sorted_prices(prices);
    lemma_range_is_min_max(prices);
    let sorted = sorted_prices(prices);
    let n = sorted.len() as int;
    assert(sorted[0] <= sorted[n / 2] <= sorted[n - 1]);
    if n % 2 == 0 {
        assert(sorted[0] <= sorted[n / 2 - 1] <= sorted[n - 1]);
    }
}

/// The bucket of no samples: a count of zero, a median of zero, a range
/// from zero to zero, and no sample listed.
pub proof fn lemma_empty_bucket(band: PriceBand)
    ensures
        bucket_of(Seq::empty(), band) == (PriceBucketView {
            count: 0,
            median_doubled: 0,
            range: (0, 0),
            properties: Seq::empty(),
        }),
{
    let none = Seq::<PropertyView>::empty();
    lemma_sorted_prices(prices_of(none));
    reveal(Seq::filter);
    assert(in_band(none, band) =~= Seq::<PropertyView>::empty());
}

/// The median and the range of prices go by which prices there are and how
/// often, not by their order.
pub proof fn lemma_statistics_ignore_order(first: Seq<i32>, second: Seq<i32>)
    requires
        first.to_multiset() == second.to_multiset(),
    ensures
        first.len() == second.len(),
        median_doubled(first) == median_doubled(second),
        lowest(first) == lowest(second),
        highest(first) == highest(second),
{
    lemma_same_members(first, second);
    lemma_sorted_prices(first);
    lemma_sorted_prices_unique(second, sorted_prices(first));
    if first.len() > 0 {
        lemma_range_is_min_max(first);
        lemma_range_is_min_max(second);
    }
}

/// Sorts `prices` with `sort_unstable` of the standard library's slices:
/// afterwards the same prices stand in ascending order.
#[verifier::external_body]
fn sort_prices(prices: &mut Vec<i32>)
    ensures
        final(prices)@.to_multiset() == old(prices)@.to_multiset(),
        ascending(final(prices)@),
{
    prices.sort_unstable();
}

/// Twice the middle of `prices` as they stand, which for ascending prices is
/// twice their median. No prices give zero.
pub fn find_median(prices: &Vec<i32>) -> (median: Median)
    ensures
        median.doubled == middle_doubled(prices@),
        ascending(prices@) ==> median.doubled == median_doubled(prices@),
{
    proof {
        if ascending(prices@) {
            lemma_sorted_prices_unique(prices@, prices@);
        }
    }
    let len: usize = prices.len();
    if len == 0 {
        Median { doubled: 0 }
    } else if len % 2 == 0 {
        let middle: usize = len / 2;
        Median { doubled: prices[middle - 1] as i64 + prices[middle] as i64 }
    } else {
        Median { doubled: 2 * (prices[len / 2] as i64) }
    }
}

/// Summarises the samples of one bucket: their count, median and price
/// range over all of them, and a copy of each sample whose price lies in
/// `band`. The samples themselves stay as they are.
pub fn to_price_bucket(properties: &mut Vec<Property>, band: &PriceBand) -> (bucket: PriceBucket)
    ensures
        bucket@ == bucket_of(property_views(old(properties)@), *band),
        *final(properties) == *old(properties),
{
    let ghost samples = property_views(properties@);
    let ghost keep = |p: PropertyView| band.holds(p.price);
    let count: usize = properties.len();
    let mut prices: Vec<i32> = Vec::new();
    let mut kept: Vec<Property> = Vec::new();
    let mut i: usize = 0;
    proof {
        reveal(Seq::filter);
        assert(samples.take(0).filter(keep) =~= Seq::<PropertyView>::empty());
    }
    while i < count
        invariant
            i <= count,
            count == properties@.len(),
            samples == property_views(properties@),
            *properties == *old(properties),
            keep == |p: PropertyView| band.holds(p.price),
            prices@ == prices_of(samples.take(i as int)),
            property_views(kept@) == samples.take(i as int).filter(keep),
        decreases count - i,
    {
        let property = &properties[i];
        let ghost before = samples.take(i as int);
        let ghost after = samples.take(i + 1);
        proof {
            reveal(Seq::filter);
            assert(after.drop_last() =~= before);
            assert(after.last() == property@);
            assert(prices_of(after) =~= prices_of(before).push(property.price));
        }
        prices.push(property.price);
        if band.contains(property.price) {
            let copy = property.clone();
            proof {
                assert(property_views(kept@.push(copy)) =~= property_views(kept@).push(copy@));
            }
            kept.push(copy);
        }
        i = i + 1;
    }
    proof {
        assert(samples.take(count as int) =~= samples);
    }
    let ghost unsorted = prices@;
    sort_prices(&mut prices);
    let median = find_median(&prices);
    proof {
        lemma_sorted_prices_unique(unsorted, prices@);
        lemma_same_members(prices@, unsorted);
        if count > 0 {
            lemma_range_is_min_max(unsorted);
        }
    }
    let range: (i32, i32) = if count == 0 {
        (0, 0)
    } else {
        (prices[0], prices[count - 1])
    };
    PriceBucket { count, median, range, properties: kept }
}

} // verus!
