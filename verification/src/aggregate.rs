//! The aggregator: groups localized readings by partition key, keeping every
//! price per bucket, and finalizes one output row per non-empty bucket with
//! the exact count, sum and integer mean (truncated toward zero) of its
//! prices, in strictly ascending key order.

use vstd::prelude::*;
use crate::keys::{key_code, key_code_of, key_for, key_of, lemma_key_code_injective, BucketKey,
    DayClass, KeyScheme};
use crate::price::{PriceMicro, PRICE_MICRO_BOUND};
use crate::zone::LocalizedReading;

verus! {

/// One output row: the bucket key, the mean price in micro-units, the exact
/// sum of the bucket's prices, and how many readings fell in the bucket.
/// Created once per distinct key at finalization, never mutated afterward.
#[derive(PartialEq, Eq, Structural, Clone, Copy, Debug)]
pub struct AggregateRow {
    pub key: BucketKey,
    pub mean: PriceMicro,
    pub sum_micro: i128,
    pub count: usize,
}

/// One bucket while an aggregation pass runs: every price of the readings
/// that mapped to `key`, in input order.
struct Bucket {
    key: BucketKey,
    code: u32,
    prices: Vec<i64>,
}

/// Every reading of the sequence is well formed.
pub open spec fn all_wf(rs: Seq<LocalizedReading>) -> bool {
    forall|i: int| 0 <= i < rs.len() ==> (#[trigger] rs[i]).wf()
}

/// The prices, in input order, of the readings that map to key `k`.
pub open spec fn bucket_prices(rs: Seq<LocalizedReading>, scheme: KeyScheme, k: BucketKey) -> Seq<
    i64,
>
    decreases rs.len(),
{
    if rs.len() == 0 {
        Seq::empty()
    } else {
        let rest = bucket_prices(rs.drop_last(), scheme, k);
        if key_of(rs.last(), scheme) == k {
            rest.push(rs.last().price.micro)
        } else {
            rest
        }
    }
}

/// The sum of a sequence of prices.
pub open spec fn sum_prices(ps: Seq<i64>) -> int
    decreases ps.len(),
{
    if ps.len() == 0 {
        0
    } else {
        sum_prices(ps.drop_last()) + ps.last()
    }
}

/// The number of readings that map to key `k`.
pub open spec fn bucket_count(rs: Seq<LocalizedReading>, scheme: KeyScheme, k: BucketKey) -> int
    decreases rs.len(),
{
    if rs.len() == 0 {
        0
    } else {
        bucket_count(rs.drop_last(), scheme, k) + if key_of(rs.last(), scheme) == k {
            1int
        } else {
            0int
        }
    }
}

/// The sum of the prices of the readings that map to key `k`.
pub open spec fn bucket_sum(rs: Seq<LocalizedReading>, scheme: KeyScheme, k: BucketKey) -> int
    decreases rs.len(),
{
    if rs.len() == 0 {
        0
    } else {
        bucket_sum(rs.drop_last(), scheme, k) + if key_of(rs.last(), scheme) == k {
            rs.last().price.micro as int
        } else {
            0int
        }
    }
}

/// The per-key count and sum agree with the per-key price sequence.
pub proof fn lemma_bucket_stats(rs: Seq<LocalizedReading>, scheme: KeyScheme, k: BucketKey)
    ensures
        bucket_count(rs, scheme, k) == bucket_prices(rs, scheme, k).len(),
        bucket_sum(rs, scheme, k) == sum_prices(bucket_prices(rs, scheme, k)),
    decreases rs.len(),
{
    if rs.len() > 0 {
        lemma_bucket_stats(rs.drop_last(), scheme, k);
        if key_of(rs.last(), scheme) == k {
            let rest = bucket_prices(rs.drop_last(), scheme, k);
            assert(rest.push(rs.last().price.micro).drop_last() =~= rest);
        }
    }
}

/// The integer mean of a bucket's sum over its count, truncated toward zero.
pub open spec fn mean_of(sum: int, count: int) -> int {
    if sum >= 0 {
        sum / count
    } else {
        -((-sum) / count)
    }
}

/// Whether one output row carries exactly the statistics its key owes to the
/// given readings.
pub open spec fn row_matches(rs: Seq<LocalizedReading>, scheme: KeyScheme, row: AggregateRow) -> bool {
    let ps = bucket_prices(rs, scheme, row.key);
    &&& ps.len() > 0
    &&& row.count as int == ps.len()
    &&& row.sum_micro as int == sum_prices(ps)
    &&& row.mean.micro as int == mean_of(sum_prices(ps), ps.len() as int)
    &&& row.key.wf()
    &&& row.key.scheme() == scheme
}

/// The full contract of aggregation: rows stand in strictly ascending key
/// order, each carries exactly its key's statistics, and there is a row for
/// exactly the keys some reading maps to.
pub open spec fn aggregate_post(
    rs: Seq<LocalizedReading>,
    scheme: KeyScheme,
    rows: Seq<AggregateRow>,
) -> bool {
    &&& forall|i: int, j: int|
        0 <= i < j < rows.len() ==> key_code(#[trigger] rows[i].key) < key_code(
            #[trigger] rows[j].key,
        )
    &&& forall|i: int| 0 <= i < rows.len() ==> row_matches(rs, scheme, #[trigger] rows[i])
    &&& forall|k: BucketKey|
        #[trigger] bucket_prices(rs, scheme, k).len() > 0 ==> exists|i: int|
            0 <= i < rows.len() && (#[trigger] rows[i]).key == k
}

/// Appending one reading extends exactly its own key's bucket.
pub proof fn lemma_bucket_prices_push(
    rs: Seq<LocalizedReading>,
    scheme: KeyScheme,
    k: BucketKey,
    r: LocalizedReading,
)
    ensures
        bucket_prices(rs.push(r), scheme, k) == if key_of(r, scheme) == k {
            bucket_prices(rs, scheme, k).push(r.price.micro)
        } else {
            bucket_prices(rs, scheme, k)
        },
{
    assert(rs.push(r).drop_last() =~= rs);
    assert(rs.push(r).last() == r);
}

/// Sums a vector of bounded prices exactly.
fn sum_vec(prices: &Vec<i64>) -> (s: i128)
    requires
        forall|i: int|
            0 <= i < prices@.len() ==> -PRICE_MICRO_BOUND < #[trigger] prices@[i]
                < PRICE_MICRO_BOUND,
    ensures
        s as int == sum_prices(prices@),
        -(prices@.len() as int) * (PRICE_MICRO_BOUND - 1) <= s <= (prices@.len() as int) * (
        PRICE_MICRO_BOUND - 1),
{
    let mut s: i128 = 0;
    let mut i: usize = 0;
    proof {
        assert(prices@.take(0) =~= Seq::<i64>::empty());
    }
    while i < prices.len()
        invariant
            0 <= i <= prices@.len(),
            forall|j: int|
                0 <= j < prices@.len() ==> -PRICE_MICRO_BOUND < #[trigger] prices@[j]
                    < PRICE_MICRO_BOUND,
            s as int == sum_prices(prices@.take(i as int)),
            -(i as int) * (PRICE_MICRO_BOUND - 1) <= s <= (i as int) * (PRICE_MICRO_BOUND - 1),
        decreases prices@.len() - i,
    {
        proof {
            assert(prices@.take(i as int + 1).drop_last() =~= prices@.take(i as int));
            assert(prices@.take(i as int + 1).last() == prices@[i as int]);
            let p = prices@[i as int] as int;
            assert(-(i as int + 1) * (PRICE_MICRO_BOUND - 1) <= s + p <= (i as int + 1) * (
            PRICE_MICRO_BOUND - 1) && -184467440737095516150000000000000000 <= s + p
                <= 184467440737095516150000000000000000) by (nonlinear_arith)
                requires
                    PRICE_MICRO_BOUND == 10000000000000000,
                    0 <= i as int + 1 <= 0x10000000000000000,
                    -(i as int) * (PRICE_MICRO_BOUND - 1) <= s as int <= (i as int) * (
                    PRICE_MICRO_BOUND - 1),
                    -PRICE_MICRO_BOUND < p < PRICE_MICRO_BOUND,
            ;
        }
        s = s + prices[i] as i128;
        i = i + 1;
    }
    proof {
        assert(prices@.take(prices@.len() as int) =~= prices@);
    }
    s
}

/// Computes the integer mean of a bucket's sum over its positive count,
/// truncated toward zero.
fn mean_micro(sum: i128, count: usize) -> (m: i64)
    requires
        count > 0,
        -(count as int) * (PRICE_MICRO_BOUND - 1) <= sum <= (count as int) * (PRICE_MICRO_BOUND
            - 1),
    ensures
        m as int == mean_of(sum as int, count as int),
        -PRICE_MICRO_BOUND < m < PRICE_MICRO_BOUND,
{
    proof {
        assert(-((count as int) * (PRICE_MICRO_BOUND - 1)) <= sum as int <= (count as int) * (
        PRICE_MICRO_BOUND - 1) && (count as int) * (PRICE_MICRO_BOUND - 1)
            <= 184467440737095516150000000000000000) by (nonlinear_arith)
            requires
                PRICE_MICRO_BOUND == 10000000000000000,
                0 < count as int <= 0x10000000000000000,
                -(count as int) * (PRICE_MICRO_BOUND - 1) <= sum as int <= (count as int) * (
                PRICE_MICRO_BOUND - 1),
        ;
        vstd::arithmetic::div_mod::lemma_div_is_ordered(
            sum as int,
            (count as int) * (PRICE_MICRO_BOUND - 1),
            count as int,
        );
        vstd::arithmetic::div_mod::lemma_div_is_ordered(
            -(sum as int),
            (count as int) * (PRICE_MICRO_BOUND - 1),
            count as int,
        );
        vstd::arithmetic::div_mod::lemma_div_multiples_vanish(
            PRICE_MICRO_BOUND - 1,
            count as int,
        );
        if sum >= 0 {
            vstd::arithmetic::div_mod::lemma_div_pos_is_pos(sum as int, count as int);
        } else {
            vstd::arithmetic::div_mod::lemma_div_pos_is_pos(-(sum as int), count as int);
        }
    }
    if sum >= 0 {
        let q = sum.checked_div_euclid(count as i128).unwrap();
        q as i64
    } else {
        let q = (-sum).checked_div_euclid(count as i128).unwrap();
        -(q as i64)
    }
}

/// Groups readings by their key under the scheme and produces one row per
/// non-empty bucket with its exact count, sum and mean, rows in strictly
/// ascending key order. The output is a pure function of the readings, so
/// it does not depend on anything outside the inputs.
pub fn aggregate(readings: &Vec<LocalizedReading>, scheme: KeyScheme) -> (rows: Vec<AggregateRow>)
    requires
        all_wf(readings@),
    ensures
        aggregate_post(readings@, scheme, rows@),
{
    let mut buckets: Vec<Bucket> = Vec::new();
    let mut n: usize = 0;
    proof {
        assert(readings@.take(0) =~= Seq::<LocalizedReading>::empty());
    }
    while n < readings.len()
        invariant
            0 <= n <= readings@.len(),
            all_wf(readings@),
            forall|i: int, j: int|
                0 <= i < j < buckets@.len() ==> (#[trigger] buckets@[i]).code < (
                #[trigger] buckets@[j]).code,
            forall|i: int|
                0 <= i < buckets@.len() ==> {
                    let b = #[trigger] buckets@[i];
                    b.key.wf() && b.key.scheme() == scheme && b.code as int == key_code(b.key)
                        && b.prices@ == bucket_prices(
                        readings@.take(n as int),
                        scheme,
                        b.key,
                    ) && b.prices@.len() > 0
                },
            forall|k: BucketKey|
                #[trigger] bucket_prices(readings@.take(n as int), scheme, k).len() > 0
                    ==> exists|i: int|
                    0 <= i < buckets@.len() && (#[trigger] buckets@[i]).key == k,
        decreases readings@.len() - n,
    {
        let r = &readings[n];
        let k = key_for(r, scheme);
        let c = key_code_of(&k);
        let price = r.price.micro;
        proof {
            assert(readings@.take(n as int + 1) =~= readings@.take(n as int).push(
                readings@[n as int],
            ));
        }
        let ghost prefix = readings@.take(n as int);
        let ghost prefix1 = readings@.take(n as int + 1);
        let ghost bs0 = buckets@;
        // Find the first bucket whose code is not below the new key's code.
        let mut pos: usize = 0;
        while pos < buckets.len() && buckets[pos].code < c
            invariant
                0 <= pos <= buckets@.len(),
                buckets@ == bs0,
                forall|i: int| 0 <= i < pos ==> (#[trigger] buckets@[i]).code < c,
                forall|i: int, j: int|
                    0 <= i < j < buckets@.len() ==> (#[trigger] buckets@[i]).code < (
                    #[trigger] buckets@[j]).code,
            decreases buckets@.len() - pos,
        {
            pos = pos + 1;
        }
        if pos < buckets.len() && buckets[pos].code == c {
            // The key already has a bucket: append the price to it.
            proof {
                lemma_key_code_injective(buckets@[pos as int].key, k);
            }
            let mut b = buckets.remove(pos);
            b.prices.push(price);
            buckets.insert(pos, b);
            proof {
                assert forall|x: int| 0 <= x < buckets@.len() && x != pos implies buckets@[x]
                    == bs0[x] by {
                    assert(buckets@ == bs0.remove(pos as int).insert(pos as int, b));
                }
                assert(buckets@.len() == bs0.len());
                assert(buckets@[pos as int] == b);
                assert(b.key == bs0[pos as int].key && b.code == bs0[pos as int].code
                    && b.prices@ == bs0[pos as int].prices@.push(price));
            }
        } else {
            // A new key: insert a fresh bucket, keeping codes ascending.
            let mut ps: Vec<i64> = Vec::new();
            ps.push(price);
            let b = Bucket { key: k, code: c, prices: ps };
            buckets.insert(pos, b);
            proof {
                assert(buckets@.len() == bs0.len() + 1);
                assert(buckets@[pos as int] == b);
                assert(forall|x: int| 0 <= x < pos ==> #[trigger] buckets@[x] == bs0[x]);
                assert(forall|x: int|
                    pos < x < buckets@.len() ==> #[trigger] buckets@[x] == bs0[x - 1]);
                assert(b.prices@ =~= Seq::<i64>::empty().push(price));
                assert(bucket_prices(prefix, scheme, k).len() == 0) by {
                    if bucket_prices(prefix, scheme, k).len() > 0 {
                        let i = choose|i: int| 0 <= i < bs0.len() && (#[trigger] bs0[i]).key == k;
                        assert(bs0[i].code as int == key_code(k));
                        if i < pos {
                            assert(bs0[i].code < c);
                        } else {
                            assert(bs0[pos as int].code > c || pos == bs0.len());
                            if i > pos {
                                assert(bs0[pos as int].code < bs0[i].code);
                            }
                        }
                        assert(false);
                    }
                }
                // Codes stay strictly ascending around the insertion point.
                assert forall|i: int, j: int|
                    0 <= i < j < buckets@.len() implies (#[trigger] buckets@[i]).code < (
                #[trigger] buckets@[j]).code by {
                    if i == pos {
                        assert(buckets@[j] == bs0[j - 1] && j - 1 >= pos);
                        assert(bs0[pos as int].code > c || pos == bs0.len());
                        if j - 1 > pos {
                            assert(bs0[pos as int].code < bs0[j - 1].code);
                        }
                    } else if j == pos {
                        assert(buckets@[i] == bs0[i] && i < pos);
                    }
                }
            }
        }
        proof {
            let r0 = readings@[n as int];
            assert forall|i: int| 0 <= i < buckets@.len() implies {
                let b = #[trigger] buckets@[i];
                b.key.wf() && b.key.scheme() == scheme && b.code as int == key_code(b.key)
                    && b.prices@ == bucket_prices(prefix1, scheme, b.key) && b.prices@.len() > 0
            } by {
                lemma_bucket_prices_push(prefix, scheme, buckets@[i].key, r0);
                if i != pos {
                    // This bucket's key differs from the new reading's key,
                    // since their codes differ.
                    if buckets@.len() == bs0.len() {
                        assert(buckets@[i] == bs0[i]);
                        if i < pos {
                            assert(bs0[i].code < bs0[pos as int].code);
                        } else {
                            assert(bs0[pos as int].code < bs0[i].code);
                        }
                        assert(buckets@[i].code != c);
                    } else {
                        if i < pos {
                            assert(buckets@[i] == bs0[i]);
                            assert(bs0[i].code < c);
                        } else {
                            assert(buckets@[i] == bs0[i - 1]);
                            assert(bs0[pos as int].code > c);
                            if i - 1 > pos {
                                assert(bs0[pos as int].code < bs0[i - 1].code);
                            }
                        }
                        assert(buckets@[i].code != c);
                    }
                    assert(buckets@[i].code as int == key_code(buckets@[i].key));
                    if buckets@[i].key == k {
                        assert(false);
                    }
                }
            }
            assert forall|kk: BucketKey|
                #[trigger] bucket_prices(prefix1, scheme, kk).len() > 0 implies exists|i: int|
                0 <= i < buckets@.len() && (#[trigger] buckets@[i]).key == kk by {
                lemma_bucket_prices_push(prefix, scheme, kk, r0);
                if kk == k {
                    assert(0 <= pos < buckets@.len() && buckets@[pos as int].key == kk);
                } else {
                    assert(bucket_prices(prefix, scheme, kk).len() > 0);
                    let i = choose|i: int| 0 <= i < bs0.len() && (#[trigger] bs0[i]).key == kk;
                    if buckets@.len() == bs0.len() {
                        assert(bs0[pos as int].key == k);
                        assert(buckets@[i].key == kk);
                        assert(0 <= i < buckets@.len() && buckets@[i].key == kk);
                    } else {
                        if i < pos {
                            assert(buckets@[i].key == kk);
                            assert(0 <= i < buckets@.len() && buckets@[i].key == kk);
                        } else {
                            assert(buckets@[i + 1].key == kk);
                            assert(0 <= i + 1 < buckets@.len() && buckets@[i + 1].key == kk);
                        }
                    }
                }
            }
        }
        n = n + 1;
    }
    proof {
        assert(readings@.take(readings@.len() as int) =~= readings@);
    }
    // Finalize: one row per bucket, in the buckets' (ascending) order.
    let mut rows: Vec<AggregateRow> = Vec::new();
    let mut i: usize = 0;
    while i < buckets.len()
        invariant
            0 <= i <= buckets@.len(),
            rows@.len() == i,
            all_wf(readings@),
            forall|j: int, l: int|
                0 <= j < l < buckets@.len() ==> (#[trigger] buckets@[j]).code < (
                #[trigger] buckets@[l]).code,
            forall|j: int|
                0 <= j < buckets@.len() ==> {
                    let b = #[trigger] buckets@[j];
                    b.key.wf() && b.key.scheme() == scheme && b.code as int == key_code(b.key)
                        && b.prices@ == bucket_prices(readings@, scheme, b.key)
                        && b.prices@.len() > 0
                },
            forall|k: BucketKey|
                #[trigger] bucket_prices(readings@, scheme, k).len() > 0 ==> exists|j: int|
                    0 <= j < buckets@.len() && (#[trigger] buckets@[j]).key == k,
            forall|j: int|
                0 <= j < i ==> (#[trigger] rows@[j]).key == buckets@[j].key && row_matches(
                    readings@,
                    scheme,
                    rows@[j],
                ),
        decreases buckets@.len() - i,
    {
        let b = &buckets[i];
        proof {
            assert forall|x: int| 0 <= x < b.prices@.len() implies -PRICE_MICRO_BOUND
                < #[trigger] b.prices@[x] < PRICE_MICRO_BOUND by {
                lemma_bucket_price_bounds(readings@, scheme, b.key, x);
            }
        }
        let sum = sum_vec(&b.prices);
        let count = b.prices.len();
        let mean = mean_micro(sum, count);
        let row = AggregateRow { key: b.key, mean: PriceMicro { micro: mean }, sum_micro: sum, count };
        rows.push(row);
        i = i + 1;
    }
    proof {
        assert forall|x: int, y: int| 0 <= x < y < rows@.len() implies key_code(
            #[trigger] rows@[x].key,
        ) < key_code(#[trigger] rows@[y].key) by {
            assert(rows@[x].key == buckets@[x].key && rows@[y].key == buckets@[y].key);
            assert(buckets@[x].code < buckets@[y].code);
        }
        assert forall|k: BucketKey|
            #[trigger] bucket_prices(readings@, scheme, k).len() > 0 implies exists|x: int|
            0 <= x < rows@.len() && (#[trigger] rows@[x]).key == k by {
            let j = choose|j: int| 0 <= j < buckets@.len() && (#[trigger] buckets@[j]).key == k;
            assert(0 <= j < rows@.len() && rows@[j].key == k);
        }
    }
    rows
}

/// Every price a bucket holds came from a well-formed reading, so it lies
/// within the fixed-point bound.
pub proof fn lemma_bucket_price_bounds(
    rs: Seq<LocalizedReading>,
    scheme: KeyScheme,
    k: BucketKey,
    x: int,
)
    requires
        all_wf(rs),
        0 <= x < bucket_prices(rs, scheme, k).len(),
    ensures
        -PRICE_MICRO_BOUND < bucket_prices(rs, scheme, k)[x] < PRICE_MICRO_BOUND,
    decreases rs.len(),
{
    if rs.len() > 0 {
        assert(all_wf(rs.drop_last())) by {
            assert(forall|i: int|
                0 <= i < rs.len() - 1 ==> rs.drop_last()[i] == #[trigger] rs[i]);
        }
        let rest = bucket_prices(rs.drop_last(), scheme, k);
        if key_of(rs.last(), scheme) == k && x == rest.len() {
            assert(rs.last().wf());
        } else {
            lemma_bucket_price_bounds(rs.drop_last(), scheme, k, x);
        }
    }
}

/// Every reading maps to exactly one of the two day classes, so the two
/// partitions are disjoint and together cover all readings: their counts add
/// up to the whole input.
pub proof fn lemma_weekend_partition(rs: Seq<LocalizedReading>)
    ensures
        bucket_prices(rs, KeyScheme::WeekendClass, BucketKey::WeekendOrWeekday(DayClass::Weekend)).len()
            + bucket_prices(
            rs,
            KeyScheme::WeekendClass,
            BucketKey::WeekendOrWeekday(DayClass::Weekday),
        ).len() == rs.len(),
    decreases rs.len(),
{
    if rs.len() > 0 {
        lemma_weekend_partition(rs.drop_last());
    }
}

/// Removing one reading takes away exactly its own contribution to a key's
/// count and sum.
pub proof fn lemma_bucket_stats_remove(
    rs: Seq<LocalizedReading>,
    scheme: KeyScheme,
    k: BucketKey,
    i: int,
)
    requires
        0 <= i < rs.len(),
    ensures
        bucket_count(rs.remove(i), scheme, k) == bucket_count(rs, scheme, k) - (if key_of(
            rs[i],
            scheme,
        ) == k {
            1int
        } else {
            0int
        }),
        bucket_sum(rs.remove(i), scheme, k) == bucket_sum(rs, scheme, k) - (if key_of(
            rs[i],
            scheme,
        ) == k {
            rs[i].price.micro as int
        } else {
            0int
        }),
    decreases rs.len(),
{
    if i == rs.len() - 1 {
        assert(rs.remove(i) =~= rs.drop_last());
    } else {
        lemma_bucket_stats_remove(rs.drop_last(), scheme, k, i);
        assert(rs.remove(i).drop_last() =~= rs.drop_last().remove(i));
        assert(rs.remove(i).last() == rs.last());
        assert(rs.drop_last()[i] == rs[i]);
    }
}

/// Two sequences holding the same readings (in any order) give every key the
/// same count and the same sum.
pub proof fn lemma_bucket_stats_multiset(
    rs1: Seq<LocalizedReading>,
    rs2: Seq<LocalizedReading>,
    scheme: KeyScheme,
    k: BucketKey,
)
    requires
        rs1.to_multiset() == rs2.to_multiset(),
    ensures
        bucket_count(rs1, scheme, k) == bucket_count(rs2, scheme, k),
        bucket_sum(rs1, scheme, k) == bucket_sum(rs2, scheme, k),
    decreases rs1.len(),
{
    broadcast use vstd::seq_lib::group_to_multiset_ensures;

    assert(rs1.to_multiset().len() == rs1.len());
    assert(rs2.to_multiset().len() == rs2.len());
    if rs1.len() == 0 {
        assert(rs2.len() == 0);
    } else {
        let x = rs1.last();
        assert(rs1[rs1.len() - 1] == x);
        assert(rs1.contains(x));
        assert(rs2.to_multiset().count(x) > 0);
        assert(rs2.contains(x));
        let j = choose|j: int| 0 <= j < rs2.len() && rs2[j] == x;
        assert(rs1.remove(rs1.len() - 1) =~= rs1.drop_last());
        assert(rs1.drop_last().to_multiset() =~= rs1.to_multiset().remove(x));
        assert(rs2.remove(j).to_multiset() =~= rs2.to_multiset().remove(x));
        lemma_bucket_stats_multiset(rs1.drop_last(), rs2.remove(j), scheme, k);
        lemma_bucket_stats_remove(rs2, scheme, k, j);
    }
}

/// Whether some row of the output carries the key `k`.
pub open spec fn key_present(rows: Seq<AggregateRow>, k: BucketKey) -> bool {
    exists|i: int| 0 <= i < rows.len() && (#[trigger] rows[i]).key == k
}

/// Two strictly sorted row sequences with the same keys, whose rows' fields
/// are determined by their keys over inputs holding the same readings, are
/// identical.
proof fn lemma_rows_unique(
    rs1: Seq<LocalizedReading>,
    rs2: Seq<LocalizedReading>,
    scheme: KeyScheme,
    rows1: Seq<AggregateRow>,
    rows2: Seq<AggregateRow>,
)
    requires
        rs1.to_multiset() == rs2.to_multiset(),
        forall|i: int, j: int|
            0 <= i < j < rows1.len() ==> key_code(#[trigger] rows1[i].key) < key_code(
                #[trigger] rows1[j].key,
            ),
        forall|i: int, j: int|
            0 <= i < j < rows2.len() ==> key_code(#[trigger] rows2[i].key) < key_code(
                #[trigger] rows2[j].key,
            ),
        forall|i: int| 0 <= i < rows1.len() ==> row_matches(rs1, scheme, #[trigger] rows1[i]),
        forall|i: int| 0 <= i < rows2.len() ==> row_matches(rs2, scheme, #[trigger] rows2[i]),
        forall|k: BucketKey| #[trigger] key_present(rows1, k) <==> key_present(rows2, k),
    ensures
        rows1 == rows2,
    decreases rows1.len(),
{
    if rows1.len() == 0 {
        if rows2.len() > 0 {
            let k0 = rows2[0].key;
            assert(key_present(rows2, k0));
            assert(key_present(rows1, k0));
            assert(false);
        }
        assert(rows1 =~= rows2);
    } else {
        let ka = rows1[0].key;
        assert(key_present(rows1, ka));
        assert(key_present(rows2, ka));
        let kb = rows2[0].key;
        assert(key_present(rows2, kb));
        assert(key_present(rows1, kb));
        let j = choose|j: int| 0 <= j < rows2.len() && (#[trigger] rows2[j]).key == ka;
        let i = choose|i: int| 0 <= i < rows1.len() && (#[trigger] rows1[i]).key == kb;
        assert(key_code(kb) <= key_code(rows2[j].key));
        assert(key_code(ka) <= key_code(rows1[i].key));
        assert(row_matches(rs1, scheme, rows1[0]) && row_matches(rs2, scheme, rows2[0]));
        lemma_key_code_injective(ka, kb);
        lemma_bucket_stats(rs1, scheme, ka);
        lemma_bucket_stats(rs2, scheme, ka);
        lemma_bucket_stats_multiset(rs1, rs2, scheme, ka);
        assert(rows1[0] == rows2[0]);
        let t1 = rows1.drop_first();
        let t2 = rows2.drop_first();
        assert forall|x: int| 0 <= x < t1.len() implies #[trigger] t1[x] == rows1[x + 1] by {}
        assert forall|x: int| 0 <= x < t2.len() implies #[trigger] t2[x] == rows2[x + 1] by {}
        assert forall|k: BucketKey| #[trigger] key_present(t1, k) implies key_present(t2, k) by {
            let x = choose|x: int| 0 <= x < t1.len() && (#[trigger] t1[x]).key == k;
            assert(t1[x] == rows1[x + 1]);
            assert(key_code(ka) < key_code(k));
            assert(key_present(rows1, k));
            assert(key_present(rows2, k));
            let y = choose|y: int| 0 <= y < rows2.len() && (#[trigger] rows2[y]).key == k;
            assert(y != 0);
            assert(t2[y - 1] == rows2[y]);
            assert(key_present(t2, k));
        }
        assert forall|k: BucketKey| #[trigger] key_present(t2, k) implies key_present(t1, k) by {
            let x = choose|x: int| 0 <= x < t2.len() && (#[trigger] t2[x]).key == k;
            assert(t2[x] == rows2[x + 1]);
            assert(key_code(kb) < key_code(k));
            assert(key_present(rows2, k));
            assert(key_present(rows1, k));
            let y = choose|y: int| 0 <= y < rows1.len() && (#[trigger] rows1[y]).key == k;
            assert(y != 0);
            assert(t1[y - 1] == rows1[y]);
            assert(key_present(t1, k));
        }
        lemma_rows_unique(rs1, rs2, scheme, t1, t2);
        assert(rows1.len() == rows2.len());
        assert forall|x: int| 0 <= x < rows1.len() implies rows1[x] == rows2[x] by {
            if x > 0 {
                assert(t1[x - 1] == rows1[x]);
                assert(t2[x - 1] == rows2[x]);
                assert(t1[x - 1] == t2[x - 1]);
            }
        }
        assert(rows1 =~= rows2);
    }
}

/// Aggregation is deterministic: over two inputs that hold the same readings
/// — the same sequence, or one a reordering of the other — any two outputs
/// that meet the aggregation contract are identical, row for row.
pub proof fn lemma_aggregate_deterministic(
    rs1: Seq<LocalizedReading>,
    rs2: Seq<LocalizedReading>,
    scheme: KeyScheme,
    rows1: Seq<AggregateRow>,
    rows2: Seq<AggregateRow>,
)
    requires
        rs1.to_multiset() == rs2.to_multiset(),
        aggregate_post(rs1, scheme, rows1),
        aggregate_post(rs2, scheme, rows2),
    ensures
        rows1 == rows2,
{
    assert forall|k: BucketKey| #[trigger] key_present(rows1, k) implies key_present(
        rows2,
        k,
    ) by {
        let i = choose|i: int| 0 <= i < rows1.len() && (#[trigger] rows1[i]).key == k;
        assert(row_matches(rs1, scheme, rows1[i]));
        lemma_bucket_stats(rs1, scheme, k);
        lemma_bucket_stats(rs2, scheme, k);
        lemma_bucket_stats_multiset(rs1, rs2, scheme, k);
        assert(bucket_prices(rs2, scheme, k).len() > 0);
    }
    assert forall|k: BucketKey| #[trigger] key_present(rows2, k) implies key_present(
        rows1,
        k,
    ) by {
        let i = choose|i: int| 0 <= i < rows2.len() && (#[trigger] rows2[i]).key == k;
        assert(row_matches(rs2, scheme, rows2[i]));
        lemma_bucket_stats(rs1, scheme, k);
        lemma_bucket_stats(rs2, scheme, k);
        lemma_bucket_stats_multiset(rs1, rs2, scheme, k);
        assert(bucket_prices(rs1, scheme, k).len() > 0);
    }
    lemma_rows_unique(rs1, rs2, scheme, rows1, rows2);
}

/// Under the weekend-class scheme a reading maps to the weekend key exactly
/// when it does not map to the weekday key: the partition is disjoint and
/// exhaustive for every single reading.
pub proof fn lemma_weekend_exactly_one(r: LocalizedReading)
    ensures
        (key_of(r, KeyScheme::WeekendClass) == BucketKey::WeekendOrWeekday(DayClass::Weekend))
            <==> !(key_of(r, KeyScheme::WeekendClass) == BucketKey::WeekendOrWeekday(
            DayClass::Weekday,
        )),
{
}

} // verus!
