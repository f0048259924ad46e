//! Fees: summing the cycles that an epoch's receipts used, per asset.

use vstd::prelude::*;
use crate::bytes::{bytes_eq, copy_bytes};
use crate::types::{ExecError, Fee, Receipt};

verus! {

/// The cycles that one fee counts toward `asset`.
pub open spec fn fee_share(f: Fee, asset: Seq<u8>) -> nat {
    if f.asset_id@ == asset {
        f.cycle as nat
    } else {
        0
    }
}

/// The cycles that `fees` count toward `asset`, all together.
pub open spec fn fee_total(fees: Seq<Fee>, asset: Seq<u8>) -> nat
    decreases fees.len(),
{
    if fees.len() == 0 {
        0
    } else {
        fee_total(fees.drop_last(), asset) + fee_share(fees.last(), asset)
    }
}

/// No two fees name the same asset.
pub open spec fn distinct_assets(fees: Seq<Fee>) -> bool {
    forall|i: int, j: int| 0 <= i < j < fees.len() ==> (#[trigger] fees[i]).asset_id@ != (#[trigger] fees[j]).asset_id@
}

/// The fees that the receipts record, in order.
pub open spec fn cycles_of(receipts: Seq<Receipt>) -> Seq<Fee> {
    receipts.map_values(|r: Receipt| r.cycles_used)
}

/// Fees as (asset, cycles) pairs.
pub open spec fn fee_views(fees: Seq<Fee>) -> Seq<(Seq<u8>, u64)> {
    fees.map_values(|f: Fee| (f.asset_id@, f.cycle))
}

/// The totals after adding `f`: to the entry of its asset, or as a new last
/// entry; `None` where the sum exceeds the largest cycle count.
pub open spec fn merge_fee(agg: Seq<(Seq<u8>, u64)>, f: (Seq<u8>, u64)) -> Option<Seq<(Seq<u8>, u64)>> {
    if exists|i: int| 0 <= i < agg.len() && agg[i].0 == f.0 {
        let i = choose|i: int| 0 <= i < agg.len() && agg[i].0 == f.0;
        if agg[i].1 + f.1 > u64::MAX {
            None
        } else {
            Some(agg.update(i, (f.0, (agg[i].1 + f.1) as u64)))
        }
    } else {
        Some(agg.push(f))
    }
}

/// The per-asset totals of a sequence of fees, in order of first appearance.
pub open spec fn aggregate_model(fees: Seq<(Seq<u8>, u64)>) -> Option<Seq<(Seq<u8>, u64)>>
    decreases fees.len(),
{
    if fees.len() == 0 {
        Some(Seq::empty())
    } else {
        match aggregate_model(fees.drop_last()) {
            None => None,
            Some(agg) => merge_fee(agg, fees.last()),
        }
    }
}

proof fn lemma_aggregate_none_prefix(fees: Seq<(Seq<u8>, u64)>, n: int)
    requires
        0 < n <= fees.len(),
        aggregate_model(fees.take(n)) is None,
    ensures
        aggregate_model(fees) is None,
    decreases fees.len(),
{
    if n < fees.len() {
        assert(fees.drop_last().take(n) =~= fees.take(n));
        lemma_aggregate_none_prefix(fees.drop_last(), n);
    } else {
        assert(fees.take(n) =~= fees);
    }
}

proof fn lemma_total_update(s: Seq<Fee>, i: int, f: Fee, asset: Seq<u8>)
    requires
        0 <= i < s.len(),
    ensures
        fee_total(s.update(i, f), asset) + fee_share(s[i], asset) == fee_total(s, asset) + fee_share(f, asset),
    decreases s.len(),
{
    let u = s.update(i, f);
    if i == s.len() - 1 {
        assert(u.drop_last() =~= s.drop_last());
    } else {
        lemma_total_update(s.drop_last(), i, f, asset);
        assert(u.drop_last() =~= s.drop_last().update(i, f));
    }
}

proof fn lemma_total_push(s: Seq<Fee>, f: Fee, asset: Seq<u8>)
    ensures
        fee_total(s.push(f), asset) == fee_total(s, asset) + fee_share(f, asset),
{
    assert(s.push(f).drop_last() =~= s);
}

proof fn lemma_total_absent(s: Seq<Fee>, asset: Seq<u8>)
    requires
        forall|j: int| 0 <= j < s.len() ==> (#[trigger] s[j]).asset_id@ != asset,
    ensures
        fee_total(s, asset) == 0,
    decreases s.len(),
{
    if s.len() > 0 {
        lemma_total_absent(s.drop_last(), asset);
    }
}

proof fn lemma_total_single(s: Seq<Fee>, i: int, asset: Seq<u8>)
    requires
        distinct_assets(s),
        0 <= i < s.len(),
        s[i].asset_id@ == asset,
    ensures
        fee_total(s, asset) == s[i].cycle,
    decreases s.len(),
{
    if i == s.len() - 1 {
        lemma_total_absent(s.drop_last(), asset);
    } else {
        lemma_total_single(s.drop_last(), i, asset);
        assert(s[i].asset_id@ != s[s.len() - 1].asset_id@);
    }
}

proof fn lemma_total_prefix(s: Seq<Fee>, n: int, asset: Seq<u8>)
    requires
        0 <= n <= s.len(),
    ensures
        fee_total(s.take(n), asset) <= fee_total(s, asset),
    decreases s.len(),
{
    if n < s.len() {
        lemma_total_prefix(s.drop_last(), n, asset);
        assert(s.drop_last().take(n) =~= s.take(n));
    } else {
        assert(s.take(n) =~= s);
    }
}

/// Adds one receipt's fee to the per-asset totals in `all_cycles_used`: to the
/// entry of its asset, or as a new entry where there is none.
pub fn modify_all_cycles_used(all_cycles_used: &mut Vec<Fee>, cycles_used: &Fee) -> (r: Result<(), ExecError>)
    requires
        distinct_assets(old(all_cycles_used)@),
    ensures
        match r {
            Ok(()) => merge_fee(fee_views(old(all_cycles_used)@), (cycles_used.asset_id@, cycles_used.cycle))
                == Some(fee_views(final(all_cycles_used)@)) && distinct_assets(final(all_cycles_used)@) && forall|a: Seq<u8>|
                #[trigger] fee_total(final(all_cycles_used)@, a) == fee_total(old(all_cycles_used)@, a)
                    + fee_share(*cycles_used, a),
            Err(e) => e == ExecError::FeeOverflow && final(all_cycles_used)@ == old(all_cycles_used)@ && fee_total(old(all_cycles_used)@, cycles_used.asset_id@)
                + cycles_used.cycle > u64::MAX && merge_fee(
                fee_views(old(all_cycles_used)@),
                (cycles_used.asset_id@, cycles_used.cycle),
            ) is None,
        },
{
    let mut i: usize = 0;
    while i < all_cycles_used.len()
        invariant
            i <= all_cycles_used@.len(),
            all_cycles_used@ == old(all_cycles_used)@,
            distinct_assets(all_cycles_used@),
            forall|j: int| 0 <= j < i ==> (#[trigger] all_cycles_used@[j]).asset_id@ != cycles_used.asset_id@,
        decreases all_cycles_used@.len() - i,
    {
        if bytes_eq(&all_cycles_used[i].asset_id, &cycles_used.asset_id) {
            let ghost agg = fee_views(all_cycles_used@);
            proof {
                lemma_total_single(all_cycles_used@, i as int, cycles_used.asset_id@);
                assert(agg[i as int].0 == cycles_used.asset_id@);
                let c = choose|c: int| 0 <= c < agg.len() && agg[c].0 == cycles_used.asset_id@;
                if c != i {
                    if c < i {
                        assert(all_cycles_used@[c].asset_id@ != all_cycles_used@[i as int].asset_id@);
                    } else {
                        assert(all_cycles_used@[i as int].asset_id@ != all_cycles_used@[c].asset_id@);
                    }
                }
            }
            let sum = match all_cycles_used[i].cycle.checked_add(cycles_used.cycle) {
                None => return Err(ExecError::FeeOverflow),
                Some(s) => s,
            };
            let f = Fee { asset_id: copy_bytes(&cycles_used.asset_id), cycle: sum };
            let ghost before = all_cycles_used@;
            all_cycles_used.set(i, f);
            assert(fee_views(all_cycles_used@) =~= agg.update(i as int, (cycles_used.asset_id@, sum)));
            proof {
                assert forall|a: Seq<u8>| #[trigger] fee_total(all_cycles_used@, a) == fee_total(before, a)
                    + fee_share(*cycles_used, a) by {
                    lemma_total_update(before, i as int, f, a);
                }
                assert forall|x: int, y: int| 0 <= x < y < all_cycles_used@.len() implies
                    (#[trigger] all_cycles_used@[x]).asset_id@ != (#[trigger] all_cycles_used@[y]).asset_id@ by {
                    if x != i && y != i {
                        assert(before[x] == all_cycles_used@[x] && before[y] == all_cycles_used@[y]);
                    } else if x == i {
                        assert(before[x].asset_id@ != before[y].asset_id@);
                    } else {
                        assert(before[x].asset_id@ != before[y].asset_id@);
                    }
                }
            }
            return Ok(());
        }
        i = i + 1;
    }
    let f = Fee { asset_id: copy_bytes(&cycles_used.asset_id), cycle: cycles_used.cycle };
    let ghost before = all_cycles_used@;
    all_cycles_used.push(f);
    assert(fee_views(all_cycles_used@) =~= fee_views(before).push((cycles_used.asset_id@, cycles_used.cycle)));
    proof {
        if exists|c: int| 0 <= c < fee_views(before).len() && fee_views(before)[c].0 == cycles_used.asset_id@ {
            let c = choose|c: int| 0 <= c < fee_views(before).len() && fee_views(before)[c].0 == cycles_used.asset_id@;
            assert(before[c].asset_id@ != cycles_used.asset_id@);
        }
        assert forall|a: Seq<u8>| #[trigger] fee_total(all_cycles_used@, a) == fee_total(before, a)
            + fee_share(*cycles_used, a) by {
            lemma_total_push(before, f, a);
        }
        assert forall|x: int, y: int| 0 <= x < y < all_cycles_used@.len() implies
            (#[trigger] all_cycles_used@[x]).asset_id@ != (#[trigger] all_cycles_used@[y]).asset_id@ by {
            if y == before.len() {
                assert(before[x].asset_id@ != cycles_used.asset_id@);
            } else {
                assert(before[x] == all_cycles_used@[x] && before[y] == all_cycles_used@[y]);
            }
        }
    }
    Ok(())
}

/// The per-asset totals of the fees that `receipts` record, one entry per asset.
pub fn aggregate_fees(receipts: &Vec<Receipt>) -> (r: Result<Vec<Fee>, ExecError>)
    ensures
        match r {
            Ok(all) => aggregate_model(fee_views(cycles_of(receipts@))) == Some(fee_views(all@)) && distinct_assets(all@)
                && forall|a: Seq<u8>| #[trigger] fee_total(all@, a) == fee_total(cycles_of(receipts@), a),
            Err(e) => e == ExecError::FeeOverflow && aggregate_model(fee_views(cycles_of(receipts@))) is None
                && exists|a: Seq<u8>| #[trigger] fee_total(cycles_of(receipts@), a) > u64::MAX,
        },
{
    let mut all: Vec<Fee> = Vec::new();
    let mut i: usize = 0;
    assert(fee_views(cycles_of(receipts@).take(0)) =~= Seq::<(Seq<u8>, u64)>::empty());
    assert(fee_views(all@) =~= Seq::<(Seq<u8>, u64)>::empty());
    while i < receipts.len()
        invariant
            i <= receipts@.len(),
            distinct_assets(all@),
            forall|a: Seq<u8>| #[trigger] fee_total(all@, a) == fee_total(cycles_of(receipts@).take(i as int), a),
            aggregate_model(fee_views(cycles_of(receipts@).take(i as int))) == Some(fee_views(all@)),
        decreases receipts@.len() - i,
    {
        let ghost c = cycles_of(receipts@);
        assert(c.take(i + 1).drop_last() =~= c.take(i as int));
        assert(fee_views(c.take(i + 1)).drop_last() =~= fee_views(c.take(i as int)));
        match modify_all_cycles_used(&mut all, &receipts[i].cycles_used) {
            Ok(()) => {},
            Err(e) => {
                proof {
                    let a = receipts@[i as int].cycles_used.asset_id@;
                    assert(fee_total(c.take(i + 1), a) > u64::MAX);
                    lemma_total_prefix(c, i + 1, a);
                    assert(fee_total(cycles_of(receipts@), a) > u64::MAX);
                    assert(fee_views(c).take(i + 1) =~= fee_views(c.take(i + 1)));
                    lemma_aggregate_none_prefix(fee_views(c), i + 1);
                }
                return Err(e);
            },
        }
        i = i + 1;
    }
    assert(cycles_of(receipts@).take(i as int) =~= cycles_of(receipts@));
    Ok(all)
}

} // verus!
