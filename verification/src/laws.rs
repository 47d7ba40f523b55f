//! The engine's cross-operation guarantees, each stated over the spec
//! functions that the operations' own contracts use.

use vstd::prelude::*;

use crate::item::ItemInstance;
use crate::item::ItemType;
use crate::seq_facts::lemma_filter_in_source;
use crate::store::active_for_type;
use crate::store::active_of_type;
use crate::store::count_active;
use crate::store::expired_of;
use crate::store::has_type_with_id;
use crate::store::instance_ids_unique;
use crate::store::is_expired_at;
use crate::store::lemma_count_active_nonneg;
use crate::store::lemma_count_active_update_deactivate;
use crate::store::lemma_max_instance_id_ge_all;
use crate::store::lemma_max_type_id_ge_all;
use crate::store::max_instance_id;
use crate::store::max_type_id;
use crate::store::missing_of;
use crate::store::remaining_instances;
use crate::store::remaining_types;
use crate::store::quantity_sum;
use crate::store::lemma_quantity_sum_bounds;
use crate::store::sat_add;
use crate::store::spec_consume;
use crate::store::spec_opened;
use crate::store::spec_trashed;
use crate::store::target_index;
use crate::store::lemma_target_index_props;

verus! {

/// A type id issued as one more than the running maximum differs from every
/// id in use, and the id issued after storing it is strictly greater: over
/// any run of creations, issued type ids strictly increase and never repeat.
pub proof fn lemma_type_ids_strictly_increase(types: Seq<ItemType>, t: ItemType)
    requires
        t.id as int == max_type_id(types) + 1,
    ensures
        forall|i: int| 0 <= i < types.len() ==> (#[trigger] types[i]).id < t.id,
        max_type_id(types.push(t)) + 1 > t.id as int,
{
    lemma_max_type_id_ge_all(types);
    assert(types.push(t).drop_last() =~= types);
    assert(types.push(t).last() == t);
}

/// The same for instance ids: an id issued as one more than the running
/// maximum is fresh, and the next issued id is strictly greater.
pub proof fn lemma_instance_ids_strictly_increase(insts: Seq<ItemInstance>, x: ItemInstance)
    requires
        x.id as int == max_instance_id(insts) + 1,
    ensures
        forall|i: int| 0 <= i < insts.len() ==> (#[trigger] insts[i]).id < x.id,
        max_instance_id(insts.push(x)) + 1 > x.id as int,
{
    lemma_max_instance_id_ge_all(insts);
    assert(insts.push(x).drop_last() =~= insts);
    assert(insts.push(x).last() == x);
}

/// Deleting a type removes it and every instance of it: afterwards no type
/// carries the id and no stored instance references it.
pub proof fn lemma_delete_type_cascades(types: Seq<ItemType>, insts: Seq<ItemInstance>, id: u32)
    ensures
        !has_type_with_id(remaining_types(types, id), id),
        forall|k: int|
            0 <= k < remaining_instances(insts, id).len() ==> (#[trigger] remaining_instances(
                insts,
                id,
            )[k]).item_type != id,
{
    let kept = remaining_types(types, id);
    assert forall|i: int| 0 <= i < kept.len() implies (#[trigger] kept[i]).id != id by {
        types.lemma_filter_pred(|t: ItemType| t.id != id, i);
    }
    assert(!has_type_with_id(kept, id));
    assert forall|k: int|
        0 <= k < remaining_instances(insts, id).len() implies (#[trigger] remaining_instances(
        insts,
        id,
    )[k]).item_type != id by {
        insts.lemma_filter_pred(|x: ItemInstance| x.item_type != id, k);
    }
}

/// The contribution one instance makes to its type's active stock.
pub open spec fn instance_contrib(inst: ItemInstance, type_id: u32) -> int {
    if active_of_type(inst, type_id) {
        inst.quantity as int
    } else {
        0
    }
}

/// Replacing one instance shifts the active stock by exactly the difference
/// of the two contributions.
pub proof fn lemma_quantity_sum_update(
    s: Seq<ItemInstance>,
    j: int,
    x: ItemInstance,
    type_id: u32,
)
    requires
        0 <= j < s.len(),
    ensures
        quantity_sum(s.update(j, x), type_id) == quantity_sum(s, type_id) - instance_contrib(
            s[j],
            type_id,
        ) + instance_contrib(x, type_id),
    decreases s.len(),
{
    let s2 = s.update(j, x);
    if j == s.len() - 1 {
        assert(s2.drop_last() =~= s.drop_last());
        assert(s2.last() == x);
    } else {
        assert(s2.drop_last() =~= s.drop_last().update(j, x));
        assert(s2.last() == s.last());
        assert(s.drop_last()[j] == s[j]);
        lemma_quantity_sum_update(s.drop_last(), j, x, type_id);
    }
}

/// Trashing an active instance sets only its removal tick: the record stays
/// in storage with its quantity and every other field untouched, it no
/// longer appears among the active instances of its type, and the type's
/// active stock drops by exactly its quantity.
pub proof fn lemma_trash_effects(insts: Seq<ItemInstance>, j: int, now: u64, type_id: u32)
    requires
        instance_ids_unique(insts),
        0 <= j < insts.len(),
        active_of_type(insts[j], type_id),
    ensures
        ({
            let after = insts.update(j, spec_trashed(insts[j], now));
            &&& spec_trashed(insts[j], now).quantity == insts[j].quantity
            &&& spec_trashed(insts[j], now).id == insts[j].id
            &&& after.len() == insts.len()
            &&& forall|k: int|
                0 <= k < active_for_type(after, type_id).len() ==> (#[trigger] active_for_type(
                    after,
                    type_id,
                )[k]).id != insts[j].id
            &&& quantity_sum(after, type_id) == quantity_sum(insts, type_id) - insts[j].quantity
        }),
{
    let marked = spec_trashed(insts[j], now);
    let after = insts.update(j, marked);
    let pred = |x: ItemInstance| active_of_type(x, type_id);
    lemma_filter_in_source(after, pred);
    assert forall|k: int|
        0 <= k < active_for_type(after, type_id).len() implies (#[trigger] active_for_type(
        after,
        type_id,
    )[k]).id != insts[j].id by {
        let x = after.filter(pred)[k];
        after.lemma_filter_pred(pred, k);
        let a = choose|a: int| 0 <= a < after.len() && after[a] == x;
        if x.id == insts[j].id {
            if a != j {
                assert(after[a].id == insts[a].id);
                assert(after[j].id == insts[j].id);
                if a < j {
                    assert(insts[a].id != insts[j].id);
                } else {
                    assert(insts[j].id != insts[a].id);
                }
            } else {
                assert(x == marked);
                assert(!active_of_type(marked, type_id));
            }
        }
    }
    lemma_quantity_sum_update(insts, j, marked, type_id);
}

/// A type whose target floor is zero is never missing: the missing types
/// are exactly those whose active stock is strictly below their floor, and
/// active stock is never negative.
pub proof fn lemma_zero_minimum_never_missing(types: Seq<ItemType>, insts: Seq<ItemInstance>)
    ensures
        forall|k: int|
            0 <= k < missing_of(types, insts).len() ==> (#[trigger] missing_of(
                types,
                insts,
            )[k]).minimum_quantity > 0,
{
    let pred = |t: ItemType| quantity_sum(insts, t.id) < t.minimum_quantity;
    assert forall|k: int|
        0 <= k < types.filter(pred).len() implies (#[trigger] types.filter(
        pred,
    )[k]).minimum_quantity > 0 by {
        types.lemma_filter_pred(pred, k);
        let t = types.filter(pred)[k];
        lemma_quantity_sum_bounds(insts, t.id);
    }
}

/// Every instance the expiry sweep reports carries a deadline already
/// reached; an instance without a deadline is never reported.
pub proof fn lemma_expired_have_deadline(insts: Seq<ItemInstance>, now: u64)
    ensures
        forall|k: int|
            0 <= k < expired_of(insts, now).len() ==> (#[trigger] expired_of(insts, now)[k]).expires_at
                is Some && expired_of(insts, now)[k].expires_at->0 <= now,
{
    let pred = |x: ItemInstance| is_expired_at(x, now);
    assert forall|k: int|
        0 <= k < expired_of(insts, now).len() implies (#[trigger] expired_of(
        insts,
        now,
    )[k]).expires_at is Some && expired_of(insts, now)[k].expires_at->0 <= now by {
        insts.lemma_filter_pred(pred, k);
    }
}

/// A collection in which the type has no active instance holds no active
/// stock of it.
pub proof fn lemma_no_active_no_stock(s: Seq<ItemInstance>, type_id: u32)
    requires
        forall|k: int| 0 <= k < s.len() ==> !active_of_type(#[trigger] s[k], type_id),
    ensures
        quantity_sum(s, type_id) == 0,
    decreases s.len(),
{
    if s.len() > 0 {
        assert forall|k: int|
            0 <= k < s.drop_last().len() implies !active_of_type(
            #[trigger] s.drop_last()[k],
            type_id,
        ) by {
            assert(s.drop_last()[k] == s[k]);
        }
        lemma_no_active_no_stock(s.drop_last(), type_id);
        assert(s.last() == s[s.len() - 1]);
    }
}

/// Consumption drains exactly what it is asked for, clamped at the stock on
/// hand: after consuming `need` from a type, its active stock is the old
/// stock less `need`, or zero when the draw exceeded the stock.
pub proof fn lemma_consume_drains_exactly(
    s: Seq<ItemInstance>,
    type_id: u32,
    need: int,
    now: u64,
    ttl: Option<u64>,
)
    requires
        need >= 0,
    ensures
        quantity_sum(spec_consume(s, type_id, need, now, ttl), type_id) == if quantity_sum(
            s,
            type_id,
        ) >= need {
            quantity_sum(s, type_id) - need
        } else {
            0
        },
    decreases count_active(s, type_id),
{
    let j = target_index(s, type_id);
    lemma_target_index_props(s, type_id);
    if j < 0 {
        assert forall|k: int|
            0 <= k < s.len() implies !active_of_type(#[trigger] s[k], type_id) by {
            if active_of_type(s[k], type_id) {
                assert(target_index(s, type_id) >= 0);
            }
        }
        lemma_no_active_no_stock(s, type_id);
    } else {
        let inst = s[j];
        // the instance's stock is part of the type's stock
        lemma_quantity_sum_update(s, j, spec_trashed(inst, now), type_id);
        lemma_quantity_sum_bounds(s.update(j, spec_trashed(inst, now)), type_id);
        assert(quantity_sum(s, type_id) >= inst.quantity);
        if need <= inst.quantity {
            let replaced = spec_opened(
                ItemInstance { quantity: (inst.quantity - need) as u64, ..inst },
                now,
                ttl,
            );
            lemma_quantity_sum_update(s, j, replaced, type_id);
        } else {
            let drained = spec_trashed(
                spec_opened(ItemInstance { quantity: 0, ..inst }, now, ttl),
                now,
            );
            lemma_quantity_sum_update(s, j, drained, type_id);
            lemma_count_active_update_deactivate(s, j, drained, type_id);
            lemma_count_active_nonneg(s.update(j, drained), type_id);
            lemma_consume_drains_exactly(
                s.update(j, drained),
                type_id,
                need - inst.quantity,
                now,
                ttl,
            );
        }
    }
}

/// Opening an unopened instance under a type with a shelf life stamps the
/// opening tick and sets the deadline to the opening tick plus the shelf
/// life — unless a deadline already on record is earlier, which is then
/// kept: opening never pushes a deadline later.
pub proof fn lemma_open_sets_earliest_deadline(inst: ItemInstance, now: u64, t: u64)
    requires
        inst.opened_at is None,
    ensures
        spec_opened(inst, now, Some(t)).opened_at == Some(now),
        spec_opened(inst, now, Some(t)).quantity == inst.quantity,
        inst.expires_at is None ==> spec_opened(inst, now, Some(t)).expires_at == Some(
            sat_add(now, t),
        ),
        inst.expires_at is Some && inst.expires_at->0 <= sat_add(now, t) ==> spec_opened(
            inst,
            now,
            Some(t),
        ).expires_at == inst.expires_at,
        inst.expires_at is Some && inst.expires_at->0 > sat_add(now, t) ==> spec_opened(
            inst,
            now,
            Some(t),
        ).expires_at == Some(sat_add(now, t)),
{
}

} // verus!
