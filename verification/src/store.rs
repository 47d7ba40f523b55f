//! The inventory store: owns the collections of item types and item
//! instances, assigns ids, enforces referential integrity between instances
//! and their type, and implements every lifecycle and query operation.

use vstd::prelude::*;

use crate::item::InventoryError;
use crate::item::ItemInstance;
use crate::item::ItemType;
use crate::seq_facts::lemma_filter_in_source;
use crate::seq_facts::lemma_filter_take_step;
use crate::text::matches_name;
use crate::text::name_matches;

verus! {

/// No two item types share an id.
pub open spec fn type_ids_unique(s: Seq<ItemType>) -> bool {
    forall|i: int, j: int| 0 <= i < j < s.len() ==> s[i].id != s[j].id
}

/// No two item instances share an id.
pub open spec fn instance_ids_unique(s: Seq<ItemInstance>) -> bool {
    forall|i: int, j: int| 0 <= i < j < s.len() ==> s[i].id != s[j].id
}

/// Some item type in `s` carries the id.
pub open spec fn has_type_with_id(s: Seq<ItemType>, id: u32) -> bool {
    exists|i: int| 0 <= i < s.len() && s[i].id == id
}

/// Some item instance in `s` carries the id.
pub open spec fn has_instance_with_id(s: Seq<ItemInstance>, id: u32) -> bool {
    exists|i: int| 0 <= i < s.len() && s[i].id == id
}

/// Every instance references an item type that is present.
pub open spec fn refs_intact(types: Seq<ItemType>, insts: Seq<ItemInstance>) -> bool {
    forall|i: int| 0 <= i < insts.len() ==> has_type_with_id(types, #[trigger] insts[i].item_type)
}

/// The largest type id in use, or 0 when there are no types.
pub open spec fn max_type_id(s: Seq<ItemType>) -> int
    decreases s.len(),
{
    if s.len() == 0 {
        0
    } else {
        let m = max_type_id(s.drop_last());
        if s.last().id > m {
            s.last().id as int
        } else {
            m
        }
    }
}

/// The largest instance id in use, or 0 when there are no instances.
pub open spec fn max_instance_id(s: Seq<ItemInstance>) -> int
    decreases s.len(),
{
    if s.len() == 0 {
        0
    } else {
        let m = max_instance_id(s.drop_last());
        if s.last().id > m {
            s.last().id as int
        } else {
            m
        }
    }
}

/// The position of the item type with the given id; meaningful only when
/// `has_type_with_id` holds and type ids are unique.
pub open spec fn type_index(s: Seq<ItemType>, id: u32) -> int {
    choose|i: int| 0 <= i < s.len() && s[i].id == id
}

/// The item type with the given id.
pub open spec fn type_for_id(s: Seq<ItemType>, id: u32) -> ItemType {
    s[type_index(s, id)]
}

/// The position of the item instance with the given id; meaningful only when
/// `has_instance_with_id` holds and instance ids are unique.
pub open spec fn instance_index(s: Seq<ItemInstance>, id: u32) -> int {
    choose|i: int| 0 <= i < s.len() && s[i].id == id
}

/// An instance that has not been trashed.
pub open spec fn is_active(inst: ItemInstance) -> bool {
    inst.removed_at is None
}

/// An active instance of the given type.
pub open spec fn active_of_type(inst: ItemInstance, type_id: u32) -> bool {
    inst.item_type == type_id && is_active(inst)
}

/// Whether some type in `types` carries the id and a name that matches the
/// query, compared case-insensitively.
pub open spec fn type_name_matches(types: Seq<ItemType>, type_id: u32, query: Seq<char>) -> bool {
    exists|k: int|
        0 <= k < types.len() && #[trigger] types[k].id == type_id && name_matches(
            types[k].name@,
            query,
        )
}

/// The types left standing after deleting the type with the given id.
pub open spec fn remaining_types(types: Seq<ItemType>, id: u32) -> Seq<ItemType> {
    types.filter(|t: ItemType| t.id != id)
}

/// The instances left standing after deleting the type with the given id.
pub open spec fn remaining_instances(insts: Seq<ItemInstance>, id: u32) -> Seq<ItemInstance> {
    insts.filter(|x: ItemInstance| x.item_type != id)
}

/// The active instances of the given type, in collection order.
pub open spec fn active_for_type(s: Seq<ItemInstance>, type_id: u32) -> Seq<ItemInstance> {
    s.filter(|x: ItemInstance| active_of_type(x, type_id))
}

/// The types whose active stock is strictly below their target floor.
pub open spec fn missing_of(types: Seq<ItemType>, insts: Seq<ItemInstance>) -> Seq<ItemType> {
    types.filter(|t: ItemType| quantity_sum(insts, t.id) < t.minimum_quantity)
}

/// The instances whose deadline has been reached at tick `now`.
pub open spec fn expired_of(s: Seq<ItemInstance>, now: u64) -> Seq<ItemInstance> {
    s.filter(|x: ItemInstance| is_expired_at(x, now))
}

/// `a + b` in ticks, capped at the largest representable tick.
pub open spec fn sat_add(a: u64, b: u64) -> u64 {
    if a + b > u64::MAX {
        u64::MAX
    } else {
        (a + b) as u64
    }
}

/// The record a creation at tick `now` stores for a submitted instance: the
/// fresh id and arrival tick are filled in, and when the owning type is
/// opened by default the instance starts out opened, with its deadline
/// derived from the type's shelf life (overriding a submitted deadline).
pub open spec fn spec_created_instance(
    inst: ItemInstance,
    id: u32,
    ty: ItemType,
    now: u64,
) -> ItemInstance {
    let opened = if ty.opened_by_default {
        ItemInstance {
            opened_at: Some(now),
            expires_at: if ty.ttl is Some {
                Some(sat_add(now, ty.ttl->0))
            } else {
                inst.expires_at
            },
            ..inst
        }
    } else {
        inst
    };
    ItemInstance { id: id, added_at: now, ..opened }
}

/// A type after a patch: exactly the supplied fields are overwritten.
pub open spec fn spec_patched_type(
    t: ItemType,
    name: Option<String>,
    minimum_quantity: Option<u64>,
    ttl: Option<Option<u64>>,
    opened_by_default: Option<bool>,
) -> ItemType {
    ItemType {
        name: if name is Some {
            name->0
        } else {
            t.name
        },
        minimum_quantity: if minimum_quantity is Some {
            minimum_quantity->0
        } else {
            t.minimum_quantity
        },
        ttl: if ttl is Some {
            ttl->0
        } else {
            t.ttl
        },
        opened_by_default: if opened_by_default is Some {
            opened_by_default->0
        } else {
            t.opened_by_default
        },
        ..t
    }
}

/// An instance after a patch: exactly the supplied fields are overwritten.
/// The optional texts and the value can only be set, while the opening and
/// expiry ticks can also be cleared; id, owning type, and arrival tick never
/// change.
pub open spec fn spec_patched_instance(
    inst: ItemInstance,
    quantity: Option<u64>,
    model: Option<String>,
    serial: Option<String>,
    extra: Option<String>,
    location: Option<String>,
    value: Option<u64>,
    expires_at: Option<Option<u64>>,
    opened_at: Option<Option<u64>>,
) -> ItemInstance {
    ItemInstance {
        quantity: if quantity is Some {
            quantity->0
        } else {
            inst.quantity
        },
        model: if model is Some {
            Some(model->0)
        } else {
            inst.model
        },
        serial: if serial is Some {
            Some(serial->0)
        } else {
            inst.serial
        },
        extra: if extra is Some {
            Some(extra->0)
        } else {
            inst.extra
        },
        location: if location is Some {
            Some(location->0)
        } else {
            inst.location
        },
        value: if value is Some {
            Some(value->0)
        } else {
            inst.value
        },
        expires_at: if expires_at is Some {
            expires_at->0
        } else {
            inst.expires_at
        },
        opened_at: if opened_at is Some {
            opened_at->0
        } else {
            inst.opened_at
        },
        ..inst
    }
}

/// An instance marked as trashed at tick `now`; every other field is kept.
pub open spec fn spec_trashed(inst: ItemInstance, now: u64) -> ItemInstance {
    ItemInstance { removed_at: Some(now), ..inst }
}

/// An instance that carries a deadline already reached at tick `now`.
/// An instance without a deadline never counts as expired.
pub open spec fn is_expired_at(inst: ItemInstance, now: u64) -> bool {
    inst.expires_at is Some && inst.expires_at->0 <= now
}

/// The total quantity held in active instances of the given type; trashed
/// instances do not count.
pub open spec fn quantity_sum(s: Seq<ItemInstance>, type_id: u32) -> int
    decreases s.len(),
{
    if s.len() == 0 {
        0
    } else {
        quantity_sum(s.drop_last(), type_id) + if active_of_type(s.last(), type_id) {
            s.last().quantity as int
        } else {
            0
        }
    }
}

/// The quantity sum is non-negative and at most one full register per
/// instance.
pub proof fn lemma_quantity_sum_bounds(s: Seq<ItemInstance>, type_id: u32)
    ensures
        0 <= quantity_sum(s, type_id),
        quantity_sum(s, type_id) <= s.len() * (u64::MAX as int),
    decreases s.len(),
{
    if s.len() > 0 {
        lemma_quantity_sum_bounds(s.drop_last(), type_id);
        assert((s.len() - 1) * (u64::MAX as int) + (u64::MAX as int) == s.len() * (
        u64::MAX as int)) by (nonlinear_arith);
    }
}

/// A consumption candidate: an active instance of the type, already opened
/// when `need_opened` asks for that.
pub open spec fn spec_candidate(inst: ItemInstance, type_id: u32, need_opened: bool) -> bool {
    active_of_type(inst, type_id) && (!need_opened || inst.opened_at is Some)
}

/// The first position at or after `i` holding a candidate, or -1.
pub open spec fn find_candidate_from(
    s: Seq<ItemInstance>,
    type_id: u32,
    i: int,
    need_opened: bool,
) -> int
    decreases s.len() - i,
{
    if i < 0 || i >= s.len() {
        -1
    } else if spec_candidate(s[i], type_id, need_opened) {
        i
    } else {
        find_candidate_from(s, type_id, i + 1, need_opened)
    }
}

/// The position consumption draws from: the first already-opened active
/// instance of the type, or, when none is opened, the first active one;
/// -1 when the type has no active instance at all.
pub open spec fn target_index(s: Seq<ItemInstance>, type_id: u32) -> int {
    let j = find_candidate_from(s, type_id, 0, true);
    if j >= 0 {
        j
    } else {
        find_candidate_from(s, type_id, 0, false)
    }
}

/// The earlier of an optional deadline on record and a fresh candidate
/// deadline: opening never pushes a deadline later.
pub open spec fn earlier_deadline(existing: Option<u64>, candidate: u64) -> u64 {
    match existing {
        Some(e) => if e < candidate {
            e
        } else {
            candidate
        },
        None => candidate,
    }
}

/// An instance after being opened at tick `now` under a type with the given
/// shelf life: a first consumption records the opening tick and derives the
/// deadline; an instance already opened is left alone.
pub open spec fn spec_opened(inst: ItemInstance, now: u64, ttl: Option<u64>) -> ItemInstance {
    if inst.opened_at is Some {
        inst
    } else {
        ItemInstance {
            opened_at: Some(now),
            expires_at: match ttl {
                Some(t) => Some(earlier_deadline(inst.expires_at, sat_add(now, t))),
                None => inst.expires_at,
            },
            ..inst
        }
    }
}

/// The shelf life of the type with the given id, when such a type exists.
pub open spec fn type_ttl(types: Seq<ItemType>, type_id: u32) -> Option<u64> {
    if has_type_with_id(types, type_id) {
        type_for_id(types, type_id).ttl
    } else {
        None
    }
}

/// How many active instances of the type remain; consumption trashes one
/// per spill-over round, so this bounds the rounds.
pub open spec fn count_active(s: Seq<ItemInstance>, type_id: u32) -> int
    decreases s.len(),
{
    if s.len() == 0 {
        0
    } else {
        count_active(s.drop_last(), type_id) + if active_of_type(s.last(), type_id) {
            1int
        } else {
            0int
        }
    }
}

pub(crate) proof fn lemma_count_active_nonneg(s: Seq<ItemInstance>, type_id: u32)
    ensures
        count_active(s, type_id) >= 0,
    decreases s.len(),
{
    if s.len() > 0 {
        lemma_count_active_nonneg(s.drop_last(), type_id);
    }
}

pub(crate) proof fn lemma_count_active_update_deactivate(
    s: Seq<ItemInstance>,
    j: int,
    x: ItemInstance,
    type_id: u32,
)
    requires
        0 <= j < s.len(),
        active_of_type(s[j], type_id),
        !active_of_type(x, type_id),
    ensures
        count_active(s.update(j, x), type_id) == count_active(s, type_id) - 1,
    decreases s.len(),
{
    let s2 = s.update(j, x);
    if j == s.len() - 1 {
        assert(s2.drop_last() =~= s.drop_last());
        assert(s2.last() == x);
    } else {
        assert(s2.drop_last() =~= s.drop_last().update(j, x));
        assert(s2.last() == s.last());
        assert(s.drop_last()[j] == s[j]);
        lemma_count_active_update_deactivate(s.drop_last(), j, x, type_id);
    }
}

/// A change that keeps every instance's id and owning type keeps the
/// store's invariant.
proof fn lemma_wf_same_ids(types: Seq<ItemType>, s0: Seq<ItemInstance>, s1: Seq<ItemInstance>)
    requires
        instance_ids_unique(s0),
        refs_intact(types, s0),
        s1.len() == s0.len(),
        forall|i: int|
            0 <= i < s1.len() ==> (#[trigger] s1[i]).id == s0[i].id && s1[i].item_type
                == s0[i].item_type,
    ensures
        instance_ids_unique(s1),
        refs_intact(types, s1),
{
    assert forall|p: int, q: int| 0 <= p < q < s1.len() implies s1[p].id != s1[q].id by {
        assert(s1[p].id == s0[p].id);
        assert(s1[q].id == s0[q].id);
    }
    assert forall|i: int|
        0 <= i < s1.len() implies has_type_with_id(types, #[trigger] s1[i].item_type) by {
        assert(s1[i].item_type == s0[i].item_type);
        assert(has_type_with_id(types, s0[i].item_type));
    }
}

proof fn lemma_find_candidate_props(s: Seq<ItemInstance>, type_id: u32, i: int, need_opened: bool)
    requires
        0 <= i <= s.len(),
    ensures
        ({
            let r = find_candidate_from(s, type_id, i, need_opened);
            &&& (r == -1 ==> forall|k: int|
                i <= k < s.len() ==> !spec_candidate(#[trigger] s[k], type_id, need_opened))
            &&& (r != -1 ==> i <= r < s.len() && spec_candidate(s[r], type_id, need_opened)
                && forall|k: int|
                    i <= k < r ==> !spec_candidate(#[trigger] s[k], type_id, need_opened))
        }),
    decreases s.len() - i,
{
    if i < s.len() && !spec_candidate(s[i], type_id, need_opened) {
        lemma_find_candidate_props(s, type_id, i + 1, need_opened);
    }
}

/// A position holding a candidate with no candidate before it is the
/// position the search denotes.
proof fn lemma_find_candidate_at(s: Seq<ItemInstance>, type_id: u32, need_opened: bool, j: int)
    requires
        0 <= j < s.len(),
        spec_candidate(s[j], type_id, need_opened),
        forall|m: int| 0 <= m < j ==> !spec_candidate(#[trigger] s[m], type_id, need_opened),
    ensures
        find_candidate_from(s, type_id, 0, need_opened) == j,
{
    lemma_find_candidate_props(s, type_id, 0, need_opened);
}

/// Consumption can draw from the type exactly when it has an active
/// instance, and it draws from an active instance of that type.
pub proof fn lemma_target_index_props(s: Seq<ItemInstance>, type_id: u32)
    ensures
        (target_index(s, type_id) >= 0) <==> exists|k: int|
            0 <= k < s.len() && active_of_type(#[trigger] s[k], type_id),
        target_index(s, type_id) >= 0 ==> target_index(s, type_id) < s.len() && active_of_type(
            s[target_index(s, type_id)],
            type_id,
        ),
{
    lemma_find_candidate_props(s, type_id, 0, true);
    lemma_find_candidate_props(s, type_id, 0, false);
}

/// The collection after consuming `need` from the type: the target instance
/// is drawn down and opened; when the draw exceeds it, the instance is
/// drained, trashed, and the leftover spills over into the next target,
/// until the draw is covered or no active instance remains.
pub open spec fn spec_consume(
    s: Seq<ItemInstance>,
    type_id: u32,
    need: int,
    now: u64,
    ttl: Option<u64>,
) -> Seq<ItemInstance>
    decreases count_active(s, type_id),
    via spec_consume_decreases
{
    let j = target_index(s, type_id);
    if j < 0 {
        s
    } else {
        let inst = s[j];
        if need <= inst.quantity {
            s.update(
                j,
                spec_opened(
                    ItemInstance { quantity: (inst.quantity - need) as u64, ..inst },
                    now,
                    ttl,
                ),
            )
        } else {
            let drained = spec_trashed(
                spec_opened(ItemInstance { quantity: 0, ..inst }, now, ttl),
                now,
            );
            spec_consume(s.update(j, drained), type_id, need - inst.quantity, now, ttl)
        }
    }
}

#[via_fn]
proof fn spec_consume_decreases(
    s: Seq<ItemInstance>,
    type_id: u32,
    need: int,
    now: u64,
    ttl: Option<u64>,
) {
    let j = target_index(s, type_id);
    if j >= 0 {
        lemma_target_index_props(s, type_id);
        let inst = s[j];
        if need > inst.quantity {
            let drained = spec_trashed(
                spec_opened(ItemInstance { quantity: 0, ..inst }, now, ttl),
                now,
            );
            lemma_count_active_update_deactivate(s, j, drained, type_id);
            lemma_count_active_nonneg(s.update(j, drained), type_id);
        }
    }
}

/// Extending a prefix by one instance adds its quantity exactly when it is
/// an active instance of the type.
proof fn lemma_quantity_sum_take_step(s: Seq<ItemInstance>, type_id: u32, i: int)
    requires
        0 <= i < s.len(),
    ensures
        quantity_sum(s.take(i + 1), type_id) == quantity_sum(s.take(i), type_id)
            + if active_of_type(s[i], type_id) {
            s[i].quantity as int
        } else {
            0
        },
{
    assert(s.take(i + 1).drop_last() =~= s.take(i));
    assert(s.take(i + 1).last() == s[i]);
}

/// Every type id in use is at most the running maximum.
pub proof fn lemma_max_type_id_ge_all(s: Seq<ItemType>)
    ensures
        max_type_id(s) >= 0,
        forall|i: int| 0 <= i < s.len() ==> #[trigger] s[i].id <= max_type_id(s),
    decreases s.len(),
{
    if s.len() > 0 {
        lemma_max_type_id_ge_all(s.drop_last());
        assert forall|i: int| 0 <= i < s.len() implies #[trigger] s[i].id <= max_type_id(s) by {
            if i < s.len() - 1 {
                assert(s[i] == s.drop_last()[i]);
                assert(s.drop_last()[i].id <= max_type_id(s.drop_last()));
            } else {
                assert(s[i] == s.last());
            }
        }
    }
}

/// Every instance id in use is at most the running maximum.
pub proof fn lemma_max_instance_id_ge_all(s: Seq<ItemInstance>)
    ensures
        max_instance_id(s) >= 0,
        forall|i: int| 0 <= i < s.len() ==> #[trigger] s[i].id <= max_instance_id(s),
    decreases s.len(),
{
    if s.len() > 0 {
        lemma_max_instance_id_ge_all(s.drop_last());
        assert forall|i: int| 0 <= i < s.len() implies #[trigger] s[i].id <= max_instance_id(
            s,
        ) by {
            if i < s.len() - 1 {
                assert(s[i] == s.drop_last()[i]);
                assert(s.drop_last()[i].id <= max_instance_id(s.drop_last()));
            } else {
                assert(s[i] == s.last());
            }
        }
    }
}

/// With unique type ids, an index holding the id is the index `type_index`
/// denotes.
pub proof fn lemma_type_index_unique(s: Seq<ItemType>, id: u32, j: int)
    requires
        type_ids_unique(s),
        0 <= j < s.len(),
        s[j].id == id,
    ensures
        has_type_with_id(s, id),
        type_index(s, id) == j,
{
    assert(has_type_with_id(s, id));
    let i = type_index(s, id);
    if i != j {
        if i < j {
            assert(s[i].id != s[j].id);
        } else {
            assert(s[j].id != s[i].id);
        }
    }
}

/// With unique instance ids, an index holding the id is the index
/// `instance_index` denotes.
pub proof fn lemma_instance_index_unique(s: Seq<ItemInstance>, id: u32, j: int)
    requires
        instance_ids_unique(s),
        0 <= j < s.len(),
        s[j].id == id,
    ensures
        has_instance_with_id(s, id),
        instance_index(s, id) == j,
{
    assert(has_instance_with_id(s, id));
    let i = instance_index(s, id);
    if i != j {
        if i < j {
            assert(s[i].id != s[j].id);
        } else {
            assert(s[j].id != s[i].id);
        }
    }
}

/// The full collection of item types and item instances. One store instance
/// is loaded at startup, mutated by a sequence of operations, and persisted
/// at shutdown by its caller.
#[derive(Debug)]
pub struct Inventory {
    pub item_types: Vec<ItemType>,
    pub item_instances: Vec<ItemInstance>,
}

impl Default for Inventory {
    /// An empty store.
    fn default() -> (r: Inventory)
        ensures
            r.item_types@ == Seq::<ItemType>::empty(),
            r.item_instances@ == Seq::<ItemInstance>::empty(),
            r.wf(),
    {
        let r = Inventory { item_types: Vec::new(), item_instances: Vec::new() };
        proof {
            assert(r.item_types@ =~= Seq::<ItemType>::empty());
            assert(r.item_instances@ =~= Seq::<ItemInstance>::empty());
        }
        r
    }
}

impl Clone for Inventory {
    fn clone(&self) -> (r: Inventory)
        ensures
            r.item_types@ == self.item_types@,
            r.item_instances@ == self.item_instances@,
    {
        Inventory {
            item_types: clone_types(&self.item_types),
            item_instances: clone_instances(&self.item_instances),
        }
    }
}

fn clone_types(v: &Vec<ItemType>) -> (r: Vec<ItemType>)
    ensures
        r@ == v@,
{
    let mut r: Vec<ItemType> = Vec::new();
    let mut i: usize = 0;
    while i < v.len()
        invariant
            i <= v@.len(),
            r@ == v@.take(i as int),
        decreases v@.len() - i,
    {
        r.push(v[i].clone());
        i = i + 1;
        proof {
            assert(r@ =~= v@.take(i as int));
        }
    }
    proof {
        assert(v@.take(v@.len() as int) =~= v@);
    }
    r
}

fn clone_instances(v: &Vec<ItemInstance>) -> (r: Vec<ItemInstance>)
    ensures
        r@ == v@,
{
    let mut r: Vec<ItemInstance> = Vec::new();
    let mut i: usize = 0;
    while i < v.len()
        invariant
            i <= v@.len(),
            r@ == v@.take(i as int),
        decreases v@.len() - i,
    {
        r.push(v[i].clone());
        i = i + 1;
        proof {
            assert(r@ =~= v@.take(i as int));
        }
    }
    proof {
        assert(v@.take(v@.len() as int) =~= v@);
    }
    r
}

impl Inventory {
    /// The store's invariant: ids are unique within each collection, and
    /// every instance references a type that is present.
    pub open spec fn wf(self) -> bool {
        &&& type_ids_unique(self.item_types@)
        &&& instance_ids_unique(self.item_instances@)
        &&& refs_intact(self.item_types@, self.item_instances@)
    }

    /// Whether the store satisfies its invariant; lets an unverified caller
    /// check data loaded from outside before operating on it.
    pub fn check_wf(&self) -> (r: bool)
        ensures
            r == self.wf(),
    {
        let types_ok = ids_unique_types(&self.item_types);
        let insts_ok = ids_unique_instances(&self.item_instances);
        let refs_ok = self.refs_ok();
        types_ok && insts_ok && refs_ok
    }

    fn refs_ok(&self) -> (r: bool)
        ensures
            r == refs_intact(self.item_types@, self.item_instances@),
    {
        let mut i: usize = 0;
        while i < self.item_instances.len()
            invariant
                i <= self.item_instances@.len(),
                forall|k: int|
                    0 <= k < i ==> has_type_with_id(
                        self.item_types@,
                        #[trigger] self.item_instances@[k].item_type,
                    ),
            decreases self.item_instances@.len() - i,
        {
            if !self.has_item_type(self.item_instances[i].item_type) {
                return false;
            }
            i = i + 1;
        }
        true
    }

    /// Whether a type with this id exists.
    fn has_item_type(&self, id: u32) -> (r: bool)
        ensures
            r == has_type_with_id(self.item_types@, id),
    {
        match self.position_of_type(id) {
            Some(_) => true,
            None => false,
        }
    }

    /// The position of the first type with this id.
    fn position_of_type(&self, id: u32) -> (r: Option<usize>)
        ensures
            match r {
                Some(j) => {
                    &&& j < self.item_types@.len()
                    &&& self.item_types@[j as int].id == id
                    &&& forall|k: int| 0 <= k < j ==> self.item_types@[k].id != id
                },
                None => !has_type_with_id(self.item_types@, id),
            },
{
        let mut i: usize = 0;
        while i < self.item_types.len()
            invariant
                i <= self.item_types@.len(),
                forall|k: int| 0 <= k < i ==> self.item_types@[k].id != id,
            decreases self.item_types@.len() - i,
        {
            if self.item_types[i].id == id {
                return Some(i);
            }
            i = i + 1;
        }
        None
    }

    /// The position of the first instance with this id.
    fn position_of_instance(&self, id: u32) -> (r: Option<usize>)
        ensures
            match r {
                Some(j) => {
                    &&& j < self.item_instances@.len()
                    &&& self.item_instances@[j as int].id == id
                    &&& forall|k: int| 0 <= k < j ==> self.item_instances@[k].id != id
                },
                None => !has_instance_with_id(self.item_instances@, id),
            },
    {
        let mut i: usize = 0;
        while i < self.item_instances.len()
            invariant
                i <= self.item_instances@.len(),
                forall|k: int| 0 <= k < i ==> self.item_instances@[k].id != id,
            decreases self.item_instances@.len() - i,
        {
            if self.item_instances[i].id == id {
                return Some(i);
            }
            i = i + 1;
        }
        None
    }

    /// The next free type id: one more than the largest in use.
    fn free_type_id(&self) -> (r: u32)
        requires
            max_type_id(self.item_types@) < u32::MAX,
        ensures
            r as int == max_type_id(self.item_types@) + 1,
    {
        proof {
            lemma_max_type_id_ge_all(self.item_types@);
        }
        let mut m: u32 = 0;
        let mut i: usize = 0;
        while i < self.item_types.len()
            invariant
                i <= self.item_types@.len(),
                m as int == max_type_id(self.item_types@.take(i as int)),
                max_type_id(self.item_types@) < u32::MAX,
            decreases self.item_types@.len() - i,
        {
            proof {
                assert(self.item_types@.take(i + 1).drop_last() =~= self.item_types@.take(i as int));
                assert(self.item_types@.take(i + 1).last() == self.item_types@[i as int]);
                lemma_max_type_id_ge_all(self.item_types@);
                lemma_max_take_le_types(self.item_types@, i + 1);
            }
            if self.item_types[i].id > m {
                m = self.item_types[i].id;
            }
            i = i + 1;
        }
        proof {
            assert(self.item_types@.take(self.item_types@.len() as int) =~= self.item_types@);
        }
        m + 1
    }

    /// The next free instance id: one more than the largest in use.
    fn free_instance_id(&self) -> (r: u32)
        requires
            max_instance_id(self.item_instances@) < u32::MAX,
        ensures
            r as int == max_instance_id(self.item_instances@) + 1,
    {
        proof {
            lemma_max_instance_id_ge_all(self.item_instances@);
        }
        let mut m: u32 = 0;
        let mut i: usize = 0;
        while i < self.item_instances.len()
            invariant
                i <= self.item_instances@.len(),
                m as int == max_instance_id(self.item_instances@.take(i as int)),
                max_instance_id(self.item_instances@) < u32::MAX,
            decreases self.item_instances@.len() - i,
        {
            proof {
                assert(self.item_instances@.take(i + 1).drop_last() =~= self.item_instances@.take(
                    i as int,
                ));
                assert(self.item_instances@.take(i + 1).last() == self.item_instances@[i as int]);
                lemma_max_instance_id_ge_all(self.item_instances@);
                lemma_max_take_le_instances(self.item_instances@, i + 1);
            }
            if self.item_instances[i].id > m {
                m = self.item_instances[i].id;
            }
            i = i + 1;
        }
        proof {
            assert(self.item_instances@.take(self.item_instances@.len() as int)
                =~= self.item_instances@);
        }
        m + 1
    }

    /// Stores a new item type under the next free id and returns that id.
    /// Never fails; the id is strictly greater than every id in use.
    pub fn add_item_type(&mut self, item_type: ItemType) -> (id: u32)
        requires
            old(self).wf(),
            max_type_id(old(self).item_types@) < u32::MAX,
        ensures
            final(self).wf(),
            id as int == max_type_id(old(self).item_types@) + 1,
            max_type_id(final(self).item_types@) == id as int,
            forall|i: int|
                0 <= i < old(self).item_types@.len() ==> #[trigger] old(self).item_types@[i].id
                    < id,
            final(self).item_types@ == old(self).item_types@.push(
                ItemType { id: id, ..item_type },
            ),
            final(self).item_instances == old(self).item_instances,
    {
        let free_id = self.free_type_id();
        let mut item_type = item_type;
        item_type.id = free_id;
        proof {
            lemma_max_type_id_ge_all(self.item_types@);
        }
        let ghost before = self.item_types@;
        self.item_types.push(item_type);
        proof {
            assert(self.item_types@.drop_last() =~= before);
            assert(max_type_id(self.item_types@) == free_id as int);
            assert forall|i: int|
                0 <= i < self.item_instances@.len() implies has_type_with_id(
                self.item_types@,
                #[trigger] self.item_instances@[i].item_type,
            ) by {
                let tid = self.item_instances@[i].item_type;
                assert(has_type_with_id(before, tid));
                let k = choose|k: int| 0 <= k < before.len() && before[k].id == tid;
                assert(self.item_types@[k].id == tid);
            }
        }
        free_id
    }

    /// Stores a new item instance under the next free id and returns that id,
    /// or reports `UnknownItemType` — and stores nothing — when the submitted
    /// record does not reference an existing type. On success the arrival
    /// tick is set to `now`, and a type that is opened by default opens the
    /// instance immediately, deriving its deadline from the type's shelf
    /// life.
    pub fn add_item_instance(&mut self, item_instance: ItemInstance, now: u64) -> (r: Result<
        u32,
        InventoryError,
    >)
        requires
            old(self).wf(),
            max_instance_id(old(self).item_instances@) < u32::MAX,
        ensures
            final(self).wf(),
            final(self).item_types == old(self).item_types,
            !has_type_with_id(old(self).item_types@, item_instance.item_type) ==> r == Err::<
                u32,
                InventoryError,
            >(InventoryError::UnknownItemType) && final(self).item_instances == old(
                self,
            ).item_instances,
            has_type_with_id(old(self).item_types@, item_instance.item_type) ==> {
                let id = (max_instance_id(old(self).item_instances@) + 1) as u32;
                &&& r == Ok::<u32, InventoryError>(id)
                &&& max_instance_id(final(self).item_instances@) == id as int
                &&& final(self).item_instances@ == old(self).item_instances@.push(
                    spec_created_instance(
                        item_instance,
                        id,
                        type_for_id(old(self).item_types@, item_instance.item_type),
                        now,
                    ),
                )
                &&& forall|i: int|
                    0 <= i < old(self).item_instances@.len() ==> #[trigger] old(
                        self,
                    ).item_instances@[i].id < id
            },
    {
        let free_id = self.free_instance_id();
        let mut item_instance = item_instance;
        item_instance.id = free_id;
        let j = match self.position_of_type(item_instance.item_type) {
            None => {
                return Err(InventoryError::UnknownItemType);
            },
            Some(j) => j,
        };
        proof {
            lemma_type_index_unique(self.item_types@, item_instance.item_type, j as int);
            lemma_max_instance_id_ge_all(self.item_instances@);
        }
        if self.item_types[j].opened_by_default {
            item_instance.opened_at = Some(now);
            if let Some(t) = self.item_types[j].ttl {
                item_instance.expires_at = Some(now.saturating_add(t));
            }
        }
        item_instance.added_at = now;
        let ghost before = self.item_instances@;
        self.item_instances.push(item_instance);
        proof {
            assert(self.item_instances@.drop_last() =~= before);
            assert(max_instance_id(self.item_instances@) == free_id as int);
            assert forall|i: int|
                0 <= i < self.item_instances@.len() implies has_type_with_id(
                self.item_types@,
                #[trigger] self.item_instances@[i].item_type,
            ) by {
                if i < before.len() {
                    assert(self.item_instances@[i] == before[i]);
                    assert(has_type_with_id(self.item_types@, before[i].item_type));
                } else {
                    assert(self.item_types@[j as int].id
                        == self.item_instances@[i].item_type);
                }
            }
        }
        Ok(free_id)
    }

    /// Soft-deletes the instance with the given id: marks it as removed at
    /// tick `now`, touching no other field and keeping the record in
    /// storage. Reports `UnknownItemInstance` — and changes nothing — when no
    /// instance has that id.
    pub fn trash(&mut self, instance_id: u32, now: u64) -> (r: Result<(), InventoryError>)
        requires
            old(self).wf(),
        ensures
            final(self).wf(),
            final(self).item_types == old(self).item_types,
            !has_instance_with_id(old(self).item_instances@, instance_id) ==> r == Err::<
                (),
                InventoryError,
            >(InventoryError::UnknownItemInstance) && final(self).item_instances == old(
                self,
            ).item_instances,
            has_instance_with_id(old(self).item_instances@, instance_id) ==> {
                let j = instance_index(old(self).item_instances@, instance_id);
                &&& r == Ok::<(), InventoryError>(())
                &&& final(self).item_instances@ == old(self).item_instances@.update(
                    j,
                    spec_trashed(old(self).item_instances@[j], now),
                )
            },
    {
        let j = match self.position_of_instance(instance_id) {
            None => {
                return Err(InventoryError::UnknownItemInstance);
            },
            Some(j) => j,
        };
        proof {
            lemma_instance_index_unique(self.item_instances@, instance_id, j as int);
        }
        self.item_instances[j].removed_at = Some(now);
        proof {
            let s0 = old(self).item_instances@;
            let s1 = self.item_instances@;
            assert(s1 =~= s0.update(j as int, spec_trashed(s0[j as int], now)));
            assert forall|p: int, q: int| 0 <= p < q < s1.len() implies s1[p].id != s1[q].id by {
                assert(s1[p].id == s0[p].id);
                assert(s1[q].id == s0[q].id);
            }
            assert forall|i: int|
                0 <= i < s1.len() implies has_type_with_id(
                self.item_types@,
                #[trigger] s1[i].item_type,
            ) by {
                assert(s1[i].item_type == s0[i].item_type);
                assert(has_type_with_id(self.item_types@, s0[i].item_type));
            }
        }
        Ok(())
    }

    /// Hard-deletes the instance with the given id: the record is removed
    /// from storage for good, unlike a trashed instance. Reports
    /// `UnknownItemInstance` — and changes nothing — when no instance has
    /// that id.
    pub fn delete_item_instance(&mut self, id: u32) -> (r: Result<(), InventoryError>)
        requires
            old(self).wf(),
        ensures
            final(self).wf(),
            final(self).item_types == old(self).item_types,
            !has_instance_with_id(old(self).item_instances@, id) ==> r == Err::<
                (),
                InventoryError,
            >(InventoryError::UnknownItemInstance) && final(self).item_instances == old(
                self,
            ).item_instances,
            has_instance_with_id(old(self).item_instances@, id) ==> {
                let j = instance_index(old(self).item_instances@, id);
                &&& r == Ok::<(), InventoryError>(())
                &&& final(self).item_instances@ == old(self).item_instances@.remove(j)
            },
    {
        let j = match self.position_of_instance(id) {
            None => {
                return Err(InventoryError::UnknownItemInstance);
            },
            Some(j) => j,
        };
        proof {
            lemma_instance_index_unique(self.item_instances@, id, j as int);
        }
        self.item_instances.remove(j);
        proof {
            let s0 = old(self).item_instances@;
            let s1 = self.item_instances@;
            assert forall|p: int, q: int| 0 <= p < q < s1.len() implies s1[p].id != s1[q].id by {
                let p0: int = if p < j { p } else { p + 1 };
                let q0: int = if q < j { q } else { q + 1 };
                assert(s1[p] == s0[p0]);
                assert(s1[q] == s0[q0]);
            }
            assert forall|i: int|
                0 <= i < s1.len() implies has_type_with_id(
                self.item_types@,
                #[trigger] s1[i].item_type,
            ) by {
                let i0: int = if i < j { i } else { i + 1 };
                assert(s1[i] == s0[i0]);
                assert(has_type_with_id(self.item_types@, s0[i0].item_type));
            }
        }
        Ok(())
    }

    /// Deletes the type with the given id and cascades: every instance of
    /// that type is removed from storage entirely. Deleting an id no type
    /// carries is a no-op, not an error.
    #[verifier::loop_isolation(false)]
    pub fn delete_item_type(&mut self, id: u32)
        requires
            old(self).wf(),
        ensures
            final(self).wf(),
            final(self).item_types@ == remaining_types(old(self).item_types@, id),
            final(self).item_instances@ == remaining_instances(old(self).item_instances@, id),
            !has_type_with_id(final(self).item_types@, id),
    {
        let mut kept_types: Vec<ItemType> = Vec::new();
        let mut i: usize = 0;
        while i < self.item_types.len()
            invariant
                i <= self.item_types@.len(),
                kept_types@ == self.item_types@.take(i as int).filter(|t: ItemType| t.id != id),
            decreases self.item_types@.len() - i,
        {
            proof {
                lemma_filter_take_step(self.item_types@, |t: ItemType| t.id != id, i as int);
            }
            if self.item_types[i].id != id {
                kept_types.push(self.item_types[i].clone());
            }
            i = i + 1;
        }
        let mut kept_instances: Vec<ItemInstance> = Vec::new();
        let mut k: usize = 0;
        while k < self.item_instances.len()
            invariant
                k <= self.item_instances@.len(),
                kept_instances@ == self.item_instances@.take(k as int).filter(
                    |x: ItemInstance| x.item_type != id,
                ),
            decreases self.item_instances@.len() - k,
        {
            proof {
                lemma_filter_take_step(
                    self.item_instances@,
                    |x: ItemInstance| x.item_type != id,
                    k as int,
                );
            }
            if self.item_instances[k].item_type != id {
                kept_instances.push(self.item_instances[k].clone());
            }
            k = k + 1;
        }
        proof {
            assert(self.item_types@.take(self.item_types@.len() as int) =~= self.item_types@);
            assert(self.item_instances@.take(self.item_instances@.len() as int)
                =~= self.item_instances@);
        }
        self.item_types = kept_types;
        self.item_instances = kept_instances;
        proof {
            let tp = |t: ItemType| t.id != id;
            let ip = |x: ItemInstance| x.item_type != id;
            let t0 = old(self).item_types@;
            let s0 = old(self).item_instances@;
            lemma_filter_keeps_type_ids_unique(t0, tp);
            lemma_filter_keeps_instance_ids_unique(s0, ip);
            lemma_filter_in_source(s0, ip);
            assert forall|i2: int|
                0 <= i2 < self.item_instances@.len() implies has_type_with_id(
                self.item_types@,
                #[trigger] self.item_instances@[i2].item_type,
            ) by {
                let x = self.item_instances@[i2];
                let a = choose|a: int| 0 <= a < s0.len() && s0[a] == x;
                assert(has_type_with_id(t0, s0[a].item_type));
                let b = choose|b: int| 0 <= b < t0.len() && t0[b].id == s0[a].item_type;
                s0.lemma_filter_pred(ip, i2);
                assert(x.item_type != id);
                assert(tp(t0[b]));
                t0.lemma_filter_contains(tp, b);
                let c = choose|c: int|
                    0 <= c < t0.filter(tp).len() && t0.filter(tp)[c] == t0[b];
                assert(self.item_types@[c].id == x.item_type);
            }
            assert forall|c2: int|
                0 <= c2 < self.item_types@.len() implies self.item_types@[c2].id != id by {
                t0.lemma_filter_pred(tp, c2);
            }
        }
    }

    /// Patches the type with the given id: exactly the supplied fields are
    /// overwritten, the others stay. Reports `UnknownItemType` — and changes
    /// nothing — when no type has that id.
    pub fn update_item_type(
        &mut self,
        id: u32,
        name: Option<String>,
        minimum_quantity: Option<u64>,
        ttl: Option<Option<u64>>,
        opened_by_default: Option<bool>,
    ) -> (r: Result<(), InventoryError>)
        requires
            old(self).wf(),
        ensures
            final(self).wf(),
            final(self).item_instances == old(self).item_instances,
            !has_type_with_id(old(self).item_types@, id) ==> r == Err::<(), InventoryError>(
                InventoryError::UnknownItemType,
            ) && final(self).item_types == old(self).item_types,
            has_type_with_id(old(self).item_types@, id) ==> {
                let j = type_index(old(self).item_types@, id);
                &&& r == Ok::<(), InventoryError>(())
                &&& final(self).item_types@ == old(self).item_types@.update(
                    j,
                    spec_patched_type(
                        old(self).item_types@[j],
                        name,
                        minimum_quantity,
                        ttl,
                        opened_by_default,
                    ),
                )
            },
    {
        let j = match self.position_of_type(id) {
            None => {
                return Err(InventoryError::UnknownItemType);
            },
            Some(j) => j,
        };
        proof {
            lemma_type_index_unique(self.item_types@, id, j as int);
        }
        if let Some(n) = name {
            self.item_types[j].name = n;
        }
        if let Some(m) = minimum_quantity {
            self.item_types[j].minimum_quantity = m;
        }
        if let Some(t) = ttl {
            self.item_types[j].ttl = t;
        }
        if let Some(o) = opened_by_default {
            self.item_types[j].opened_by_default = o;
        }
        proof {
            let t0 = old(self).item_types@;
            let t1 = self.item_types@;
            assert(t1 =~= t0.update(
                j as int,
                spec_patched_type(t0[j as int], name, minimum_quantity, ttl, opened_by_default),
            ));
            assert forall|p: int, q: int| 0 <= p < q < t1.len() implies t1[p].id != t1[q].id by {
                assert(t1[p].id == t0[p].id);
                assert(t1[q].id == t0[q].id);
            }
            assert forall|i: int|
                0 <= i < self.item_instances@.len() implies has_type_with_id(
                t1,
                #[trigger] self.item_instances@[i].item_type,
            ) by {
                let tid = self.item_instances@[i].item_type;
                assert(has_type_with_id(t0, tid));
                let k = choose|k: int| 0 <= k < t0.len() && t0[k].id == tid;
                assert(t1[k].id == tid);
            }
        }
        Ok(())
    }

    /// Patches the instance with the given id: exactly the supplied fields
    /// are overwritten, the others stay; the id, owning type, and arrival
    /// tick never change. Reports `UnknownItemInstance` — and changes
    /// nothing — when no instance has that id.
    pub fn update_item_instance(
        &mut self,
        id: u32,
        quantity: Option<u64>,
        model: Option<String>,
        serial: Option<String>,
        extra: Option<String>,
        location: Option<String>,
        value: Option<u64>,
        expires_at: Option<Option<u64>>,
        opened_at: Option<Option<u64>>,
    ) -> (r: Result<(), InventoryError>)
        requires
            old(self).wf(),
        ensures
            final(self).wf(),
            final(self).item_types == old(self).item_types,
            !has_instance_with_id(old(self).item_instances@, id) ==> r == Err::<
                (),
                InventoryError,
            >(InventoryError::UnknownItemInstance) && final(self).item_instances == old(
                self,
            ).item_instances,
            has_instance_with_id(old(self).item_instances@, id) ==> {
                let j = instance_index(old(self).item_instances@, id);
                &&& r == Ok::<(), InventoryError>(())
                &&& final(self).item_instances@ == old(self).item_instances@.update(
                    j,
                    spec_patched_instance(
                        old(self).item_instances@[j],
                        quantity,
                        model,
                        serial,
                        extra,
                        location,
                        value,
                        expires_at,
                        opened_at,
                    ),
                )
            },
    {
        let j = match self.position_of_instance(id) {
            None => {
                return Err(InventoryError::UnknownItemInstance);
            },
            Some(j) => j,
        };
        proof {
            lemma_instance_index_unique(self.item_instances@, id, j as int);
        }
        if let Some(q) = quantity {
            self.item_instances[j].quantity = q;
        }
        if let Some(m) = model {
            self.item_instances[j].model = Some(m);
        }
        if let Some(s) = serial {
            self.item_instances[j].serial = Some(s);
        }
        if let Some(e) = extra {
            self.item_instances[j].extra = Some(e);
        }
        if let Some(l) = location {
            self.item_instances[j].location = Some(l);
        }
        if let Some(v) = value {
            self.item_instances[j].value = Some(v);
        }
        if let Some(e) = expires_at {
            self.item_instances[j].expires_at = e;
        }
        if let Some(o) = opened_at {
            self.item_instances[j].opened_at = o;
        }
        proof {
            let s0 = old(self).item_instances@;
            let s1 = self.item_instances@;
            assert(s1 =~= s0.update(
                j as int,
                spec_patched_instance(
                    s0[j as int],
                    quantity,
                    model,
                    serial,
                    extra,
                    location,
                    value,
                    expires_at,
                    opened_at,
                ),
            ));
            assert forall|p: int, q: int| 0 <= p < q < s1.len() implies s1[p].id != s1[q].id by {
                assert(s1[p].id == s0[p].id);
                assert(s1[q].id == s0[q].id);
            }
            assert forall|i: int|
                0 <= i < s1.len() implies has_type_with_id(
                self.item_types@,
                #[trigger] s1[i].item_type,
            ) by {
                assert(s1[i].item_type == s0[i].item_type);
                assert(has_type_with_id(self.item_types@, s0[i].item_type));
            }
        }
        Ok(())
    }

    /// The position consumption draws from, if the type has an active
    /// instance: the first already-opened one, else the first active one.
    #[verifier::loop_isolation(false)]
    fn find_target(&self, type_id: u32) -> (r: Option<usize>)
        ensures
            match r {
                Some(j) => j as int == target_index(self.item_instances@, type_id),
                None => target_index(self.item_instances@, type_id) == -1,
            },
    {
        let mut i: usize = 0;
        while i < self.item_instances.len()
            invariant
                i <= self.item_instances@.len(),
                forall|m: int|
                    0 <= m < i ==> !spec_candidate(
                        #[trigger] self.item_instances@[m],
                        type_id,
                        true,
                    ),
            decreases self.item_instances@.len() - i,
        {
            let inst = &self.item_instances[i];
            if inst.item_type == type_id && inst.removed_at.is_none() && inst.opened_at.is_some() {
                proof {
                    lemma_find_candidate_at(self.item_instances@, type_id, true, i as int);
                }
                return Some(i);
            }
            i = i + 1;
        }
        proof {
            lemma_find_candidate_props(self.item_instances@, type_id, 0, true);
            assert(find_candidate_from(self.item_instances@, type_id, 0, true) == -1) by {
                if find_candidate_from(self.item_instances@, type_id, 0, true) != -1 {
                    assert(spec_candidate(
                        self.item_instances@[find_candidate_from(
                            self.item_instances@,
                            type_id,
                            0,
                            true,
                        )],
                        type_id,
                        true,
                    ));
                }
            }
        }
        let mut k: usize = 0;
        while k < self.item_instances.len()
            invariant
                k <= self.item_instances@.len(),
                find_candidate_from(self.item_instances@, type_id, 0, true) == -1,
                forall|m: int|
                    0 <= m < k ==> !spec_candidate(
                        #[trigger] self.item_instances@[m],
                        type_id,
                        false,
                    ),
            decreases self.item_instances@.len() - k,
        {
            let inst = &self.item_instances[k];
            if inst.item_type == type_id && inst.removed_at.is_none() {
                proof {
                    lemma_find_candidate_at(self.item_instances@, type_id, false, k as int);
                }
                return Some(k);
            }
            k = k + 1;
        }
        proof {
            lemma_find_candidate_props(self.item_instances@, type_id, 0, false);
            assert(find_candidate_from(self.item_instances@, type_id, 0, false) == -1) by {
                if find_candidate_from(self.item_instances@, type_id, 0, false) != -1 {
                    assert(spec_candidate(
                        self.item_instances@[find_candidate_from(
                            self.item_instances@,
                            type_id,
                            0,
                            false,
                        )],
                        type_id,
                        false,
                    ));
                }
            }
        }
        None
    }

    /// Records the first consumption of the instance at position `j`: sets
    /// its opening tick and derives its deadline from the type's shelf life,
    /// never pushing a deadline already on record later. An instance already
    /// opened is left alone.
    fn open_at_index(&mut self, j: usize, type_id: u32, now: u64)
        requires
            old(self).wf(),
            j < old(self).item_instances@.len(),
            old(self).item_instances@[j as int].item_type == type_id,
            has_type_with_id(old(self).item_types@, type_id),
        ensures
            final(self).item_types == old(self).item_types,
            final(self).item_instances@ == old(self).item_instances@.update(
                j as int,
                spec_opened(
                    old(self).item_instances@[j as int],
                    now,
                    type_ttl(old(self).item_types@, type_id),
                ),
            ),
    {
        if self.item_instances[j].opened_at.is_some() {
            proof {
                assert(self.item_instances@ =~= old(self).item_instances@.update(
                    j as int,
                    spec_opened(
                        old(self).item_instances@[j as int],
                        now,
                        type_ttl(old(self).item_types@, type_id),
                    ),
                ));
            }
            return ;
        }
        self.item_instances[j].opened_at = Some(now);
        let k = match self.position_of_type(type_id) {
            Some(k) => k,
            None => {
                proof {
                    assert(false);
                }
                0
            },
        };
        proof {
            lemma_type_index_unique(self.item_types@, type_id, k as int);
        }
        if let Some(t) = self.item_types[k].ttl {
            let candidate = now.saturating_add(t);
            let deadline = match self.item_instances[j].expires_at {
                Some(e) => if e < candidate {
                    e
                } else {
                    candidate
                },
                None => candidate,
            };
            self.item_instances[j].expires_at = Some(deadline);
        }
        proof {
            assert(self.item_instances@ =~= old(self).item_instances@.update(
                j as int,
                spec_opened(
                    old(self).item_instances@[j as int],
                    now,
                    type_ttl(old(self).item_types@, type_id),
                ),
            ));
        }
    }

    /// Consumes `quantity` of the given type at tick `now`. The draw goes to
    /// the first already-opened active instance, else the first active one;
    /// drawing past an instance's quantity drains it to zero, trashes it,
    /// and spills the leftover into the next target until the draw is
    /// covered or no active instance remains. A first draw from an instance
    /// opens it. Reports `NoMatchingInstance` — and changes nothing — only
    /// when the type has no active instance at all.
    pub fn use_instance(&mut self, type_id: u32, quantity: u64, now: u64) -> (r: Result<
        (),
        InventoryError,
    >)
        requires
            old(self).wf(),
        ensures
            final(self).wf(),
            final(self).item_types == old(self).item_types,
            target_index(old(self).item_instances@, type_id) < 0 ==> r == Err::<
                (),
                InventoryError,
            >(InventoryError::NoMatchingInstance) && final(self).item_instances == old(
                self,
            ).item_instances,
            target_index(old(self).item_instances@, type_id) >= 0 ==> r == Ok::<
                (),
                InventoryError,
            >(()) && final(self).item_instances@ == spec_consume(
                old(self).item_instances@,
                type_id,
                quantity as int,
                now,
                type_ttl(old(self).item_types@, type_id),
            ),
    {
        let ghost orig = self.item_instances@;
        let ghost ttl_g = type_ttl(self.item_types@, type_id);
        match self.find_target(type_id) {
            None => {
                return Err(InventoryError::NoMatchingInstance);
            },
            Some(_) => {},
        }
        let mut need: u64 = quantity;
        loop
            invariant_except_break
                self.wf(),
                self.item_types == old(self).item_types,
                orig == old(self).item_instances@,
                ttl_g == type_ttl(old(self).item_types@, type_id),
                spec_consume(orig, type_id, quantity as int, now, ttl_g) == spec_consume(
                    self.item_instances@,
                    type_id,
                    need as int,
                    now,
                    ttl_g,
                ),
            ensures
                self.wf(),
                self.item_types == old(self).item_types,
                spec_consume(orig, type_id, quantity as int, now, ttl_g)
                    == self.item_instances@,
            decreases count_active(self.item_instances@, type_id),
        {
            let ghost s = self.item_instances@;
            let j = match self.find_target(type_id) {
                None => {
                    break ;
                },
                Some(j) => j,
            };
            proof {
                lemma_target_index_props(s, type_id);
                assert(active_of_type(s[j as int], type_id));
                assert(has_type_with_id(self.item_types@, type_id));
                assert(type_ttl(self.item_types@, type_id) == ttl_g);
            }
            let inst_quantity = self.item_instances[j].quantity;
            if need <= inst_quantity {
                self.item_instances[j].quantity = inst_quantity - need;
                self.open_at_index(j, type_id, now);
                proof {
                    let inst = s[j as int];
                    assert(self.item_instances@ =~= s.update(
                        j as int,
                        spec_opened(
                            ItemInstance { quantity: (inst.quantity - need as int) as u64, ..inst },
                            now,
                            ttl_g,
                        ),
                    ));
                    assert(spec_consume(s, type_id, need as int, now, ttl_g)
                        == self.item_instances@);
                    lemma_wf_same_ids(self.item_types@, s, self.item_instances@);
                }
                break ;
            } else {
                let leftover = need - inst_quantity;
                self.item_instances[j].quantity = 0;
                self.open_at_index(j, type_id, now);
                self.item_instances[j].removed_at = Some(now);
                proof {
                    let inst = s[j as int];
                    let drained = spec_trashed(
                        spec_opened(ItemInstance { quantity: 0, ..inst }, now, ttl_g),
                        now,
                    );
                    assert(self.item_instances@ =~= s.update(j as int, drained));
                    assert(spec_consume(s, type_id, need as int, now, ttl_g) == spec_consume(
                        s.update(j as int, drained),
                        type_id,
                        need as int - inst.quantity,
                        now,
                        ttl_g,
                    ));
                    lemma_wf_same_ids(self.item_types@, s, self.item_instances@);
                    lemma_count_active_update_deactivate(s, j as int, drained, type_id);
                    lemma_count_active_nonneg(self.item_instances@, type_id);
                }
                need = leftover;
            }
        }
        Ok(())
    }

    /// The type with the given id, if any.
    pub fn get_item_type(&self, id: u32) -> (r: Option<ItemType>)
        requires
            self.wf(),
        ensures
            has_type_with_id(self.item_types@, id) ==> r == Some(
                type_for_id(self.item_types@, id),
            ),
            !has_type_with_id(self.item_types@, id) ==> r is None,
    {
        match self.position_of_type(id) {
            None => None,
            Some(j) => {
                proof {
                    lemma_type_index_unique(self.item_types@, id, j as int);
                }
                Some(self.item_types[j].clone())
            },
        }
    }

    /// The active instance with the given id; a trashed or unknown id gives
    /// nothing.
    pub fn get_item_instance(&self, id: u32) -> (r: Option<ItemInstance>)
        requires
            self.wf(),
        ensures
            !has_instance_with_id(self.item_instances@, id) ==> r is None,
            has_instance_with_id(self.item_instances@, id) && is_active(
                self.item_instances@[instance_index(self.item_instances@, id)],
            ) ==> r == Some(self.item_instances@[instance_index(self.item_instances@, id)]),
            has_instance_with_id(self.item_instances@, id) && !is_active(
                self.item_instances@[instance_index(self.item_instances@, id)],
            ) ==> r is None,
    {
        match self.position_of_instance(id) {
            None => None,
            Some(j) => {
                proof {
                    lemma_instance_index_unique(self.item_instances@, id, j as int);
                }
                if self.item_instances[j].removed_at.is_none() {
                    Some(self.item_instances[j].clone())
                } else {
                    None
                }
            },
        }
    }

    /// The active instances of the given type, in collection order, or
    /// `UnknownItemType` when no type has that id.
    #[verifier::loop_isolation(false)]
    pub fn get_instances_for_type(&self, id: u32) -> (r: Result<Vec<ItemInstance>, InventoryError>)
        ensures
            !has_type_with_id(self.item_types@, id) ==> r == Err::<Vec<ItemInstance>, InventoryError>(
                InventoryError::UnknownItemType,
            ),
            has_type_with_id(self.item_types@, id) ==> r is Ok && r->Ok_0@ == active_for_type(
                self.item_instances@,
                id,
            ),
    {
        if !self.has_item_type(id) {
            return Err(InventoryError::UnknownItemType);
        }
        let mut out: Vec<ItemInstance> = Vec::new();
        let mut i: usize = 0;
        while i < self.item_instances.len()
            invariant
                i <= self.item_instances@.len(),
                out@ == self.item_instances@.take(i as int).filter(
                    |x: ItemInstance| active_of_type(x, id),
                ),
            decreases self.item_instances@.len() - i,
        {
            proof {
                lemma_filter_take_step(
                    self.item_instances@,
                    |x: ItemInstance| active_of_type(x, id),
                    i as int,
                );
            }
            if self.item_instances[i].item_type == id && self.item_instances[i].removed_at.is_none() {
                out.push(self.item_instances[i].clone());
            }
            i = i + 1;
        }
        proof {
            assert(self.item_instances@.take(self.item_instances@.len() as int)
                =~= self.item_instances@);
        }
        Ok(out)
    }

    /// All instances that are not trashed, in collection order.
    #[verifier::loop_isolation(false)]
    pub fn active_instances(&self) -> (r: Vec<ItemInstance>)
        ensures
            r@ == self.item_instances@.filter(|x: ItemInstance| is_active(x)),
    {
        let mut out: Vec<ItemInstance> = Vec::new();
        let mut i: usize = 0;
        while i < self.item_instances.len()
            invariant
                i <= self.item_instances@.len(),
                out@ == self.item_instances@.take(i as int).filter(|x: ItemInstance| is_active(x)),
            decreases self.item_instances@.len() - i,
        {
            proof {
                lemma_filter_take_step(
                    self.item_instances@,
                    |x: ItemInstance| is_active(x),
                    i as int,
                );
            }
            if self.item_instances[i].removed_at.is_none() {
                out.push(self.item_instances[i].clone());
            }
            i = i + 1;
        }
        proof {
            assert(self.item_instances@.take(self.item_instances@.len() as int)
                =~= self.item_instances@);
        }
        out
    }

    /// The total quantity held in active instances of the given type; 0 when
    /// there are none. Trashed instances do not count.
    #[verifier::loop_isolation(false)]
    pub fn quantity_for_type(&self, type_id: u32) -> (r: u128)
        ensures
            r as int == quantity_sum(self.item_instances@, type_id),
    {
        let mut total: u128 = 0;
        let mut i: usize = 0;
        while i < self.item_instances.len()
            invariant
                i <= self.item_instances@.len(),
                total as int == quantity_sum(self.item_instances@.take(i as int), type_id),
            decreases self.item_instances@.len() - i,
        {
            proof {
                lemma_quantity_sum_take_step(self.item_instances@, type_id, i as int);
                lemma_quantity_sum_bounds(self.item_instances@.take(i as int), type_id);
                assert(self.item_instances@.take(i as int).len() == i as int);
                assert((i as int) * (u64::MAX as int) + (u64::MAX as int) <= u128::MAX as int)
                    by (nonlinear_arith)
                    requires
                        0 <= i as int <= u64::MAX as int,
                ;
            }
            let inst = &self.item_instances[i];
            if inst.item_type == type_id && inst.removed_at.is_none() {
                total = total + inst.quantity as u128;
            }
            i = i + 1;
        }
        proof {
            assert(self.item_instances@.take(self.item_instances@.len() as int)
                =~= self.item_instances@);
        }
        total
    }

    /// The types whose active stock is strictly below their target floor.
    #[verifier::loop_isolation(false)]
    pub fn missing_types(&self) -> (r: Vec<ItemType>)
        ensures
            r@ == missing_of(self.item_types@, self.item_instances@),
    {
        let mut out: Vec<ItemType> = Vec::new();
        let mut i: usize = 0;
        while i < self.item_types.len()
            invariant
                i <= self.item_types@.len(),
                out@ == self.item_types@.take(i as int).filter(
                    |t: ItemType| quantity_sum(self.item_instances@, t.id) < t.minimum_quantity,
                ),
            decreases self.item_types@.len() - i,
        {
            proof {
                lemma_filter_take_step(
                    self.item_types@,
                    |t: ItemType| quantity_sum(self.item_instances@, t.id) < t.minimum_quantity,
                    i as int,
                );
            }
            let stock = self.quantity_for_type(self.item_types[i].id);
            if stock < self.item_types[i].minimum_quantity as u128 {
                out.push(self.item_types[i].clone());
            }
            i = i + 1;
        }
        proof {
            assert(self.item_types@.take(self.item_types@.len() as int) =~= self.item_types@);
        }
        out
    }

    /// The types whose name contains the query, compared case-insensitively,
    /// in collection order.
    #[verifier::loop_isolation(false)]
    pub fn get_types_for_name(&self, name: &String) -> (r: Vec<ItemType>)
        ensures
            r@ == self.item_types@.filter(|t: ItemType| name_matches(t.name@, name@)),
    {
        let mut out: Vec<ItemType> = Vec::new();
        let mut i: usize = 0;
        while i < self.item_types.len()
            invariant
                i <= self.item_types@.len(),
                out@ == self.item_types@.take(i as int).filter(
                    |t: ItemType| name_matches(t.name@, name@),
                ),
            decreases self.item_types@.len() - i,
        {
            proof {
                lemma_filter_take_step(
                    self.item_types@,
                    |t: ItemType| name_matches(t.name@, name@),
                    i as int,
                );
            }
            if matches_name(self.item_types[i].name.as_str(), name.as_str()) {
                out.push(self.item_types[i].clone());
            }
            i = i + 1;
        }
        proof {
            assert(self.item_types@.take(self.item_types@.len() as int) =~= self.item_types@);
        }
        out
    }

    /// Whether some type carries the id and a name that matches the query.
    #[verifier::loop_isolation(false)]
    fn type_matches_by_id(&self, type_id: u32, name: &String) -> (r: bool)
        ensures
            r == type_name_matches(self.item_types@, type_id, name@),
    {
        let mut k: usize = 0;
        while k < self.item_types.len()
            invariant
                k <= self.item_types@.len(),
                forall|m: int|
                    0 <= m < k ==> !(#[trigger] self.item_types@[m].id == type_id && name_matches(
                        self.item_types@[m].name@,
                        name@,
                    )),
            decreases self.item_types@.len() - k,
        {
            if self.item_types[k].id == type_id && matches_name(
                self.item_types[k].name.as_str(),
                name.as_str(),
            ) {
                return true;
            }
            k = k + 1;
        }
        false
    }

    /// The active instances whose type's name contains the query, compared
    /// case-insensitively, in collection order.
    #[verifier::loop_isolation(false)]
    pub fn instances_for_type_name(&self, name: &String) -> (r: Vec<ItemInstance>)
        ensures
            r@ == self.item_instances@.filter(
                |x: ItemInstance| is_active(x) && type_name_matches(
                    self.item_types@,
                    x.item_type,
                    name@,
                ),
            ),
    {
        let mut out: Vec<ItemInstance> = Vec::new();
        let mut i: usize = 0;
        while i < self.item_instances.len()
            invariant
                i <= self.item_instances@.len(),
                out@ == self.item_instances@.take(i as int).filter(
                    |x: ItemInstance| is_active(x) && type_name_matches(
                        self.item_types@,
                        x.item_type,
                        name@,
                    ),
                ),
            decreases self.item_instances@.len() - i,
        {
            proof {
                lemma_filter_take_step(
                    self.item_instances@,
                    |x: ItemInstance| is_active(x) && type_name_matches(
                        self.item_types@,
                        x.item_type,
                        name@,
                    ),
                    i as int,
                );
            }
            if self.item_instances[i].removed_at.is_none() && self.type_matches_by_id(
                self.item_instances[i].item_type,
                name,
            ) {
                out.push(self.item_instances[i].clone());
            }
            i = i + 1;
        }
        proof {
            assert(self.item_instances@.take(self.item_instances@.len() as int)
                =~= self.item_instances@);
        }
        out
    }

    /// The instances whose deadline has been reached at tick `now`, trashed
    /// or not; instances without a deadline are never included.
    pub fn expired_instances(&self, now: u64) -> (r: Vec<ItemInstance>)
        ensures
            r@ == expired_of(self.item_instances@, now),
    {
        filter_expired(&self.item_instances, now)
    }
}

/// The instances in the list whose deadline has been reached at tick `now`;
/// instances without a deadline are never included.
#[verifier::loop_isolation(false)]
pub fn filter_expired(instances: &Vec<ItemInstance>, now: u64) -> (r: Vec<ItemInstance>)
    ensures
        r@ == expired_of(instances@, now),
{
    let mut out: Vec<ItemInstance> = Vec::new();
    let mut i: usize = 0;
    while i < instances.len()
        invariant
            i <= instances@.len(),
            out@ == instances@.take(i as int).filter(|x: ItemInstance| is_expired_at(x, now)),
        decreases instances@.len() - i,
    {
        proof {
            lemma_filter_take_step(instances@, |x: ItemInstance| is_expired_at(x, now), i as int);
        }
        let keep = match instances[i].expires_at {
            Some(e) => e <= now,
            None => false,
        };
        if keep {
            out.push(instances[i].clone());
        }
        i = i + 1;
    }
    proof {
        assert(instances@.take(instances@.len() as int) =~= instances@);
    }
    out
}

proof fn lemma_max_take_le_types(s: Seq<ItemType>, n: int)
    requires
        0 <= n <= s.len(),
    ensures
        max_type_id(s.take(n)) <= max_type_id(s),
{
    lemma_max_type_id_ge_all(s);
    lemma_max_type_id_ge_all(s.take(n));
    if n > 0 {
        let t = s.take(n);
        lemma_max_witness_types(t);
        let i = choose|i: int| 0 <= i < t.len() && t[i].id as int == max_type_id(t);
        assert(t[i] == s[i]);
        assert(s[i].id <= max_type_id(s));
    }
}

proof fn lemma_max_take_le_instances(s: Seq<ItemInstance>, n: int)
    requires
        0 <= n <= s.len(),
    ensures
        max_instance_id(s.take(n)) <= max_instance_id(s),
{
    lemma_max_instance_id_ge_all(s);
    lemma_max_instance_id_ge_all(s.take(n));
    if n > 0 {
        let t = s.take(n);
        lemma_max_witness_instances(t);
        let i = choose|i: int| 0 <= i < t.len() && t[i].id as int == max_instance_id(t);
        assert(t[i] == s[i]);
        assert(s[i].id <= max_instance_id(s));
    }
}

proof fn lemma_max_witness_types(s: Seq<ItemType>)
    requires
        s.len() > 0,
    ensures
        exists|i: int| 0 <= i < s.len() && #[trigger] s[i].id as int == max_type_id(s),
    decreases s.len(),
{
    let m = max_type_id(s.drop_last());
    if s.len() == 1 {
        assert(s.drop_last().len() == 0);
        assert(m == 0);
        assert(s[0] == s.last());
        assert(s[0].id as int == max_type_id(s));
    } else if s.last().id > m {
        assert(s[s.len() - 1] == s.last());
        assert(s[s.len() - 1].id as int == max_type_id(s));
    } else {
        lemma_max_witness_types(s.drop_last());
        let i = choose|i: int|
            0 <= i < s.drop_last().len() && #[trigger] s.drop_last()[i].id as int == max_type_id(
                s.drop_last(),
            );
        assert(s[i] == s.drop_last()[i]);
        assert(s[i].id as int == max_type_id(s));
    }
}

proof fn lemma_max_witness_instances(s: Seq<ItemInstance>)
    requires
        s.len() > 0,
    ensures
        exists|i: int| 0 <= i < s.len() && #[trigger] s[i].id as int == max_instance_id(s),
    decreases s.len(),
{
    let m = max_instance_id(s.drop_last());
    if s.len() == 1 {
        assert(s.drop_last().len() == 0);
        assert(m == 0);
        assert(s[0] == s.last());
        assert(s[0].id as int == max_instance_id(s));
    } else if s.last().id > m {
        assert(s[s.len() - 1] == s.last());
        assert(s[s.len() - 1].id as int == max_instance_id(s));
    } else {
        lemma_max_witness_instances(s.drop_last());
        let i = choose|i: int|
            0 <= i < s.drop_last().len() && #[trigger] s.drop_last()[i].id as int
                == max_instance_id(s.drop_last());
        assert(s[i] == s.drop_last()[i]);
        assert(s[i].id as int == max_instance_id(s));
    }
}

fn ids_unique_types(v: &Vec<ItemType>) -> (r: bool)
    ensures
        r == type_ids_unique(v@),
{
    let mut i: usize = 0;
    while i < v.len()
        invariant
            i <= v@.len(),
            forall|p: int, q: int| 0 <= p < q < i ==> v@[p].id != v@[q].id,
        decreases v@.len() - i,
    {
        let mut j: usize = 0;
        while j < i
            invariant
                j <= i < v@.len(),
                forall|p: int, q: int| 0 <= p < q < i ==> v@[p].id != v@[q].id,
                forall|p: int| 0 <= p < j ==> v@[p].id != v@[i as int].id,
            decreases i - j,
        {
            if v[j].id == v[i].id {
                proof {
                    assert(v@[j as int].id == v@[i as int].id);
                    assert(!type_ids_unique(v@));
                }
                return false;
            }
            j = j + 1;
        }
        i = i + 1;
    }
    true
}

fn ids_unique_instances(v: &Vec<ItemInstance>) -> (r: bool)
    ensures
        r == instance_ids_unique(v@),
{
    let mut i: usize = 0;
    while i < v.len()
        invariant
            i <= v@.len(),
            forall|p: int, q: int| 0 <= p < q < i ==> v@[p].id != v@[q].id,
        decreases v@.len() - i,
    {
        let mut j: usize = 0;
        while j < i
            invariant
                j <= i < v@.len(),
                forall|p: int, q: int| 0 <= p < q < i ==> v@[p].id != v@[q].id,
                forall|p: int| 0 <= p < j ==> v@[p].id != v@[i as int].id,
            decreases i - j,
        {
            if v[j].id == v[i].id {
                proof {
                    assert(v@[j as int].id == v@[i as int].id);
                    assert(!instance_ids_unique(v@));
                }
                return false;
            }
            j = j + 1;
        }
        i = i + 1;
    }
    true
}

proof fn lemma_filter_keeps_type_ids_unique(s: Seq<ItemType>, pred: spec_fn(ItemType) -> bool)
    requires
        type_ids_unique(s),
    ensures
        type_ids_unique(s.filter(pred)),
    decreases s.len(),
{
    reveal(Seq::filter);
    if s.len() > 0 {
        let d = s.drop_last();
        assert forall|p: int, q: int| 0 <= p < q < d.len() implies d[p].id != d[q].id by {
            assert(d[p] == s[p]);
            assert(d[q] == s[q]);
        }
        lemma_filter_keeps_type_ids_unique(d, pred);
        if pred(s.last()) {
            lemma_filter_in_source(d, pred);
            let f = s.filter(pred);
            let fd = d.filter(pred);
            assert forall|p: int, q: int| 0 <= p < q < f.len() implies f[p].id != f[q].id by {
                if q < fd.len() {
                    assert(f[p] == fd[p]);
                    assert(f[q] == fd[q]);
                } else {
                    assert(f[q] == s.last());
                    assert(f[p] == fd[p]);
                    let a = choose|a: int| 0 <= a < d.len() && d[a] == fd[p];
                    assert(s[a] == d[a]);
                    assert(s[a].id != s[s.len() - 1].id);
                }
            }
        }
    }
}

proof fn lemma_filter_keeps_instance_ids_unique(
    s: Seq<ItemInstance>,
    pred: spec_fn(ItemInstance) -> bool,
)
    requires
        instance_ids_unique(s),
    ensures
        instance_ids_unique(s.filter(pred)),
    decreases s.len(),
{
    reveal(Seq::filter);
    if s.len() > 0 {
        let d = s.drop_last();
        assert forall|p: int, q: int| 0 <= p < q < d.len() implies d[p].id != d[q].id by {
            assert(d[p] == s[p]);
            assert(d[q] == s[q]);
        }
        lemma_filter_keeps_instance_ids_unique(d, pred);
        if pred(s.last()) {
            lemma_filter_in_source(d, pred);
            let f = s.filter(pred);
            let fd = d.filter(pred);
            assert forall|p: int, q: int| 0 <= p < q < f.len() implies f[p].id != f[q].id by {
                if q < fd.len() {
                    assert(f[p] == fd[p]);
                    assert(f[q] == fd[q]);
                } else {
                    assert(f[q] == s.last());
                    assert(f[p] == fd[p]);
                    let a = choose|a: int| 0 <= a < d.len() && d[a] == fd[p];
                    assert(s[a] == d[a]);
                    assert(s[a].id != s[s.len() - 1].id);
                }
            }
        }
    }
}

} // verus!
