//! The list of the renderers that were found.

use vstd::prelude::*;

use crate::device::{Device, DeviceModel};
use crate::number::{decimal, push_number};
use crate::text::{chars_of, lowercase, same_text, to_lowercase};

verus! {

/// Whether the text `a` comes before `b` or is the same: by the first character in which they
/// differ, and a text before what it is the beginning of.
pub open spec fn text_le(a: Seq<char>, b: Seq<char>) -> bool
    decreases a.len(),
{
    if a.len() == 0 {
        true
    } else if b.len() == 0 {
        false
    } else if a.first() != b.first() {
        a.first() < b.first()
    } else {
        text_le(a.drop_first(), b.drop_first())
    }
}

/// A renderer and what it is sorted by.
#[derive(Debug)]
pub struct KeyedDevice {
    pub key: String,
    pub device: Device,
}

/// What a `KeyedDevice` holds.
pub struct KeyedModel {
    pub key: Seq<char>,
    pub device: DeviceModel,
}

impl View for KeyedDevice {
    type V = KeyedModel;

    open spec fn view(&self) -> KeyedModel {
        KeyedModel { key: self.key@, device: self.device@ }
    }
}

/// The views of renderers and what they are sorted by.
pub open spec fn keyed_views(list: Seq<KeyedDevice>) -> Seq<KeyedModel> {
    Seq::new(list.len(), |i: int| list[i]@)
}

/// The views of renderers.
pub open spec fn device_views(list: Seq<Device>) -> Seq<DeviceModel> {
    Seq::new(list.len(), |i: int| list[i]@)
}

/// `sorted` with `item` before the first one that does not come before it.
pub open spec fn placed(sorted: Seq<KeyedModel>, item: KeyedModel) -> Seq<KeyedModel>
    decreases sorted.len(),
{
    if sorted.len() == 0 || text_le(item.key, sorted.first().key) {
        seq![item] + sorted
    } else {
        seq![sorted.first()] + placed(sorted.drop_first(), item)
    }
}

/// `list` sorted by its keys; what has the same key keeps its order. `lemma_sorted` says so.
pub open spec fn sorted_by_key(list: Seq<KeyedModel>) -> Seq<KeyedModel>
    decreases list.len(),
{
    if list.len() == 0 {
        seq![]
    } else {
        placed(sorted_by_key(list.drop_first()), list.first())
    }
}

/// The devices of `list`.
pub open spec fn devices_in(list: Seq<KeyedModel>) -> Seq<DeviceModel> {
    Seq::new(list.len(), |i: int| list[i].device)
}

/// `list` without those that are at the location of the one just before them.
pub open spec fn without_repeats(list: Seq<DeviceModel>) -> Seq<DeviceModel>
    decreases list.len(),
{
    if list.len() == 0 {
        seq![]
    } else if list.len() > 1 && list[list.len() - 2].location.text == list.last().location.text {
        without_repeats(list.drop_last())
    } else {
        without_repeats(list.drop_last()).push(list.last())
    }
}

/// `devices`, each with its name in lower case.
pub open spec fn keyed_by_name(devices: Seq<DeviceModel>) -> Seq<KeyedModel> {
    Seq::new(
        devices.len(),
        |i: int| KeyedModel { key: lowercase(devices[i].friendly_name), device: devices[i] },
    )
}

/// `devices` sorted by their names, without regard to case, and without repeats.
pub open spec fn arranged(devices: Seq<DeviceModel>) -> Seq<DeviceModel> {
    without_repeats(devices_in(sorted_by_key(keyed_by_name(devices))))
}

/// Whether `list` is in the order of its keys.
pub open spec fn in_order(list: Seq<KeyedModel>) -> bool {
    forall|i: int, j: int|
        0 <= i <= j < list.len() ==> text_le((#[trigger] list[i]).key, (#[trigger] list[j]).key)
}

/// Those of `list` that have the key `key`, in their order.
pub open spec fn with_key(list: Seq<KeyedModel>, key: Seq<char>) -> Seq<KeyedModel>
    decreases list.len(),
{
    if list.len() == 0 {
        seq![]
    } else if list.first().key == key {
        seq![list.first()] + with_key(list.drop_first(), key)
    } else {
        with_key(list.drop_first(), key)
    }
}

pub proof fn lemma_text_le_reflexive(a: Seq<char>)
    ensures
        text_le(a, a),
    decreases a.len(),
{
    if a.len() > 0 {
        lemma_text_le_reflexive(a.drop_first());
    }
}

pub proof fn lemma_text_le_total(a: Seq<char>, b: Seq<char>)
    ensures
        text_le(a, b) || text_le(b, a),
    decreases a.len(),
{
    if a.len() > 0 && b.len() > 0 {
        lemma_text_le_total(a.drop_first(), b.drop_first());
    }
}

pub proof fn lemma_text_le_transitive(a: Seq<char>, b: Seq<char>, c: Seq<char>)
    requires
        text_le(a, b),
        text_le(b, c),
    ensures
        text_le(a, c),
    decreases a.len(),
{
    if a.len() > 0 && a.first() == b.first() && b.first() == c.first() {
        lemma_text_le_transitive(a.drop_first(), b.drop_first(), c.drop_first());
    }
}

pub proof fn lemma_text_le_antisymmetric(a: Seq<char>, b: Seq<char>)
    requires
        text_le(a, b),
        text_le(b, a),
    ensures
        a == b,
    decreases a.len(),
{
    if a.len() > 0 && b.len() > 0 {
        lemma_text_le_antisymmetric(a.drop_first(), b.drop_first());
        assert(a == seq![a.first()] + a.drop_first());
        assert(b == seq![b.first()] + b.drop_first());
    }
}

proof fn lemma_placed(sorted: Seq<KeyedModel>, item: KeyedModel)
    requires
        in_order(sorted),
    ensures
        in_order(placed(sorted, item)),
        placed(sorted, item).len() == sorted.len() + 1,
        forall|k: int|
            0 <= k < placed(sorted, item).len() ==> (#[trigger] placed(sorted, item)[k] == item
                || sorted.contains(placed(sorted, item)[k])),
        forall|key: Seq<char>|
            #[trigger] with_key(placed(sorted, item), key) == with_key(seq![item] + sorted, key),
    decreases sorted.len(),
{
    let out = placed(sorted, item);
    if sorted.len() == 0 || text_le(item.key, sorted.first().key) {
        assert forall|i: int, j: int| 0 <= i <= j < out.len() implies text_le(
            (#[trigger] out[i]).key,
            (#[trigger] out[j]).key,
        ) by {
            if i == 0 && j == 0 {
                lemma_text_le_reflexive(item.key);
            } else if i == 0 {
                assert(text_le(sorted[0].key, sorted[j - 1].key));
                lemma_text_le_transitive(item.key, sorted[0].key, sorted[j - 1].key);
            } else {
                assert(out[i] == sorted[i - 1] && out[j] == sorted[j - 1]);
            }
        }
        assert forall|k: int| 0 <= k < out.len() implies (#[trigger] out[k] == item
            || sorted.contains(out[k])) by {
            if k > 0 {
                assert(out[k] == sorted[k - 1]);
            }
        }
    } else {
        let head = sorted.first();
        let rest = sorted.drop_first();
        let tail = placed(rest, item);
        assert forall|i: int, j: int| 0 <= i <= j < rest.len() implies text_le(
            (#[trigger] rest[i]).key,
            (#[trigger] rest[j]).key,
        ) by {
            assert(rest[i] == sorted[i + 1] && rest[j] == sorted[j + 1]);
        }
        lemma_placed(rest, item);
        lemma_text_le_total(item.key, head.key);
        assert forall|k: int| 0 <= k < out.len() implies (#[trigger] out[k] == item
            || sorted.contains(out[k])) by {
            if k == 0 {
                assert(sorted[0] == out[0]);
            } else {
                assert(out[k] == tail[k - 1]);
                if out[k] != item {
                    let m = choose|m: int| 0 <= m < rest.len() && rest[m] == out[k];
                    assert(sorted[m + 1] == out[k]);
                }
            }
        }
        assert forall|i: int, j: int| 0 <= i <= j < out.len() implies text_le(
            (#[trigger] out[i]).key,
            (#[trigger] out[j]).key,
        ) by {
            if i == 0 && j == 0 {
                lemma_text_le_reflexive(head.key);
            } else if i == 0 {
                assert(out[j] == tail[j - 1]);
                if tail[j - 1] != item {
                    let m = choose|m: int| 0 <= m < rest.len() && rest[m] == tail[j - 1];
                    assert(text_le(sorted[0].key, sorted[m + 1].key));
                }
            } else {
                assert(out[i] == tail[i - 1] && out[j] == tail[j - 1]);
            }
        }
        assert forall|key: Seq<char>|
            #[trigger] with_key(out, key) == with_key(seq![item] + sorted, key) by {
            assert(out.drop_first() == tail);
            assert(with_key(tail, key) == with_key(seq![item] + rest, key));
            assert((seq![item] + rest).drop_first() == rest);
            assert((seq![item] + sorted).drop_first() == sorted);
            assert(out.first() == head);
            assert((seq![item] + rest).first() == item);
            assert((seq![item] + sorted).first() == item);
            lemma_text_le_reflexive(head.key);
            assert(item.key != head.key);
            if item.key == key {
                assert(with_key(seq![item] + sorted, key) == seq![item] + with_key(sorted, key));
            } else {
                assert(with_key(seq![item] + sorted, key) == with_key(sorted, key));
            }
            assert(with_key(sorted, key) == if head.key == key {
                seq![head] + with_key(rest, key)
            } else {
                with_key(rest, key)
            });
        }
    }
}

/// Sorting puts the list in the order of its keys, and changes nothing in the order of what has
/// the same key.
pub proof fn lemma_sorted(list: Seq<KeyedModel>)
    ensures
        in_order(sorted_by_key(list)),
        sorted_by_key(list).len() == list.len(),
        forall|key: Seq<char>|
            #[trigger] with_key(sorted_by_key(list), key) == with_key(list, key),
    decreases list.len(),
{
    if list.len() > 0 {
        let rest = sorted_by_key(list.drop_first());
        lemma_sorted(list.drop_first());
        lemma_placed(rest, list.first());
        assert forall|key: Seq<char>|
            #[trigger] with_key(sorted_by_key(list), key) == with_key(list, key) by {
            assert(with_key(rest, key) == with_key(list.drop_first(), key));
            assert((seq![list.first()] + rest).drop_first() == rest);
        }
    }
}

/// Whether `list[i]` and the one after it are at different locations.
pub open spec fn apart(list: Seq<DeviceModel>, i: int) -> bool {
    list[i].location.text != list[i + 1].location.text
}

/// Whether one of `list` is at `location`.
pub open spec fn is_listed(list: Seq<DeviceModel>, location: Seq<char>) -> bool {
    exists|i: int| 0 <= i < list.len() && (#[trigger] list[i]).location.text == location
}

proof fn lemma_last_is_kept(list: Seq<DeviceModel>)
    requires
        list.len() > 0,
    ensures
        without_repeats(list).len() > 0,
        without_repeats(list).last().location.text == list.last().location.text,
    decreases list.len(),
{
    if list.len() > 1 && list[list.len() - 2].location.text == list.last().location.text {
        assert(list.drop_last().last() == list[list.len() - 2]);
        lemma_last_is_kept(list.drop_last());
    }
}

/// When repeats are left out, no two neighbours are at the same location.
pub proof fn lemma_neighbours_are_apart(list: Seq<DeviceModel>)
    ensures
        forall|i: int|
            0 <= i < without_repeats(list).len() - 1 ==> #[trigger] apart(
                without_repeats(list),
                i,
            ),
    decreases list.len(),
{
    if list.len() > 0 {
        let before = list.drop_last();
        let old_kept = without_repeats(before);
        let kept = without_repeats(list);
        lemma_neighbours_are_apart(before);
        if list.len() > 1 {
            assert(before.last() == list[list.len() - 2]);
            lemma_last_is_kept(before);
        }
        assert forall|i: int| 0 <= i < kept.len() - 1 implies #[trigger] apart(kept, i) by {
            if kept.len() == old_kept.len() || i < old_kept.len() - 1 {
                assert(apart(old_kept, i));
            }
        }
    }
}

/// When repeats are left out, every location of the list stays in it.
pub proof fn lemma_locations_stay(list: Seq<DeviceModel>)
    ensures
        forall|location: Seq<char>|
            #[trigger] is_listed(list, location) ==> is_listed(without_repeats(list), location),
    decreases list.len(),
{
    if list.len() > 0 {
        let before = list.drop_last();
        let old_kept = without_repeats(before);
        let kept = without_repeats(list);
        lemma_locations_stay(before);
        lemma_last_is_kept(list);
        assert forall|location: Seq<char>| #[trigger] is_listed(list, location) implies is_listed(
            kept,
            location,
        ) by {
            let i = choose|i: int|
                0 <= i < list.len() && (#[trigger] list[i]).location.text == location;
            if i < before.len() {
                assert(before[i].location.text == location);
                assert(is_listed(before, location));
                let k = choose|k: int|
                    0 <= k < old_kept.len() && (#[trigger] old_kept[k]).location.text == location;
                assert(kept[k].location.text == location);
            } else {
                assert(kept[kept.len() - 1].location.text == location);
            }
        }
    }
}

/// When repeats are left out, nothing is added.
pub proof fn lemma_nothing_is_added(list: Seq<DeviceModel>)
    ensures
        forall|i: int|
            0 <= i < without_repeats(list).len() ==> list.contains(
                #[trigger] without_repeats(list)[i],
            ),
    decreases list.len(),
{
    if list.len() > 0 {
        let before = list.drop_last();
        let old_kept = without_repeats(before);
        let kept = without_repeats(list);
        lemma_nothing_is_added(before);
        assert forall|i: int| 0 <= i < kept.len() implies list.contains(#[trigger] kept[i]) by {
            if i < old_kept.len() {
                assert(before.contains(old_kept[i]));
                let m = choose|m: int| 0 <= m < before.len() && before[m] == old_kept[i];
                assert(list[m] == kept[i]);
            } else {
                assert(list[list.len() - 1] == kept[i]);
            }
        }
    }
}

/// Placing an item loses nothing.
proof fn lemma_placed_keeps(sorted: Seq<KeyedModel>, item: KeyedModel, x: KeyedModel)
    requires
        x == item || sorted.contains(x),
    ensures
        placed(sorted, item).contains(x),
    decreases sorted.len(),
{
    let out = placed(sorted, item);
    if sorted.len() == 0 || text_le(item.key, sorted.first().key) {
        if x == item {
            assert(out[0] == x);
        } else {
            let k = choose|k: int| 0 <= k < sorted.len() && sorted[k] == x;
            assert(out[k + 1] == x);
        }
    } else if x != item && sorted.first() == x {
        assert(out[0] == x);
    } else {
        let rest = sorted.drop_first();
        if x != item {
            let k = choose|k: int| 0 <= k < sorted.len() && sorted[k] == x;
            assert(rest[k - 1] == x);
        }
        lemma_placed_keeps(rest, item, x);
        let m = choose|m: int| 0 <= m < placed(rest, item).len() && placed(rest, item)[m] == x;
        assert(out[m + 1] == x);
    }
}

/// Sorting loses nothing and adds nothing.
proof fn lemma_sorted_members(list: Seq<KeyedModel>, x: KeyedModel)
    ensures
        sorted_by_key(list).contains(x) <==> list.contains(x),
    decreases list.len(),
{
    if list.len() > 0 {
        let rest = list.drop_first();
        let sorted = sorted_by_key(rest);
        let out = sorted_by_key(list);
        lemma_sorted_members(rest, x);
        lemma_sorted(rest);
        if out.contains(x) {
            lemma_placed(sorted, list.first());
            let k = choose|k: int| 0 <= k < out.len() && out[k] == x;
            if out[k] == list.first() {
                assert(list[0] == x);
            } else {
                assert(sorted.contains(x));
                let m = choose|m: int| 0 <= m < rest.len() && rest[m] == x;
                assert(list[m + 1] == x);
            }
        }
        if list.contains(x) {
            let k = choose|k: int| 0 <= k < list.len() && list[k] == x;
            if k > 0 {
                assert(rest[k - 1] == x);
            }
            lemma_placed_keeps(sorted, list.first(), x);
        }
    }
}

/// Whether the names of `list`, in lower case, are in order.
pub open spec fn names_in_order(list: Seq<DeviceModel>) -> bool {
    forall|i: int, j: int|
        0 <= i <= j < list.len() ==> text_le(
            lowercase((#[trigger] list[i]).friendly_name),
            lowercase((#[trigger] list[j]).friendly_name),
        )
}

/// When repeats are left out, the names stay in order.
proof fn lemma_order_stays(list: Seq<DeviceModel>)
    requires
        names_in_order(list),
    ensures
        names_in_order(without_repeats(list)),
    decreases list.len(),
{
    if list.len() > 0 {
        let before = list.drop_last();
        let old_kept = without_repeats(before);
        let kept = without_repeats(list);
        assert forall|i: int, j: int| 0 <= i <= j < before.len() implies text_le(
            lowercase((#[trigger] before[i]).friendly_name),
            lowercase((#[trigger] before[j]).friendly_name),
        ) by {
            assert(before[i] == list[i] && before[j] == list[j]);
        }
        lemma_order_stays(before);
        lemma_nothing_is_added(before);
        assert forall|i: int, j: int| 0 <= i <= j < kept.len() implies text_le(
            lowercase((#[trigger] kept[i]).friendly_name),
            lowercase((#[trigger] kept[j]).friendly_name),
        ) by {
            if j < old_kept.len() {
                assert(kept[i] == old_kept[i] && kept[j] == old_kept[j]);
            } else if i < old_kept.len() {
                assert(before.contains(old_kept[i]));
                let m = choose|m: int| 0 <= m < before.len() && before[m] == old_kept[i];
                assert(list[m] == kept[i]);
                assert(kept[j] == list[list.len() - 1]);
            } else {
                lemma_text_le_reflexive(lowercase(kept[i].friendly_name));
            }
        }
    }
}

/// A sorted renderer is one of `devices`, with its name in lower case.
proof fn lemma_sorted_devices(devices: Seq<DeviceModel>, i: int)
    requires
        0 <= i < sorted_by_key(keyed_by_name(devices)).len(),
    ensures
        ({
            let item = sorted_by_key(keyed_by_name(devices))[i];
            item.key == lowercase(item.device.friendly_name) && devices.contains(item.device)
        }),
{
    let keyed = keyed_by_name(devices);
    let item = sorted_by_key(keyed)[i];
    lemma_sorted_members(keyed, item);
    assert(sorted_by_key(keyed).contains(item));
    let k = choose|k: int| 0 <= k < keyed.len() && keyed[k] == item;
    assert(devices[k] == item.device);
}

/// Whether no two of `list` are at the same location.
pub open spec fn all_apart(list: Seq<DeviceModel>) -> bool {
    forall|i: int, j: int|
        0 <= i < j < list.len() ==> (#[trigger] list[i]).location.text != (
        #[trigger] list[j]).location.text
}

/// An item at a location of its own is placed among others without a repeat.
proof fn lemma_placed_apart(sorted: Seq<KeyedModel>, item: KeyedModel)
    requires
        in_order(sorted),
        all_apart(devices_in(sorted)),
        !is_listed(devices_in(sorted), item.device.location.text),
    ensures
        all_apart(devices_in(placed(sorted, item))),
    decreases sorted.len(),
{
    let out = placed(sorted, item);
    let devices = devices_in(sorted);
    assert forall|k: int| 0 <= k < sorted.len() implies (#[trigger] sorted[k]).device.location.text
        != item.device.location.text by {
        assert(devices[k] == sorted[k].device);
    }
    assert forall|i: int, j: int| 0 <= i < j < sorted.len() implies (
    #[trigger] sorted[i]).device.location.text != (#[trigger] sorted[j]).device.location.text by {
        assert(devices[i] == sorted[i].device && devices[j] == sorted[j].device);
    }
    if sorted.len() == 0 || text_le(item.key, sorted.first().key) {
        assert forall|i: int, j: int| 0 <= i < j < out.len() implies (
        #[trigger] devices_in(out)[i]).location.text != (
        #[trigger] devices_in(out)[j]).location.text by {
            assert(out[j] == sorted[j - 1]);
            if i > 0 {
                assert(out[i] == sorted[i - 1]);
            }
        }
    } else {
        let rest = sorted.drop_first();
        let tail = placed(rest, item);
        assert forall|i: int, j: int| 0 <= i <= j < rest.len() implies text_le(
            (#[trigger] rest[i]).key,
            (#[trigger] rest[j]).key,
        ) by {
            assert(rest[i] == sorted[i + 1] && rest[j] == sorted[j + 1]);
        }
        assert forall|i: int, j: int| 0 <= i < j < rest.len() implies (
        #[trigger] devices_in(rest)[i]).location.text != (
        #[trigger] devices_in(rest)[j]).location.text by {
            assert(rest[i] == sorted[i + 1] && rest[j] == sorted[j + 1]);
        }
        assert forall|k: int| 0 <= k < rest.len() implies (
        #[trigger] devices_in(rest)[k]).location.text != item.device.location.text by {
            assert(rest[k] == sorted[k + 1]);
        }
        lemma_placed_apart(rest, item);
        lemma_placed(rest, item);
        assert forall|i: int, j: int| 0 <= i < j < out.len() implies (
        #[trigger] devices_in(out)[i]).location.text != (
        #[trigger] devices_in(out)[j]).location.text by {
            assert(out[j] == tail[j - 1]);
            if i > 0 {
                assert(out[i] == tail[i - 1]);
                assert(devices_in(tail)[i - 1].location.text != devices_in(tail)[j
                    - 1].location.text);
            } else {
                assert(out[0] == sorted[0]);
                if tail[j - 1] != item {
                    let m = choose|m: int| 0 <= m < rest.len() && rest[m] == tail[j - 1];
                    assert(sorted[m + 1] == tail[j - 1]);
                }
            }
        }
    }
}

/// Sorting makes no repeat.
proof fn lemma_sorted_apart(list: Seq<KeyedModel>)
    requires
        all_apart(devices_in(list)),
    ensures
        all_apart(devices_in(sorted_by_key(list))),
    decreases list.len(),
{
    if list.len() > 0 {
        let rest = list.drop_first();
        let sorted = sorted_by_key(rest);
        let item = list.first();
        assert forall|i: int, j: int| 0 <= i < j < rest.len() implies (
        #[trigger] devices_in(rest)[i]).location.text != (
        #[trigger] devices_in(rest)[j]).location.text by {
            assert(devices_in(list)[i + 1].location.text != devices_in(list)[j + 1].location.text);
        }
        lemma_sorted_apart(rest);
        lemma_sorted(rest);
        assert forall|k: int| 0 <= k < sorted.len() implies (
        #[trigger] devices_in(sorted)[k]).location.text != item.device.location.text by {
            lemma_sorted_members(rest, sorted[k]);
            assert(sorted.contains(sorted[k]));
            let m = choose|m: int| 0 <= m < rest.len() && rest[m] == sorted[k];
            assert(devices_in(list)[0].location.text != devices_in(list)[m + 1].location.text);
        }
        lemma_placed_apart(sorted, item);
    }
}

/// Leaving repeats out makes no repeat.
proof fn lemma_apart_stays(list: Seq<DeviceModel>)
    requires
        all_apart(list),
    ensures
        all_apart(without_repeats(list)),
    decreases list.len(),
{
    if list.len() > 0 {
        let before = list.drop_last();
        let old_kept = without_repeats(before);
        let kept = without_repeats(list);
        assert forall|i: int, j: int| 0 <= i < j < before.len() implies (
        #[trigger] before[i]).location.text != (#[trigger] before[j]).location.text by {
            assert(before[i] == list[i] && before[j] == list[j]);
        }
        lemma_apart_stays(before);
        lemma_nothing_is_added(before);
        assert forall|i: int, j: int| 0 <= i < j < kept.len() implies (
        #[trigger] kept[i]).location.text != (#[trigger] kept[j]).location.text by {
            assert(kept[i] == old_kept[i]);
            if j < old_kept.len() {
                assert(kept[j] == old_kept[j]);
            } else {
                assert(before.contains(old_kept[i]));
                let m = choose|m: int| 0 <= m < before.len() && before[m] == old_kept[i];
                assert(list[m] == kept[i] && list[list.len() - 1] == kept[j]);
            }
        }
    }
}

/// The list of the renderers is in the order of their names without regard to case, holds nothing
/// but what was found, holds every location that was found, and no two neighbours of it are at
/// the same location. If no two that were found are at the same location, no two of the list are.
pub proof fn lemma_arranged(devices: Seq<DeviceModel>)
    ensures
        names_in_order(arranged(devices)),
        forall|i: int|
            0 <= i < arranged(devices).len() ==> devices.contains(#[trigger] arranged(devices)[i]),
        forall|location: Seq<char>|
            #[trigger] is_listed(devices, location) ==> is_listed(arranged(devices), location),
        forall|i: int|
            0 <= i < arranged(devices).len() - 1 ==> #[trigger] apart(arranged(devices), i),
        all_apart(devices) ==> all_apart(arranged(devices)),
{
    let keyed = keyed_by_name(devices);
    let sorted = sorted_by_key(keyed);
    let list = devices_in(sorted);
    lemma_sorted(keyed);
    assert forall|i: int, j: int| 0 <= i <= j < list.len() implies text_le(
        lowercase((#[trigger] list[i]).friendly_name),
        lowercase((#[trigger] list[j]).friendly_name),
    ) by {
        lemma_sorted_devices(devices, i);
        lemma_sorted_devices(devices, j);
        assert(text_le(sorted[i].key, sorted[j].key));
    }
    lemma_order_stays(list);
    lemma_nothing_is_added(list);
    assert forall|i: int| 0 <= i < arranged(devices).len() implies devices.contains(
        #[trigger] arranged(devices)[i],
    ) by {
        assert(list.contains(without_repeats(list)[i]));
        let k = choose|k: int| 0 <= k < list.len() && list[k] == without_repeats(list)[i];
        lemma_sorted_devices(devices, k);
    }
    lemma_locations_stay(list);
    assert forall|location: Seq<char>| #[trigger] is_listed(devices, location) implies is_listed(
        arranged(devices),
        location,
    ) by {
        let i = choose|i: int|
            0 <= i < devices.len() && (#[trigger] devices[i]).location.text == location;
        assert(keyed[i].device == devices[i]);
        assert(keyed.contains(keyed[i]));
        lemma_sorted_members(keyed, keyed[i]);
        let k = choose|k: int| 0 <= k < sorted.len() && sorted[k] == keyed[i];
        assert(list[k].location.text == location);
        assert(is_listed(list, location));
    }
    lemma_neighbours_are_apart(list);
    if all_apart(devices) {
        assert(devices_in(keyed) =~= devices);
        lemma_sorted_apart(keyed);
        lemma_apart_stays(list);
    }
}

/// Whether the text `a` comes before `b` or is the same.
pub fn text_not_after(a: &str, b: &str) -> (yes: bool)
    ensures
        yes == text_le(a@, b@),
{
    let left = chars_of(a);
    let right = chars_of(b);
    let mut i: usize = 0;
    assert(left@.skip(0) == left@ && right@.skip(0) == right@);
    while i < left.len() && i < right.len()
        invariant
            left@ == a@,
            right@ == b@,
            i <= left@.len(),
            i <= right@.len(),
            text_le(left@, right@) == text_le(left@.skip(i as int), right@.skip(i as int)),
        decreases left@.len() - i,
    {
        assert(left@.skip(i as int).drop_first() == left@.skip(i + 1));
        assert(right@.skip(i as int).drop_first() == right@.skip(i + 1));
        assert(left@.skip(i as int).first() == left@[i as int]);
        assert(right@.skip(i as int).first() == right@[i as int]);
        if left[i] != right[i] {
            return left[i] < right[i];
        }
        i += 1;
    }
    i == left.len()
}

proof fn lemma_placed_at(sorted: Seq<KeyedModel>, item: KeyedModel, at: int)
    requires
        0 <= at <= sorted.len(),
        forall|k: int| 0 <= k < at ==> !text_le(item.key, (#[trigger] sorted[k]).key),
        at < sorted.len() ==> text_le(item.key, sorted[at].key),
    ensures
        placed(sorted, item) == sorted.insert(at, item),
    decreases at,
{
    if at == 0 {
        assert(placed(sorted, item) == sorted.insert(0, item));
    } else {
        assert(!text_le(item.key, sorted[0].key));
        let rest = sorted.drop_first();
        assert forall|k: int| 0 <= k < at - 1 implies !text_le(
            item.key,
            (#[trigger] rest[k]).key,
        ) by {
            assert(rest[k] == sorted[k + 1]);
        }
        lemma_placed_at(rest, item, at - 1);
        assert(seq![sorted.first()] + rest.insert(at - 1, item) == sorted.insert(at, item));
    }
}

/// Sorts `list` by its keys and keeps the order of what has the same key.
pub fn sort_keyed(list: Vec<KeyedDevice>) -> (out: Vec<KeyedDevice>)
    ensures
        keyed_views(out@) == sorted_by_key(keyed_views(list@)),
{
    let ghost all = keyed_views(list@);
    let mut left: Vec<KeyedDevice> = list;
    let mut out: Vec<KeyedDevice> = Vec::new();
    assert(keyed_views(out@) == sorted_by_key(all.skip(all.len() as int)));
    while left.len() > 0
        invariant
            left@.len() <= all.len(),
            keyed_views(left@) == all.take(left@.len() as int),
            keyed_views(out@) == sorted_by_key(all.skip(left@.len() as int)),
        decreases left@.len(),
    {
        let ghost n = left@.len() as int;
        let ghost views = keyed_views(out@);
        match left.pop() {
            Some(item) => {
                assert(item@ == all[n - 1]) by {
                    assert(all.take(n)[n - 1] == all[n - 1]);
                }
                let mut at: usize = 0;
                while at < out.len() && !text_not_after(item.key.as_str(), out[at].key.as_str())
                    invariant
                        at <= out@.len(),
                        views == keyed_views(out@),
                        forall|k: int|
                            0 <= k < at ==> !text_le(item@.key, (#[trigger] views[k]).key),
                    decreases out@.len() - at,
                {
                    assert(views[at as int] == out@[at as int]@);
                    at += 1;
                }
                proof {
                    if at < out@.len() {
                        assert(views[at as int] == out@[at as int]@);
                    }
                    lemma_placed_at(views, item@, at as int);
                    assert(all.skip(n - 1).drop_first() == all.skip(n));
                    assert(all.skip(n - 1).first() == item@);
                }
                out.insert(at, item);
                assert(keyed_views(out@) == views.insert(at as int, item@));
                assert(keyed_views(left@) == all.take(n - 1)) by {
                    assert(all.take(n - 1) == all.take(n).drop_last());
                }
            },
            None => {},
        }
    }
    assert(all.skip(0) == all);
    out
}

/// Drops those that are at the location of the one just before them.
fn drop_repeats(list: Vec<KeyedDevice>) -> (out: Vec<Device>)
    ensures
        device_views(out@) == without_repeats(devices_in(keyed_views(list@))),
{
    let ghost all = devices_in(keyed_views(list@));
    let mut out: Vec<Device> = Vec::new();
    let mut rest: Vec<KeyedDevice> = list;
    let ghost mut done: int = 0;
    assert(all.take(0) == Seq::<DeviceModel>::empty());
    assert(all.skip(0) == all);
    assert(device_views(out@) == Seq::<DeviceModel>::empty());
    while rest.len() > 0
        invariant
            0 <= done <= all.len(),
            devices_in(keyed_views(rest@)) == all.skip(done),
            device_views(out@) == without_repeats(all.take(done)),
        decreases rest@.len(),
    {
        let ghost before = rest@;
        let ghost kept = device_views(out@);
        let next = rest.remove(0);
        let device = next.device;
        proof {
            assert(devices_in(keyed_views(before)).len() == before.len());
            assert(devices_in(keyed_views(before))[0] == device@);
            assert(all.skip(done)[0] == all[done]);
            assert(all.take(done + 1).drop_last() == all.take(done));
            assert(all.take(done + 1).last() == device@);
            assert(devices_in(keyed_views(rest@)) == all.skip(done + 1)) by {
                assert forall|i: int| 0 <= i < rest@.len() implies devices_in(
                    keyed_views(rest@),
                )[i] == all.skip(done + 1)[i] by {
                    assert(rest@[i] == before[i + 1]);
                    assert(devices_in(keyed_views(before))[i + 1] == all.skip(done)[i + 1]);
                }
            }
            if done > 0 {
                lemma_last_is_kept(all.take(done));
                assert(all.take(done).last() == all.take(done + 1)[done - 1]);
                assert(kept.last() == out@[out@.len() - 1]@);
            }
        }
        let repeats: bool = out.len() > 0 && same_text(
            out[out.len() - 1].location.as_str(),
            device.location.as_str(),
        );
        if !repeats {
            out.push(device);
            assert(device_views(out@) == kept.push(device@));
        }
        proof {
            done = done + 1;
        }
    }
    assert(all.take(done) == all);
    out
}

/// Sorts `devices` by their names, without regard to case, and leaves repeats out.
pub fn arrange_devices(devices: Vec<Device>) -> (out: Vec<Device>)
    ensures
        device_views(out@) == arranged(device_views(devices@)),
{
    let ghost all = device_views(devices@);
    let mut left: Vec<Device> = devices;
    let mut keyed: Vec<KeyedDevice> = Vec::new();
    let ghost mut done: int = 0;
    assert(all.skip(0) == all);
    while left.len() > 0
        invariant
            0 <= done <= all.len(),
            device_views(left@) == all.skip(done),
            keyed_views(keyed@) == keyed_by_name(all.take(done)),
        decreases left@.len(),
    {
        let ghost before = left@;
        let ghost views = keyed_views(keyed@);
        let device = left.remove(0);
        let key = to_lowercase(device.friendly_name.as_str());
        proof {
            assert(device_views(before).len() == before.len());
            assert(device_views(before)[0] == device@);
            assert(all.skip(done)[0] == all[done]);
            assert forall|i: int| 0 <= i < left@.len() implies device_views(left@)[i] == all.skip(
                done + 1,
            )[i] by {
                assert(left@[i] == before[i + 1]);
                assert(device_views(before)[i + 1] == all.skip(done)[i + 1]);
            }
            assert(device_views(left@) == all.skip(done + 1));
            assert(keyed_by_name(all.take(done + 1)) == keyed_by_name(all.take(done)).push(
                KeyedModel { key: lowercase(all[done].friendly_name), device: all[done] },
            ));
        }
        keyed.push(KeyedDevice { key, device });
        assert(keyed_views(keyed@) == views.push(
            KeyedModel { key: key@, device: device@ },
        ));
        proof {
            done = done + 1;
        }
    }
    assert(all.take(done) == all);
    drop_repeats(sort_keyed(keyed))
}

/// What is said of the maker and the model of a renderer: what is known of them, with a space
/// between.
pub open spec fn details_of(manufacturer: Seq<char>, model_name: Seq<char>) -> Seq<char> {
    if manufacturer.len() == 0 {
        model_name
    } else if model_name.len() == 0 {
        manufacturer
    } else {
        manufacturer + seq![' '] + model_name
    }
}

/// The line for a renderer in a numbered list.
pub open spec fn line_of(number: nat, device: DeviceModel) -> Seq<char> {
    let details = details_of(device.manufacturer, device.model_name);
    decimal(number) + ". "@ + device.friendly_name + (if details.len() == 0 {
        seq![]
    } else {
        " — "@ + details
    }) + " ("@ + host_or(device.location.host, "unknown address"@) + ")"@
}

/// The host of a renderer, or `default` if it has none.
pub open spec fn host_or(host: Option<Seq<char>>, default: Seq<char>) -> Seq<char> {
    match host {
        Some(host) => host,
        None => default,
    }
}

/// The host of `device`, or `default` if it has none.
pub fn device_host(device: &Device, default: &str) -> (out: String)
    ensures
        out@ == host_or(device@.location.host, default@),
{
    match device.location.host_str() {
        Some(host) => host.to_owned(),
        None => default.to_owned(),
    }
}

/// What is said of the maker and the model of a renderer.
fn details_text(manufacturer: &str, model_name: &str) -> (out: String)
    ensures
        out@ == details_of(manufacturer@, model_name@),
{
    let mut out = manufacturer.to_owned();
    if !manufacturer.is_empty() && !model_name.is_empty() {
        out.push(' ');
    }
    out.append(model_name);
    assert(out@ == details_of(manufacturer@, model_name@));
    out
}

/// Writes the line for a renderer in a numbered list.
pub fn device_line(number: u64, device: &Device) -> (out: String)
    ensures
        out@ == line_of(number as nat, device@),
{
    let details = details_text(device.manufacturer.as_str(), device.model_name.as_str());
    let mut out = String::new();
    push_number(&mut out, number);
    out.append(". ");
    out.append(device.friendly_name.as_str());
    if !details.as_str().is_empty() {
        out.append(" — ");
        out.append(details.as_str());
    }
    out.append(" (");
    out.append(device_host(device, "unknown address").as_str());
    out.append(")");
    assert(out@ == line_of(number as nat, device@));
    out
}

/// The line that says which renderer is used.
pub open spec fn using_text(device: DeviceModel) -> Seq<char> {
    "Using "@ + device.friendly_name + " ("@ + host_or(device.location.host, "?"@) + ")"@
}

/// Writes the line that says which renderer is used.
pub fn using_line(device: &Device) -> (out: String)
    ensures
        out@ == using_text(device@),
{
    let mut out = "Using ".to_owned();
    out.append(device.friendly_name.as_str());
    out.append(" (");
    out.append(device_host(device, "?").as_str());
    out.append(")");
    out
}

/// Texts are ordered by the first character in which they differ, and a text comes before what it
/// is the beginning of.
pub proof fn lemma_text_order(
    common: Seq<char>,
    x: char,
    y: char,
    a: Seq<char>,
    b: Seq<char>,
)
    ensures
        x < y ==> text_le(common + seq![x] + a, common + seq![y] + b) && !text_le(
            common + seq![y] + b,
            common + seq![x] + a,
        ),
        text_le(common, common + a),
        a.len() > 0 ==> !text_le(common + a, common),
    decreases common.len(),
{
    let (p, q) = (common + seq![x] + a, common + seq![y] + b);
    if common.len() == 0 {
        assert(p.first() == x && q.first() == y);
        assert(common + a == a);
    } else {
        let rest = common.drop_first();
        lemma_text_order(rest, x, y, a, b);
        assert(p.drop_first() == rest + seq![x] + a);
        assert(q.drop_first() == rest + seq![y] + b);
        assert((common + a).drop_first() == rest + a);
        assert(p.first() == common[0] && q.first() == common[0] && (common + a).first()
            == common[0]);
    }
}

/// When repeats are left out, the first of those that follow each other at one location stays.
pub proof fn lemma_first_of_repeats_stays(list: Seq<DeviceModel>, i: int)
    requires
        0 <= i < list.len(),
        i == 0 || list[i - 1].location.text != list[i].location.text,
    ensures
        without_repeats(list).contains(list[i]),
    decreases list.len(),
{
    let before = list.drop_last();
    let old_kept = without_repeats(before);
    let kept = without_repeats(list);
    if i < before.len() {
        lemma_first_of_repeats_stays(before, i);
        let k = choose|k: int| 0 <= k < old_kept.len() && old_kept[k] == list[i];
        assert(kept[k] == list[i]);
    } else {
        assert(kept[old_kept.len() as int] == list[i]);
    }
}

/// Where there is no repeat, none is left out.
proof fn lemma_no_repeats(list: Seq<DeviceModel>)
    requires
        all_apart(list),
    ensures
        without_repeats(list) == list,
    decreases list.len(),
{
    if list.len() > 0 {
        let before = list.drop_last();
        assert forall|i: int, j: int| 0 <= i < j < before.len() implies (
        #[trigger] before[i]).location.text != (#[trigger] before[j]).location.text by {
            assert(before[i] == list[i] && before[j] == list[j]);
        }
        lemma_no_repeats(before);
        assert(before.push(list.last()) == list);
    }
}

/// Renderers at different locations are all listed, and those with the same name, without regard
/// to case, in the order in which they were found.
pub proof fn lemma_arranged_is_stable(devices: Seq<DeviceModel>, name: Seq<char>)
    requires
        all_apart(devices),
    ensures
        arranged(devices).len() == devices.len(),
        with_key(keyed_by_name(arranged(devices)), name) == with_key(keyed_by_name(devices), name),
{
    let keyed = keyed_by_name(devices);
    let sorted = sorted_by_key(keyed);
    lemma_sorted(keyed);
    assert(devices_in(keyed) =~= devices);
    lemma_sorted_apart(keyed);
    lemma_no_repeats(devices_in(sorted));
    assert forall|i: int| 0 <= i < sorted.len() implies #[trigger] keyed_by_name(
        devices_in(sorted),
    )[i] == sorted[i] by {
        lemma_sorted_devices(devices, i);
    }
    assert(keyed_by_name(devices_in(sorted)) =~= sorted);
    assert(with_key(sorted, name) == with_key(keyed, name));
}

/// The line for a renderer gives its number, its name, what is known of its maker and model, and
/// its host.
pub proof fn lemma_lines(number: nat, device: DeviceModel)
    ensures
        ({
            let head = decimal(number) + ". "@ + device.friendly_name;
            let line = line_of(number, device);
            let (maker, model) = (device.manufacturer, device.model_name);
            let tail = if device.location.host is Some {
                " ("@ + device.location.host->0 + ")"@
            } else {
                " (unknown address)"@
            };
            &&& maker.len() == 0 && model.len() == 0 ==> line == head + tail
            &&& maker.len() > 0 && model.len() == 0 ==> line == head + " — "@ + maker + tail
            &&& maker.len() == 0 && model.len() > 0 ==> line == head + " — "@ + model + tail
            &&& maker.len() > 0 && model.len() > 0 ==> line == head + " — "@ + maker + " "@ + model
                + tail
        }),
        device.location.host is Some ==> using_text(device) == "Using "@ + device.friendly_name
            + " ("@ + device.location.host->0 + ")"@,
        device.location.host is None ==> using_text(device) == "Using "@ + device.friendly_name
            + " (?)"@,
{
    reveal_strlit(" (");
    reveal_strlit(")");
    reveal_strlit("unknown address");
    reveal_strlit(" (unknown address)");
    reveal_strlit("?");
    reveal_strlit(" (?)");
    reveal_strlit(" ");
    assert(" (unknown address)"@ =~= " ("@ + "unknown address"@ + ")"@);
    assert(" (?)"@ =~= " ("@ + "?"@ + ")"@);
    assert(" "@ =~= seq![' ']);
    let head = decimal(number) + ". "@ + device.friendly_name;
    let line = line_of(number, device);
    let (maker, model) = (device.manufacturer, device.model_name);
    let host = host_or(device.location.host, "unknown address"@);
    let tail = " ("@ + host + ")"@;
    if maker.len() == 0 && model.len() == 0 {
        assert(line =~= head + tail);
    } else {
        assert(line =~= head + (" — "@ + details_of(maker, model)) + tail);
        assert(head + (" — "@ + details_of(maker, model)) =~= head + " — "@ + details_of(
            maker,
            model,
        ));
        if maker.len() > 0 && model.len() > 0 {
            assert(head + " — "@ + (maker + " "@ + model) =~= head + " — "@ + maker + " "@ + model);
        }
    }
    if device.location.host is None {
        assert(using_text(device) =~= "Using "@ + device.friendly_name + (" ("@ + "?"@ + ")"@));
    }
}

} // verus!
