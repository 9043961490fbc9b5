//! The devices as they are shown: merging snapshots of them, and remembering
//! what they are.

use vstd::prelude::*;
use crate::config::{Config, DeviceIdentity, DeviceIdentityView, DeviceSettingsView};
use crate::device::{
    Capabilities, DeviceKind, DeviceModelInfo, DeviceModelInfoView, DeviceRoute, DeviceRouteView,
};
use crate::sort::{
    is_sorted, is_stable_sort, lemma_rank_irreflexive, lemma_rank_total, rank_before, rank_is_before, sort_ranked,
    HasRank, Rank, Ranked,
};
use crate::table::Table;
use crate::value::Value;

verus! {

/// Snapshots in a row that may miss a device before it disappears: a device that
/// answers late must not vanish under the user's hand.
pub const INVENTORY_MISS_GRACE: u8 = 2;

/// A device as it is shown.
#[derive(Debug, PartialEq, Eq)]
pub struct DeviceRecord {
    pub config_key: String,
    pub model_key: String,
    /// The identity that orders the devices.
    pub stable_id: String,
    pub display_name: String,
    pub kind: DeviceKind,
    pub codename: Option<String>,
    pub model_info: Option<DeviceModelInfo>,
    pub capabilities: Option<Capabilities>,
    pub route: Option<DeviceRoute>,
    pub online: bool,
    /// Where the picture of the device is kept.
    pub asset: Option<String>,
}

/// The meaning of a [`DeviceRecord`].
pub struct DeviceRecordView {
    pub config_key: Seq<char>,
    pub model_key: Seq<char>,
    pub stable_id: Seq<char>,
    pub display_name: Seq<char>,
    pub kind: DeviceKind,
    pub codename: Option<Seq<char>>,
    pub model_info: Option<DeviceModelInfoView>,
    pub capabilities: Option<Capabilities>,
    pub route: Option<DeviceRouteView>,
    pub online: bool,
    pub asset: Option<Seq<char>>,
}

impl DeepView for DeviceRecord {
    type V = DeviceRecordView;

    open spec fn deep_view(&self) -> DeviceRecordView {
        DeviceRecordView {
            config_key: self.config_key.deep_view(),
            model_key: self.model_key.deep_view(),
            stable_id: self.stable_id.deep_view(),
            display_name: self.display_name.deep_view(),
            kind: self.kind.deep_view(),
            codename: self.codename.deep_view(),
            model_info: self.model_info.deep_view(),
            capabilities: self.capabilities.deep_view(),
            route: self.route.deep_view(),
            online: self.online.deep_view(),
            asset: self.asset.deep_view(),
        }
    }
}

impl Value for DeviceRecord {
    fn same(&self, other: &Self) -> (r: bool) {
        self.config_key.same(&other.config_key)
            && self.model_key.same(&other.model_key)
            && self.stable_id.same(&other.stable_id)
            && self.display_name.same(&other.display_name)
            && self.kind.same(&other.kind)
            && self.codename.same(&other.codename)
            && self.model_info.same(&other.model_info)
            && self.capabilities.same(&other.capabilities)
            && self.route.same(&other.route)
            && self.online.same(&other.online)
            && self.asset.same(&other.asset)
    }

    fn copy(&self) -> (r: Self) {
        DeviceRecord {
            config_key: self.config_key.copy(),
            model_key: self.model_key.copy(),
            stable_id: self.stable_id.copy(),
            display_name: self.display_name.copy(),
            kind: self.kind.copy(),
            codename: self.codename.copy(),
            model_info: self.model_info.copy(),
            capabilities: self.capabilities.copy(),
            route: self.route.copy(),
            online: self.online.copy(),
            asset: self.asset.copy(),
        }
    }
}

/// A device in the order of the keys.
#[derive(Debug, PartialEq, Eq)]
pub struct KeyedRecord {
    pub record: DeviceRecord,
}

/// The meaning of a [`KeyedRecord`].
pub struct KeyedRecordView {
    pub record: DeviceRecordView,
}

impl DeepView for KeyedRecord {
    type V = KeyedRecordView;

    open spec fn deep_view(&self) -> KeyedRecordView {
        KeyedRecordView {
            record: self.record.deep_view(),
        }
    }
}

impl Value for KeyedRecord {
    fn same(&self, other: &Self) -> (r: bool) {
        self.record.same(&other.record)
    }

    fn copy(&self) -> (r: Self) {
        KeyedRecord {
            record: self.record.copy(),
        }
    }
}

impl HasRank for DeviceRecordView {
    open spec fn rank(&self) -> Rank {
        (self.stable_id, self.model_key)
    }
}

impl Ranked<DeviceRecordView> for DeviceRecord {
    fn before(&self, other: &Self) -> (r: bool) {
        rank_is_before(
            self.stable_id.as_str(),
            self.model_key.as_str(),
            other.stable_id.as_str(),
            other.model_key.as_str(),
        )
    }
}

impl HasRank for KeyedRecordView {
    open spec fn rank(&self) -> Rank {
        (self.record.config_key, self.record.config_key)
    }
}

impl Ranked<KeyedRecordView> for KeyedRecord {
    fn before(&self, other: &Self) -> (r: bool) {
        rank_is_before(
            self.record.config_key.as_str(),
            self.record.config_key.as_str(),
            other.record.config_key.as_str(),
            other.record.config_key.as_str(),
        )
    }
}

/// `list[i]` is the first device with the key `key`.
pub open spec fn is_first_record(list: Seq<DeviceRecordView>, key: Seq<char>, i: int) -> bool {
    &&& 0 <= i < list.len()
    &&& list[i].config_key == key
    &&& forall|j: int| 0 <= j < i ==> (#[trigger] list[j]).config_key != key
}

/// Some device has the key `key`.
pub open spec fn has_record(list: Seq<DeviceRecordView>, key: Seq<char>) -> bool {
    exists|i: int| 0 <= i < list.len() && (#[trigger] list[i]).config_key == key
}

pub open spec fn first_record(list: Seq<DeviceRecordView>, key: Seq<char>) -> int {
    choose|i: int| is_first_record(list, key, i)
}

/// The place of the device to show: the first one with the key, or the first of
/// all.
pub open spec fn shown_place(list: Seq<DeviceRecordView>, key: Option<Seq<char>>) -> int {
    match key {
        Some(k) => if has_record(list, k) {
            first_record(list, k)
        } else {
            0
        },
        None => 0,
    }
}

pub proof fn lemma_first_record(list: Seq<DeviceRecordView>, key: Seq<char>, i: int)
    requires
        is_first_record(list, key, i),
    ensures
        first_record(list, key) == i,
        has_record(list, key),
{
    let k = first_record(list, key);
    assert(is_first_record(list, key, k));
    if k < i {
        assert(list[k].config_key != key);
    } else if i < k {
        assert(list[i].config_key != key);
    }
}

/// Where there is a device with a key, there is a first one.
pub proof fn lemma_first_of(list: Seq<DeviceRecordView>, key: Seq<char>, i: int) -> (k: int)
    requires
        0 <= i < list.len(),
        list[i].config_key == key,
    ensures
        is_first_record(list, key, k),
    decreases i,
{
    if is_first_record(list, key, i) {
        i
    } else {
        let j = choose|j: int| 0 <= j < i && (#[trigger] list[j]).config_key == key;
        lemma_first_of(list, key, j)
    }
}

/// The place of the device to show.
pub fn pick_initial_device(list: &Vec<DeviceRecord>, saved: &Option<String>) -> (r: usize)
    ensures
        r == shown_place(list.deep_view(), saved.deep_view()),
{
    let key: &String = match saved {
        Some(k) => k,
        None => {
            return 0;
        },
    };
    let ghost all = list.deep_view();
    let mut i: usize = 0;
    while i < list.len()
        invariant
            i <= list@.len(),
            all == list.deep_view(),
            saved.deep_view() == Some(key@),
            forall|j: int| 0 <= j < i ==> (#[trigger] all[j]).config_key != key@,
        decreases list@.len() - i,
    {
        if list[i].config_key.same(key) {
            proof {
                assert(all[i as int].config_key == key@);
                lemma_first_record(all, key@, i as int);
            }
            return i;
        }
        i += 1;
    }
    0
}

/// Whether some device has the key `key`.
pub fn contains_record(list: &Vec<DeviceRecord>, key: &String) -> (r: bool)
    ensures
        r == has_record(list.deep_view(), key@),
{
    let mut i: usize = 0;
    while i < list.len()
        invariant
            i <= list@.len(),
            forall|j: int| 0 <= j < i ==> (#[trigger] list.deep_view()[j]).config_key != key@,
        decreases list@.len() - i,
    {
        if list[i].config_key.same(key) {
            assert(list.deep_view()[i as int].config_key == key@);
            return true;
        }
        i += 1;
    }
    false
}

/// The devices of the first `n` records by key; of two with one key, the later.
pub open spec fn by_key(list: Seq<DeviceRecordView>, n: int) -> Map<Seq<char>, DeviceRecordView>
    decreases n,
{
    if n <= 0 {
        Map::empty()
    } else {
        by_key(list, n - 1).insert(list[n - 1].config_key, list[n - 1])
    }
}

/// A merge under way: what of the new snapshot is left, how often each device
/// has been missing, and the list so far.
pub struct Merge {
    pub left: Map<Seq<char>, DeviceRecordView>,
    pub misses: Map<Seq<char>, u8>,
    pub list: Seq<DeviceRecordView>,
}

/// How often in a row `key` has been missing, with one more time.
pub open spec fn missed_once_more(misses: Map<Seq<char>, u8>, key: Seq<char>) -> int {
    if !misses.dom().contains(key) {
        1
    } else if misses[key] == u8::MAX {
        u8::MAX as int
    } else {
        misses[key] + 1
    }
}

/// What becomes of a device that was shown: it is shown as the new snapshot has
/// it; or it is missing, and kept during the grace.
pub open spec fn merge_one(m: Merge, previous: DeviceRecordView) -> Merge {
    let key = previous.config_key;
    if m.left.dom().contains(key) {
        Merge { left: m.left.remove(key), misses: m.misses.remove(key), list: m.list.push(m.left[key]) }
    } else {
        let missed = missed_once_more(m.misses, key);
        Merge {
            misses: m.misses.insert(key, missed as u8),
            list: if missed <= INVENTORY_MISS_GRACE {
                m.list.push(previous)
            } else {
                m.list
            },
            ..m
        }
    }
}

/// The merge after the first `n` devices that were shown.
pub open spec fn merged(previous: Seq<DeviceRecordView>, start: Merge, n: int) -> Merge
    decreases n,
{
    if n <= 0 {
        start
    } else {
        merge_one(merged(previous, start, n - 1), previous[n - 1])
    }
}

/// The merge of all devices that were shown with a new snapshot.
pub open spec fn merged_with(
    previous: Seq<DeviceRecordView>,
    new: Seq<DeviceRecordView>,
    misses: Map<Seq<char>, u8>,
) -> Merge {
    merged(
        previous,
        Merge { left: by_key(new, new.len() as int), misses, list: Seq::empty() },
        previous.len() as int,
    )
}

/// `list` holds the devices of `left`, in the order of their keys.
pub open spec fn lists_by_key(left: Map<Seq<char>, DeviceRecordView>, list: Seq<DeviceRecordView>) -> bool {
    &&& forall|i: int, j: int|
        0 <= i < j < list.len() ==> crate::text::text_precedes(
            (#[trigger] list[i]).config_key,
            (#[trigger] list[j]).config_key,
        )
    &&& forall|i: int|
        0 <= i < list.len() ==> left.dom().contains((#[trigger] list[i]).config_key) && left[list[i].config_key]
            == list[i]
    &&& forall|k: Seq<char>| #[trigger] left.dom().contains(k) ==> has_record(list, k)
}

/// `list` is what is shown after a new snapshot: the devices that were shown,
/// merged with it, and the new ones, in the canonical order.
pub open spec fn shows(
    previous: Seq<DeviceRecordView>,
    new: Seq<DeviceRecordView>,
    misses: Map<Seq<char>, u8>,
    list: Seq<DeviceRecordView>,
) -> bool {
    exists|appeared: Seq<DeviceRecordView>| #[trigger]
        lists_by_key(merged_with(previous, new, misses).left, appeared) && is_stable_sort(
            merged_with(previous, new, misses).list + appeared,
            list,
        )
}

/// How often each device that is shown has been missing.
pub open spec fn misses_shown(
    previous: Seq<DeviceRecordView>,
    new: Seq<DeviceRecordView>,
    misses: Map<Seq<char>, u8>,
    list: Seq<DeviceRecordView>,
) -> Map<Seq<char>, u8> {
    let m = merged_with(previous, new, misses);
    Map::new(
        |k: Seq<char>| m.misses.dom().contains(k) && !m.left.dom().contains(k) && has_record(list, k),
        |k: Seq<char>| m.misses[k],
    )
}

/// The meaning of records by key.
pub open spec fn record_views(records: Map<Seq<char>, DeviceRecord>) -> Map<Seq<char>, DeviceRecordView> {
    Map::new(|k: Seq<char>| records.dom().contains(k), |k: Seq<char>| records[k].deep_view())
}

fn collect_by_key(list: &Vec<DeviceRecord>) -> (r: Table<String, DeviceRecord>)
    ensures
        record_views(r@) == by_key(list.deep_view(), list@.len() as int),
{
    let mut table: Table<String, DeviceRecord> = Table::new();
    let ghost all = list.deep_view();
    let mut i: usize = 0;
    assert(record_views(table@) =~= by_key(all, 0));
    while i < list.len()
        invariant
            i <= list@.len(),
            all == list.deep_view(),
            record_views(table@) == by_key(all, i as int),
        decreases list@.len() - i,
    {
        let ghost so_far = record_views(table@);
        let record = list[i].copy();
        let ghost v = record.deep_view();
        table.insert(list[i].config_key.copy(), record);
        assert(all[i as int] == v);
        assert(record_views(table@) =~= so_far.insert(v.config_key, v));
        i += 1;
    }
    table
}

/// The records of a table, in the order of their keys. Each is entered under its
/// own key.
fn in_key_order(table: &Table<String, DeviceRecord>) -> (r: Vec<DeviceRecord>)
    requires
        forall|k: Seq<char>| #[trigger] record_views(table@).dom().contains(k) ==> record_views(table@)[k].config_key
            == k,
    ensures
        lists_by_key(record_views(table@), r.deep_view()),
{
    let ghost left = record_views(table@);
    let ghost order = table.order();
    let mut keyed: Vec<KeyedRecord> = Vec::new();
    let n: usize = table.len();
    let mut i: usize = 0;
    proof {
        use_type_invariant(table);
        table.lemma_order();
    }
    while i < n
        invariant
            i <= n,
            n == order.len(),
            order == table.order(),
            left == record_views(table@),
            keyed@.len() == i,
            forall|k: Seq<char>| #[trigger] left.dom().contains(k) ==> left[k].config_key == k,
            forall|k: int|
                0 <= k < i ==> left.dom().contains(order[k]) && (#[trigger] keyed.deep_view()[k]).record
                    == left[order[k]] && keyed.deep_view()[k].record.config_key == order[k],
        decreases n - i,
    {
        let record: &DeviceRecord = table.value_at(i);
        let ghost so_far = keyed.deep_view();
        let one = KeyedRecord { record: record.copy() };
        let ghost v = one.deep_view();
        keyed.push(one);
        assert(keyed.deep_view() =~= so_far.push(v));
        assert(left.dom().contains(order[i as int]));
        i += 1;
    }
    let ghost unsorted = keyed.deep_view();
    let sorted = sort_ranked(keyed);
    let ghost out = sorted.deep_view();
    proof {
        assert forall|a: int, b: int| 0 <= a < b < unsorted.len() implies (#[trigger] unsorted[a]).rank() != (
        #[trigger] unsorted[b]).rank() by {
            assert(order[a] != order[b]);
        }
        crate::sort::lemma_sorted_ranks_differ(unsorted, out);
        vstd::seq_lib::to_multiset_len(unsorted);
        vstd::seq_lib::to_multiset_len(out);
        lemma_same_members(unsorted, out);
    }
    let mut r: Vec<DeviceRecord> = Vec::new();
    let mut j: usize = 0;
    while j < sorted.len()
        invariant
            j <= sorted@.len(),
            out == sorted.deep_view(),
            r@.len() == j,
            forall|k: int| 0 <= k < j ==> (#[trigger] r.deep_view()[k]) == out[k].record,
        decreases sorted@.len() - j,
    {
        let ghost so_far = r.deep_view();
        let record = sorted[j].record.copy();
        let ghost v = record.deep_view();
        r.push(record);
        assert(r.deep_view() =~= so_far.push(v));
        assert(out[j as int].record == v);
        j += 1;
    }
    proof {
        let list = r.deep_view();
        assert forall|a: int, b: int| 0 <= a < b < list.len() implies crate::text::text_precedes(
            (#[trigger] list[a]).config_key,
            (#[trigger] list[b]).config_key,
        ) by {
            crate::sort::lemma_rank_total(out[a].rank(), out[b].rank());
        }
        assert forall|a: int| 0 <= a < list.len() implies left.dom().contains((#[trigger] list[a]).config_key)
            && left[list[a].config_key] == list[a] by {
            assert(out.contains(out[a]));
            assert(unsorted.contains(out[a]));
            let k = choose|k: int| 0 <= k < unsorted.len() && unsorted[k] == out[a];
            assert(unsorted[k].record == left[order[k]]);
        }
        assert forall|k: Seq<char>| #[trigger] left.dom().contains(k) implies has_record(list, k) by {
            assert(order.to_set().contains(k));
            let p = choose|p: int| 0 <= p < order.len() && order[p] == k;
            assert(unsorted[p].record.config_key == k);
            assert(unsorted.contains(unsorted[p]));
            assert(out.contains(unsorted[p]));
            let q = choose|q: int| 0 <= q < out.len() && out[q] == unsorted[p];
            assert(list[q].config_key == k);
        }
    }
    r
}

proof fn lemma_same_members<A>(a: Seq<A>, b: Seq<A>)
    requires
        a.to_multiset() == b.to_multiset(),
    ensures
        forall|x: A| #[trigger] a.contains(x) <==> b.contains(x),
{
    broadcast use vstd::seq_lib::group_to_multiset_ensures;

    assert forall|x: A| #[trigger] a.contains(x) <==> b.contains(x) by {
        assert(a.contains(x) <==> a.to_multiset().count(x) > 0);
        assert(b.contains(x) <==> b.to_multiset().count(x) > 0);
    }
}

proof fn lemma_by_key(list: Seq<DeviceRecordView>, n: int)
    requires
        0 <= n <= list.len(),
    ensures
        forall|k: Seq<char>| #[trigger] by_key(list, n).dom().contains(k) ==> by_key(list, n)[k].config_key == k,
    decreases n,
{
    if n > 0 {
        lemma_by_key(list, n - 1);
    }
}

/// Merges a new snapshot into the devices that are shown. A device that is
/// missing stays for some snapshots, so that one late answer does not make it
/// vanish; a new one takes its place in the canonical order.
pub fn merge_snapshot(
    previous: &Vec<DeviceRecord>,
    new_list: &Vec<DeviceRecord>,
    misses: &mut Table<String, u8>,
) -> (r: Vec<DeviceRecord>)
    ensures
        shows(previous.deep_view(), new_list.deep_view(), old(misses)@, r.deep_view()),
        final(misses)@ == misses_shown(
            previous.deep_view(),
            new_list.deep_view(),
            old(misses)@,
            r.deep_view(),
        ),
{
    let ghost (pv, nv, mv) = (previous.deep_view(), new_list.deep_view(), misses@);
    let ghost start = Merge { left: by_key(nv, nv.len() as int), misses: mv, list: Seq::empty() };
    let mut left = collect_by_key(new_list);
    let mut list: Vec<DeviceRecord> = Vec::new();
    let mut i: usize = 0;
    proof {
        lemma_by_key(nv, nv.len() as int);
        assert(list.deep_view() =~= Seq::<DeviceRecordView>::empty());
    }
    while i < previous.len()
        invariant
            i <= previous@.len(),
            pv == previous.deep_view(),
            record_views(left@) == merged(pv, start, i as int).left,
            misses@ == merged(pv, start, i as int).misses,
            list.deep_view() == merged(pv, start, i as int).list,
            forall|k: Seq<char>| #[trigger] record_views(left@).dom().contains(k) ==> record_views(left@)[k].config_key
                == k,
        decreases previous@.len() - i,
    {
        let ghost m = merged(pv, start, i as int);
        let ghost so_far = list.deep_view();
        let ghost left_before = record_views(left@);
        let prev: &DeviceRecord = &previous[i];
        let ghost key = prev.config_key@;
        assert(pv[i as int] == prev.deep_view());
        match left.remove(&prev.config_key) {
            Some(record) => {
                let ghost v = record.deep_view();
                assert(left_before.dom().contains(key) && left_before[key] == v);
                assert(record_views(left@) =~= left_before.remove(key));
                let _ = misses.remove(&prev.config_key);
                list.push(record);
                assert(list.deep_view() =~= so_far.push(v));
            },
            None => {
                assert(!left_before.dom().contains(key));
                assert(record_views(left@) =~= left_before);
                let missed: u8 = match misses.get(&prev.config_key) {
                    Some(n) => n.saturating_add(1),
                    None => 1,
                };
                misses.insert(prev.config_key.copy(), missed);
                if missed <= INVENTORY_MISS_GRACE {
                    list.push(prev.copy());
                    assert(list.deep_view() =~= so_far.push(prev.deep_view()));
                }
            },
        }
        i += 1;
    }
    let ghost m = merged_with(pv, nv, mv);
    let appeared = in_key_order(&left);
    let ghost av = appeared.deep_view();
    forget_keys(misses, &appeared);
    let ghost kept = list.deep_view();
    let mut more = appeared;
    let ghost (a, b) = (list@, more@);
    list.append(&mut more);
    assert(list@ == a + b);
    assert(list.deep_view() =~= kept + av);
    let r = sort_ranked(list);
    proof {
        assert(lists_by_key(m.left, av));
    }
    let keys = keys_of(&r);
    misses.retain_keys(&keys);
    proof {
        let now = misses_shown(pv, nv, mv, r.deep_view());
        assert forall|k: Seq<char>| #[trigger] misses@.dom().contains(k) <==> now.dom().contains(k) by {
            assert(has_record(av, k) <==> m.left.dom().contains(k)) by {
                if has_record(av, k) {
                    let p = choose|p: int| 0 <= p < av.len() && (#[trigger] av[p]).config_key == k;
                    assert(m.left.dom().contains(av[p].config_key));
                }
            }
            assert(keys.deep_view().to_set().contains(k) == keys.deep_view().contains(k));
        }
        assert(misses@ =~= now);
    }
    r
}

/// The keys of the devices, in order.
pub fn keys_of(list: &Vec<DeviceRecord>) -> (r: Vec<String>)
    ensures
        r@.len() == list@.len(),
        forall|i: int| 0 <= i < r@.len() ==> (#[trigger] r.deep_view()[i]) == list.deep_view()[i].config_key,
        forall|k: Seq<char>| #[trigger] r.deep_view().contains(k) <==> has_record(list.deep_view(), k),
{
    let mut keys: Vec<String> = Vec::new();
    let mut i: usize = 0;
    while i < list.len()
        invariant
            i <= list@.len(),
            keys@.len() == i,
            forall|k: int| 0 <= k < i ==> (#[trigger] keys.deep_view()[k]) == list.deep_view()[k].config_key,
        decreases list@.len() - i,
    {
        let ghost so_far = keys.deep_view();
        keys.push(list[i].config_key.copy());
        assert(keys.deep_view() =~= so_far.push(list.deep_view()[i as int].config_key));
        i += 1;
    }
    proof {
        let (a, b) = (keys.deep_view(), list.deep_view());
        assert forall|k: Seq<char>| #[trigger] a.contains(k) <==> has_record(b, k) by {
            if a.contains(k) {
                let p = choose|p: int| 0 <= p < a.len() && a[p] == k;
                assert(b[p].config_key == k);
            }
            if has_record(b, k) {
                let p = choose|p: int| 0 <= p < b.len() && (#[trigger] b[p]).config_key == k;
                assert(a[p] == k);
            }
        }
    }
    keys
}

fn forget_keys(misses: &mut Table<String, u8>, list: &Vec<DeviceRecord>)
    ensures
        forall|k: Seq<char>| #[trigger] final(misses)@.dom().contains(k) <==> old(misses)@.dom().contains(k)
            && !has_record(list.deep_view(), k),
        forall|k: Seq<char>| #[trigger] final(misses)@.dom().contains(k) ==> final(misses)@[k] == old(misses)@[k],
{
    let ghost before = misses@;
    let ghost all = list.deep_view();
    let mut i: usize = 0;
    while i < list.len()
        invariant
            i <= list@.len(),
            all == list.deep_view(),
            forall|k: Seq<char>| #[trigger] misses@.dom().contains(k) <==> before.dom().contains(k) && forall|j: int|
                0 <= j < i ==> (#[trigger] all[j]).config_key != k,
            forall|k: Seq<char>| #[trigger] misses@.dom().contains(k) ==> misses@[k] == before[k],
        decreases list@.len() - i,
    {
        let ghost now = misses@;
        let _ = misses.remove(&list[i].config_key);
        proof {
            let gone = all[i as int].config_key;
            assert forall|k: Seq<char>| #[trigger] misses@.dom().contains(k) <==> before.dom().contains(k) && forall|
                j: int,
            |
                0 <= j < i + 1 ==> (#[trigger] all[j]).config_key != k by {
                assert(misses@.dom().contains(k) == (now.dom().contains(k) && k != gone));
            }
        }
        i += 1;
    }
}

/// A device that the new snapshot has is shown, and as the snapshot has it.
pub proof fn law_present_device_is_shown_anew(
    previous: Seq<DeviceRecordView>,
    new: Seq<DeviceRecordView>,
    misses: Map<Seq<char>, u8>,
    list: Seq<DeviceRecordView>,
    key: Seq<char>,
)
    requires
        shows(previous, new, misses, list),
        by_key(new, new.len() as int).dom().contains(key),
    ensures
        list.contains(by_key(new, new.len() as int)[key]),
{
    let m = merged_with(previous, new, misses);
    let all = by_key(new, new.len() as int);
    let start = Merge { left: all, misses, list: Seq::empty() };
    lemma_by_key(new, new.len() as int);
    lemma_merge_keeps_new(previous, start, previous.len() as int, key);
    let appeared = choose|appeared: Seq<DeviceRecordView>| #[trigger]
        lists_by_key(m.left, appeared) && is_stable_sort(m.list + appeared, list);
    let unsorted = m.list + appeared;
    if m.left.dom().contains(key) {
        assert(has_record(appeared, key));
        let i = choose|i: int| 0 <= i < appeared.len() && (#[trigger] appeared[i]).config_key == key;
        assert(appeared[i] == m.left[key]);
        assert(unsorted[m.list.len() + i] == all[key]);
    } else {
        let i = choose|i: int| 0 <= i < m.list.len() && m.list[i] == all[key];
        assert(unsorted[i] == all[key]);
    }
    assert(unsorted.contains(all[key]));
    lemma_same_members(unsorted, list);
}

proof fn lemma_merge_keeps_new(previous: Seq<DeviceRecordView>, start: Merge, n: int, key: Seq<char>)
    requires
        0 <= n <= previous.len(),
        start.left.dom().contains(key),
    ensures
        merged(previous, start, n).left.dom().contains(key) ==> merged(previous, start, n).left[key] == start.left[key],
        !merged(previous, start, n).left.dom().contains(key) ==> merged(previous, start, n).list.contains(
            start.left[key],
        ),
    decreases n,
{
    if n > 0 {
        lemma_merge_keeps_new(previous, start, n - 1, key);
        let (a, b) = (merged(previous, start, n - 1), merged(previous, start, n));
        if a.list.contains(start.left[key]) {
            let i = choose|i: int| 0 <= i < a.list.len() && a.list[i] == start.left[key];
            assert(b.list[i] == start.left[key]);
        }
        if a.left.dom().contains(key) && !b.left.dom().contains(key) {
            assert(b.list[a.list.len() as int] == start.left[key]);
        }
    }
}

/// No two devices have the same key.
pub open spec fn keys_differ(list: Seq<DeviceRecordView>) -> bool {
    forall|a: int, b: int|
        0 <= a < b < list.len() ==> (#[trigger] list[a]).config_key != (#[trigger] list[b]).config_key
}

/// No device is shown twice: if no two devices had the same key, none have after
/// a new snapshot, whatever it holds.
pub proof fn law_no_device_is_shown_twice(
    previous: Seq<DeviceRecordView>,
    new: Seq<DeviceRecordView>,
    misses: Map<Seq<char>, u8>,
    list: Seq<DeviceRecordView>,
)
    requires
        keys_differ(previous),
        shows(previous, new, misses, list),
    ensures
        keys_differ(list),
{
    let m = merged_with(previous, new, misses);
    let start = Merge { left: by_key(new, new.len() as int), misses, list: Seq::empty() };
    lemma_by_key(new, new.len() as int);
    lemma_merge_keys(previous, start, previous.len() as int);
    let appeared = choose|appeared: Seq<DeviceRecordView>| #[trigger]
        lists_by_key(m.left, appeared) && is_stable_sort(m.list + appeared, list);
    let unsorted = m.list + appeared;
    assert(keys_differ(unsorted)) by {
        assert forall|a: int, b: int| 0 <= a < b < unsorted.len() implies (#[trigger] unsorted[a]).config_key != (
        #[trigger] unsorted[b]).config_key by {
            let n = m.list.len() as int;
            if b < n {
                assert(m.list[a].config_key != m.list[b].config_key);
            } else {
                assert(unsorted[b] == appeared[b - n]);
                if a >= n {
                    assert(unsorted[a] == appeared[a - n]);
                    assert(crate::text::text_precedes(appeared[a - n].config_key, appeared[b - n].config_key));
                    crate::text::lemma_bytes_before_irreflexive(vstd::utf8::encode_utf8(unsorted[a].config_key));
                } else {
                    assert(unsorted[a] == m.list[a]);
                }
            }
        }
    }
    assert(unsorted.no_duplicates());
    unsorted.lemma_multiset_has_no_duplicates();
    list.lemma_multiset_has_no_duplicates_conv();
    lemma_same_members(unsorted, list);
    assert forall|a: int, b: int| 0 <= a < b < list.len() implies (#[trigger] list[a]).config_key != (
    #[trigger] list[b]).config_key by {
        assert(list.contains(list[a]) && list.contains(list[b]));
        assert(unsorted.contains(list[a]) && unsorted.contains(list[b]));
        let p = choose|p: int| 0 <= p < unsorted.len() && unsorted[p] == list[a];
        let q = choose|q: int| 0 <= q < unsorted.len() && unsorted[q] == list[b];
        assert(list[a] != list[b]);
        assert(unsorted[p].config_key != unsorted[q].config_key);
    }
}

/// The keys of a merge under way: those listed differ, were shown, and are not
/// left.
proof fn lemma_merge_keys(previous: Seq<DeviceRecordView>, start: Merge, n: int)
    requires
        0 <= n <= previous.len(),
        keys_differ(previous),
        start.list.len() == 0,
        forall|k: Seq<char>| #[trigger] start.left.dom().contains(k) ==> start.left[k].config_key == k,
    ensures
        ({
            let m = merged(previous, start, n);
            &&& keys_differ(m.list)
            &&& forall|k: Seq<char>| #[trigger] m.left.dom().contains(k) ==> start.left.dom().contains(k)
                && m.left[k].config_key == k
            &&& forall|a: int| 0 <= a < m.list.len() ==> !m.left.dom().contains((#[trigger] m.list[a]).config_key)
                && has_record(previous.take(n), m.list[a].config_key)
            &&& forall|k: Seq<char>| #[trigger] start.left.dom().contains(k) && !m.left.dom().contains(k) ==> has_record(
                previous.take(n),
                k,
            ) && !m.misses.dom().contains(k)
        }),
    decreases n,
{
    if n > 0 {
        lemma_merge_keys(previous, start, n - 1);
        let (a, b) = (merged(previous, start, n - 1), merged(previous, start, n));
        let (s, t) = (previous.take(n - 1), previous.take(n));
        let one = previous[n - 1];
        assert(t[n - 1] == one);
        assert(!has_record(s, one.config_key)) by {
            if has_record(s, one.config_key) {
                let j = choose|j: int| 0 <= j < s.len() && (#[trigger] s[j]).config_key == one.config_key;
                assert(previous[j].config_key != previous[n - 1].config_key);
            }
        }
        assert forall|k: Seq<char>| has_record(s, k) implies #[trigger] has_record(t, k) by {
            let j = choose|j: int| 0 <= j < s.len() && (#[trigger] s[j]).config_key == k;
            assert(t[j].config_key == k);
        }
        assert forall|i: int| 0 <= i < b.list.len() implies !b.left.dom().contains((#[trigger] b.list[i]).config_key)
            && has_record(t, b.list[i].config_key) by {
            if i < a.list.len() {
                assert(b.list[i] == a.list[i]);
            }
        }
        assert forall|i: int, j: int| 0 <= i < j < b.list.len() implies (#[trigger] b.list[i]).config_key != (
        #[trigger] b.list[j]).config_key by {
            assert(b.list[i] == a.list[i]);
            if j < a.list.len() {
                assert(b.list[j] == a.list[j]);
            } else {
                assert(has_record(s, a.list[i].config_key));
                assert(b.list[j].config_key == one.config_key);
            }
        }
        assert forall|k: Seq<char>| #[trigger] start.left.dom().contains(k) && !b.left.dom().contains(k) implies has_record(
            t,
            k,
        ) && !b.misses.dom().contains(k) by {
            if !a.left.dom().contains(k) {
                assert(k != one.config_key);
            }
        }
    }
}

/// A sighting starts the count over: a device that the new snapshot has is shown,
/// and has not been missing.
pub proof fn law_sighting_starts_the_count_over(
    previous: Seq<DeviceRecordView>,
    new: Seq<DeviceRecordView>,
    misses: Map<Seq<char>, u8>,
    list: Seq<DeviceRecordView>,
    key: Seq<char>,
)
    requires
        keys_differ(previous),
        shows(previous, new, misses, list),
        by_key(new, new.len() as int).dom().contains(key),
    ensures
        has_record(list, key),
        times_missed(misses_shown(previous, new, misses, list), key) == 0,
{
    let start = Merge { left: by_key(new, new.len() as int), misses, list: Seq::empty() };
    lemma_by_key(new, new.len() as int);
    lemma_merge_keys(previous, start, previous.len() as int);
    law_present_device_is_shown_anew(previous, new, misses, list, key);
    let k = choose|k: int| 0 <= k < list.len() && list[k] == start.left[key];
    assert(list[k].config_key == key);
}

/// How often in a row `key` has been missing.
pub open spec fn times_missed(misses: Map<Seq<char>, u8>, key: Seq<char>) -> int {
    if misses.dom().contains(key) {
        misses[key] as int
    } else {
        0
    }
}

/// `lists[i]` is shown and `misses[i]` counted before the snapshot `snapshots[i]`,
/// and the next ones after it.
pub open spec fn is_run(
    snapshots: Seq<Seq<DeviceRecordView>>,
    lists: Seq<Seq<DeviceRecordView>>,
    misses: Seq<Map<Seq<char>, u8>>,
) -> bool {
    &&& lists.len() == snapshots.len() + 1
    &&& misses.len() == snapshots.len() + 1
    &&& forall|i: int| #![trigger snapshots[i]]
        0 <= i < snapshots.len() ==> shows(lists[i], snapshots[i], misses[i], lists[i + 1]) && misses[i + 1]
            == misses_shown(lists[i], snapshots[i], misses[i], lists[i + 1])
}

/// No snapshot has the device `key`.
pub open spec fn none_has(snapshots: Seq<Seq<DeviceRecordView>>, key: Seq<char>) -> bool {
    forall|i: int|
        0 <= i < snapshots.len() ==> !by_key(#[trigger] snapshots[i], snapshots[i].len() as int).dom().contains(key)
}

/// A device that a run of snapshots misses stays as it was shown until it has
/// been missing for the whole grace, is gone after that, and stays gone. What
/// the snapshots hold of other devices makes no difference.
pub proof fn law_missing_device_stays_during_the_grace(
    snapshots: Seq<Seq<DeviceRecordView>>,
    lists: Seq<Seq<DeviceRecordView>>,
    misses: Seq<Map<Seq<char>, u8>>,
    at: int,
)
    requires
        is_run(snapshots, lists, misses),
        keys_differ(lists[0]),
        0 <= at < lists[0].len(),
        none_has(snapshots, lists[0][at].config_key),
    ensures
        ({
            let (key, n) = (lists[0][at].config_key, snapshots.len() as int);
            let stays = n == 0 || times_missed(misses[0], key) + n <= INVENTORY_MISS_GRACE;
            &&& has_record(lists[n], key) <==> stays
            &&& stays ==> lists[n].contains(lists[0][at])
        }),
{
    lemma_run(snapshots, lists, misses, at, snapshots.len() as int);
}

proof fn lemma_run(
    snapshots: Seq<Seq<DeviceRecordView>>,
    lists: Seq<Seq<DeviceRecordView>>,
    misses: Seq<Map<Seq<char>, u8>>,
    at: int,
    n: int,
)
    requires
        is_run(snapshots, lists, misses),
        keys_differ(lists[0]),
        0 <= at < lists[0].len(),
        none_has(snapshots, lists[0][at].config_key),
        0 <= n <= snapshots.len(),
    ensures
        ({
            let key = lists[0][at].config_key;
            let counted = times_missed(misses[0], key);
            let stays = n == 0 || counted + n <= INVENTORY_MISS_GRACE;
            &&& keys_differ(lists[n])
            &&& has_record(lists[n], key) <==> stays
            &&& stays ==> lists[n].contains(lists[0][at]) && times_missed(misses[n], key) == counted + n
        }),
    decreases n,
{
    let key = lists[0][at].config_key;
    if n == 0 {
        assert(lists[0][at].config_key == key);
    } else {
        lemma_run(snapshots, lists, misses, at, n - 1);
        let (before, new, m, list) = (lists[n - 1], snapshots[n - 1], misses[n - 1], lists[n]);
        assert(!by_key(new, new.len() as int).dom().contains(key));
        law_no_device_is_shown_twice(before, new, m, list);
        if has_record(before, key) {
            let i = choose|i: int| 0 <= i < before.len() && before[i] == lists[0][at];
            lemma_missing_once(before, new, m, list, i);
        } else {
            lemma_absent_stays_absent(before, new, m, list, key);
        }
    }
}

/// A device that was not shown and is not in the new snapshot is not shown.
proof fn lemma_absent_stays_absent(
    previous: Seq<DeviceRecordView>,
    new: Seq<DeviceRecordView>,
    misses: Map<Seq<char>, u8>,
    list: Seq<DeviceRecordView>,
    key: Seq<char>,
)
    requires
        keys_differ(previous),
        shows(previous, new, misses, list),
        !has_record(previous, key),
        !by_key(new, new.len() as int).dom().contains(key),
    ensures
        !has_record(list, key),
{
    let m = merged_with(previous, new, misses);
    let start = Merge { left: by_key(new, new.len() as int), misses, list: Seq::empty() };
    lemma_by_key(new, new.len() as int);
    lemma_merge_keys(previous, start, previous.len() as int);
    assert(previous.take(previous.len() as int) =~= previous);
    let appeared = choose|appeared: Seq<DeviceRecordView>| #[trigger]
        lists_by_key(m.left, appeared) && is_stable_sort(m.list + appeared, list);
    let unsorted = m.list + appeared;
    lemma_same_members(unsorted, list);
    if has_record(list, key) {
        let q = choose|q: int| 0 <= q < list.len() && (#[trigger] list[q]).config_key == key;
        assert(list.contains(list[q]));
        assert(unsorted.contains(list[q]));
        let k = choose|k: int| 0 <= k < unsorted.len() && unsorted[k] == list[q];
        if k < m.list.len() {
            assert(m.list[k].config_key == key);
        } else {
            assert(appeared[k - m.list.len()].config_key == key);
        }
    }
}

/// What becomes of a device that the new snapshot misses.
proof fn lemma_missing_once(
    previous: Seq<DeviceRecordView>,
    new: Seq<DeviceRecordView>,
    misses: Map<Seq<char>, u8>,
    list: Seq<DeviceRecordView>,
    i: int,
)
    requires
        0 <= i < previous.len(),
        keys_differ(previous),
        !by_key(new, new.len() as int).dom().contains(previous[i].config_key),
        shows(previous, new, misses, list),
    ensures
        has_record(list, previous[i].config_key) <==> missed_once_more(misses, previous[i].config_key)
            <= INVENTORY_MISS_GRACE,
        missed_once_more(misses, previous[i].config_key) <= INVENTORY_MISS_GRACE ==> list.contains(previous[i])
            && times_missed(misses_shown(previous, new, misses, list), previous[i].config_key) == missed_once_more(
            misses,
            previous[i].config_key,
        ),
{
    let key = previous[i].config_key;
    let m = merged_with(previous, new, misses);
    let start = Merge { left: by_key(new, new.len() as int), misses, list: Seq::empty() };
    lemma_by_key(new, new.len() as int);
    lemma_merge_of_missing(previous, start, previous.len() as int, i);
    let appeared = choose|appeared: Seq<DeviceRecordView>| #[trigger]
        lists_by_key(m.left, appeared) && is_stable_sort(m.list + appeared, list);
    let unsorted = m.list + appeared;
    lemma_same_members(unsorted, list);
    if missed_once_more(misses, key) <= INVENTORY_MISS_GRACE {
        let k = choose|k: int| 0 <= k < m.list.len() && m.list[k] == previous[i];
        assert(unsorted[k] == previous[i]);
        assert(unsorted.contains(previous[i]));
        let q = choose|q: int| 0 <= q < list.len() && list[q] == previous[i];
        assert(list[q].config_key == key);
    } else if has_record(list, key) {
        let q = choose|q: int| 0 <= q < list.len() && (#[trigger] list[q]).config_key == key;
        assert(list.contains(list[q]));
        assert(unsorted.contains(list[q]));
        let k = choose|k: int| 0 <= k < unsorted.len() && unsorted[k] == list[q];
        if k < m.list.len() {
            assert(m.list[k].config_key == key);
        } else {
            assert(appeared[k - m.list.len()].config_key == key);
        }
    }
}

proof fn lemma_merge_of_missing(previous: Seq<DeviceRecordView>, start: Merge, n: int, i: int)
    requires
        0 <= n <= previous.len(),
        0 <= i < previous.len(),
        start.list.len() == 0,
        !start.left.dom().contains(previous[i].config_key),
        forall|k: Seq<char>| #[trigger] start.left.dom().contains(k) ==> start.left[k].config_key == k,
        keys_differ(previous),
    ensures
        !merged(previous, start, n).left.dom().contains(previous[i].config_key),
        forall|k: Seq<char>| #[trigger] merged(previous, start, n).left.dom().contains(k) ==> merged(
            previous,
            start,
            n,
        ).left[k].config_key == k,
        n <= i ==> merged(previous, start, n).misses.dom().contains(previous[i].config_key)
            == start.misses.dom().contains(previous[i].config_key),
        n <= i && start.misses.dom().contains(previous[i].config_key) ==> merged(previous, start, n).misses[
            previous[i].config_key
        ] == start.misses[previous[i].config_key],
        i < n ==> merged(previous, start, n).misses.dom().contains(previous[i].config_key) && merged(
            previous,
            start,
            n,
        ).misses[previous[i].config_key] == missed_once_more(start.misses, previous[i].config_key),
        i < n && missed_once_more(start.misses, previous[i].config_key) <= INVENTORY_MISS_GRACE ==> merged(
            previous,
            start,
            n,
        ).list.contains(previous[i]),
        n <= i || missed_once_more(start.misses, previous[i].config_key) > INVENTORY_MISS_GRACE ==> forall|k: int|
            0 <= k < merged(previous, start, n).list.len() ==> (#[trigger] merged(previous, start, n).list[k]).config_key
                != previous[i].config_key,
    decreases n,
{
    let key = previous[i].config_key;
    if n > 0 {
        lemma_merge_of_missing(previous, start, n - 1, i);
        let (a, b) = (merged(previous, start, n - 1), merged(previous, start, n));
        let other = previous[n - 1];
        if n - 1 != i {
            assert(other.config_key != key);
        } else {
            if missed_once_more(start.misses, key) <= INVENTORY_MISS_GRACE {
                assert(b.list[a.list.len() as int] == previous[i]);
            }
        }
        if a.list.contains(previous[i]) {
            let k = choose|k: int| 0 <= k < a.list.len() && a.list[k] == previous[i];
            assert(b.list[k] == previous[i]);
        }
        if n <= i || missed_once_more(start.misses, key) > INVENTORY_MISS_GRACE {
            assert forall|k: int| 0 <= k < b.list.len() implies (#[trigger] b.list[k]).config_key != key by {
                if k < a.list.len() {
                    assert(b.list[k] == a.list[k]);
                } else if a.left.dom().contains(other.config_key) {
                    assert(a.left[other.config_key].config_key == other.config_key);
                }
            }
        }
    }
}

/// The identity of a device, as far as it is remembered: not which unit it is.
pub open spec fn identity_of(record: DeviceRecordView) -> DeviceIdentityView {
    DeviceIdentityView {
        display_name: record.display_name,
        kind: record.kind,
        capabilities: record.capabilities->0,
        model_info: match record.model_info {
            Some(model) => Some(
                DeviceModelInfoView { serial_number: None, unit_id: seq![0u8, 0, 0, 0], ..model },
            ),
            None => None,
        },
        codename: record.codename,
    }
}

/// A device is remembered while it is online and its capabilities were read.
pub open spec fn is_recorded(record: DeviceRecordView) -> bool {
    record.online && record.capabilities is Some
}

/// What is remembered under `key` after the first `n` devices.
pub open spec fn remembered(config: &Config, list: Seq<DeviceRecordView>, n: int, key: Seq<char>) -> Option<
    DeviceIdentityView,
>
    decreases n,
{
    if n <= 0 {
        config.device(key).identity
    } else if is_recorded(list[n - 1]) && list[n - 1].config_key == key {
        Some(identity_of(list[n - 1]))
    } else {
        remembered(config, list, n - 1, key)
    }
}

/// Device `i` is remembered as something it was not remembered as before.
pub open spec fn is_news(config: &Config, list: Seq<DeviceRecordView>, i: int) -> bool {
    is_recorded(list[i]) && remembered(config, list, i, list[i].config_key) != Some(identity_of(list[i]))
}

/// Some device is remembered as something it was not remembered as before.
pub open spec fn has_news(config: &Config, list: Seq<DeviceRecordView>) -> bool {
    exists|i: int| 0 <= i < list.len() && #[trigger] is_news(config, list, i)
}

/// Only identities differ from `before`: those of the first `n` devices are
/// remembered.
pub open spec fn identities_remembered(before: &Config, now: &Config, list: Seq<DeviceRecordView>, n: int) -> bool {
    &&& now.schema_version == before.schema_version
    &&& now.selected_device == before.selected_device
    &&& now.app_settings == before.app_settings
    &&& forall|k: Seq<char>| #[trigger] now.device(k) == (DeviceSettingsView {
        identity: remembered(before, list, n, k),
        ..before.device(k)
    })
    &&& forall|k: Seq<char>| #[trigger] now.devices@.dom().contains(k) <==> before.devices@.dom().contains(k)
        || recorded_key(list, n, k)
}

/// One of the first `n` devices is remembered under `key`.
pub open spec fn recorded_key(list: Seq<DeviceRecordView>, n: int, key: Seq<char>) -> bool {
    exists|i: int| 0 <= i < n && (#[trigger] list[i]).config_key == key && is_recorded(list[i])
}

/// Remembers what the devices are, and says whether anything had to be changed.
/// A device that is asleep can then be shown at the next start.
pub fn persist_identities(config: &mut Config, list: &Vec<DeviceRecord>) -> (r: bool)
    ensures
        identities_remembered(old(config), final(config), list.deep_view(), list@.len() as int),
        r == has_news(old(config), list.deep_view()),
        !r ==> *final(config) == *old(config),
{
    let ghost before = *config;
    let ghost all = list.deep_view();
    let mut changed = false;
    let mut i: usize = 0;
    while i < list.len()
        invariant
            i <= list@.len(),
            all == list.deep_view(),
            identities_remembered(&before, config, all, i as int),
            changed == exists|k: int| 0 <= k < i && #[trigger] is_news(&before, all, k),
            !changed ==> *config == before,
        decreases list@.len() - i,
    {
        let record: &DeviceRecord = &list[i];
        let ghost v = record.deep_view();
        let ghost now = *config;
        assert(all[i as int] == v);
        if record.online {
            if let Some(capabilities) = record.capabilities {
                let model_info: Option<DeviceModelInfo> = match &record.model_info {
                    Some(model) => {
                        let mut model = model.copy();
                        model.serial_number = None;
                        model.unit_id = [0, 0, 0, 0];
                        assert(model.unit_id.deep_view() =~= seq![0u8, 0, 0, 0]);
                        Some(model)
                    },
                    None => None,
                };
                let identity = DeviceIdentity {
                    display_name: record.display_name.copy(),
                    kind: record.kind,
                    capabilities,
                    model_info,
                    codename: record.codename.copy(),
                };
                assert(identity.deep_view() == identity_of(v));
                assert(now.device(v.config_key).identity == remembered(&before, all, i as int, v.config_key));
                if !config.has_identity(record.config_key.as_str(), &identity) {
                    config.set_device_identity(record.config_key.as_str(), identity);
                    changed = true;
                    assert(is_news(&before, all, i as int));
                } else {
                    assert(!is_news(&before, all, i as int));
                }
            }
        }
        proof {
            lemma_remember_one(&before, &now, config, all, i as int);
            assert forall|k: int| 0 <= k < i + 1 && #[trigger] is_news(&before, all, k) implies changed by {
                if k == i {
                    assert(is_recorded(v));
                }
            }
            if changed {
                if exists|k: int| 0 <= k < i && #[trigger] is_news(&before, all, k) {
                    let k = choose|k: int| 0 <= k < i && #[trigger] is_news(&before, all, k);
                    assert(0 <= k < i + 1 && is_news(&before, all, k));
                } else {
                    assert(is_news(&before, all, i as int));
                }
            }
        }
        i += 1;
    }
    changed
}

proof fn lemma_remember_one(
    before: &Config,
    now: &Config,
    after: &Config,
    list: Seq<DeviceRecordView>,
    i: int,
)
    requires
        0 <= i < list.len(),
        identities_remembered(before, now, list, i),
        if is_news(before, list, i) {
            after.device_changed(
                now,
                list[i].config_key,
                (DeviceSettingsView {
                    identity: Some(identity_of(list[i])),
                    ..now.device(list[i].config_key)
                }),
            )
        } else {
            *after == *now
        },
    ensures
        identities_remembered(before, after, list, i + 1),
{
    let key = list[i].config_key;
    assert forall|k: Seq<char>| #[trigger] after.device(k) == (DeviceSettingsView {
        identity: remembered(before, list, i + 1, k),
        ..before.device(k)
    }) by {
        assert(now.device(k) == (DeviceSettingsView {
            identity: remembered(before, list, i, k),
            ..before.device(k)
        }));
        if is_news(before, list, i) {
            if k != key {
                assert(after.device(k) == now.device(k));
            }
        }
    }
    assert forall|k: Seq<char>| #[trigger] after.devices@.dom().contains(k) <==> before.devices@.dom().contains(k)
        || recorded_key(list, i + 1, k) by {
        assert(now.devices@.dom().contains(k) <==> before.devices@.dom().contains(k) || recorded_key(list, i, k));
        if recorded_key(list, i, k) {
            let p = choose|p: int| 0 <= p < i && (#[trigger] list[p]).config_key == k && is_recorded(list[p]);
            assert(0 <= p < i + 1 && list[p].config_key == k);
        }
        if recorded_key(list, i + 1, k) {
            let p = choose|p: int| 0 <= p < i + 1 && (#[trigger] list[p]).config_key == k && is_recorded(list[p]);
            if p < i {
                assert(recorded_key(list, i, k));
            } else if !is_news(before, list, i) {
                assert(now.device(k).identity is Some);
            }
        }
        if is_news(before, list, i) && k == key {
            assert(recorded_key(list, i + 1, k));
        }
    }
}

/// Remembering the same devices again changes nothing, so that quiet snapshots
/// do not touch the disk.
pub proof fn law_remembering_again_changes_nothing(
    before: &Config,
    now: &Config,
    list: Seq<DeviceRecordView>,
    i: int,
)
    requires
        0 <= i < list.len(),
        forall|a: int, b: int|
            0 <= a < b < list.len() ==> (#[trigger] list[a]).config_key != (#[trigger] list[b]).config_key,
        identities_remembered(before, now, list, list.len() as int),
    ensures
        !is_news(now, list, i),
{
    if is_recorded(list[i]) {
        let key = list[i].config_key;
        lemma_remembered_other(now, list, i, i);
        lemma_remembered_own(before, list, list.len() as int, i);
        assert(now.device(key).identity == Some(identity_of(list[i])));
    }
}

proof fn lemma_remembered_other(config: &Config, list: Seq<DeviceRecordView>, n: int, i: int)
    requires
        0 <= n <= i < list.len(),
        forall|a: int, b: int|
            0 <= a < b < list.len() ==> (#[trigger] list[a]).config_key != (#[trigger] list[b]).config_key,
    ensures
        remembered(config, list, n, list[i].config_key) == config.device(list[i].config_key).identity,
    decreases n,
{
    if n > 0 {
        assert(list[n - 1].config_key != list[i].config_key);
        lemma_remembered_other(config, list, n - 1, i);
    }
}

proof fn lemma_remembered_own(config: &Config, list: Seq<DeviceRecordView>, n: int, i: int)
    requires
        0 <= i < n <= list.len(),
        is_recorded(list[i]),
        forall|a: int, b: int|
            0 <= a < b < list.len() ==> (#[trigger] list[a]).config_key != (#[trigger] list[b]).config_key,
    ensures
        remembered(config, list, n, list[i].config_key) == Some(identity_of(list[i])),
    decreases n,
{
    if i < n - 1 {
        assert(list[i].config_key != list[n - 1].config_key);
        lemma_remembered_own(config, list, n - 1, i);
    }
}

/// Every rank of one list is a rank of the other.
pub open spec fn same_ranks<S: HasRank, T: HasRank>(a: Seq<S>, b: Seq<T>) -> bool {
    &&& forall|i: int| 0 <= i < a.len() ==> holds_rank(b, (#[trigger] a[i]).rank())
    &&& forall|i: int| 0 <= i < b.len() ==> holds_rank(a, (#[trigger] b[i]).rank())
}

pub open spec fn holds_rank<T: HasRank>(s: Seq<T>, rank: Rank) -> bool {
    exists|i: int| 0 <= i < s.len() && (#[trigger] s[i]).rank() == rank
}

/// The agent and the window agree on the first device, which both fall back to
/// while nothing is selected: two lists of the same devices in the canonical
/// order start with the same one.
pub proof fn law_first_device_is_the_same<S: HasRank, T: HasRank>(a: Seq<S>, b: Seq<T>)
    requires
        is_sorted(a),
        is_sorted(b),
        same_ranks(a, b),
        a.len() > 0,
    ensures
        b.len() > 0,
        a[0].rank() == b[0].rank(),
{
    assert(holds_rank(b, a[0].rank()));
    let j = choose|j: int| 0 <= j < b.len() && (#[trigger] b[j]).rank() == a[0].rank();
    assert(holds_rank(a, b[0].rank()));
    let i = choose|i: int| 0 <= i < a.len() && (#[trigger] a[i]).rank() == b[0].rank();
    lemma_rank_total(a[0].rank(), b[0].rank());
    if rank_before(a[0].rank(), b[0].rank()) {
        if j > 0 {
            assert(!rank_before(b[j].rank(), b[0].rank()));
        }
    }
    if rank_before(b[0].rank(), a[0].rank()) {
        if i > 0 {
            assert(!rank_before(a[i].rank(), a[0].rank()));
        }
    }
    lemma_rank_irreflexive(a[0].rank());
}

/// Of several records with one key, the last one counts.
pub proof fn law_last_record_of_a_key_counts(list: Seq<DeviceRecordView>, i: int)
    requires
        0 <= i < list.len(),
        forall|j: int| i < j < list.len() ==> (#[trigger] list[j]).config_key != list[i].config_key,
    ensures
        by_key(list, list.len() as int).dom().contains(list[i].config_key),
        by_key(list, list.len() as int)[list[i].config_key] == list[i],
{
    lemma_by_key_last(list, list.len() as int, i);
}

proof fn lemma_by_key_last(list: Seq<DeviceRecordView>, n: int, i: int)
    requires
        0 <= i < n <= list.len(),
        forall|j: int| i < j < n ==> (#[trigger] list[j]).config_key != list[i].config_key,
    ensures
        by_key(list, n).dom().contains(list[i].config_key),
        by_key(list, n)[list[i].config_key] == list[i],
    decreases n,
{
    if i < n - 1 {
        assert(list[n - 1].config_key != list[i].config_key);
        lemma_by_key_last(list, n - 1, i);
    }
}

/// A key has a record exactly if some record has it, and it is one of those.
pub proof fn law_keys_are_those_of_the_records(list: Seq<DeviceRecordView>, key: Seq<char>)
    ensures
        by_key(list, list.len() as int).dom().contains(key) <==> exists|i: int|
            0 <= i < list.len() && (#[trigger] list[i]).config_key == key,
        by_key(list, list.len() as int).dom().contains(key) ==> list.contains(by_key(list, list.len() as int)[key]),
{
    lemma_by_key_members(list, list.len() as int, key);
}

proof fn lemma_by_key_members(list: Seq<DeviceRecordView>, n: int, key: Seq<char>)
    requires
        0 <= n <= list.len(),
    ensures
        by_key(list, n).dom().contains(key) <==> exists|i: int| 0 <= i < n && (#[trigger] list[i]).config_key == key,
        by_key(list, n).dom().contains(key) ==> list.contains(by_key(list, n)[key]),
    decreases n,
{
    if n > 0 {
        lemma_by_key_members(list, n - 1, key);
        assert(list.contains(list[n - 1]));
        if exists|i: int| 0 <= i < n && (#[trigger] list[i]).config_key == key {
            let i = choose|i: int| 0 <= i < n && (#[trigger] list[i]).config_key == key;
            if i < n - 1 {
                assert(exists|i: int| 0 <= i < n - 1 && (#[trigger] list[i]).config_key == key);
            }
        }
        if by_key(list, n - 1).dom().contains(key) {
            let i = choose|i: int| 0 <= i < n - 1 && (#[trigger] list[i]).config_key == key;
            assert(0 <= i < n && list[i].config_key == key);
        }
    }
}

/// A record of the new snapshot is shown as it is, with its online flag, its
/// route and its capabilities, unless a later record has its key.
pub proof fn law_new_record_is_shown(
    previous: Seq<DeviceRecordView>,
    new: Seq<DeviceRecordView>,
    misses: Map<Seq<char>, u8>,
    list: Seq<DeviceRecordView>,
    i: int,
)
    requires
        shows(previous, new, misses, list),
        0 <= i < new.len(),
        forall|j: int| i < j < new.len() ==> (#[trigger] new[j]).config_key != new[i].config_key,
    ensures
        list.contains(new[i]),
{
    law_last_record_of_a_key_counts(new, i);
    law_present_device_is_shown_anew(previous, new, misses, list, new[i].config_key);
}

/// Nothing is made up: what is shown is in the new snapshot, or was shown before
/// and its key is not in the new snapshot.
pub proof fn law_only_known_records_are_shown(
    previous: Seq<DeviceRecordView>,
    new: Seq<DeviceRecordView>,
    misses: Map<Seq<char>, u8>,
    list: Seq<DeviceRecordView>,
    i: int,
)
    requires
        keys_differ(previous),
        shows(previous, new, misses, list),
        0 <= i < list.len(),
    ensures
        new.contains(list[i]) || (previous.contains(list[i]) && forall|j: int|
            0 <= j < new.len() ==> (#[trigger] new[j]).config_key != list[i].config_key),
{
    let m = merged_with(previous, new, misses);
    let all = by_key(new, new.len() as int);
    let start = Merge { left: all, misses, list: Seq::empty() };
    lemma_by_key(new, new.len() as int);
    lemma_merge_from(previous, start, previous.len() as int);
    let appeared = choose|appeared: Seq<DeviceRecordView>| #[trigger]
        lists_by_key(m.left, appeared) && is_stable_sort(m.list + appeared, list);
    let unsorted = m.list + appeared;
    lemma_same_members(unsorted, list);
    assert(list.contains(list[i]));
    assert(unsorted.contains(list[i]));
    let k = choose|k: int| 0 <= k < unsorted.len() && unsorted[k] == list[i];
    if k < m.list.len() {
        assert(m.list[k] == list[i]);
    } else {
        assert(appeared[k - m.list.len()] == list[i]);
    }
    let key = list[i].config_key;
    law_keys_are_those_of_the_records(new, key);
    if !new.contains(list[i]) {
        assert forall|j: int| 0 <= j < new.len() implies (#[trigger] new[j]).config_key != key by {
            if new[j].config_key == key {
                assert(all.dom().contains(key));
            }
        }
    }
}

/// What a merge lists comes from the new snapshot, or was shown and is not in
/// it.
proof fn lemma_merge_from(previous: Seq<DeviceRecordView>, start: Merge, n: int)
    requires
        0 <= n <= previous.len(),
        keys_differ(previous),
        start.list.len() == 0,
        forall|k: Seq<char>| #[trigger] start.left.dom().contains(k) ==> start.left[k].config_key == k,
    ensures
        ({
            let m = merged(previous, start, n);
            &&& forall|k: Seq<char>| #[trigger] m.left.dom().contains(k) ==> start.left.dom().contains(k) && m.left[k]
                == start.left[k]
            &&& forall|k: Seq<char>| #[trigger] start.left.dom().contains(k) && !m.left.dom().contains(k)
                ==> has_record(previous.take(n), k)
            &&& forall|a: int|
                0 <= a < m.list.len() ==> {
                    let one = #[trigger] m.list[a];
                    let key = one.config_key;
                    ||| start.left.dom().contains(key) && one == start.left[key]
                    ||| !start.left.dom().contains(key) && previous.contains(one)
                }
        }),
    decreases n,
{
    if n > 0 {
        lemma_merge_from(previous, start, n - 1);
        let (a, b) = (merged(previous, start, n - 1), merged(previous, start, n));
        let (s, t) = (previous.take(n - 1), previous.take(n));
        let one = previous[n - 1];
        assert(previous.contains(one));
        assert(t[n - 1] == one);
        assert(!has_record(s, one.config_key)) by {
            if has_record(s, one.config_key) {
                let j = choose|j: int| 0 <= j < s.len() && (#[trigger] s[j]).config_key == one.config_key;
                assert(previous[j].config_key != previous[n - 1].config_key);
            }
        }
        assert forall|k: Seq<char>| has_record(s, k) implies #[trigger] has_record(t, k) by {
            let j = choose|j: int| 0 <= j < s.len() && (#[trigger] s[j]).config_key == k;
            assert(t[j].config_key == k);
        }
        assert forall|i: int| 0 <= i < b.list.len() implies ({
            let x = #[trigger] b.list[i];
            let key = x.config_key;
            ||| start.left.dom().contains(key) && x == start.left[key]
            ||| !start.left.dom().contains(key) && previous.contains(x)
        }) by {
            if i < a.list.len() {
                assert(b.list[i] == a.list[i]);
            } else if !a.left.dom().contains(one.config_key) {
                if start.left.dom().contains(one.config_key) {
                    assert(has_record(s, one.config_key));
                }
            }
        }
    }
}

/// What is shown stands in the order of the identities, the model breaking a
/// tie.
pub proof fn law_shown_in_order(
    previous: Seq<DeviceRecordView>,
    new: Seq<DeviceRecordView>,
    misses: Map<Seq<char>, u8>,
    list: Seq<DeviceRecordView>,
    i: int,
    j: int,
)
    requires
        shows(previous, new, misses, list),
        0 <= i < j < list.len(),
    ensures
        !crate::text::text_precedes(list[j].stable_id, list[i].stable_id),
        list[i].stable_id == list[j].stable_id ==> !crate::text::text_precedes(list[j].model_key, list[i].model_key),
{
    let m = merged_with(previous, new, misses);
    let appeared = choose|appeared: Seq<DeviceRecordView>| #[trigger]
        lists_by_key(m.left, appeared) && is_stable_sort(m.list + appeared, list);
    crate::sort::law_sorted_by_identity_then_model(m.list + appeared, list, i, j);
}

/// The device with the saved key is shown, the first of several; without one the
/// first of all.
pub proof fn law_saved_device_is_shown(list: Seq<DeviceRecordView>, key: Seq<char>, i: int)
    requires
        0 <= i < list.len(),
        list[i].config_key == key,
    ensures
        0 <= shown_place(list, Some(key)) <= i,
        list[shown_place(list, Some(key))].config_key == key,
        forall|j: int| 0 <= j < shown_place(list, Some(key)) ==> (#[trigger] list[j]).config_key != key,
{
    let k = lemma_first_of(list, key, i);
    lemma_first_record(list, key, k);
}

/// A key that no device has, or none, shows the first device.
pub proof fn law_unknown_device_shows_the_first(list: Seq<DeviceRecordView>, key: Seq<char>)
    ensures
        shown_place(list, None) == 0,
        (forall|i: int| 0 <= i < list.len() ==> (#[trigger] list[i]).config_key != key) ==> shown_place(
            list,
            Some(key),
        ) == 0,
{
}

/// A device that is online and whose capabilities are known is remembered: its
/// name, kind, capabilities, code name and model, but not which unit it is. No
/// other setting of it changes.
pub proof fn law_online_device_is_remembered(before: &Config, now: &Config, list: Seq<DeviceRecordView>, i: int)
    requires
        identities_remembered(before, now, list, list.len() as int),
        0 <= i < list.len(),
        list[i].online,
        list[i].capabilities is Some,
        forall|j: int| i < j < list.len() ==> (#[trigger] list[j]).config_key != list[i].config_key,
    ensures
        ({
            let (was, is) = (before.device(list[i].config_key), now.device(list[i].config_key));
            let own = is.identity->0;
            &&& is.identity is Some
            &&& own.display_name == list[i].display_name
            &&& own.kind == list[i].kind
            &&& Some(own.capabilities) == list[i].capabilities
            &&& own.codename == list[i].codename
            &&& list[i].model_info is None ==> own.model_info is None
            &&& list[i].model_info matches Some(model) ==> {
                let kept = own.model_info->0;
                &&& own.model_info is Some
                &&& kept.serial_number is None
                &&& kept.unit_id == seq![0u8, 0, 0, 0]
                &&& kept.entity_count == model.entity_count
                &&& kept.transports == model.transports
                &&& kept.model_ids == model.model_ids
                &&& kept.extended_model_id == model.extended_model_id
            }
            &&& is == (DeviceSettingsView { identity: is.identity, ..was })
        }),
{
    lemma_remembered_last(before, list, list.len() as int, i);
}

proof fn lemma_remembered_last(config: &Config, list: Seq<DeviceRecordView>, n: int, i: int)
    requires
        0 <= i < n <= list.len(),
        is_recorded(list[i]),
        forall|j: int| i < j < n ==> (#[trigger] list[j]).config_key != list[i].config_key,
    ensures
        remembered(config, list, n, list[i].config_key) == Some(identity_of(list[i])),
    decreases n,
{
    if i < n - 1 {
        assert(list[n - 1].config_key != list[i].config_key);
        lemma_remembered_last(config, list, n - 1, i);
    }
}

/// What is remembered of a device that is not listed, or only offline or without
/// known capabilities, stays as it is, and so does all else that is stored.
pub proof fn law_other_devices_are_remembered_as_they_were(
    before: &Config,
    now: &Config,
    list: Seq<DeviceRecordView>,
    key: Seq<char>,
)
    requires
        identities_remembered(before, now, list, list.len() as int),
        forall|j: int|
            0 <= j < list.len() ==> (#[trigger] list[j]).config_key != key || !list[j].online
                || list[j].capabilities is None,
    ensures
        now.device(key) == before.device(key),
        now.selected_device == before.selected_device,
        now.app_settings == before.app_settings,
        now.schema_version == before.schema_version,
{
    lemma_remembered_none(before, list, list.len() as int, key);
}

proof fn lemma_remembered_none(config: &Config, list: Seq<DeviceRecordView>, n: int, key: Seq<char>)
    requires
        0 <= n <= list.len(),
        forall|j: int|
            0 <= j < list.len() ==> (#[trigger] list[j]).config_key != key || !list[j].online
                || list[j].capabilities is None,
    ensures
        remembered(config, list, n, key) == config.device(key).identity,
    decreases n,
{
    if n > 0 {
        assert(list[n - 1].config_key != key || !list[n - 1].online || list[n - 1].capabilities is None);
        lemma_remembered_none(config, list, n - 1, key);
    }
}

/// There is something to save exactly if remembering changes something: where
/// nothing is, every device online with known capabilities was remembered as it
/// is.
pub proof fn law_news_are_saved(config: &Config, list: Seq<DeviceRecordView>, i: int)
    requires
        keys_differ(list),
        0 <= i < list.len(),
        list[i].online,
        list[i].capabilities is Some,
    ensures
        config.device(list[i].config_key).identity != Some(identity_of(list[i])) ==> has_news(config, list),
        (forall|j: int|
            0 <= j < list.len() && (#[trigger] list[j]).online && list[j].capabilities is Some ==> config.device(
                list[j].config_key,
            ).identity == Some(identity_of(list[j]))) ==> !has_news(config, list),
{
    lemma_remembered_other(config, list, i, i);
    if config.device(list[i].config_key).identity != Some(identity_of(list[i])) {
        assert(is_news(config, list, i));
    }
    assert forall|j: int| 0 <= j < list.len() implies remembered(config, list, j, (#[trigger] list[j]).config_key)
        == config.device(list[j].config_key).identity by {
        lemma_remembered_other(config, list, j, j);
    }
}

/// The meaning of a record holds what the record holds.
pub proof fn law_record_means_what_it_holds(record: DeviceRecord)
    ensures
        ({
            let own = record.deep_view();
            &&& own.config_key == record.config_key@
            &&& own.model_key == record.model_key@
            &&& own.stable_id == record.stable_id@
            &&& own.display_name == record.display_name@
            &&& own.kind == record.kind
            &&& own.codename == record.codename.deep_view()
            &&& own.model_info == record.model_info.deep_view()
            &&& own.capabilities == record.capabilities
            &&& own.route == record.route.deep_view()
            &&& own.online == record.online
            &&& own.asset == record.asset.deep_view()
        }),
{
}

/// A device that is shown may be missing from two snapshots in a row.
pub proof fn law_limit_of_the_grace()
    ensures
        INVENTORY_MISS_GRACE == 2,
{
}

/// A device that was shown and that the new snapshot misses is counted as missing
/// once more and stays as it is, unless it has been missing twice already; then
/// it is gone, and so is its count. One that the snapshot has is not counted.
pub proof fn law_misses_are_counted(
    previous: Seq<DeviceRecordView>,
    new: Seq<DeviceRecordView>,
    misses: Map<Seq<char>, u8>,
    list: Seq<DeviceRecordView>,
    i: int,
)
    requires
        keys_differ(previous),
        shows(previous, new, misses, list),
        0 <= i < previous.len(),
    ensures
        ({
            let (key, counted) = (previous[i].config_key, misses_shown(previous, new, misses, list));
            let missed = if misses.dom().contains(key) {
                misses[key] as int
            } else {
                0
            };
            let missing = forall|j: int| 0 <= j < new.len() ==> (#[trigger] new[j]).config_key != key;
            &&& missing && missed < 2 ==> list.contains(previous[i]) && counted.dom().contains(key) && counted[key]
                == missed + 1
            &&& missing && missed >= 2 ==> !counted.dom().contains(key) && forall|k: int|
                0 <= k < list.len() ==> (#[trigger] list[k]).config_key != key
            &&& !missing ==> !counted.dom().contains(key)
        }),
{
    let key = previous[i].config_key;
    law_keys_are_those_of_the_records(new, key);
    if forall|j: int| 0 <= j < new.len() ==> (#[trigger] new[j]).config_key != key {
        assert(!by_key(new, new.len() as int).dom().contains(key));
        lemma_missing_once(previous, new, misses, list, i);
    } else {
        let start = Merge { left: by_key(new, new.len() as int), misses, list: Seq::empty() };
        lemma_by_key(new, new.len() as int);
        lemma_merge_keys(previous, start, previous.len() as int);
        lemma_seen_is_not_counted(previous, start, previous.len() as int, i);
    }
}

proof fn lemma_seen_is_not_counted(previous: Seq<DeviceRecordView>, start: Merge, n: int, i: int)
    requires
        keys_differ(previous),
        0 <= n <= previous.len(),
        0 <= i < previous.len(),
        start.left.dom().contains(previous[i].config_key),
    ensures
        i < n ==> !merged(previous, start, n).misses.dom().contains(previous[i].config_key),
        i >= n ==> merged(previous, start, n).left.dom().contains(previous[i].config_key),
    decreases n,
{
    if n > 0 {
        lemma_seen_is_not_counted(previous, start, n - 1, i);
        if i != n - 1 {
            assert(previous[i].config_key != previous[n - 1].config_key);
        }
    }
}

} // verus!
