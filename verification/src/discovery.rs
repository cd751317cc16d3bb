//! Which of the listed devices are used, and which of them are in use.

use vstd::prelude::*;

use crate::layout::{
    device_names, is_candidate, may_be_for, path_keys_are_distinct, HidDeviceCandidate, HidDeviceCandidateModel,
    Layout,
};
use crate::numeral::hex_bytes;
use crate::policy::{answer, PolicyError};
use crate::text::same_text;
use crate::text_map::TextSet;
use crate::worker::{WorkerEvent, WorkerEventModel};

verus! {

/// The usage page of a listed device, where the platform tells it: none is told as zero.
pub fn usage_page(told: bool, value: u16) -> (r: Option<u16>)
    ensures
        r == if told && value != 0 {
            Some(value)
        } else {
            None
        },
{
    if told && value != 0 {
        Some(value)
    } else {
        None
    }
}

// ---------------------------------------------------------------------------------------------
// One entry for each device
// ---------------------------------------------------------------------------------------------

/// The order of paths: by the first byte in which they differ, and a path before every longer path
/// that it starts.
pub open spec fn path_before(a: Seq<u8>, b: Seq<u8>) -> bool
    decreases b.len(),
{
    if b.len() == 0 {
        false
    } else if a.len() == 0 {
        true
    } else if a[0] == b[0] {
        path_before(a.drop_first(), b.drop_first())
    } else {
        a[0] < b[0]
    }
}

proof fn lemma_path_order(a: Seq<u8>, b: Seq<u8>)
    ensures
        a == b ==> !path_before(a, b),
        a != b ==> path_before(a, b) != path_before(b, a),
    decreases b.len(),
{
    if a.len() == 0 || b.len() == 0 {
        if a.len() == b.len() {
            assert(a =~= b);
        }
    } else if a[0] == b[0] {
        lemma_path_order(a.drop_first(), b.drop_first());
        assert(a =~= seq![a[0]] + a.drop_first());
        assert(b =~= seq![b[0]] + b.drop_first());
        assert(path_before(a, b) == path_before(a.drop_first(), b.drop_first()));
        assert(path_before(b, a) == path_before(b.drop_first(), a.drop_first()));
    } else {
        assert(path_before(a, b) == (a[0] < b[0]));
        assert(path_before(b, a) == (b[0] < a[0]));
    }
}

proof fn lemma_path_transitive(a: Seq<u8>, b: Seq<u8>, c: Seq<u8>)
    requires
        path_before(a, b),
        path_before(b, c),
    ensures
        path_before(a, c),
    decreases c.len(),
{
    if a.len() > 0 && a[0] == b[0] && b[0] == c[0] {
        lemma_path_transitive(a.drop_first(), b.drop_first(), c.drop_first());
    }
}

fn is_path_before(a: &Vec<u8>, b: &Vec<u8>) -> (r: bool)
    ensures
        r == path_before(a@, b@),
{
    assert(a@.skip(0) =~= a@ && b@.skip(0) =~= b@);
    let mut i: usize = 0;
    while i < a.len() && i < b.len()
        invariant
            i <= a@.len(),
            i <= b@.len(),
            path_before(a@, b@) == path_before(a@.skip(i as int), b@.skip(i as int)),
        decreases a@.len() - i,
    {
        if a[i] != b[i] {
            return a[i] < b[i];
        }
        assert(a@.skip(i as int).drop_first() =~= a@.skip(i + 1));
        assert(b@.skip(i as int).drop_first() =~= b@.skip(i + 1));
        i += 1;
    }
    i < b.len()
}

/// Whether any layout may be for the listed device.
pub open spec fn wanted(layouts: Seq<Layout>, device: HidDeviceCandidateModel) -> bool {
    exists|i: int| 0 <= i < layouts.len() && may_be_for(#[trigger] layouts[i], device)
}

/// Whether two entries are of one device.
pub open spec fn same_device(a: HidDeviceCandidateModel, b: HidDeviceCandidateModel) -> bool {
    a.vendor_id == b.vendor_id && a.product_id == b.product_id && a.serial_number
        == b.serial_number
}

/// The interface of an entry. An entry without one comes last.
pub open spec fn interface(device: HidDeviceCandidateModel) -> int {
    match device.interface_number {
        Some(number) => number as int,
        None => i32::MAX as int,
    }
}

/// Whether an entry comes before another of the same device: by its interface, then by its path.
pub open spec fn entry_before(a: HidDeviceCandidateModel, b: HidDeviceCandidateModel) -> bool {
    interface(a) < interface(b) || (interface(a) == interface(b) && path_before(a.path, b.path))
}

/// Whether the entry with the number `i` stands for its device: among the wanted entries of the
/// device it is the first in order, and the first in the list of those that share its place.
pub open spec fn stands_for(layouts: Seq<Layout>, rows: Seq<HidDeviceCandidateModel>, i: int) -> bool {
    &&& 0 <= i < rows.len()
    &&& wanted(layouts, rows[i])
    &&& forall|j: int|
        0 <= j < rows.len() && j != i && wanted(layouts, #[trigger] rows[j]) && same_device(
            rows[i],
            rows[j],
        ) ==> beats(rows, i, j)
}

/// Whether entry `i` comes before entry `j`, or shares its place and stands before it in the list.
pub open spec fn beats(rows: Seq<HidDeviceCandidateModel>, i: int, j: int) -> bool {
    entry_before(rows[i], rows[j]) || (!entry_before(rows[j], rows[i]) && i < j)
}

/// Among the first `n` entries.
pub open spec fn stands_for_upto(
    layouts: Seq<Layout>,
    rows: Seq<HidDeviceCandidateModel>,
    i: int,
    n: int,
) -> bool {
    &&& 0 <= i < n
    &&& wanted(layouts, rows[i])
    &&& forall|j: int|
        0 <= j < n && j != i && wanted(layouts, #[trigger] rows[j]) && same_device(
            rows[i],
            rows[j],
        ) ==> beats(rows, i, j)
}

proof fn lemma_beats_transitive(rows: Seq<HidDeviceCandidateModel>, a: int, b: int, c: int)
    requires
        beats(rows, a, b),
        beats(rows, b, c),
    ensures
        beats(rows, a, c),
{
    let (x, y, z) = (rows[a].path, rows[b].path, rows[c].path);
    lemma_path_order(x, y);
    lemma_path_order(y, z);
    lemma_path_order(x, z);
    if path_before(x, y) && path_before(y, z) {
        lemma_path_transitive(x, y, z);
    }
}

fn entry_interface(device: &HidDeviceCandidate) -> (r: i32)
    ensures
        r == interface(device.deep_view()),
{
    match device.interface_number {
        Some(number) => number,
        None => i32::MAX,
    }
}

fn is_entry_before(a: &HidDeviceCandidate, b: &HidDeviceCandidate) -> (r: bool)
    ensures
        r == entry_before(a.deep_view(), b.deep_view()),
{
    let first = entry_interface(a);
    let second = entry_interface(b);
    first < second || (first == second && is_path_before(&a.path, &b.path))
}

fn is_same_device(a: &HidDeviceCandidate, b: &HidDeviceCandidate) -> (r: bool)
    ensures
        r == same_device(a.deep_view(), b.deep_view()),
{
    a.vendor_id == b.vendor_id && a.product_id == b.product_id && same_text(
        a.serial_number.as_str(),
        b.serial_number.as_str(),
    )
}

/// The numbers of the entries that stand for their devices, in the order in which the devices occur.
fn representatives(layouts: &Vec<Layout>, rows: &Vec<HidDeviceCandidate>) -> (r: Vec<usize>)
    ensures
        forall|k: int|
            0 <= k < r@.len() ==> stands_for(
                layouts@,
                rows.deep_view(),
                (#[trigger] r@[k]) as int,
            ),
        forall|k: int, l: int|
            0 <= k < l < r@.len() ==> #[trigger] r@[k] != #[trigger] r@[l],
        forall|i: usize|
            stands_for(layouts@, rows.deep_view(), i as int) ==> #[trigger] r@.contains(i),
{
    let ghost all = rows.deep_view();
    let ghost wants = layouts@;
    let mut chosen: Vec<usize> = Vec::new();
    let n: usize = rows.len();
    let mut i: usize = 0;
    while i < n
        invariant
            i <= n == rows@.len(),
            all == rows.deep_view(),
            wants == layouts@,
            forall|k: int|
                0 <= k < chosen@.len() ==> stands_for_upto(
                    wants,
                    all,
                    (#[trigger] chosen@[k]) as int,
                    i as int,
                ),
            forall|k: int, l: int|
                0 <= k < l < chosen@.len() ==> !same_device(
                    all[(#[trigger] chosen@[k]) as int],
                    all[(#[trigger] chosen@[l]) as int],
                ),
            forall|j: int|
                0 <= j < i && wanted(wants, #[trigger] all[j]) ==> exists|k: int|
                    0 <= k < chosen@.len() && same_device(
                        all[(#[trigger] chosen@[k]) as int],
                        all[j],
                    ),
        decreases n - i,
    {
        let ghost before = chosen@;
        assert(all[i as int] == rows@[i as int].deep_view());
        if is_candidate(layouts, &rows[i]) {
            assert(wanted(wants, all[i as int]));
            let m: usize = chosen.len();
            let mut at: usize = 0;
            while at < m && !is_same_device(&rows[chosen[at]], &rows[i])
                invariant
                    at <= m == chosen@.len(),
                    chosen@ == before,
                    i < n == rows@.len(),
                    all == rows.deep_view(),
                    forall|k: int| 0 <= k < m ==> (#[trigger] chosen@[k]) < i,
                    forall|k: int|
                        0 <= k < at ==> !same_device(
                            all[(#[trigger] chosen@[k]) as int],
                            all[i as int],
                        ),
                decreases m - at,
            {
                assert(all[chosen@[at as int] as int] == rows@[chosen@[at as int] as int].deep_view());
                at += 1;
            }
            if at == m {
                chosen.push(i);
                proof {
                    assert forall|j: int|
                        0 <= j < i + 1 && j != i && wanted(wants, #[trigger] all[j])
                            && same_device(all[i as int], all[j]) implies beats(
                        all,
                        i as int,
                        j,
                    ) by {
                        let k = choose|k: int|
                            0 <= k < before.len() && same_device(
                                all[(#[trigger] before[k]) as int],
                                all[j],
                            );
                        assert(!same_device(all[before[k] as int], all[i as int]));
                    }
                    assert(stands_for_upto(wants, all, i as int, i + 1));
                    assert(chosen@[before.len() as int] == i);
                }
            } else {
                assert(same_device(all[before[at as int] as int], all[i as int])) by {
                    assert(all[before[at as int] as int] == rows@[before[at as int] as int].deep_view());
                }
                let old_best: usize = chosen[at];
                assert(all[old_best as int] == rows@[old_best as int].deep_view());
                let better = is_entry_before(&rows[i], &rows[old_best]);
                if better {
                    chosen.set(at, i);
                }
                proof {
                    assert(stands_for_upto(wants, all, old_best as int, i as int));
                    lemma_path_order(all[i as int].path, all[old_best as int].path);
                    if better {
                        assert forall|j: int|
                            0 <= j < i + 1 && j != i && wanted(wants, #[trigger] all[j])
                                && same_device(all[i as int], all[j]) implies beats(
                            all,
                            i as int,
                            j,
                        ) by {
                            if j != old_best {
                                assert(beats(all, old_best as int, j));
                                lemma_beats_transitive(all, i as int, old_best as int, j);
                            }
                        }
                        assert(stands_for_upto(wants, all, i as int, i + 1));
                    } else {
                        assert(beats(all, old_best as int, i as int));
                        assert(stands_for_upto(wants, all, old_best as int, i + 1));
                    }
                    assert(chosen@[at as int] == if better {
                        i
                    } else {
                        old_best
                    });
                }
            }
        } else {
            assert(!wanted(wants, all[i as int]));
        }
        proof {
            assert forall|k: int| 0 <= k < chosen@.len() implies stands_for_upto(
                wants,
                all,
                (#[trigger] chosen@[k]) as int,
                i + 1,
            ) by {
                if k < before.len() && chosen@[k] == before[k] {
                    let c = before[k] as int;
                    assert(stands_for_upto(wants, all, c, i as int));
                    if wanted(wants, all[i as int]) && same_device(all[c], all[i as int]) {
                        // The entry is of the device that was looked for.
                        assert(stands_for_upto(wants, all, c, i + 1));
                    }
                }
            }
            assert forall|k: int, l: int| 0 <= k < l < chosen@.len() implies !same_device(
                all[(#[trigger] chosen@[k]) as int],
                all[(#[trigger] chosen@[l]) as int],
            ) by {
                if k < before.len() && l < before.len() {
                    assert(!same_device(all[before[k] as int], all[before[l] as int]));
                } else {
                    assert(!same_device(all[before[k] as int], all[i as int]));
                }
            }
            assert forall|j: int|
                0 <= j < i + 1 && wanted(wants, #[trigger] all[j]) implies exists|k: int|
                0 <= k < chosen@.len() && same_device(
                    all[(#[trigger] chosen@[k]) as int],
                    all[j],
                ) by {
                if j < i {
                    let k = choose|k: int|
                        0 <= k < before.len() && same_device(
                            all[(#[trigger] before[k]) as int],
                            all[j],
                        );
                    assert(same_device(all[chosen@[k] as int], all[j]));
                }
            }
        }
        i += 1;
    }
    proof {
        assert forall|k: int, l: int| 0 <= k < l < chosen@.len() implies #[trigger] chosen@[k]
            != #[trigger] chosen@[l] by {
            assert(!same_device(all[chosen@[k] as int], all[chosen@[l] as int]));
        }
        assert forall|k: int| 0 <= k < chosen@.len() implies stands_for(
            wants,
            all,
            (#[trigger] chosen@[k]) as int,
        ) by {
            assert(stands_for_upto(wants, all, chosen@[k] as int, n as int));
        }
        assert forall|i: usize| stands_for(wants, all, i as int) implies #[trigger] chosen@.contains(
            i,
        ) by {
            let k = choose|k: int|
                0 <= k < chosen@.len() && same_device(
                    all[(#[trigger] chosen@[k]) as int],
                    all[i as int],
                );
            let c = chosen@[k] as int;
            if c != i as int {
                assert(stands_for(wants, all, c));
                assert(beats(all, c, i as int));
                assert(beats(all, i as int, c));
                lemma_path_order(all[c].path, all[i as int].path);
            }
            assert(chosen@[k] == i);
        }
    }
    chosen
}

/// Whether the entries with the numbers stand in the order of their paths.
pub open spec fn in_path_order(rows: Seq<HidDeviceCandidateModel>, order: Seq<usize>) -> bool {
    forall|k: int, l: int|
        0 <= k < l < order.len() ==> !path_before(
            rows[(#[trigger] order[l]) as int].path,
            rows[(#[trigger] order[k]) as int].path,
        )
}

fn sort_by_path(rows: &Vec<HidDeviceCandidate>, numbers: Vec<usize>) -> (r: Vec<usize>)
    requires
        forall|k: int| 0 <= k < numbers@.len() ==> (#[trigger] numbers@[k]) < rows@.len(),
    ensures
        in_path_order(rows.deep_view(), r@),
        r@.to_multiset() == numbers@.to_multiset(),
{
    let ghost all = rows.deep_view();
    let mut sorted: Vec<usize> = Vec::new();
    let n: usize = numbers.len();
    let mut i: usize = 0;
    assert(numbers@.take(0) =~= sorted@);
    while i < n
        invariant
            i <= n == numbers@.len(),
            all == rows.deep_view(),
            forall|k: int| 0 <= k < numbers@.len() ==> (#[trigger] numbers@[k]) < rows@.len(),
            forall|k: int| 0 <= k < sorted@.len() ==> (#[trigger] sorted@[k]) < rows@.len(),
            in_path_order(all, sorted@),
            sorted@.to_multiset() == numbers@.take(i as int).to_multiset(),
        decreases n - i,
    {
        let number: usize = numbers[i];
        let ghost before = sorted@;
        let m: usize = sorted.len();
        let mut at: usize = 0;
        while at < m && !is_path_before(&rows[number].path, &rows[sorted[at]].path)
            invariant
                at <= m == sorted@.len(),
                number < rows@.len(),
                sorted@ == before,
                all == rows.deep_view(),
                forall|k: int| 0 <= k < sorted@.len() ==> (#[trigger] sorted@[k]) < rows@.len(),
                forall|k: int|
                    0 <= k < at ==> !path_before(
                        all[number as int].path,
                        all[(#[trigger] sorted@[k]) as int].path,
                    ),
            decreases m - at,
        {
            assert(all[number as int].path == rows@[number as int].path@);
            assert(all[sorted@[at as int] as int].path == rows@[sorted@[at as int] as int].path@);
            at += 1;
        }
        sorted.insert(at, number);
        proof {
            if at < m {
                assert(all[number as int].path == rows@[number as int].path@);
                assert(all[before[at as int] as int].path == rows@[before[at as int] as int].path@);
            }
            assert forall|k: int, l: int| 0 <= k < l < sorted@.len() implies !path_before(
                all[(#[trigger] sorted@[l]) as int].path,
                all[(#[trigger] sorted@[k]) as int].path,
            ) by {
                let new = all[number as int].path;
                let a = if k < at {
                    k
                } else {
                    k - 1
                };
                let b = if l < at {
                    l
                } else {
                    l - 1
                };
                if k != at && l != at {
                    assert(sorted@[k] == before[a] && sorted@[l] == before[b]);
                } else if l == at {
                    assert(sorted@[k] == before[k]);
                } else {
                    assert(sorted@[l] == before[b]);
                    let first = all[before[at as int] as int].path;
                    let later = all[before[b] as int].path;
                    assert(path_before(new, first));
                    if path_before(later, new) {
                        lemma_path_transitive(later, new, first);
                        if b > at {
                            assert(!path_before(later, first));
                        } else {
                            lemma_path_order(first, first);
                        }
                    }
                }
            }
            vstd::seq_lib::to_multiset_insert(before, at as int, number);
            vstd::seq_lib::to_multiset_insert(numbers@.take(i as int), i as int, number);
            assert(numbers@.take(i as int).insert(i as int, number) =~= numbers@.take(i + 1));
            assert forall|k: int| 0 <= k < sorted@.len() implies (#[trigger] sorted@[k])
                < rows@.len() by {
                if k < at {
                    assert(sorted@[k] == before[k]);
                } else if k > at {
                    assert(sorted@[k] == before[k - 1]);
                }
            }
        }
        i += 1;
    }
    assert(numbers@.take(n as int) =~= numbers@);
    sorted
}

/// Whether the result is the entries with the numbers.
pub open spec fn are_entries(
    r: Seq<HidDeviceCandidateModel>,
    rows: Seq<HidDeviceCandidateModel>,
    order: Seq<usize>,
) -> bool {
    r.len() == order.len() && forall|k: int|
        0 <= k < r.len() ==> #[trigger] r[k] == rows[order[k] as int]
}

/// One entry for each listed device that a layout may be for, in the order of the paths: the entry
/// with the lowest interface, and among those the one with the first path.
pub fn canonical_devices(layouts: &Vec<Layout>, rows: &Vec<HidDeviceCandidate>) -> (r: Vec<
    HidDeviceCandidate,
>)
    ensures
        exists|order: Seq<usize>|
            {
                &&& #[trigger] are_entries(r.deep_view(), rows.deep_view(), order)
                &&& in_path_order(rows.deep_view(), order)
                &&& order.no_duplicates()
                &&& forall|i: usize|
                    #[trigger] order.contains(i) <==> stands_for(
                        layouts@,
                        rows.deep_view(),
                        i as int,
                    )
            },
        forall|j: int|
            0 <= j < rows@.len() && taken_by_some(layouts@, #[trigger] rows.deep_view()[j])
                ==> is_served(r.deep_view(), rows.deep_view()[j]),
        forall|k: int|
            0 <= k < r@.len() ==> taken_by_some(layouts@, #[trigger] r.deep_view()[k])
                && rows.deep_view().contains(r.deep_view()[k]),
        forall|k: int, l: int|
            0 <= k < l < r@.len() ==> are_apart(
                #[trigger] r.deep_view()[k],
                #[trigger] r.deep_view()[l],
            ),
{
    let chosen = representatives(layouts, rows);
    proof {
        assert forall|k: int| 0 <= k < chosen@.len() implies (#[trigger] chosen@[k])
            < rows@.len() by {
            assert(stands_for(layouts@, rows.deep_view(), chosen@[k] as int));
        }
    }
    let order = sort_by_path(rows, chosen);
    proof {
        lemma_same_members(chosen@, order@);
        assert forall|i: usize| #[trigger]
            order@.contains(i) <==> stands_for(layouts@, rows.deep_view(), i as int) by {
            if order@.contains(i) {
                assert(chosen@.contains(i));
                let k = choose|k: int| 0 <= k < chosen@.len() && chosen@[k] == i;
                assert(stands_for(layouts@, rows.deep_view(), chosen@[k] as int));
            }
            if stands_for(layouts@, rows.deep_view(), i as int) {
                assert(chosen@.contains(i));
            }
        }
    }
    let mut devices: Vec<HidDeviceCandidate> = Vec::new();
    let n: usize = order.len();
    let mut i: usize = 0;
    while i < n
        invariant
            i <= n == order@.len(),
            devices@.len() == i,
            forall|k: int| 0 <= k < n ==> (#[trigger] order@[k]) < rows@.len(),
            forall|k: int|
                0 <= k < i ==> (#[trigger] devices@[k]).deep_view() == rows.deep_view()[order@[k] as int],
        decreases n - i,
    {
        assert(order@[i as int] < rows@.len());
        let device = rows[order[i]].clone();
        assert(rows.deep_view()[order@[i as int] as int] == rows@[order@[i as int] as int].deep_view());
        devices.push(device);
        i += 1;
    }
    assert(are_entries(devices.deep_view(), rows.deep_view(), order@));
    let count: usize = rows.len();
    proof {
        assert(rows.deep_view().len() == count);
        every_device_is_served_once(layouts@, rows.deep_view(), order@, devices.deep_view());
    }
    devices
}

/// Whether the candidate expression of some layout takes the listed device.
pub open spec fn taken_by_some(layouts: Seq<Layout>, device: HidDeviceCandidateModel) -> bool {
    exists|i: int|
        0 <= i < layouts.len() && answer((#[trigger] layouts[i]).candidate@, device_names(device))
            == Ok::<bool, PolicyError>(true)
}

/// Whether one of the entries serves the listed device: it has the vendor, the product and the
/// serial number of the device, and no higher interface, and where the interface is the same no
/// later path. An entry without an interface comes behind every other.
pub open spec fn is_served(
    entries: Seq<HidDeviceCandidateModel>,
    device: HidDeviceCandidateModel,
) -> bool {
    exists|k: int|
        {
            &&& 0 <= k < entries.len()
            &&& (#[trigger] entries[k]).vendor_id == device.vendor_id
            &&& entries[k].product_id == device.product_id
            &&& entries[k].serial_number == device.serial_number
            &&& match (entries[k].interface_number, device.interface_number) {
                (Some(entry), Some(other)) => entry <= other,
                (None, Some(other)) => other == i32::MAX,
                (_, None) => true,
            }
            &&& entries[k].interface_number == device.interface_number ==> !path_before(
                device.path,
                entries[k].path,
            )
        }
}

/// Whether two entries are of different devices, the second not before the first in the order of the
/// paths.
pub open spec fn are_apart(a: HidDeviceCandidateModel, b: HidDeviceCandidateModel) -> bool {
    &&& a.vendor_id != b.vendor_id || a.product_id != b.product_id || a.serial_number
        != b.serial_number
    &&& !path_before(b.path, a.path)
}

/// Of the entries that stand for their devices, one serves each listed device that a layout takes;
/// each is a listed device that a layout takes; no two have vendor, product and serial number in
/// common; and they stand in the order of their paths.
pub proof fn every_device_is_served_once(
    layouts: Seq<Layout>,
    rows: Seq<HidDeviceCandidateModel>,
    order: Seq<usize>,
    entries: Seq<HidDeviceCandidateModel>,
)
    requires
        rows.len() <= usize::MAX,
        are_entries(entries, rows, order),
        in_path_order(rows, order),
        order.no_duplicates(),
        forall|i: usize| #[trigger] order.contains(i) <==> stands_for(layouts, rows, i as int),
    ensures
        forall|j: int|
            0 <= j < rows.len() && taken_by_some(layouts, #[trigger] rows[j]) ==> is_served(
                entries,
                rows[j],
            ),
        forall|k: int|
            0 <= k < entries.len() ==> taken_by_some(layouts, #[trigger] entries[k])
                && rows.contains(entries[k]),
        forall|k: int, l: int|
            0 <= k < l < entries.len() ==> are_apart(#[trigger] entries[k], #[trigger] entries[l]),
{
    assert forall|device: HidDeviceCandidateModel| #[trigger]
        taken_by_some(layouts, device) == wanted(layouts, device) by {
        if taken_by_some(layouts, device) {
            let i = choose|i: int|
                0 <= i < layouts.len() && answer(
                    (#[trigger] layouts[i]).candidate@,
                    device_names(device),
                ) == Ok::<bool, PolicyError>(true);
            assert(may_be_for(layouts[i], device));
        }
        if wanted(layouts, device) {
            let i = choose|i: int| 0 <= i < layouts.len() && may_be_for(#[trigger] layouts[i], device);
            assert(answer(layouts[i].candidate@, device_names(device)) == Ok::<bool, PolicyError>(
                true,
            ));
        }
    }
    assert forall|j: int| 0 <= j < rows.len() && taken_by_some(layouts, #[trigger] rows[j]) implies is_served(
        entries,
        rows[j],
    ) by {
        assert(wanted(layouts, rows[j]));
        wanted_devices_have_an_entry(layouts, rows, j);
        let i = choose|i: int|
            #[trigger] stands_for(layouts, rows, i) && same_device(rows[i], rows[j]);
        assert(order.contains(i as usize));
        let k = choose|k: int| 0 <= k < order.len() && order[k] == i as usize;
        assert(entries[k] == rows[i]);
        if i != j {
            assert(beats(rows, i, j));
        }
        lemma_path_order(rows[i].path, rows[j].path);
    }
    assert forall|k: int| 0 <= k < entries.len() implies taken_by_some(
        layouts,
        #[trigger] entries[k],
    ) && rows.contains(entries[k]) by {
        assert(order.contains(order[k]));
        assert(stands_for(layouts, rows, order[k] as int));
        assert(entries[k] == rows[order[k] as int]);
        assert(wanted(layouts, entries[k]));
        assert(taken_by_some(layouts, entries[k]));
    }
    assert forall|k: int, l: int| 0 <= k < l < entries.len() implies are_apart(
        #[trigger] entries[k],
        #[trigger] entries[l],
    ) by {
        assert(order.contains(order[k]) && order.contains(order[l]));
        if same_device(rows[order[k] as int], rows[order[l] as int]) {
            devices_have_one_entry(layouts, rows, order[k] as int, order[l] as int);
        }
    }
}

/// Of two paths that start alike, the first byte in which they differ decides; a path comes before
/// every longer path that it starts, and no path comes before itself.
pub proof fn paths_are_ordered_by_their_first_difference(a: Seq<u8>, b: Seq<u8>, n: int)
    requires
        0 <= n <= a.len(),
        n <= b.len(),
        a.take(n) == b.take(n),
    ensures
        n < a.len() && n < b.len() && a[n] != b[n] ==> path_before(a, b) == (a[n] < b[n]),
        n == a.len() ==> path_before(a, b) == (a.len() < b.len()),
        n == b.len() ==> !path_before(a, b),
    decreases n,
{
    if n > 0 {
        assert(a[0] == a.take(n)[0] && b[0] == b.take(n)[0]);
        assert(a.drop_first().take(n - 1) =~= a.take(n).drop_first());
        assert(b.drop_first().take(n - 1) =~= b.take(n).drop_first());
        paths_are_ordered_by_their_first_difference(a.drop_first(), b.drop_first(), n - 1);
        assert(path_before(a, b) == path_before(a.drop_first(), b.drop_first()));
    }
}

proof fn lemma_same_members(a: Seq<usize>, b: Seq<usize>)
    requires
        a.to_multiset() == b.to_multiset(),
        forall|k: int, l: int| 0 <= k < l < a.len() ==> #[trigger] a[k] != #[trigger] a[l],
    ensures
        forall|i: usize| #[trigger] a.contains(i) <==> b.contains(i),
        b.no_duplicates(),
        forall|k: int| 0 <= k < b.len() ==> a.contains(#[trigger] b[k]),
{
    broadcast use vstd::seq_lib::group_to_multiset_ensures;

    assert forall|i: usize| #[trigger] a.contains(i) <==> b.contains(i) by {
        assert(a.contains(i) <==> a.to_multiset().count(i) > 0);
        assert(b.contains(i) <==> b.to_multiset().count(i) > 0);
    }
    a.lemma_multiset_has_no_duplicates();
    b.lemma_multiset_has_no_duplicates_conv();
    assert forall|k: int| 0 <= k < b.len() implies a.contains(#[trigger] b[k]) by {
        assert(b.contains(b[k]));
    }
}

/// No device has two entries.
pub proof fn devices_have_one_entry(
    layouts: Seq<Layout>,
    rows: Seq<HidDeviceCandidateModel>,
    i: int,
    j: int,
)
    requires
        stands_for(layouts, rows, i),
        stands_for(layouts, rows, j),
        same_device(rows[i], rows[j]),
    ensures
        i == j,
{
    if i != j {
        assert(beats(rows, i, j) && beats(rows, j, i));
        lemma_path_order(rows[i].path, rows[j].path);
    }
}

proof fn lemma_some_entry(
    layouts: Seq<Layout>,
    rows: Seq<HidDeviceCandidateModel>,
    j: int,
    n: int,
) -> (i: int)
    requires
        0 <= j < n <= rows.len(),
        wanted(layouts, rows[j]),
    ensures
        stands_for_upto(layouts, rows, i, n),
        same_device(rows[i], rows[j]),
    decreases n,
{
    let last = n - 1;
    let others = exists|k: int|
        0 <= k < last && wanted(layouts, #[trigger] rows[k]) && same_device(rows[k], rows[j]);
    if others {
        let k = choose|k: int|
            0 <= k < last && wanted(layouts, #[trigger] rows[k]) && same_device(rows[k], rows[j]);
        let i = lemma_some_entry(layouts, rows, k, last);
        if wanted(layouts, rows[last]) && same_device(rows[i], rows[last]) {
            lemma_path_order(rows[i].path, rows[last].path);
            if beats(rows, i, last) {
                i
            } else {
                assert(beats(rows, last, i));
                assert forall|m: int|
                    0 <= m < n && m != last && wanted(layouts, #[trigger] rows[m]) && same_device(
                        rows[last],
                        rows[m],
                    ) implies beats(rows, last, m) by {
                    if m != i {
                        assert(beats(rows, i, m));
                        lemma_beats_transitive(rows, last, i, m);
                    }
                }
                last
            }
        } else {
            i
        }
    } else {
        assert(j == last);
        last
    }
}

/// Every listed device that a layout may be for has an entry.
pub proof fn wanted_devices_have_an_entry(
    layouts: Seq<Layout>,
    rows: Seq<HidDeviceCandidateModel>,
    j: int,
)
    requires
        0 <= j < rows.len(),
        wanted(layouts, rows[j]),
    ensures
        exists|i: int|
            #[trigger] stands_for(layouts, rows, i) && same_device(rows[i], rows[j]),
{
    let i = lemma_some_entry(layouts, rows, j, rows.len() as int);
    assert(stands_for(layouts, rows, i));
}

// ---------------------------------------------------------------------------------------------
// Devices in use
// ---------------------------------------------------------------------------------------------

/// The paths of the devices that are in use, and of those that are about to be.
pub struct Running {
    pub active: Set<Seq<char>>,
    pub launched: Set<Seq<char>>,
}

impl Running {
    /// Whether a path is in use or about to be.
    pub open spec fn contains(self, path: Seq<char>) -> bool {
        self.active.contains(path) || self.launched.contains(path)
    }
}

/// What is left running after an event.
pub open spec fn running_after(running: Running, event: WorkerEventModel) -> Running {
    match event {
        WorkerEventModel::Connected { path_key, .. } => Running {
            active: running.active.insert(path_key),
            launched: running.launched.remove(path_key),
        },
        WorkerEventModel::Disconnected { path_key, .. } => Running {
            active: running.active.remove(path_key),
            launched: running.launched.remove(path_key),
        },
        WorkerEventModel::Failed { path_key, .. } => Running {
            active: running.active.remove(path_key),
            launched: running.launched.remove(path_key),
        },
        WorkerEventModel::Input { .. } => running,
    }
}

/// Whether the device with the number `i` is to be launched: its path is not running, and no device
/// before it has the same path.
pub open spec fn to_launch(running: Running, devices: Seq<HidDeviceCandidateModel>, i: int) -> bool {
    &&& 0 <= i < devices.len()
    &&& !running.contains(hex_bytes(devices[i].path))
    &&& forall|j: int| 0 <= j < i ==> (#[trigger] devices[j]).path != devices[i].path
}

/// Keeps account of the devices that are in use.
#[derive(Debug)]
pub struct Supervisor {
    active_paths: TextSet,
    launched_paths: TextSet,
}

impl View for Supervisor {
    type V = Running;

    closed spec fn view(&self) -> Running {
        Running { active: self.active_paths@, launched: self.launched_paths@ }
    }
}

impl Supervisor {
    /// No path is both in use and about to be.
    #[verifier::type_invariant]
    spec fn well_formed(self) -> bool {
        forall|path: Seq<char>| #[trigger]
            self.active_paths@.contains(path) ==> !self.launched_paths@.contains(path)
    }

    /// Nothing is in use.
    pub fn new() -> (r: Self)
        ensures
            r@ == (Running { active: Set::empty(), launched: Set::empty() }),
    {
        Supervisor { active_paths: TextSet::new(), launched_paths: TextSet::new() }
    }

    /// The numbers of the devices to launch. From then on they are about to be in use.
    pub fn on_discovery(&mut self, devices: &Vec<HidDeviceCandidate>) -> (r: Vec<usize>)
        ensures
            forall|k: int, l: int| 0 <= k < l < r@.len() ==> #[trigger] r@[k] < #[trigger] r@[l],
            forall|i: usize| #[trigger]
                r@.contains(i) <==> to_launch(old(self)@, devices.deep_view(), i as int),
            final(self)@.active == old(self)@.active,
            forall|path: Seq<char>| #[trigger]
                final(self)@.launched.contains(path) <==> old(self)@.launched.contains(path)
                    || exists|i: int| #[trigger]
                    to_launch(old(self)@, devices.deep_view(), i) && path == hex_bytes(
                        devices@[i].path@,
                    ),
    {
        proof {
            use_type_invariant(&*self);
        }
        let ghost running = self@;
        let ghost all = devices.deep_view();
        let mut launched_paths = TextSet::new();
        std::mem::swap(&mut launched_paths, &mut self.launched_paths);
        let mut launches: Vec<usize> = Vec::new();
        let n: usize = devices.len();
        let mut i: usize = 0;
        while i < n
            invariant
                i <= n == devices@.len(),
                all == devices.deep_view(),
                running.active == self.active_paths@,
                self@.active == running.active,
                forall|path: Seq<char>| #[trigger]
                    running.active.contains(path) ==> !running.launched.contains(path),
                forall|path: Seq<char>| #[trigger]
                    launched_paths@.contains(path) <==> running.launched.contains(path)
                        || exists|k: int| #[trigger]
                        to_launch(running, all, k) && k < i && path == hex_bytes(devices@[k].path@),
                forall|k: int, l: int|
                    0 <= k < l < launches@.len() ==> #[trigger] launches@[k] < #[trigger] launches@[l],
                forall|k: int| 0 <= k < launches@.len() ==> (#[trigger] launches@[k]) < i,
                forall|k: usize| #[trigger]
                    launches@.contains(k) <==> k < i && to_launch(running, all, k as int),
            decreases n - i,
        {
            let path_key = devices[i].path_hex();
            let ghost key = path_key@;
            let ghost held = launched_paths@;
            let ghost so_far = launches@;
            assert(all[i as int] == devices@[i as int].deep_view());
            let known = self.active_paths.contains(path_key.as_str()) || launched_paths.contains(
                path_key.as_str(),
            );
            proof {
                if known != !to_launch(running, all, i as int) {
                    if known {
                        assert(held.contains(key) || running.active.contains(key));
                        if !running.contains(key) {
                            let k = choose|k: int| #[trigger]
                                to_launch(running, all, k) && k < i && key == hex_bytes(
                                    devices@[k].path@,
                                );
                            path_keys_are_distinct(devices@[k].path@, devices@[i as int].path@);
                            assert(all[k].path == all[i as int].path);
                        }
                    } else {
                        let j = choose|j: int|
                            0 <= j < i && (#[trigger] all[j]).path == all[i as int].path;
                        assert(all[j] == devices@[j].deep_view());
                        let first = lemma_first_with_path(all, j);
                        assert(all[first] == devices@[first].deep_view());
                        assert(to_launch(running, all, first));
                        assert(held.contains(key));
                    }
                }
            }
            if !known {
                launched_paths.insert(path_key);
                launches.push(i);
                assert(launches@[launches@.len() - 1] == i);
            }
            proof {
                assert forall|k: usize| #[trigger]
                    launches@.contains(k) <==> k < i + 1 && to_launch(running, all, k as int) by {
                    if so_far.contains(k) {
                        let at = choose|at: int| 0 <= at < so_far.len() && so_far[at] == k;
                        assert(launches@[at] == k);
                    }
                    if launches@.contains(k) && k != i {
                        let at = choose|at: int| 0 <= at < launches@.len() && launches@[at] == k;
                        assert(so_far[at] == k);
                    }
                    if launches@.contains(k) && k == i && known {
                        assert(so_far.contains(k));
                    }
                }
                assert forall|path: Seq<char>| #[trigger]
                    launched_paths@.contains(path) <==> running.launched.contains(path)
                        || exists|k: int| #[trigger]
                        to_launch(running, all, k) && k < i + 1 && path == hex_bytes(
                            devices@[k].path@,
                        ) by {
                    if held.contains(path) && !running.launched.contains(path) {
                        let k = choose|k: int| #[trigger]
                            to_launch(running, all, k) && k < i && path == hex_bytes(
                                devices@[k].path@,
                            );
                        assert(to_launch(running, all, k) && k < i + 1);
                    }
                    if !known && path == key {
                        assert(to_launch(running, all, i as int));
                    }
                    if exists|k: int| #[trigger]
                        to_launch(running, all, k) && k < i + 1 && path == hex_bytes(
                            devices@[k].path@,
                        ) {
                        let k = choose|k: int| #[trigger]
                            to_launch(running, all, k) && k < i + 1 && path == hex_bytes(
                                devices@[k].path@,
                            );
                        if k < i {
                            assert(held.contains(path));
                        }
                    }
                }
            }
            i += 1;
        }
        proof {
            assert forall|path: Seq<char>| #[trigger]
                self.active_paths@.contains(path) implies !launched_paths@.contains(path) by {
                if launched_paths@.contains(path) {
                    let k = choose|k: int| #[trigger]
                        to_launch(running, all, k) && k < n && path == hex_bytes(
                            devices@[k].path@,
                        );
                    assert(all[k] == devices@[k].deep_view());
                    assert(!running.contains(path));
                }
            }
            assert forall|path: Seq<char>| #[trigger]
                launched_paths@.contains(path) <==> running.launched.contains(path) || exists|i: int|
                #[trigger]
                to_launch(running, all, i) && path == hex_bytes(devices@[i].path@) by {
                if exists|i: int| #[trigger]
                    to_launch(running, all, i) && path == hex_bytes(devices@[i].path@) {
                    let k = choose|i: int| #[trigger]
                        to_launch(running, all, i) && path == hex_bytes(devices@[i].path@);
                    assert(k < n);
                }
            }
        }
        self.launched_paths = launched_paths;
        launches
    }

    /// Takes note of an event.
    pub fn on_event(&mut self, event: &WorkerEvent)
        ensures
            final(self)@ == running_after(old(self)@, event.deep_view()),
    {
        proof {
            use_type_invariant(&*self);
        }
        let mut state = Supervisor::new();
        std::mem::swap(&mut state, self);
        let Supervisor { active_paths: mut active_paths, launched_paths: mut launched_paths } = state;
        match event {
            WorkerEvent::Connected { path_key, .. } => {
                launched_paths.remove(path_key.as_str());
                active_paths.insert(path_key.clone());
            },
            WorkerEvent::Disconnected { path_key, .. } => {
                launched_paths.remove(path_key.as_str());
                active_paths.remove(path_key.as_str());
            },
            WorkerEvent::Failed { path_key, .. } => {
                launched_paths.remove(path_key.as_str());
                active_paths.remove(path_key.as_str());
            },
            WorkerEvent::Input { .. } => {},
        }
        *self = Supervisor { active_paths, launched_paths };
    }
}

proof fn lemma_first_with_path(devices: Seq<HidDeviceCandidateModel>, j: int) -> (i: int)
    requires
        0 <= j < devices.len(),
    ensures
        0 <= i <= j,
        devices[i].path == devices[j].path,
        forall|k: int| 0 <= k < i ==> (#[trigger] devices[k]).path != devices[i].path,
    decreases j,
{
    if exists|k: int| 0 <= k < j && (#[trigger] devices[k]).path == devices[j].path {
        let k = choose|k: int| 0 <= k < j && (#[trigger] devices[k]).path == devices[j].path;
        lemma_first_with_path(devices, k)
    } else {
        j
    }
}

/// A device that runs is not launched again before it is told to have gone or to have failed.
pub proof fn running_devices_are_not_launched(
    running: Running,
    event: WorkerEventModel,
    devices: Seq<HidDeviceCandidateModel>,
    i: int,
)
    requires
        0 <= i < devices.len(),
        running.contains(hex_bytes(devices[i].path)),
        event matches WorkerEventModel::Disconnected { path_key, .. } ==> path_key != hex_bytes(
            devices[i].path,
        ),
        event matches WorkerEventModel::Failed { path_key, .. } ==> path_key != hex_bytes(
            devices[i].path,
        ),
    ensures
        !to_launch(running, devices, i),
        !to_launch(running_after(running, event), devices, i),
{
}

/// A device that has gone or failed is launched again when it is found again.
pub proof fn lost_devices_are_launched_again(
    running: Running,
    event: WorkerEventModel,
    devices: Seq<HidDeviceCandidateModel>,
    i: int,
)
    requires
        0 <= i < devices.len(),
        ({
            ||| event matches WorkerEventModel::Disconnected { path_key, .. } && path_key
                == hex_bytes(devices[i].path)
            ||| event matches WorkerEventModel::Failed { path_key, .. } && path_key == hex_bytes(
                devices[i].path,
            )
        }),
        forall|j: int| 0 <= j < i ==> (#[trigger] devices[j]).path != devices[i].path,
    ensures
        to_launch(running_after(running, event), devices, i),
{
}

/// Every listed path that is not running is launched, and once.
pub proof fn every_path_is_launched_once(
    running: Running,
    devices: Seq<HidDeviceCandidateModel>,
    j: int,
)
    requires
        0 <= j < devices.len(),
    ensures
        !running.active.contains(hex_bytes(devices[j].path)) && !running.launched.contains(
            hex_bytes(devices[j].path),
        ) ==> exists|i: int|
            {
                &&& #[trigger] to_launch(running, devices, i)
                &&& devices[i].path == devices[j].path
            },
        forall|i: int|
            #[trigger] to_launch(running, devices, i) && i != j && devices[i].path
                == devices[j].path ==> !to_launch(running, devices, j),
        to_launch(running, devices, j) ==> !running.active.contains(hex_bytes(devices[j].path))
            && !running.launched.contains(hex_bytes(devices[j].path)),
{
    let i = lemma_first_with_path(devices, j);
    if !running.contains(hex_bytes(devices[j].path)) {
        assert(to_launch(running, devices, i));
    }
}

/// A device that is told to be connected is in use and no longer about to be; one that is told to
/// have gone or to have failed is neither; input and events of other devices change nothing.
pub proof fn events_change_their_own_path(running: Running, event: WorkerEventModel, path: Seq<char>)
    ensures
        ({
            let after = running_after(running, event);
            match event {
                WorkerEventModel::Connected { path_key, .. } if path_key == path => {
                    after.active.contains(path) && !after.launched.contains(path)
                },
                WorkerEventModel::Disconnected { path_key, .. } if path_key == path => {
                    !after.active.contains(path) && !after.launched.contains(path)
                },
                WorkerEventModel::Failed { path_key, .. } if path_key == path => {
                    !after.active.contains(path) && !after.launched.contains(path)
                },
                _ => {
                    &&& after.active.contains(path) == running.active.contains(path)
                    &&& after.launched.contains(path) == running.launched.contains(path)
                },
            }
        }),
{
}

} // verus!
