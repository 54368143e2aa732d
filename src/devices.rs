//! Printer records, and how discovery announcements attach a local address
//! to them.
use crate::ssdp::{SsdpMessage, SsdpMessageView};
use vstd::prelude::*;

verus! {

/// A printer as the cloud roster lists it.
pub struct BambuDevice {
    pub dev_id: String,
    pub name: String,
    pub online: bool,
    pub ip: Option<String>,
    pub print_status: String,
    pub dev_model_name: String,
    pub dev_product_name: String,
    pub dev_access_code: String,
    pub nozzle_diameter: serde_json::Number,
}

pub struct BambuDeviceView {
    pub dev_id: Seq<char>,
    pub name: Seq<char>,
    pub online: bool,
    pub ip: Option<Seq<char>>,
    pub print_status: Seq<char>,
    pub dev_model_name: Seq<char>,
    pub dev_product_name: Seq<char>,
    pub dev_access_code: Seq<char>,
    pub nozzle_diameter: serde_json::Number,
}

pub open spec fn opt_view(o: Option<String>) -> Option<Seq<char>> {
    match o {
        Some(s) => Some(s@),
        None => None,
    }
}

impl View for BambuDevice {
    type V = BambuDeviceView;

    open spec fn view(&self) -> BambuDeviceView {
        BambuDeviceView {
            dev_id: self.dev_id@,
            name: self.name@,
            online: self.online,
            ip: opt_view(self.ip),
            print_status: self.print_status@,
            dev_model_name: self.dev_model_name@,
            dev_product_name: self.dev_product_name@,
            dev_access_code: self.dev_access_code@,
            nozzle_diameter: self.nozzle_diameter,
        }
    }
}

/// The body of the roster endpoint's answer.
pub struct BambuDeviceResponse {
    pub message: String,
    pub code: Option<i32>,
    pub error: Option<String>,
    pub devices: Vec<BambuDevice>,
}

pub open spec fn device_views(ds: Seq<BambuDevice>) -> Seq<BambuDeviceView> {
    ds.map_values(|d: BambuDevice| d@)
}

pub open spec fn message_views(ms: Seq<SsdpMessage>) -> Seq<SsdpMessageView> {
    ms.map_values(|m: SsdpMessage| m@)
}

/// Some announcement in `ms` advertises `loc`.
pub open spec fn has_location(ms: Seq<SsdpMessageView>, loc: Seq<char>) -> bool {
    exists|j: int| 0 <= j < ms.len() && (#[trigger] ms[j]).location == loc
}

/// The announcements in order, each dropped whose location an earlier one has.
pub open spec fn dedupe_by_location(ms: Seq<SsdpMessageView>) -> Seq<SsdpMessageView>
    decreases ms.len(),
{
    if ms.len() == 0 {
        Seq::empty()
    } else {
        let d = dedupe_by_location(ms.drop_last());
        if has_location(d, ms.last().location) {
            d
        } else {
            d.push(ms.last())
        }
    }
}

/// Index of the first announcement in `ms` whose `usn` is `id`, or the length.
pub open spec fn first_with_usn(ms: Seq<SsdpMessageView>, id: Seq<char>) -> int
    decreases ms.len(),
{
    if ms.len() == 0 {
        0
    } else if ms[0].usn == id {
        0
    } else {
        1 + first_with_usn(ms.drop_first(), id)
    }
}

/// The devices that some announcement names, in order, each with its address
/// set to the location of the first such announcement.
pub open spec fn resolve(devs: Seq<BambuDeviceView>, ms: Seq<SsdpMessageView>) -> Seq<
    BambuDeviceView,
>
    decreases devs.len(),
{
    if devs.len() == 0 {
        Seq::empty()
    } else {
        let r = resolve(devs.drop_last(), ms);
        let d = devs.last();
        let k = first_with_usn(ms, d.dev_id);
        if k < ms.len() {
            r.push(BambuDeviceView { ip: Some(ms[k].location), ..d })
        } else {
            r
        }
    }
}

pub proof fn lemma_first_with_usn(ms: Seq<SsdpMessageView>, id: Seq<char>)
    ensures
        0 <= first_with_usn(ms, id) <= ms.len(),
        first_with_usn(ms, id) < ms.len() ==> ms[first_with_usn(ms, id)].usn == id,
        forall|j: int| 0 <= j < first_with_usn(ms, id) ==> (#[trigger] ms[j]).usn != id,
    decreases ms.len(),
{
    if ms.len() > 0 && ms[0].usn != id {
        lemma_first_with_usn(ms.drop_first(), id);
        assert forall|j: int| 0 <= j < first_with_usn(ms, id) implies (#[trigger] ms[j]).usn
            != id by {
            if j > 0 {
                assert(ms[j] == ms.drop_first()[j - 1]);
            }
        }
    }
}

/// Index of the first element of `ms` whose `usn` is `id`, or the length.
fn find_usn(ms: &Vec<SsdpMessage>, id: &String) -> (r: usize)
    ensures
        r == first_with_usn(message_views(ms@), id@),
{
    let ghost mv = message_views(ms@);
    proof {
        lemma_first_with_usn(mv, id@);
    }
    let mut i: usize = 0;
    while i < ms.len()
        invariant
            i <= ms@.len(),
            mv == message_views(ms@),
            i <= first_with_usn(mv, id@),
            0 <= first_with_usn(mv, id@) <= mv.len(),
            first_with_usn(mv, id@) < mv.len() ==> mv[first_with_usn(mv, id@)].usn == id@,
        decreases ms@.len() - i,
    {
        if ms[i].usn == *id {
            assert(mv[i as int].usn == id@);
            proof {
                lemma_first_with_usn(mv, id@);
            }
            return i;
        }
        assert(mv[i as int].usn != id@);
        proof {
            lemma_first_with_usn(mv, id@);
            if first_with_usn(mv, id@) == i {
                assert(i < mv.len());
            }
        }
        i = i + 1;
    }
    i
}

/// Keeps the first announcement for each distinct location, in order.
pub fn dedupe_messages(messages: Vec<SsdpMessage>) -> (r: Vec<SsdpMessage>)
    ensures
        message_views(r@) == dedupe_by_location(message_views(messages@)),
{
    let ghost all = message_views(messages@);
    let mut rest = messages;
    let mut unique: Vec<SsdpMessage> = Vec::new();
    let ghost mut seen: int = 0;
    while rest.len() > 0
        invariant
            0 <= seen <= all.len(),
            message_views(rest@) == all.subrange(seen, all.len() as int),
            message_views(unique@) == dedupe_by_location(all.subrange(0, seen)),
        decreases rest@.len(),
    {
        let ghost before = rest@;
        assert(message_views(before).len() == before.len());
        assert(seen < all.len());
        assert(message_views(before)[0] == before[0]@);
        assert(all.subrange(seen, all.len() as int)[0] == all[seen]);
        assert(before[0]@ == all[seen]);
        let m = rest.remove(0);
        assert(m@ == all[seen]);
        let ghost prefix = all.subrange(0, seen + 1);
        assert(prefix.drop_last() =~= all.subrange(0, seen));
        assert forall|i: int| 0 <= i < rest@.len() implies message_views(rest@)[i] == all[seen
            + 1 + i] by {
            assert(rest@[i] == before[i + 1]);
            assert(message_views(before)[i + 1] == before[i + 1]@);
            assert(all.subrange(seen, all.len() as int)[i + 1] == all[seen + 1 + i]);
        }
        assert(message_views(rest@) =~= all.subrange(seen + 1, all.len() as int));
        let ghost u = message_views(unique@);
        let mut dup = false;
        let mut j: usize = 0;
        while j < unique.len()
            invariant
                j <= unique@.len(),
                u == message_views(unique@),
                dup == (exists|k: int| 0 <= k < j && (#[trigger] u[k]).location == m.location@),
            decreases unique@.len() - j,
        {
            if unique[j].location == m.location {
                dup = true;
            }
            assert(u[j as int].location == unique@[j as int].location@);
            j = j + 1;
        }
        assert(dup == has_location(u, m.location@));
        if !dup {
            unique.push(m);
            assert(message_views(unique@) =~= u.push(m@));
        }
        proof {
            seen = seen + 1;
        }
    }
    assert(all.subrange(0, seen) =~= all);
    unique
}

/// The devices of the roster that some announcement in `unique` names, each
/// with its address set to that announcement's location.
pub fn resolve_devices(devices: Vec<BambuDevice>, unique: &Vec<SsdpMessage>) -> (r: Vec<
    BambuDevice,
>)
    ensures
        device_views(r@) == resolve(device_views(devices@), message_views(unique@)),
{
    let ghost all = device_views(devices@);
    let ghost mv = message_views(unique@);
    let mut rest = devices;
    let mut out: Vec<BambuDevice> = Vec::new();
    let ghost mut seen: int = 0;
    while rest.len() > 0
        invariant
            0 <= seen <= all.len(),
            mv == message_views(unique@),
            device_views(rest@) == all.subrange(seen, all.len() as int),
            device_views(out@) == resolve(all.subrange(0, seen), mv),
        decreases rest@.len(),
    {
        let ghost before = rest@;
        assert(device_views(before).len() == before.len());
        assert(device_views(before)[0] == before[0]@);
        assert(all.subrange(seen, all.len() as int)[0] == all[seen]);
        let mut d = rest.remove(0);
        assert forall|i: int| 0 <= i < rest@.len() implies device_views(rest@)[i] == all[seen
            + 1 + i] by {
            assert(rest@[i] == before[i + 1]);
            assert(device_views(before)[i + 1] == before[i + 1]@);
            assert(all.subrange(seen, all.len() as int)[i + 1] == all[seen + 1 + i]);
        }
        assert(device_views(rest@) =~= all.subrange(seen + 1, all.len() as int));
        let ghost prefix = all.subrange(0, seen + 1);
        assert(prefix.drop_last() =~= all.subrange(0, seen));
        assert(prefix.last() == d@);
        let ghost o = device_views(out@);
        let k = find_usn(unique, &d.dev_id);
        if k < unique.len() {
            assert(mv[k as int] == unique@[k as int]@);
            d.ip = Some(unique[k].location.clone());
            out.push(d);
            assert(device_views(out@) =~= o.push(d@));
        }
        proof {
            seen = seen + 1;
        }
    }
    assert(all.subrange(0, seen) =~= all);
    out
}

/// Some announcement in `ms` names the device `id`.
pub open spec fn names_device(ms: Seq<SsdpMessageView>, id: Seq<char>) -> bool {
    exists|k: int| 0 <= k < ms.len() && (#[trigger] ms[k]).usn == id
}

/// De-duplication keeps, for each location that occurs, exactly one
/// announcement: the first that arrived with it.
pub proof fn lemma_dedupe_keeps_first(ms: Seq<SsdpMessageView>)
    ensures
        forall|i: int, j: int|
            0 <= i < j < dedupe_by_location(ms).len() ==> (#[trigger] dedupe_by_location(
                ms,
            )[i]).location != (#[trigger] dedupe_by_location(ms)[j]).location,
        forall|i: int|
            0 <= i < ms.len() ==> has_location(dedupe_by_location(ms), (#[trigger] ms[i]).location),
        forall|j: int|
            0 <= j < dedupe_by_location(ms).len() ==> exists|i: int|
                0 <= i < ms.len() && #[trigger] dedupe_by_location(ms)[j] == ms[i] && forall|
                    k: int,
                | 0 <= k < i ==> (#[trigger] ms[k]).location != ms[i].location,
    decreases ms.len(),
{
    if ms.len() > 0 {
        let p = ms.drop_last();
        let x = ms.last();
        let d = dedupe_by_location(p);
        let r = dedupe_by_location(ms);
        lemma_dedupe_keeps_first(p);
        assert forall|i: int| 0 <= i < p.len() implies #[trigger] ms[i] == p[i] by {}
        if has_location(d, x.location) {
            assert(r == d);
            assert forall|i: int| 0 <= i < ms.len() implies has_location(
                r,
                (#[trigger] ms[i]).location,
            ) by {
                if i < p.len() {
                    assert(has_location(d, p[i].location));
                }
            }
            assert forall|j: int| 0 <= j < r.len() implies exists|i: int|
                0 <= i < ms.len() && #[trigger] r[j] == ms[i] && forall|k: int|
                    0 <= k < i ==> (#[trigger] ms[k]).location != ms[i].location by {
                let i = choose|i: int|
                    0 <= i < p.len() && #[trigger] d[j] == p[i] && forall|k: int|
                        0 <= k < i ==> (#[trigger] p[k]).location != p[i].location;
                assert(r[j] == ms[i]);
                assert forall|k: int| 0 <= k < i implies (#[trigger] ms[k]).location
                    != ms[i].location by {
                    assert(ms[k] == p[k]);
                }
            }
        } else {
            assert(r == d.push(x));
            assert forall|i: int, j: int| 0 <= i < j < r.len() implies (#[trigger] r[i]).location
                != (#[trigger] r[j]).location by {
                if j == d.len() {
                    assert(r[i] == d[i]);
                    assert(r[j] == x);
                } else {
                    assert(r[i] == d[i]);
                    assert(r[j] == d[j]);
                }
            }
            assert forall|i: int| 0 <= i < ms.len() implies has_location(
                r,
                (#[trigger] ms[i]).location,
            ) by {
                if i < p.len() {
                    assert(has_location(d, p[i].location));
                    let w = choose|w: int| 0 <= w < d.len() && (#[trigger] d[w]).location
                        == p[i].location;
                    assert(r[w] == d[w]);
                } else {
                    assert(r[d.len() as int] == x);
                }
            }
            assert forall|j: int| 0 <= j < r.len() implies exists|i: int|
                0 <= i < ms.len() && #[trigger] r[j] == ms[i] && forall|k: int|
                    0 <= k < i ==> (#[trigger] ms[k]).location != ms[i].location by {
                if j < d.len() {
                    let i = choose|i: int|
                        0 <= i < p.len() && #[trigger] d[j] == p[i] && forall|k: int|
                            0 <= k < i ==> (#[trigger] p[k]).location != p[i].location;
                    assert(r[j] == ms[i]);
                    assert forall|k: int| 0 <= k < i implies (#[trigger] ms[k]).location
                        != ms[i].location by {
                        assert(ms[k] == p[k]);
                    }
                } else {
                    let i = ms.len() - 1;
                    assert(r[j] == ms[i]);
                    assert forall|k: int| 0 <= k < i implies (#[trigger] ms[k]).location
                        != ms[i].location by {
                        assert(ms[k] == p[k]);
                        assert(has_location(d, p[k].location));
                    }
                }
            }
        }
    }
}

/// Resolution correlates the two sources by identity: a device that no
/// announcement names is left out; every device that comes out is a roster
/// device whose address is the location of an announcement naming it; and a
/// device that some announcement names comes out, with the location of the
/// first such announcement.
pub proof fn lemma_resolve_correlates(devs: Seq<BambuDeviceView>, ms: Seq<SsdpMessageView>)
    ensures
        forall|j: int, i: int|
            0 <= j < devs.len() && !names_device(ms, devs[j].dev_id) && 0 <= i < resolve(
                devs,
                ms,
            ).len() ==> (#[trigger] resolve(devs, ms)[i]).dev_id != (#[trigger] devs[j]).dev_id,
        forall|i: int|
            0 <= i < resolve(devs, ms).len() ==> exists|j: int, k: int|
                0 <= j < devs.len() && 0 <= k < ms.len() && (#[trigger] ms[k]).usn == (
                #[trigger] devs[j]).dev_id && #[trigger] resolve(devs, ms)[i] == (BambuDeviceView {
                    ip: Some(ms[k].location),
                    ..devs[j]
                }),
        forall|j: int|
            0 <= j < devs.len() && names_device(ms, (#[trigger] devs[j]).dev_id) ==> exists|i: int|
                0 <= i < resolve(devs, ms).len() && #[trigger] resolve(devs, ms)[i] == (
                BambuDeviceView {
                    ip: Some(ms[first_with_usn(ms, devs[j].dev_id)].location),
                    ..devs[j]
                }),
    decreases devs.len(),
{
    if devs.len() > 0 {
        let p = devs.drop_last();
        let x = devs.last();
        let q = resolve(p, ms);
        let r = resolve(devs, ms);
        lemma_resolve_correlates(p, ms);
        lemma_first_with_usn(ms, x.dev_id);
        let k = first_with_usn(ms, x.dev_id);
        assert forall|j: int| 0 <= j < p.len() implies #[trigger] devs[j] == p[j] by {}
        assert(names_device(ms, x.dev_id) <==> k < ms.len()) by {
            if names_device(ms, x.dev_id) {
                let w = choose|w: int| 0 <= w < ms.len() && (#[trigger] ms[w]).usn == x.dev_id;
                assert(!(w < k));
            }
        }
        let y = BambuDeviceView { ip: Some(ms[k].location), ..x };
        if k < ms.len() {
            assert(r == q.push(y));
        } else {
            assert(r == q);
        }
        assert forall|j: int, i: int|
            0 <= j < devs.len() && !names_device(ms, devs[j].dev_id) && 0 <= i < r.len() implies (
            #[trigger] r[i]).dev_id != (#[trigger] devs[j]).dev_id by {
            if i < q.len() {
                assert(r[i] == q[i]);
                if j < p.len() {
                    assert(q[i].dev_id != p[j].dev_id);
                } else {
                    let w = choose|w: int, v: int|
                        0 <= w < p.len() && 0 <= v < ms.len() && (#[trigger] ms[v]).usn == (
                        #[trigger] p[w]).dev_id && q[i] == (BambuDeviceView {
                            ip: Some(ms[v].location),
                            ..p[w]
                        });
                }
            } else {
                assert(r[i] == y);
                if j < p.len() {
                    assert(devs[j] == p[j]);
                }
            }
        }
        assert forall|i: int| 0 <= i < r.len() implies exists|j: int, v: int|
            0 <= j < devs.len() && 0 <= v < ms.len() && (#[trigger] ms[v]).usn == (
            #[trigger] devs[j]).dev_id && #[trigger] r[i] == (BambuDeviceView {
                ip: Some(ms[v].location),
                ..devs[j]
            }) by {
            if i < q.len() {
                assert(r[i] == q[i]);
                let (w, v) = choose|w: int, v: int|
                    0 <= w < p.len() && 0 <= v < ms.len() && (#[trigger] ms[v]).usn == (
                    #[trigger] p[w]).dev_id && q[i] == (BambuDeviceView {
                        ip: Some(ms[v].location),
                        ..p[w]
                    });
                assert(devs[w] == p[w]);
            } else {
                assert(r[i] == y);
                assert(devs[devs.len() - 1] == x);
            }
        }
        assert forall|j: int|
            0 <= j < devs.len() && names_device(ms, (#[trigger] devs[j]).dev_id) implies exists|
            i: int,
        |
            0 <= i < r.len() && #[trigger] r[i] == (BambuDeviceView {
                ip: Some(ms[first_with_usn(ms, devs[j].dev_id)].location),
                ..devs[j]
            }) by {
            if j < p.len() {
                assert(devs[j] == p[j]);
                let i = choose|i: int|
                    0 <= i < q.len() && #[trigger] q[i] == (BambuDeviceView {
                        ip: Some(ms[first_with_usn(ms, p[j].dev_id)].location),
                        ..p[j]
                    });
                assert(r[i] == q[i]);
            } else {
                assert(r[q.len() as int] == y);
            }
        }
    }
}

/// The announcement at `k` is the first that arrived with its location.
pub open spec fn first_seen(ms: Seq<SsdpMessageView>, k: int) -> bool {
    forall|k2: int| 0 <= k2 < k ==> (#[trigger] ms[k2]).location != ms[k].location
}

/// Resolution after de-duplication reads only the first announcement seen for
/// each location: every device that comes out carries the location of a
/// first-seen announcement that names it, and a roster device that only
/// later duplicates name is left out.
pub proof fn lemma_resolution_uses_first_seen(devs: Seq<BambuDeviceView>, ms: Seq<SsdpMessageView>)
    ensures
        forall|i: int|
            0 <= i < resolve(devs, dedupe_by_location(ms)).len() ==> exists|j: int, k: int|
                0 <= j < devs.len() && 0 <= k < ms.len() && (#[trigger] ms[k]).usn == (
                #[trigger] devs[j]).dev_id && first_seen(ms, k) && #[trigger] resolve(
                    devs,
                    dedupe_by_location(ms),
                )[i] == (BambuDeviceView { ip: Some(ms[k].location), ..devs[j] }),
        forall|j: int, i: int|
            0 <= j < devs.len() && (forall|k: int|
                0 <= k < ms.len() && (#[trigger] ms[k]).usn == devs[j].dev_id ==> !first_seen(ms, k))
                && 0 <= i < resolve(devs, dedupe_by_location(ms)).len() ==> (#[trigger] resolve(
                devs,
                dedupe_by_location(ms),
            )[i]).dev_id != (#[trigger] devs[j]).dev_id,
{
    let d = dedupe_by_location(ms);
    let r = resolve(devs, d);
    lemma_dedupe_keeps_first(ms);
    lemma_resolve_correlates(devs, d);
    assert forall|i: int| 0 <= i < r.len() implies exists|j: int, k: int|
        0 <= j < devs.len() && 0 <= k < ms.len() && (#[trigger] ms[k]).usn == (
        #[trigger] devs[j]).dev_id && first_seen(ms, k) && #[trigger] r[i] == (BambuDeviceView {
            ip: Some(ms[k].location),
            ..devs[j]
        }) by {
        let (j, w) = choose|j: int, w: int|
            0 <= j < devs.len() && 0 <= w < d.len() && (#[trigger] d[w]).usn == (
            #[trigger] devs[j]).dev_id && r[i] == (BambuDeviceView {
                ip: Some(d[w].location),
                ..devs[j]
            });
        let k = choose|k: int|
            0 <= k < ms.len() && #[trigger] d[w] == ms[k] && forall|k2: int|
                0 <= k2 < k ==> (#[trigger] ms[k2]).location != ms[k].location;
        assert(first_seen(ms, k));
    }
    assert forall|j: int, i: int|
        0 <= j < devs.len() && (forall|k: int|
            0 <= k < ms.len() && (#[trigger] ms[k]).usn == devs[j].dev_id ==> !first_seen(ms, k))
            && 0 <= i < r.len() implies (#[trigger] r[i]).dev_id != (#[trigger] devs[j]).dev_id by {
        if names_device(d, devs[j].dev_id) {
            let w = choose|w: int| 0 <= w < d.len() && (#[trigger] d[w]).usn == devs[j].dev_id;
            let k = choose|k: int|
                0 <= k < ms.len() && #[trigger] d[w] == ms[k] && forall|k2: int|
                    0 <= k2 < k ==> (#[trigger] ms[k2]).location != ms[k].location;
            assert(first_seen(ms, k));
            assert(ms[k].usn == devs[j].dev_id);
        }
    }
}

} // verus!
