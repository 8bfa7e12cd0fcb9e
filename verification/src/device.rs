//! The device lists the settings window shows: instances seen on the
//! network that are not paired yet, and the paired devices with their state.

use vstd::prelude::*;
use crate::store::StoredDevice;
use crate::text::{
    has_sub, matches_at, matches_at_exec, str_chars, str_contains, str_eq,
    string_from_chars, sub_chars,
};
use crate::types::{NearbyDevice, PairedDevice};

verus! {

/// A LanPaste instance announced on the local network.
#[derive(Clone, Debug)]
pub struct NearbyInfo {
    pub instance_id: String,
    pub name: String,
    pub fingerprint: String,
    pub host: String,
    pub port: u16,
}

impl NearbyInfo {
    /// A copy of the record.
    pub fn copy(&self) -> (r: NearbyInfo)
        ensures
            r == *self,
    {
        NearbyInfo {
            instance_id: self.instance_id.clone(),
            name: self.name.clone(),
            fingerprint: self.fingerprint.clone(),
            host: self.host.clone(),
            port: self.port,
        }
    }
}

/// Whether an instance with this id is seen nearby.
pub open spec fn seen(nearby: Seq<NearbyInfo>, id: Seq<char>) -> bool {
    exists|k: int| 0 <= k < nearby.len() && nearby[k].instance_id@ == id
}

/// Whether `id` is among `ids`.
pub open spec fn listed(ids: Seq<String>, id: Seq<char>) -> bool {
    exists|k: int| 0 <= k < ids.len() && ids[k]@ == id
}

/// The nearby instances worth offering for pairing: not this device, not
/// paired already, in the order they are held.
pub open spec fn offered(nearby: Seq<NearbyInfo>, paired_ids: Seq<String>, self_id: Seq<char>) -> Seq<
    NearbyInfo,
>
    decreases nearby.len(),
{
    if nearby.len() == 0 {
        seq![]
    } else {
        let rest = offered(nearby.drop_last(), paired_ids, self_id);
        let n = nearby.last();
        if n.instance_id@ != self_id && !listed(paired_ids, n.instance_id@) {
            rest.push(n)
        } else {
            rest
        }
    }
}

/// What is offered for pairing is exactly the nearby devices that are
/// neither this device nor paired: none of them is this device or has the
/// id of any paired device, and each nearby device that is neither is
/// offered.
pub proof fn lemma_offered_exactly(
    nearby: Seq<NearbyInfo>,
    paired_ids: Seq<String>,
    self_id: Seq<char>,
)
    ensures
        forall|k: int|
            0 <= k < offered(nearby, paired_ids, self_id).len() ==> {
                let n = #[trigger] offered(nearby, paired_ids, self_id)[k];
                &&& nearby.contains(n)
                &&& n.instance_id@ != self_id
                &&& forall|j: int| 0 <= j < paired_ids.len() ==> paired_ids[j]@ != n.instance_id@
            },
        forall|i: int|
            0 <= i < nearby.len() && (#[trigger] nearby[i]).instance_id@ != self_id && (forall|j: int|
                0 <= j < paired_ids.len() ==> paired_ids[j]@ != nearby[i].instance_id@) ==> offered(
                nearby,
                paired_ids,
                self_id,
            ).contains(nearby[i]),
    decreases nearby.len(),
{
    if nearby.len() > 0 {
        let init = nearby.drop_last();
        lemma_offered_exactly(init, paired_ids, self_id);
        let rest = offered(init, paired_ids, self_id);
        let o = offered(nearby, paired_ids, self_id);
        let last = nearby.last();
        assert forall|k: int| 0 <= k < o.len() implies {
            let n = #[trigger] o[k];
            &&& nearby.contains(n)
            &&& n.instance_id@ != self_id
            &&& forall|j: int| 0 <= j < paired_ids.len() ==> paired_ids[j]@ != n.instance_id@
        } by {
            if k < rest.len() {
                assert(o[k] == rest[k]);
                let t = choose|t: int| 0 <= t < init.len() && init[t] == rest[k];
                assert(nearby[t] == init[t]);
            } else {
                assert(o[k] == last);
                assert(nearby[nearby.len() - 1] == last);
                assert forall|j: int| 0 <= j < paired_ids.len() implies paired_ids[j]@
                    != last.instance_id@ by {
                    if paired_ids[j]@ == last.instance_id@ {
                        assert(listed(paired_ids, last.instance_id@));
                    }
                }
            }
        }
        assert forall|i: int|
            0 <= i < nearby.len() && (#[trigger] nearby[i]).instance_id@ != self_id && (forall|j: int|
                0 <= j < paired_ids.len() ==> paired_ids[j]@ != nearby[i].instance_id@) implies o.contains(
            nearby[i],
        ) by {
            if i < nearby.len() - 1 {
                assert(init[i] == nearby[i]);
                assert(rest.contains(init[i]));
                let t = choose|t: int| 0 <= t < rest.len() && rest[t] == init[i];
                if !(last.instance_id@ != self_id && !listed(paired_ids, last.instance_id@)) {
                    assert(o == rest);
                } else {
                    assert(o[t] == rest[t]);
                }
            } else {
                assert(nearby[i] == last);
                assert(!listed(paired_ids, last.instance_id@));
                assert(o[o.len() - 1] == last);
            }
        }
    }
}

fn is_listed(ids: &[String], id: &String) -> (r: bool)
    ensures
        r == listed(ids@, id@),
{
    let n = ids.len();
    let mut i: usize = 0;
    while i < n
        invariant
            n == ids@.len(),
            i <= n,
            forall|j: int| 0 <= j < i ==> ids@[j]@ != id@,
        decreases n - i,
    {
        if ids[i] == *id {
            return true;
        }
        i = i + 1;
    }
    false
}

/// The nearby instances to offer for pairing, as the UI lists them.
pub fn nearby_list(nearby: &[NearbyInfo], paired_ids: &[String], self_id: &str) -> (r: Vec<
    NearbyDevice,
>)
    ensures
        r@.len() == offered(nearby@, paired_ids@, self_id@).len(),
        forall|k: int|
            0 <= k < r@.len() ==> {
                let n = offered(nearby@, paired_ids@, self_id@)[k];
                &&& (#[trigger] r@[k]).instance_id == n.instance_id
                &&& r@[k].name == n.name
                &&& r@[k].fingerprint == n.fingerprint
            },
        forall|k: int|
            0 <= k < r@.len() ==> (#[trigger] r@[k]).instance_id@ != self_id@ && forall|j: int|
                0 <= j < paired_ids@.len() ==> paired_ids@[j]@ != r@[k].instance_id@,
        forall|i: int|
            0 <= i < nearby@.len() && (#[trigger] nearby@[i]).instance_id@ != self_id@ && (forall|
                j: int,
            | 0 <= j < paired_ids@.len() ==> paired_ids@[j]@ != nearby@[i].instance_id@)
                ==> exists|k: int|
                0 <= k < r@.len() && r@[k].instance_id == nearby@[i].instance_id,
{
    let len = nearby.len();
    let mut out: Vec<NearbyDevice> = Vec::new();
    let ghost mut picked: Seq<NearbyInfo> = seq![];
    let mut i: usize = 0;
    while i < len
        invariant
            len == nearby@.len(),
            i <= len,
            picked == offered(nearby@.subrange(0, i as int), paired_ids@, self_id@),
            out@.len() == picked.len(),
            forall|k: int|
                0 <= k < out@.len() ==> {
                    &&& (#[trigger] out@[k]).instance_id == picked[k].instance_id
                    &&& out@[k].name == picked[k].name
                    &&& out@[k].fingerprint == picked[k].fingerprint
                },
        decreases len - i,
    {
        let n = &nearby[i];
        proof {
            assert(nearby@.subrange(0, i + 1).drop_last() =~= nearby@.subrange(0, i as int));
        }
        if !str_eq(n.instance_id.as_str(), self_id) && !is_listed(paired_ids, &n.instance_id) {
            let d = NearbyDevice {
                instance_id: n.instance_id.clone(),
                name: n.name.clone(),
                fingerprint: n.fingerprint.clone(),
            };
            let ghost before = out@;
            out.push(d);
            proof {
                picked = picked.push(*n);
                assert forall|k: int| 0 <= k < out@.len() implies {
                    &&& (#[trigger] out@[k]).instance_id == picked[k].instance_id
                    &&& out@[k].name == picked[k].name
                    &&& out@[k].fingerprint == picked[k].fingerprint
                } by {
                    if k < before.len() {
                        assert(out@[k] == before[k]);
                    }
                }
            }
        }
        i = i + 1;
    }
    assert(nearby@.subrange(0, len as int) =~= nearby@);
    proof {
        lemma_offered_exactly(nearby@, paired_ids@, self_id@);
        let o = offered(nearby@, paired_ids@, self_id@);
        assert forall|k: int| 0 <= k < out@.len() implies (#[trigger] out@[k]).instance_id@
            != self_id@ && forall|j: int|
            0 <= j < paired_ids@.len() ==> paired_ids@[j]@ != out@[k].instance_id@ by {
            assert(out@[k].instance_id == o[k].instance_id);
        }
        assert forall|i: int|
            0 <= i < nearby@.len() && (#[trigger] nearby@[i]).instance_id@ != self_id@ && (forall|
                j: int,
            | 0 <= j < paired_ids@.len() ==> paired_ids@[j]@ != nearby@[i].instance_id@) implies exists|
            k: int,
        | 0 <= k < out@.len() && out@[k].instance_id == nearby@[i].instance_id by {
            assert(o.contains(nearby@[i]));
            let k = choose|k: int| 0 <= k < o.len() && o[k] == nearby@[i];
            assert(out@[k].instance_id == o[k].instance_id);
        }
    }
    out
}

fn is_seen(nearby: &[NearbyInfo], id: &String) -> (r: bool)
    ensures
        r == seen(nearby@, id@),
{
    let n = nearby.len();
    let mut i: usize = 0;
    while i < n
        invariant
            n == nearby@.len(),
            i <= n,
            forall|j: int| 0 <= j < i ==> nearby@[j].instance_id@ != id@,
        decreases n - i,
    {
        if nearby[i].instance_id == *id {
            return true;
        }
        i = i + 1;
    }
    false
}

/// The paired devices as the UI lists them: a device is online when it is
/// seen on the network.
pub fn paired_list(devices: &[StoredDevice], nearby: &[NearbyInfo]) -> (r: Vec<PairedDevice>)
    ensures
        r@.len() == devices@.len(),
        forall|k: int|
            0 <= k < r@.len() ==> {
                let d = devices@[k];
                &&& (#[trigger] r@[k]).instance_id == d.instance_id
                &&& r@[k].name == d.name
                &&& r@[k].note == d.note
                &&& r@[k].online == seen(nearby@, d.instance_id@)
                &&& r@[k].allow_send == d.allow_send
                &&& r@[k].allow_receive == d.allow_receive
                &&& r@[k].auto_write_clipboard == d.auto_write_clipboard
                &&& r@[k].trust_broken == d.trust_broken
            },
{
    let n = devices.len();
    let mut out: Vec<PairedDevice> = Vec::new();
    let mut i: usize = 0;
    while i < n
        invariant
            n == devices@.len(),
            i <= n,
            out@.len() == i,
            forall|k: int|
                0 <= k < i ==> {
                    let d = devices@[k];
                    &&& (#[trigger] out@[k]).instance_id == d.instance_id
                    &&& out@[k].name == d.name
                    &&& out@[k].note == d.note
                    &&& out@[k].online == seen(nearby@, d.instance_id@)
                    &&& out@[k].allow_send == d.allow_send
                    &&& out@[k].allow_receive == d.allow_receive
                    &&& out@[k].auto_write_clipboard == d.auto_write_clipboard
                    &&& out@[k].trust_broken == d.trust_broken
                },
        decreases n - i,
    {
        let d = &devices[i];
        let p = PairedDevice {
            instance_id: d.instance_id.clone(),
            name: d.name.clone(),
            note: d.note.clone(),
            online: is_seen(nearby, &d.instance_id),
            allow_send: d.allow_send,
            allow_receive: d.allow_receive,
            auto_write_clipboard: d.auto_write_clipboard,
            trust_broken: d.trust_broken,
        };
        out.push(p);
        i = i + 1;
    }
    out
}

/// Where a nearby instance can be reached, if it is seen.
pub fn nearby_address(nearby: &[NearbyInfo], id: &str) -> (r: Option<(String, u16)>)
    ensures
        match r {
            Some((h, p)) => exists|k: int|
                0 <= k < nearby@.len() && nearby@[k].instance_id@ == id@ && nearby@[k].host == h
                    && nearby@[k].port == p && forall|j: int|
                    0 <= j < k ==> nearby@[j].instance_id@ != id@,
            None => !seen(nearby@, id@),
        },
{
    let n = nearby.len();
    let mut i: usize = 0;
    while i < n
        invariant
            n == nearby@.len(),
            i <= n,
            forall|j: int| 0 <= j < i ==> nearby@[j].instance_id@ != id@,
        decreases n - i,
    {
        if str_eq(nearby[i].instance_id.as_str(), id) {
            return Some((nearby[i].host.clone(), nearby[i].port));
        }
        i = i + 1;
    }
    None
}

/// No two nearby instances share an id.
pub open spec fn distinct_ids(nearby: Seq<NearbyInfo>) -> bool {
    forall|i: int, j: int|
        0 <= i < nearby.len() && 0 <= j < nearby.len() && i != j ==> nearby[i].instance_id@
            != nearby[j].instance_id@
}

/// Record an announced instance: it replaces the entry with its id, or is
/// added at the end when its id is new.
pub fn nearby_upsert(nearby: &mut Vec<NearbyInfo>, info: NearbyInfo)
    ensures
        seen(old(nearby)@, info.instance_id@) ==> exists|k: int|
            0 <= k < old(nearby)@.len() && old(nearby)@[k].instance_id@ == info.instance_id@
                && final(nearby)@ == old(nearby)@.update(k, info),
        !seen(old(nearby)@, info.instance_id@) ==> final(nearby)@ == old(nearby)@.push(info),
        seen(final(nearby)@, info.instance_id@),
        distinct_ids(old(nearby)@) ==> distinct_ids(final(nearby)@),
{
    let n = nearby.len();
    let mut i: usize = 0;
    while i < n
        invariant
            n == nearby@.len(),
            *nearby == *old(nearby),
            i <= n,
            forall|j: int| 0 <= j < i ==> nearby@[j].instance_id@ != info.instance_id@,
        decreases n - i,
    {
        if str_eq(nearby[i].instance_id.as_str(), info.instance_id.as_str()) {
            let ghost before = nearby@;
            nearby.set(i, info);
            assert(nearby@[i as int].instance_id@ == info.instance_id@);
            proof {
                if distinct_ids(before) {
                    assert forall|a: int, b: int|
                        0 <= a < nearby@.len() && 0 <= b < nearby@.len() && a != b implies
                        #[trigger] nearby@[a].instance_id@ != #[trigger] nearby@[b].instance_id@ by {
                        if a == i as int {
                            assert(before[i as int].instance_id@ == info.instance_id@);
                        } else if b == i as int {
                            assert(before[i as int].instance_id@ == info.instance_id@);
                        }
                    }
                }
            }
            return;
        }
        i = i + 1;
    }
    let ghost before = nearby@;
    nearby.push(info);
    assert(nearby@[n as int].instance_id@ == info.instance_id@);
}

/// The nearby instances left when the service called `fullname` goes away:
/// those whose id does not occur in that name.
pub open spec fn after_removal(nearby: Seq<NearbyInfo>, fullname: Seq<char>) -> Seq<NearbyInfo>
    decreases nearby.len(),
{
    if nearby.len() == 0 {
        seq![]
    } else {
        let rest = after_removal(nearby.drop_last(), fullname);
        if has_sub(fullname, nearby.last().instance_id@) {
            rest
        } else {
            rest.push(nearby.last())
        }
    }
}

/// Forget the instances a removed service named `fullname` stood for.
pub fn nearby_remove_service(nearby: &mut Vec<NearbyInfo>, fullname: &str)
    ensures
        final(nearby)@ == after_removal(old(nearby)@, fullname@),
{
    let mut src: Vec<NearbyInfo> = Vec::new();
    std::mem::swap(&mut src, nearby);
    let n = src.len();
    let mut i: usize = 0;
    assert(src@.subrange(0, 0) =~= seq![]);
    while i < n
        invariant
            n == src@.len(),
            src@ == old(nearby)@,
            i <= n,
            nearby@ == after_removal(src@.subrange(0, i as int), fullname@),
        decreases n - i,
    {
        assert(src@.subrange(0, i as int + 1).drop_last() =~= src@.subrange(0, i as int));
        if !str_contains(fullname, src[i].instance_id.as_str()) {
            nearby.push(src[i].copy());
        }
        i = i + 1;
    }
    assert(src@.subrange(0, n as int) =~= src@);
}

/// A host name with its trailing dots removed.
pub open spec fn trim_dots(s: Seq<char>) -> Seq<char>
    decreases s.len(),
{
    if s.len() > 0 && s.last() == '.' {
        trim_dots(s.drop_last())
    } else {
        s
    }
}

/// What is left of `s` before a final `.local`, if it ends so.
pub open spec fn strip_local(s: Seq<char>) -> Option<Seq<char>> {
    if s.len() >= 6 && s.subrange(s.len() - 6, s.len() as int) == ".local"@ {
        Some(s.subrange(0, s.len() - 6))
    } else {
        None
    }
}

/// The address to reach an announced instance at: its first IPv4 address,
/// else its host name without trailing dots and without `.local`, else
/// nothing.
pub open spec fn service_host(first_v4: Option<Seq<char>>, hostname: Seq<char>) -> Seq<char> {
    match first_v4 {
        Some(ip) => ip,
        None => match strip_local(trim_dots(hostname)) {
            Some(h) => h,
            None => seq![],
        },
    }
}

fn service_host_exec(first_v4: Option<String>, hostname: &str) -> (r: String)
    ensures
        r@ == service_host(
            match first_v4 {
                Some(ip) => Some(ip@),
                None => None,
            },
            hostname@,
        ),
{
    match first_v4 {
        Some(ip) => ip,
        None => {
            let v = str_chars(hostname);
            let mut end: usize = v.len();
            assert(v@.subrange(0, v@.len() as int) =~= v@);
            while end > 0 && v[end - 1] == '.'
                invariant
                    end <= v@.len(),
                    trim_dots(v@) == trim_dots(v@.subrange(0, end as int)),
                decreases end,
            {
                assert(v@.subrange(0, end as int).drop_last() =~= v@.subrange(0, end as int - 1));
                end = end - 1;
            }
            assert(v@.subrange(0, end as int) == trim_dots(v@)) by {
                assert(v@.subrange(0, v@.len() as int) =~= v@);
            }
            let suffix = str_chars(".local");
            proof {
                reveal_strlit(".local");
            }
            if end >= 6 && matches_at_exec(&v, end - 6, &suffix) {
                let ghost t = v@.subrange(0, end as int);
                assert(t.subrange(t.len() - 6, t.len() as int) =~= v@.subrange(end - 6, end as int));
                let h = sub_chars(&v, 0, end - 6);
                assert(h@ =~= t.subrange(0, t.len() - 6));
                string_from_chars(&h)
            } else {
                proof {
                    let t = v@.subrange(0, end as int);
                    if t.len() >= 6 {
                        assert(t.subrange(t.len() - 6, t.len() as int) =~= v@.subrange(end - 6, end as int));
                    }
                }
                String::new()
            }
        },
    }
}

/// The nearby record of a resolved service announcement: its `id`, `name`
/// (`LanPaste` when missing) and `fp` properties, where it can be reached,
/// and its port. Nothing for an announcement without an id, or with this
/// device's own id.
pub fn nearby_from_service(
    id: Option<&str>,
    name: Option<&str>,
    fp: Option<&str>,
    first_v4: Option<String>,
    hostname: &str,
    port: u16,
    self_id: &str,
) -> (r: Option<NearbyInfo>)
    ensures
        match r {
            Some(n) => id matches Some(i) && i@.len() > 0 && i@ != self_id@ && n.instance_id@ == i@
                && n.name@ == match name {
                Some(x) => x@,
                None => "LanPaste"@,
            } && n.fingerprint@ == match fp {
                Some(x) => x@,
                None => seq![],
            } && n.host@ == service_host(
                match first_v4 {
                    Some(ip) => Some(ip@),
                    None => None,
                },
                hostname@,
            ) && n.port == port,
            None => match id {
                Some(i) => i@.len() == 0 || i@ == self_id@,
                None => true,
            },
        },
{
    let i = match id {
        Some(i) => i,
        None => return None,
    };
    if str_chars(i).len() == 0 || str_eq(i, self_id) {
        return None;
    }
    let name_s = match name {
        Some(x) => x.to_string(),
        None => "LanPaste".to_string(),
    };
    let fp_s = match fp {
        Some(x) => x.to_string(),
        None => String::new(),
    };
    let host = service_host_exec(first_v4, hostname);
    Some(NearbyInfo { instance_id: i.to_string(), name: name_s, fingerprint: fp_s, host, port })
}

/// The name this device announces its host under: the host name, with
/// `.local.` appended unless it already ends so.
pub fn mdns_host_name(host: &str) -> (r: String)
    ensures
        r@ == if host@.len() >= 7 && host@.subrange(host@.len() - 7, host@.len() as int)
            == ".local."@ {
            host@
        } else {
            host@ + ".local."@
        },
{
    let v = str_chars(host);
    let suffix = str_chars(".local.");
    proof {
        reveal_strlit(".local.");
    }
    if v.len() >= 7 && matches_at_exec(&v, v.len() - 7, &suffix) {
        host.to_string()
    } else {
        let mut out = v;
        crate::text::push_all(&mut out, &suffix);
        proof {
            if host@.len() >= 7 {
                assert(!matches_at(host@, host@.len() - 7, ".local."@));
            }
        }
        string_from_chars(&out)
    }
}

/// The service instance name: the first 15 characters of the instance id.
pub fn mdns_instance_name(instance_id: &str) -> (r: String)
    ensures
        r@ == if instance_id@.len() <= 15 {
            instance_id@
        } else {
            instance_id@.subrange(0, 15)
        },
{
    let v = str_chars(instance_id);
    if v.len() <= 15 {
        assert(v@.subrange(0, v@.len() as int) =~= v@);
        string_from_chars(&sub_chars(&v, 0, v.len()))
    } else {
        string_from_chars(&sub_chars(&v, 0, 15))
    }
}

} // verus!
