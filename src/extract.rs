use vstd::prelude::*;
use vstd::utf8::{valid_utf8, decode_utf8};
use crate::device::{BtDeviceInfo, BtDeviceInfoView};
use crate::hive::{HiveTree, REG_DWORD, REG_QWORD};
use crate::mac::{fmt_mac, mac_of};
use crate::number::{decimal, decimal_string, hex_of, hex_string, le_number, le_value};
use crate::table::{lookup, table_view, unique_keys, upsert};

verus! {

/// Where the registry lists the paired devices with their names.
pub open spec fn devices_path() -> Seq<Seq<char>> {
    seq!["ControlSet001"@, "Services"@, "BTHPORT"@, "Parameters"@, "Devices"@]
}

/// Where the registry keeps the keys, one subkey per adapter and below it
/// one per remote device.
pub open spec fn keys_path() -> Seq<Seq<char>> {
    seq!["ControlSet001"@, "Services"@, "BTHPORT"@, "Parameters"@, "Keys"@]
}

/// The position of the first zero byte of `b` from `i` on, or its length.
pub open spec fn nul_from(b: Seq<u8>, i: int) -> int
    decreases b.len() - i,
{
    if i < 0 || i >= b.len() {
        b.len() as int
    } else if b[i] == 0 {
        i
    } else {
        nul_from(b, i + 1)
    }
}

/// The bytes of `b` before its first zero byte.
pub open spec fn before_nul(b: Seq<u8>) -> Seq<u8> {
    b.take(nul_from(b, 0))
}

/// The display name that the device key `c` gives: its inline `Name` value
/// up to the first zero byte, read as UTF-8; none where it is missing or
/// not valid UTF-8.
pub open spec fn name_entry(t: HiveTree, c: int) -> Option<Seq<char>> {
    match t.inline_value(c, "Name"@) {
        Some(b) => if valid_utf8(before_nul(b)) {
            Some(decode_utf8(before_nul(b)))
        } else {
            None
        },
        None => None,
    }
}

/// The names given by the first `j` subkeys of `d`, keyed by subkey name.
pub open spec fn names_upto(t: HiveTree, d: int, j: int) -> Map<Seq<char>, Seq<char>>
    decreases j,
{
    if j <= 0 {
        Map::empty()
    } else {
        let m = names_upto(t, d, j - 1);
        let c = t.subkeys_of(d)[j - 1] as int;
        match name_entry(t, c) {
            Some(n) => m.insert(t.name_of(c), n),
            None => m,
        }
    }
}

/// Raw device key name to display name, for every named device.
pub open spec fn name_index(t: HiveTree) -> Map<Seq<char>, Seq<char>> {
    match t.subpath_of(0, devices_path()) {
        Some(d) => names_upto(t, d, t.subkeys_of(d).len() as int),
        None => Map::empty(),
    }
}

/// A number declared of type `ty` and stored inline in exactly `width`
/// bytes; zero otherwise.
pub open spec fn fixed_number(t: HiveTree, n: int, name: Seq<char>, ty: u32, width: nat) -> nat {
    match t.typed_inline_value(n, name, ty) {
        Some(b) => if b.len() == width {
            le_value(b)
        } else {
            0
        },
        None => 0,
    }
}

/// The record that the key `d` yields: it needs a non-empty inline `LTK`
/// and a display name under its own name in `names`.
pub open spec fn record_of(t: HiveTree, d: int, names: Map<Seq<char>, Seq<char>>) -> Option<
    (Seq<char>, BtDeviceInfoView),
> {
    match t.inline_value(d, "LTK"@) {
        Some(l) => if l.len() > 0 && names.contains_key(t.name_of(d)) {
            Some(
                (
                    names[t.name_of(d)],
                    BtDeviceInfoView {
                        mac: mac_of(t.name_of(d)),
                        ltk: hex_of(l),
                        erand: decimal(fixed_number(t, d, "ERand"@, REG_QWORD, 8)),
                        ediv: decimal(fixed_number(t, d, "EDIV"@, REG_DWORD, 4)),
                    },
                ),
            )
        } else {
            None
        },
        None => None,
    }
}

/// `acc` with the records of the first `j` device keys of adapter `a` added.
pub open spec fn adapter_fold(
    t: HiveTree,
    a: int,
    j: int,
    names: Map<Seq<char>, Seq<char>>,
    acc: Map<Seq<char>, BtDeviceInfoView>,
) -> Map<Seq<char>, BtDeviceInfoView>
    decreases j,
{
    if j <= 0 {
        acc
    } else {
        let m = adapter_fold(t, a, j - 1, names, acc);
        match record_of(t, t.subkeys_of(a)[j - 1] as int, names) {
            Some(e) => m.insert(e.0, e.1),
            None => m,
        }
    }
}

/// The records of the first `k` adapters of the key `keys`.
pub open spec fn records_upto(
    t: HiveTree,
    keys: int,
    k: int,
    names: Map<Seq<char>, Seq<char>>,
) -> Map<Seq<char>, BtDeviceInfoView>
    decreases k,
{
    if k <= 0 {
        Map::empty()
    } else {
        let a = t.subkeys_of(keys)[k - 1] as int;
        adapter_fold(t, a, t.subkeys_of(a).len() as int, names, records_upto(t, keys, k - 1, names))
    }
}

/// Display name to record, over every adapter and device key, later
/// records replacing earlier ones of the same display name.
pub open spec fn device_records(t: HiveTree, names: Map<Seq<char>, Seq<char>>) -> Map<
    Seq<char>,
    BtDeviceInfoView,
> {
    match t.subpath_of(0, keys_path()) {
        Some(k) => records_upto(t, k, t.subkeys_of(k).len() as int, names),
        None => Map::empty(),
    }
}

/// Relies on `std::str::from_utf8`: it accepts exactly the valid UTF-8 byte
/// strings, and reads the characters they encode.
#[verifier::external_body]
fn utf8_text(b: &[u8]) -> (r: Option<String>)
    ensures
        r is Some <==> valid_utf8(b@),
        r is Some ==> r->0@ == decode_utf8(b@),
{
    match std::str::from_utf8(b) {
        Ok(s) => Some(s.to_string()),
        Err(_) => None,
    }
}

fn until_nul(b: &Vec<u8>) -> (r: Vec<u8>)
    ensures
        r@ == before_nul(b@),
{
    let mut r: Vec<u8> = Vec::new();
    let mut i: usize = 0;
    while i < b.len()
        invariant
            i <= b@.len(),
            r@ == b@.take(i as int),
            nul_from(b@, 0) == nul_from(b@, i as int),
        decreases b@.len() - i,
    {
        if b[i] == 0 {
            return r;
        }
        r.push(b[i]);
        assert(r@ =~= b@.take(i + 1));
        i = i + 1;
    }
    assert(r@ =~= b@.take(b@.len() as int));
    r
}

fn device_path() -> (r: [&'static str; 5])
    ensures
        r@.map_values(|p: &str| p@) == devices_path(),
{
    let r = ["ControlSet001", "Services", "BTHPORT", "Parameters", "Devices"];
    assert(r@.map_values(|p: &str| p@) =~= devices_path());
    r
}

fn key_path() -> (r: [&'static str; 5])
    ensures
        r@.map_values(|p: &str| p@) == keys_path(),
{
    let r = ["ControlSet001", "Services", "BTHPORT", "Parameters", "Keys"];
    assert(r@.map_values(|p: &str| p@) =~= keys_path());
    r
}

/// Builds the map from raw device key name to display name out of the
/// registry's list of paired devices. A device without an inline `Name`, or
/// with one that is not valid UTF-8, is left out; a missing list gives an
/// empty map.
pub fn get_bt_name_map(t: &HiveTree) -> (r: Vec<(String, String)>)
    requires
        t.wf(),
    ensures
        unique_keys(r@),
        table_view(r@) == name_index(*t),
{
    let mut r: Vec<(String, String)> = Vec::new();
    let path = device_path();
    let d = match t.subpath(t.root(), &path) {
        Some(d) => d,
        None => {
            return r;
        },
    };
    let subs = t.subkeys(d);
    let mut j: usize = 0;
    while j < subs.len()
        invariant
            t.wf(),
            d < t.nodes@.len(),
            subs@ == t.subkeys_of(d as int),
            j <= subs@.len(),
            unique_keys(r@),
            table_view(r@) == names_upto(*t, d as int, j as int),
        decreases subs@.len() - j,
    {
        let c = subs[j];
        if let Some(b) = t.inline_bytes(c, "Name") {
            let s = until_nul(b);
            if let Some(text) = utf8_text(s.as_slice()) {
                upsert(&mut r, t.nodes[c].name.clone(), text);
            }
        }
        j = j + 1;
    }
    r
}

/// The record that the device key `d` yields, with its display name.
fn device_record(t: &HiveTree, d: usize, names: &Vec<(String, String)>) -> (r: Option<
    (String, BtDeviceInfo),
>)
    requires
        t.wf(),
        d < t.nodes@.len(),
        unique_keys(names@),
    ensures
        r is Some <==> record_of(*t, d as int, table_view(names@)) is Some,
        r is Some ==> (r->0).0@ == (record_of(*t, d as int, table_view(names@))->0).0 && (
        r->0).1@ == (record_of(*t, d as int, table_view(names@))->0).1,
{
    let ltk = match t.inline_bytes(d, "LTK") {
        Some(l) => l,
        None => {
            return None;
        },
    };
    if ltk.len() == 0 {
        return None;
    }
    let name = t.nodes[d].name.as_str();
    let display = match lookup(names, name) {
        Some(n) => n.clone(),
        None => {
            return None;
        },
    };
    let erand: u64 = match t.typed_inline_bytes(d, "ERand", REG_QWORD) {
        Some(b) if b.len() == 8 => le_number(b.as_slice()),
        _ => 0,
    };
    let ediv: u64 = match t.typed_inline_bytes(d, "EDIV", REG_DWORD) {
        Some(b) if b.len() == 4 => le_number(b.as_slice()),
        _ => 0,
    };
    let info = BtDeviceInfo::new(
        fmt_mac(name),
        hex_string(ltk.as_slice()),
        decimal_string(erand),
        decimal_string(ediv),
    );
    Some((display, info))
}

/// Builds the map from display name to pairing record out of the registry's
/// keys: every device key below every adapter that has a non-empty inline
/// `LTK` and a name in `names` gives a record; a later record replaces an
/// earlier one of the same display name.
pub fn get_bt_device_info(t: &HiveTree, names: &Vec<(String, String)>) -> (r: Vec<
    (String, BtDeviceInfo),
>)
    requires
        t.wf(),
        unique_keys(names@),
    ensures
        unique_keys(r@),
        table_view(r@) == device_records(*t, table_view(names@)),
{
    let ghost nm = table_view(names@);
    let mut r: Vec<(String, BtDeviceInfo)> = Vec::new();
    let path = key_path();
    let keys = match t.subpath(t.root(), &path) {
        Some(k) => k,
        None => {
            return r;
        },
    };
    let adapters = t.subkeys(keys);
    let mut k: usize = 0;
    while k < adapters.len()
        invariant
            t.wf(),
            unique_keys(names@),
            nm == table_view(names@),
            keys < t.nodes@.len(),
            adapters@ == t.subkeys_of(keys as int),
            k <= adapters@.len(),
            unique_keys(r@),
            table_view(r@) == records_upto(*t, keys as int, k as int, nm),
        decreases adapters@.len() - k,
    {
        let a = adapters[k];
        let devs = t.subkeys(a);
        let ghost before = records_upto(*t, keys as int, k as int, nm);
        let mut j: usize = 0;
        while j < devs.len()
            invariant
                t.wf(),
                unique_keys(names@),
                nm == table_view(names@),
                a < t.nodes@.len(),
                devs@ == t.subkeys_of(a as int),
                j <= devs@.len(),
                unique_keys(r@),
                table_view(r@) == adapter_fold(*t, a as int, j as int, nm, before),
            decreases devs@.len() - j,
        {
            if let Some(e) = device_record(t, devs[j], names) {
                upsert(&mut r, e.0, e.1);
            }
            j = j + 1;
        }
        k = k + 1;
    }
    r
}

/// The pairing records that a registry key tree holds, by display name.
pub fn bluetooth_records(t: &HiveTree) -> (r: Vec<(String, BtDeviceInfo)>)
    requires
        t.wf(),
    ensures
        unique_keys(r@),
        table_view(r@) == device_records(*t, name_index(*t)),
{
    let names = get_bt_name_map(t);
    get_bt_device_info(t, &names)
}

} // verus!

verus! {

/// The display name of a record, if there is one.
pub open spec fn name_part(o: Option<(Seq<char>, BtDeviceInfoView)>) -> Seq<char> {
    match o {
        Some(e) => e.0,
        None => Seq::empty(),
    }
}

/// Device key `jj` of adapter `a` yields the record `v` under display name `n`.
pub open spec fn yields(
    t: HiveTree,
    a: int,
    jj: int,
    names: Map<Seq<char>, Seq<char>>,
    n: Seq<char>,
    v: BtDeviceInfoView,
) -> bool {
    0 <= jj < t.subkeys_of(a).len() && record_of(t, t.subkeys_of(a)[jj] as int, names) == Some((n, v))
}

/// Device key `jj` of adapter `kk` of the key `keys` yields `v` under `n`.
pub open spec fn keys_yield(
    t: HiveTree,
    keys: int,
    kk: int,
    jj: int,
    names: Map<Seq<char>, Seq<char>>,
    n: Seq<char>,
    v: BtDeviceInfoView,
) -> bool {
    0 <= kk < t.subkeys_of(keys).len() && yields(t, t.subkeys_of(keys)[kk] as int, jj, names, n, v)
}

proof fn lemma_adapter_fold(
    t: HiveTree,
    a: int,
    j: int,
    names: Map<Seq<char>, Seq<char>>,
    acc: Map<Seq<char>, BtDeviceInfoView>,
)
    requires
        0 <= j <= t.subkeys_of(a).len(),
    ensures
        forall|n: Seq<char>| acc.contains_key(n) ==> #[trigger] adapter_fold(t, a, j, names, acc).contains_key(n),
        forall|jj: int|
            0 <= jj < j && (#[trigger] record_of(t, t.subkeys_of(a)[jj] as int, names)) is Some
                ==> adapter_fold(t, a, j, names, acc).contains_key(
                name_part(record_of(t, t.subkeys_of(a)[jj] as int, names)),
            ),
        forall|n: Seq<char>|
            #[trigger] adapter_fold(t, a, j, names, acc).contains_key(n) ==> (exists|jj: int|
                0 <= jj < j && #[trigger] yields(t, a, jj, names, n, adapter_fold(t, a, j, names, acc)[n]))
                || (acc.contains_key(n) && adapter_fold(t, a, j, names, acc)[n] == acc[n]),
    decreases j,
{
    if j > 0 {
        lemma_adapter_fold(t, a, j - 1, names, acc);
        let m = adapter_fold(t, a, j - 1, names, acc);
        let f = adapter_fold(t, a, j, names, acc);
        let rec = record_of(t, t.subkeys_of(a)[j - 1] as int, names);
        assert forall|n: Seq<char>| #[trigger] f.contains_key(n) implies (exists|jj: int|
            0 <= jj < j && #[trigger] yields(t, a, jj, names, n, f[n])) || (acc.contains_key(n) && f[n]
            == acc[n]) by {
            if rec is Some && name_part(rec) == n {
                assert(yields(t, a, j - 1, names, n, f[n]));
            } else {
                assert(m.contains_key(n));
                assert(f[n] == m[n]);
                if !(acc.contains_key(n) && m[n] == acc[n]) {
                    let jj = choose|jj: int| 0 <= jj < j - 1 && #[trigger] yields(t, a, jj, names, n, m[n]);
                    assert(yields(t, a, jj, names, n, f[n]));
                }
            }
        }
        assert forall|jj: int|
            0 <= jj < j && (#[trigger] record_of(t, t.subkeys_of(a)[jj] as int, names)) is Some
                implies f.contains_key(name_part(record_of(t, t.subkeys_of(a)[jj] as int, names))) by {
            if jj < j - 1 {
                assert(m.contains_key(name_part(record_of(t, t.subkeys_of(a)[jj] as int, names))));
            }
        }
    }
}

proof fn lemma_records_upto(t: HiveTree, keys: int, k: int, names: Map<Seq<char>, Seq<char>>)
    requires
        0 <= k <= t.subkeys_of(keys).len(),
    ensures
        forall|n: Seq<char>|
            #[trigger] records_upto(t, keys, k, names).contains_key(n) ==> exists|kk: int, jj: int|
                0 <= kk < k && #[trigger] keys_yield(t, keys, kk, jj, names, n, records_upto(t, keys, k, names)[n]),
        forall|kk: int, jj: int|
            0 <= kk < k && 0 <= jj < t.subkeys_of(t.subkeys_of(keys)[kk] as int).len() && (#[trigger] record_of(
                t,
                t.subkeys_of(t.subkeys_of(keys)[kk] as int)[jj] as int,
                names,
            )) is Some ==> records_upto(t, keys, k, names).contains_key(
                name_part(record_of(t, t.subkeys_of(t.subkeys_of(keys)[kk] as int)[jj] as int, names)),
            ),
    decreases k,
{
    if k > 0 {
        lemma_records_upto(t, keys, k - 1, names);
        let prev = records_upto(t, keys, k - 1, names);
        let a = t.subkeys_of(keys)[k - 1] as int;
        let len = t.subkeys_of(a).len() as int;
        let r = records_upto(t, keys, k, names);
        assert(r == adapter_fold(t, a, len, names, prev));
        lemma_adapter_fold(t, a, len, names, prev);
        assert forall|n: Seq<char>| #[trigger] r.contains_key(n) implies exists|kk: int, jj: int|
            0 <= kk < k && #[trigger] keys_yield(t, keys, kk, jj, names, n, r[n]) by {
            if exists|jj: int| 0 <= jj < len && #[trigger] yields(t, a, jj, names, n, r[n]) {
                let jj = choose|jj: int| 0 <= jj < len && #[trigger] yields(t, a, jj, names, n, r[n]);
                assert(keys_yield(t, keys, k - 1, jj, names, n, r[n]));
            } else {
                assert(prev.contains_key(n) && r[n] == prev[n]);
                let (kk, jj) = choose|kk: int, jj: int|
                    0 <= kk < k - 1 && #[trigger] keys_yield(t, keys, kk, jj, names, n, prev[n]);
                assert(keys_yield(t, keys, kk, jj, names, n, r[n]));
            }
        }
        assert forall|kk: int, jj: int|
            0 <= kk < k && 0 <= jj < t.subkeys_of(t.subkeys_of(keys)[kk] as int).len() && (#[trigger] record_of(
                t,
                t.subkeys_of(t.subkeys_of(keys)[kk] as int)[jj] as int,
                names,
            )) is Some implies r.contains_key(
                name_part(record_of(t, t.subkeys_of(t.subkeys_of(keys)[kk] as int)[jj] as int, names)),
            ) by {
            if kk < k - 1 {
                assert(prev.contains_key(
                    name_part(record_of(t, t.subkeys_of(t.subkeys_of(keys)[kk] as int)[jj] as int, names)),
                ));
            }
        }
    }
}

/// Every extracted record comes from a device key below an adapter of the
/// `Keys` list: that key has a non-empty inline `LTK` and a display name,
/// and the record holds its address and key as `record_of` gives them.
/// Every such device key has its display name among the records (a later
/// key of the same display name may have replaced its record). Without a
/// `Keys` list there are no records.
pub proof fn records_come_from_device_keys(t: HiveTree, names: Map<Seq<char>, Seq<char>>)
    ensures
        t.subpath_of(0, keys_path()) is None ==> device_records(t, names) == Map::<
            Seq<char>,
            BtDeviceInfoView,
        >::empty(),
        t.subpath_of(0, keys_path()) is Some ==> {
            let keys = t.subpath_of(0, keys_path())->0;
            let m = device_records(t, names);
            &&& forall|n: Seq<char>|
                #[trigger] m.contains_key(n) ==> exists|kk: int, jj: int|
                    #[trigger] keys_yield(t, keys, kk, jj, names, n, m[n])
            &&& forall|kk: int, jj: int|
                0 <= kk < t.subkeys_of(keys).len() && 0 <= jj < t.subkeys_of(
                    t.subkeys_of(keys)[kk] as int,
                ).len() && (#[trigger] record_of(
                    t,
                    t.subkeys_of(t.subkeys_of(keys)[kk] as int)[jj] as int,
                    names,
                )) is Some ==> m.contains_key(
                    name_part(record_of(t, t.subkeys_of(t.subkeys_of(keys)[kk] as int)[jj] as int, names)),
                )
        },
{
    if t.subpath_of(0, keys_path()) is Some {
        let keys = t.subpath_of(0, keys_path())->0;
        lemma_records_upto(t, keys, t.subkeys_of(keys).len() as int, names);
    }
}

} // verus!
