use vstd::prelude::*;
use crate::hive::{HiveTree, RegistryKeyNode, RegistryValue};

verus! {

/// Why a hive could not be read.
#[derive(Debug, Clone, Copy, PartialEq, Eq)]
pub enum HiveReadError {
    /// The bytes are not a structurally valid hive: bad signature, truncated
    /// data or offsets that point nowhere, or a key reported more subkeys
    /// than were asked of it.
    Malformed,
    /// The keys reached outnumber the bytes of the hive, which only a hive
    /// whose keys refer to each other in a cycle can do.
    TooManyKeys,
}

/// How many levels below the root the Bluetooth parameters key stands.
pub const PARAMETERS_DEPTH: usize = 4;

/// How many levels below the root are read: the parameters key, its
/// subkeys (`Devices`, `Keys`), theirs (devices, adapters) and those of the
/// adapters (devices).
pub const READ_DEPTH: usize = 7;

/// What to ask of a key about its subkeys.
#[derive(Debug, Clone, PartialEq, Eq)]
pub enum KeyWant {
    /// Only the subkey of this name, if there is one.
    Subkey(String),
    /// All subkeys, in on-disk order.
    AllSubkeys,
    /// No subkey.
    NoSubkeys,
}

/// The name of the key at `depth` on the path down to the parameters key.
pub open spec fn path_segment(depth: nat) -> Seq<char> {
    if depth == 0 {
        "ControlSet001"@
    } else if depth == 1 {
        "Services"@
    } else if depth == 2 {
        "BTHPORT"@
    } else {
        "Parameters"@
    }
}

/// At most how many subkeys a key at `depth` may report.
pub open spec fn subkey_limit(depth: nat, found: nat) -> bool {
    if depth < PARAMETERS_DEPTH {
        found <= 1
    } else if depth < READ_DEPTH {
        true
    } else {
        found == 0
    }
}

/// Reads the Bluetooth part of a registry hive into a key tree, one key at
/// a time: the keys on the path `ControlSet001\Services\BTHPORT\Parameters`,
/// then everything below the last of them down to the devices of each
/// adapter. Keys are numbered in the order they are found, the root first;
/// the reader of the hive asks [`HiveLoad::next_key`] which key to read and
/// [`HiveLoad::want`] which of its subkeys to report, and hands over what it
/// read with [`HiveLoad::deliver`].
pub struct HiveLoad {
    /// The keys read so far, in key order.
    pub nodes: Vec<RegistryKeyNode>,
    /// The depth of every key found so far, read or not.
    pub depths: Vec<usize>,
    /// At most how many keys may be found beside the root.
    pub cap: usize,
}

impl HiveLoad {
    pub open spec fn wf(&self) -> bool {
        &&& 1 <= self.depths@.len() <= self.cap + 1
        &&& self.nodes@.len() <= self.depths@.len()
        &&& forall|n: int, j: int|
            0 <= n < self.nodes@.len() && 0 <= j < self.nodes@[n].subkeys@.len()
                ==> #[trigger] self.nodes@[n].subkeys@[j] < self.depths@.len()
    }

    /// A load of a hive of `cap` bytes, which has found only its root.
    pub fn new(cap: usize) -> (r: HiveLoad)
        ensures
            r.wf(),
            r.nodes@.len() == 0,
            r.depths@ == seq![0usize],
            r.cap == cap,
    {
        let mut depths: Vec<usize> = Vec::new();
        depths.push(0);
        HiveLoad { nodes: Vec::new(), depths, cap }
    }

    /// The next key to read, if one was found and not read yet.
    pub fn next_key(&self) -> (r: Option<usize>)
        requires
            self.wf(),
        ensures
            r is Some <==> self.nodes@.len() < self.depths@.len(),
            r is Some ==> r->0 == self.nodes@.len(),
    {
        if self.nodes.len() < self.depths.len() {
            Some(self.nodes.len())
        } else {
            None
        }
    }

    /// Which subkeys of key `k` to report: on the path, the one of the next
    /// name; below it, all of them down to the read depth; then none.
    pub fn want(&self, k: usize) -> (r: KeyWant)
        requires
            self.wf(),
            k < self.depths@.len(),
        ensures
            ({
                let d = self.depths@[k as int] as nat;
                &&& d < PARAMETERS_DEPTH ==> r is Subkey && r->Subkey_0@ == path_segment(d)
                &&& PARAMETERS_DEPTH <= d < READ_DEPTH ==> r is AllSubkeys
                &&& d >= READ_DEPTH ==> r is NoSubkeys
            }),
    {
        let d = self.depths[k];
        if d == 0 {
            KeyWant::Subkey(String::from_str("ControlSet001"))
        } else if d == 1 {
            KeyWant::Subkey(String::from_str("Services"))
        } else if d == 2 {
            KeyWant::Subkey(String::from_str("BTHPORT"))
        } else if d < PARAMETERS_DEPTH {
            KeyWant::Subkey(String::from_str("Parameters"))
        } else if d < READ_DEPTH {
            KeyWant::AllSubkeys
        } else {
            KeyWant::NoSubkeys
        }
    }

    /// Records the key that [`HiveLoad::next_key`] named: its name, its
    /// values, and how many subkeys were found for it. The subkeys take the
    /// next free key numbers, in the order they were found, one level
    /// deeper. More subkeys than [`HiveLoad::want`] asked for is
    /// `Malformed`; more keys than the cap is `TooManyKeys`; either way
    /// nothing changes.
    pub fn deliver(&mut self, name: String, values: Vec<RegistryValue>, found: usize) -> (r: Result<
        (),
        HiveReadError,
    >)
        requires
            old(self).wf(),
            old(self).nodes@.len() < old(self).depths@.len(),
        ensures
            final(self).wf(),
            final(self).cap == old(self).cap,
            ({
                let k = old(self).nodes@.len() as int;
                let d = old(self).depths@[k] as nat;
                let start = old(self).depths@.len();
                &&& !subkey_limit(d, found as nat) ==> r == Err::<(), HiveReadError>(
                    HiveReadError::Malformed,
                )
                &&& subkey_limit(d, found as nat) && start + found > old(self).cap + 1 ==> r
                    == Err::<(), HiveReadError>(HiveReadError::TooManyKeys)
                &&& r is Err ==> *final(self) == *old(self)
                &&& r is Ok <==> subkey_limit(d, found as nat) && start + found <= old(self).cap + 1
                &&& r is Ok ==> {
                    &&& final(self).nodes@.len() == k + 1
                    &&& final(self).nodes@.take(k) == old(self).nodes@
                    &&& final(self).nodes@[k].name@ == name@
                    &&& final(self).nodes@[k].values@ == values@
                    &&& final(self).nodes@[k].subkeys@ == Seq::new(
                        found as nat,
                        |j: int| (start + j) as usize,
                    )
                    &&& final(self).depths@ == old(self).depths@ + Seq::new(
                        found as nat,
                        |j: int| (d + 1) as usize,
                    )
                }
            }),
    {
        let k = self.nodes.len();
        let d = self.depths[k];
        let allowed = if d < PARAMETERS_DEPTH {
            found <= 1
        } else if d < READ_DEPTH {
            true
        } else {
            found == 0
        };
        if !allowed {
            return Err(HiveReadError::Malformed);
        }
        let start = self.depths.len();
        let room = self.cap - (start - 1);
        if found > room {
            return Err(HiveReadError::TooManyKeys);
        }
        let ghost old_depths = self.depths@;
        let mut subkeys: Vec<usize> = Vec::new();
        let mut j: usize = 0;
        while j < found
            invariant
                j <= found,
                self.nodes@ == old(self).nodes@,
                self.cap == old(self).cap,
                k == self.nodes@.len(),
                start + found <= self.cap + 1,
                self.depths@.len() == start + j,
                self.depths@ == old_depths + Seq::new(j as nat, |i: int| (d + 1) as usize),
                subkeys@ == Seq::new(j as nat, |i: int| (start + i) as usize),
                found == 0 || d < READ_DEPTH,
            decreases found - j,
        {
            subkeys.push(start + j);
            self.depths.push(d + 1);
            proof {
                assert(subkeys@ =~= Seq::new((j + 1) as nat, |i: int| (start + i) as usize));
                assert(self.depths@ =~= old_depths + Seq::new((j + 1) as nat, |i: int| (d + 1) as usize));
            }
            j = j + 1;
        }
        let ghost old_nodes = self.nodes@;
        let ghost sk = subkeys@;
        self.nodes.push(RegistryKeyNode { name, subkeys, values });
        proof {
            assert(self.nodes@.take(k as int) =~= old_nodes);
            assert forall|n: int, i: int|
                0 <= n < self.nodes@.len() && 0 <= i < self.nodes@[n].subkeys@.len()
                    implies #[trigger] self.nodes@[n].subkeys@[i] < self.depths@.len() by {
                if n < k {
                    assert(self.nodes@[n] == old_nodes[n]);
                    assert(old_nodes[n].subkeys@[i] < old_depths.len());
                } else {
                    assert(self.nodes@[n].subkeys@ == sk);
                    assert(sk[i] == start + i);
                }
            }
        }
        Ok(())
    }

    /// The key tree, once every key found has been read.
    pub fn finish(self) -> (r: HiveTree)
        requires
            self.wf(),
            self.nodes@.len() == self.depths@.len(),
        ensures
            r.wf(),
            r.nodes@ == self.nodes@,
    {
        HiveTree { nodes: self.nodes }
    }
}

} // verus!
