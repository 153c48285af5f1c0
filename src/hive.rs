use vstd::prelude::*;
use crate::text::{upper, upper_char_exec};

verus! {

/// The payload of a registry value: stored inline for small values, or in
/// segments for large ones.
#[derive(Debug, Clone)]
pub enum HiveValue {
    Inline(Vec<u8>),
    Segmented(Vec<Vec<u8>>),
}

/// The declared type of a 32-bit number value.
pub const REG_DWORD: u32 = 4;

/// The declared type of a 64-bit number value.
pub const REG_QWORD: u32 = 11;

/// A named value of a key, with the type code that the hive declares for it.
#[derive(Debug, Clone)]
pub struct RegistryValue {
    pub name: String,
    pub data_type: u32,
    pub data: HiveValue,
}

/// A key of the tree: its name, the indices of its subkeys in on-disk
/// order, and its values.
#[derive(Debug, Clone)]
pub struct RegistryKeyNode {
    pub name: String,
    pub subkeys: Vec<usize>,
    pub values: Vec<RegistryValue>,
}

/// A registry key tree held in one arena; the root key is the first node
/// and every subkey is referred to by its index.
#[derive(Debug, Clone)]
pub struct HiveTree {
    pub nodes: Vec<RegistryKeyNode>,
}

pub open spec fn as_index(r: Option<usize>) -> Option<int> {
    match r {
        Some(c) => Some(c as int),
        None => None,
    }
}

/// Registry names are compared without regard to ASCII case.
pub open spec fn same_name(a: Seq<char>, b: Seq<char>) -> bool {
    upper(a) == upper(b)
}

impl HiveTree {
    /// The root exists and every subkey index points into the arena.
    pub open spec fn wf(&self) -> bool {
        &&& self.nodes@.len() >= 1
        &&& forall|n: int, j: int|
            0 <= n < self.nodes@.len() && 0 <= j < self.nodes@[n].subkeys@.len()
                ==> #[trigger] self.nodes@[n].subkeys@[j] < self.nodes@.len()
    }

    pub open spec fn name_of(&self, n: int) -> Seq<char> {
        self.nodes@[n].name@
    }

    pub open spec fn subkeys_of(&self, n: int) -> Seq<usize> {
        self.nodes@[n].subkeys@
    }

    /// The first subkey of `n`, from position `j` on, named `name`.
    pub open spec fn subkey_from(&self, n: int, name: Seq<char>, j: int) -> Option<int>
        decreases self.subkeys_of(n).len() - j,
    {
        if j < 0 || j >= self.subkeys_of(n).len() {
            None
        } else if same_name(self.name_of(self.subkeys_of(n)[j] as int), name) {
            Some(self.subkeys_of(n)[j] as int)
        } else {
            self.subkey_from(n, name, j + 1)
        }
    }

    pub open spec fn subkey_named(&self, n: int, name: Seq<char>) -> Option<int> {
        self.subkey_from(n, name, 0)
    }

    /// The key reached from `n` by following the names of `path`.
    pub open spec fn subpath_of(&self, n: int, path: Seq<Seq<char>>) -> Option<int>
        decreases path.len(),
    {
        if path.len() == 0 {
            Some(n)
        } else {
            match self.subkey_named(n, path[0]) {
                Some(c) => self.subpath_of(c, path.drop_first()),
                None => None,
            }
        }
    }

    /// The position of the first value of `n`, from position `j` on, named `name`.
    pub open spec fn value_from(&self, n: int, name: Seq<char>, j: int) -> Option<int>
        decreases self.nodes@[n].values@.len() - j,
    {
        if j < 0 || j >= self.nodes@[n].values@.len() {
            None
        } else if same_name(self.nodes@[n].values@[j].name@, name) {
            Some(j)
        } else {
            self.value_from(n, name, j + 1)
        }
    }

    pub open spec fn value_named(&self, n: int, name: Seq<char>) -> Option<int> {
        self.value_from(n, name, 0)
    }

    /// The bytes of the value `name` of `n`, where it is stored inline.
    pub open spec fn inline_value(&self, n: int, name: Seq<char>) -> Option<Seq<u8>> {
        match self.value_named(n, name) {
            Some(i) => match self.nodes@[n].values@[i].data {
                HiveValue::Inline(b) => Some(b@),
                HiveValue::Segmented(_) => None,
            },
            None => None,
        }
    }

    /// The bytes of the value `name` of `n`, where it is stored inline and
    /// declared of type `ty`.
    pub open spec fn typed_inline_value(&self, n: int, name: Seq<char>, ty: u32) -> Option<Seq<u8>> {
        match self.value_named(n, name) {
            Some(i) => if self.nodes@[n].values@[i].data_type == ty {
                match self.nodes@[n].values@[i].data {
                    HiveValue::Inline(b) => Some(b@),
                    HiveValue::Segmented(_) => None,
                }
            } else {
                None
            },
            None => None,
        }
    }

    /// The root key.
    pub fn root(&self) -> (r: usize)
        requires
            self.wf(),
        ensures
            r == 0,
    {
        0
    }

    /// The subkeys of `n`, in on-disk order.
    pub fn subkeys(&self, n: usize) -> (r: &Vec<usize>)
        requires
            self.wf(),
            n < self.nodes@.len(),
        ensures
            r@ == self.subkeys_of(n as int),
    {
        &self.nodes[n].subkeys
    }

    /// The subkey of `n` named `name`, if there is one.
    pub fn subkey(&self, n: usize, name: &str) -> (r: Option<usize>)
        requires
            self.wf(),
            n < self.nodes@.len(),
        ensures
            as_index(r) == self.subkey_named(n as int, name@),
            r is Some ==> r->0 < self.nodes@.len(),
    {
        let subs = &self.nodes[n].subkeys;
        let mut j: usize = 0;
        while j < subs.len()
            invariant
                self.wf(),
                n < self.nodes@.len(),
                subs@ == self.subkeys_of(n as int),
                j <= subs@.len(),
                self.subkey_named(n as int, name@) == self.subkey_from(n as int, name@, j as int),
            decreases subs@.len() - j,
        {
            let c = subs[j];
            if names_match(self.nodes[c].name.as_str(), name) {
                return Some(c);
            }
            j = j + 1;
        }
        None
    }

    /// The key reached from `n` by following `path`, if every name on it exists.
    pub fn subpath(&self, n: usize, path: &[&str]) -> (r: Option<usize>)
        requires
            self.wf(),
            n < self.nodes@.len(),
        ensures
            as_index(r) == self.subpath_of(n as int, path@.map_values(|p: &str| p@)),
            r is Some ==> r->0 < self.nodes@.len(),
    {
        let ghost full = path@.map_values(|p: &str| p@);
        let mut cur = n;
        let mut i: usize = 0;
        assert(full.skip(0) =~= full);
        while i < path.len()
            invariant
                self.wf(),
                cur < self.nodes@.len(),
                full == path@.map_values(|p: &str| p@),
                i <= path@.len(),
                self.subpath_of(n as int, full) == self.subpath_of(cur as int, full.skip(i as int)),
            decreases path@.len() - i,
        {
            proof {
                assert(full.skip(i as int).drop_first() =~= full.skip(i + 1));
                assert(full.skip(i as int)[0] == path@[i as int]@);
            }
            match self.subkey(cur, path[i]) {
                Some(c) => {
                    cur = c;
                },
                None => {
                    return None;
                },
            }
            i = i + 1;
        }
        proof {
            assert(full.skip(i as int) =~= Seq::<Seq<char>>::empty());
        }
        Some(cur)
    }

    /// The position among the values of `n` of the one named `name`.
    fn value_position(&self, n: usize, name: &str) -> (r: Option<usize>)
        requires
            self.wf(),
            n < self.nodes@.len(),
        ensures
            as_index(r) == self.value_named(n as int, name@),
            r is Some ==> r->0 < self.nodes@[n as int].values@.len(),
    {
        let vals = &self.nodes[n].values;
        let mut j: usize = 0;
        while j < vals.len()
            invariant
                n < self.nodes@.len(),
                vals@ == self.nodes@[n as int].values@,
                j <= vals@.len(),
                self.value_named(n as int, name@) == self.value_from(n as int, name@, j as int),
            decreases vals@.len() - j,
        {
            if names_match(vals[j].name.as_str(), name) {
                return Some(j);
            }
            j = j + 1;
        }
        None
    }

    /// The value of `n` named `name`, if there is one.
    pub fn value(&self, n: usize, name: &str) -> (r: Option<&HiveValue>)
        requires
            self.wf(),
            n < self.nodes@.len(),
        ensures
            r is Some <==> self.value_named(n as int, name@) is Some,
            r is Some ==> *r->0 == self.nodes@[n as int].values@[self.value_named(
                n as int,
                name@,
            )->0].data,
    {
        match self.value_position(n, name) {
            Some(i) => Some(&self.nodes[n].values[i].data),
            None => None,
        }
    }

    /// The bytes of the value `name` of `n`, where it is stored inline and
    /// declared of type `ty`.
    pub fn typed_inline_bytes(&self, n: usize, name: &str, ty: u32) -> (r: Option<&Vec<u8>>)
        requires
            self.wf(),
            n < self.nodes@.len(),
        ensures
            r is Some <==> self.typed_inline_value(n as int, name@, ty) is Some,
            r is Some ==> r->0@ == self.typed_inline_value(n as int, name@, ty)->0,
    {
        match self.value_position(n, name) {
            Some(i) => {
                let v = &self.nodes[n].values[i];
                if v.data_type == ty {
                    match &v.data {
                        HiveValue::Inline(b) => Some(b),
                        HiveValue::Segmented(_) => None,
                    }
                } else {
                    None
                }
            },
            None => None,
        }
    }

    /// The bytes of the value `name` of `n`, where it is stored inline.
    pub fn inline_bytes(&self, n: usize, name: &str) -> (r: Option<&Vec<u8>>)
        requires
            self.wf(),
            n < self.nodes@.len(),
        ensures
            r is Some <==> self.inline_value(n as int, name@) is Some,
            r is Some ==> r->0@ == self.inline_value(n as int, name@)->0,
    {
        match self.value(n, name) {
            Some(HiveValue::Inline(b)) => Some(b),
            _ => None,
        }
    }
}

/// Compares two registry names without regard to ASCII case.
pub fn names_match(a: &str, b: &str) -> (r: bool)
    ensures
        r == same_name(a@, b@),
{
    let n = a.unicode_len();
    if n != b.unicode_len() {
        assert(upper(a@).len() != upper(b@).len());
        return false;
    }
    let mut i: usize = 0;
    while i < n
        invariant
            n == a@.len(),
            n == b@.len(),
            i <= n,
            forall|j: int| 0 <= j < i ==> upper(a@)[j] == upper(b@)[j],
        decreases n - i,
    {
        if upper_char_exec(a.get_char(i)) != upper_char_exec(b.get_char(i)) {
            assert(upper(a@)[i as int] != upper(b@)[i as int]);
            return false;
        }
        i = i + 1;
    }
    assert(upper(a@) =~= upper(b@));
    true
}

} // verus!
