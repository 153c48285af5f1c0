use vstd::prelude::*;
use crate::text::{upper, upper_char, upper_char_exec, push_char};

verus! {

/// The `k`-th group of at most two characters of `s`, upper-cased.
pub open spec fn mac_group(s: Seq<char>, k: int) -> Seq<char> {
    let end = if 2 * k + 2 <= s.len() { 2 * k + 2 } else { s.len() as int };
    upper(s.subrange(2 * k, end))
}

/// The number of two-character groups of `s` (the last one may be short).
pub open spec fn mac_group_count(s: Seq<char>) -> nat {
    (s.len() + 1) / 2
}

/// The first `k` groups of `s`, joined by colons.
pub open spec fn mac_prefix(s: Seq<char>, k: int) -> Seq<char>
    decreases k,
{
    if k <= 0 {
        Seq::empty()
    } else if k == 1 {
        mac_group(s, 0)
    } else {
        mac_prefix(s, k - 1).push(':') + mac_group(s, k - 1)
    }
}

/// A key name as a device address: its characters taken two at a time,
/// upper-cased, and joined by colons.
pub open spec fn mac_of(s: Seq<char>) -> Seq<char> {
    mac_prefix(s, mac_group_count(s) as int)
}

/// Formats a raw hexadecimal key name as a colon-separated address
/// (`"001122334455"` becomes `"00:11:22:33:44:55"`).
pub fn fmt_mac(mac: &str) -> (r: String)
    ensures
        r@ == mac_of(mac@),
{
    let n = mac.unicode_len();
    let mut r = String::new();
    let mut i: usize = 0;
    if n == 0 {
        return r;
    }
    while i < n
        invariant_except_break
            n == mac@.len(),
            i % 2 == 0,
            i < n,
            r@ == mac_prefix(mac@, i as int / 2),
        ensures
            r@ == mac_of(mac@),
        decreases n - i,
    {
        let ghost k = i as int / 2;
        if i > 0 {
            push_char(&mut r, ':');
        }
        push_char(&mut r, upper_char_exec(mac.get_char(i)));
        if i + 1 < n {
            push_char(&mut r, upper_char_exec(mac.get_char(i + 1)));
        }
        proof {
            let g = mac_group(mac@, k);
            assert(r@ == mac_prefix(mac@, k + 1)) by {
                if k == 0 {
                    assert(r@ =~= g);
                } else {
                    assert(r@ =~= mac_prefix(mac@, k).push(':') + g);
                }
            }
        }
        if n - i <= 2 {
            break;
        }
        i = i + 2;
    }
    r
}

} // verus!

verus! {

proof fn lemma_mac_prefix_layout(s: Seq<char>, k: int)
    requires
        s.len() % 2 == 0,
        1 <= k <= s.len() / 2,
    ensures
        mac_prefix(s, k).len() == 3 * k - 1,
        forall|j: int|
            0 <= j < k ==> #[trigger] mac_prefix(s, k).subrange(3 * j, 3 * j + 2) == upper(
                s.subrange(2 * j, 2 * j + 2),
            ),
        forall|j: int| 0 <= j < k - 1 ==> #[trigger] mac_prefix(s, k)[3 * j + 2] == ':',
    decreases k,
{
    if k > 1 {
        lemma_mac_prefix_layout(s, k - 1);
        let p = mac_prefix(s, k - 1);
        let q = mac_prefix(s, k);
        assert(q == p.push(':') + mac_group(s, k - 1));
        assert forall|j: int| 0 <= j < k implies #[trigger] q.subrange(3 * j, 3 * j + 2) == upper(
            s.subrange(2 * j, 2 * j + 2),
        ) by {
            if j < k - 1 {
                assert(q.subrange(3 * j, 3 * j + 2) =~= p.subrange(3 * j, 3 * j + 2));
            } else {
                assert(q.subrange(3 * j, 3 * j + 2) =~= mac_group(s, k - 1));
            }
        }
        assert forall|j: int| 0 <= j < k - 1 implies #[trigger] q[3 * j + 2] == ':' by {
            if j < k - 2 {
                assert(q[3 * j + 2] == p[3 * j + 2]);
            }
        }
    } else {
        assert(mac_prefix(s, 1).subrange(0, 2) =~= mac_prefix(s, 1));
    }
}

/// For a key name of even length, the address is its pairs of characters in
/// order, upper-cased, each pair followed by a colon but the last: removing
/// the colons gives back the upper-cased name.
pub proof fn fmt_mac_groups_pairs(s: Seq<char>)
    requires
        s.len() % 2 == 0,
    ensures
        s.len() == 0 ==> mac_of(s).len() == 0,
        s.len() > 0 ==> mac_of(s).len() == 3 * (s.len() / 2) - 1,
        forall|j: int|
            0 <= j < s.len() / 2 ==> #[trigger] mac_of(s).subrange(3 * j, 3 * j + 2) == upper(
                s.subrange(2 * j, 2 * j + 2),
            ),
        forall|j: int| 0 <= j < s.len() / 2 - 1 ==> #[trigger] mac_of(s)[3 * j + 2] == ':',
{
    if s.len() > 0 {
        lemma_mac_prefix_layout(s, (s.len() / 2) as int);
    }
}

} // verus!

verus! {

/// The characters of an address that stand between its separators: two out
/// of every three, for `n` groups.
pub open spec fn without_separators(m: Seq<char>, n: nat) -> Seq<char> {
    Seq::new(2 * n, |i: int| m[3 * (i / 2) + i % 2])
}

/// For a key name of even length without colons, the address has a colon
/// exactly at every third position, and removing those colons gives back the
/// name, upper-cased.
pub proof fn fmt_mac_round_trip(s: Seq<char>)
    requires
        s.len() % 2 == 0,
        !s.contains(':'),
    ensures
        without_separators(mac_of(s), s.len() / 2) == upper(s),
        forall|p: int| 0 <= p < mac_of(s).len() ==> (#[trigger] mac_of(s)[p] == ':' <==> p % 3 == 2),
{
    let m = mac_of(s);
    let n = s.len() / 2;
    fmt_mac_groups_pairs(s);
    assert forall|i: int| 0 <= i < 2 * n implies #[trigger] without_separators(m, n)[i] == upper(s)[i] by {
        let j = i / 2;
        let r = i % 2;
        assert(0 <= j < n);
        assert(i == 2 * j + r);
        assert(m.subrange(3 * j, 3 * j + 2) == upper(s.subrange(2 * j, 2 * j + 2)));
        assert(m.subrange(3 * j, 3 * j + 2)[r] == m[3 * j + r]);
        assert(upper(s.subrange(2 * j, 2 * j + 2))[r] == upper_char(s[2 * j + r]));
    }
    assert(without_separators(m, n) =~= upper(s));
    assert forall|p: int| 0 <= p < m.len() implies (#[trigger] m[p] == ':' <==> p % 3 == 2) by {
        let j = p / 3;
        let r = p % 3;
        assert(p == 3 * j + r);
        if r == 2 {
            assert(j < n - 1);
        } else {
            assert(j < n);
            assert(m.subrange(3 * j, 3 * j + 2) == upper(s.subrange(2 * j, 2 * j + 2)));
            assert(m[p] == m.subrange(3 * j, 3 * j + 2)[r]);
            assert(m[p] == upper_char(s[2 * j + r]));
            assert(s[2 * j + r] != ':');
        }
    }
}

} // verus!
