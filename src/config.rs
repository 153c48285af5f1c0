use vstd::prelude::*;
use crate::device::{BtDeviceInfo, BtDeviceInfoView};
use crate::lines::{
    split_lines, join_lines, lines_of, no_newline, lemma_split_lines_no_newline, lemma_split_join,
    lemma_join_split,
};
use crate::text::{has_prefix, push_char, same_text, starts_with};

verus! {

/// A line of the form `[Section]`.
pub open spec fn is_header(l: Seq<char>) -> bool {
    l.len() >= 2 && l[0] == '[' && l.last() == ']'
}

/// The header of the section that holds the Long Term Key.
pub open spec fn ltk_header() -> Seq<char> {
    "[LongTermKey]"@
}

/// The section state after line `l`: a header opens the Long Term Key
/// section if it names it and closes it otherwise; other lines keep it.
pub open spec fn next_in_ltk(in_ltk: bool, l: Seq<char>) -> bool {
    if is_header(l) {
        l == ltk_header()
    } else {
        in_ltk
    }
}

/// Whether the last of the lines `ls` stands in the Long Term Key section.
pub open spec fn in_ltk_after(ls: Seq<Seq<char>>) -> bool
    decreases ls.len(),
{
    if ls.len() == 0 {
        false
    } else {
        next_in_ltk(in_ltk_after(ls.drop_last()), ls.last())
    }
}

/// One line after the rewrite: inside the Long Term Key section the `Key=`,
/// `EDiv=` and `Rand=` lines take the record's values; every other line is
/// kept as it is.
pub open spec fn rewrite_line(l: Seq<char>, in_ltk: bool, info: BtDeviceInfoView) -> Seq<char> {
    if in_ltk && has_prefix(l, "Key="@) {
        "Key="@ + info.ltk
    } else if in_ltk && has_prefix(l, "EDiv="@) {
        "EDiv="@ + info.ediv
    } else if in_ltk && has_prefix(l, "Rand="@) {
        "Rand="@ + info.erand
    } else {
        l
    }
}

pub open spec fn rewrite_lines(ls: Seq<Seq<char>>, info: BtDeviceInfoView) -> Seq<Seq<char>>
    decreases ls.len(),
{
    if ls.len() == 0 {
        Seq::empty()
    } else {
        rewrite_lines(ls.drop_last(), info).push(rewrite_line(ls.last(), in_ltk_after(ls), info))
    }
}

/// The content of an `info` file once the record has been written into it.
pub open spec fn updated_content(s: Seq<char>, info: BtDeviceInfoView) -> Seq<char> {
    join_lines(rewrite_lines(split_lines(s), info))
}

/// The value of the first `Key=` line of the Long Term Key section among
/// `ls`, read from the section state `in_ltk`; empty when there is none.
pub open spec fn ltk_scan(ls: Seq<Seq<char>>, in_ltk: bool) -> Seq<char>
    decreases ls.len(),
{
    if ls.len() == 0 {
        Seq::empty()
    } else {
        let st = next_in_ltk(in_ltk, ls[0]);
        if st && has_prefix(ls[0], "Key="@) {
            ls[0].skip("Key="@.len() as int)
        } else {
            ltk_scan(ls.drop_first(), st)
        }
    }
}

/// The Long Term Key that an `info` file holds.
pub open spec fn stored_ltk(s: Seq<char>) -> Seq<char> {
    ltk_scan(split_lines(s), false)
}

/// The value of the first line of `ls` that begins with `Name=`.
pub open spec fn name_scan(ls: Seq<Seq<char>>) -> Option<Seq<char>>
    decreases ls.len(),
{
    if ls.len() == 0 {
        None
    } else if has_prefix(ls[0], "Name="@) {
        Some(ls[0].skip("Name="@.len() as int))
    } else {
        name_scan(ls.drop_first())
    }
}

/// The display name that an `info` file gives its device.
pub open spec fn stored_name(s: Seq<char>) -> Option<Seq<char>> {
    name_scan(split_lines(s))
}

fn is_header_exec(l: &str) -> (r: bool)
    ensures
        r == is_header(l@),
{
    let n = l.unicode_len();
    n >= 2 && l.get_char(0) == '[' && l.get_char(n - 1) == ']'
}

fn next_in_ltk_exec(in_ltk: bool, l: &str) -> (r: bool)
    ensures
        r == next_in_ltk(in_ltk, l@),
{
    if is_header_exec(l) {
        same_text(l, "[LongTermKey]")
    } else {
        in_ltk
    }
}

/// Writes the record's Long Term Key, EDIV and ERand into the
/// `[LongTermKey]` section of an `info` file's content. Every other line,
/// and whether the content ends with a line feed, is kept as it was.
pub fn update_bt_info(c: &str, info: &BtDeviceInfo) -> (r: String)
    ensures
        r@ == updated_content(c@, info@),
{
    let ls = lines_of(c);
    let ghost sl = split_lines(c@);
    let mut out = String::new();
    let mut in_ltk = false;
    let mut k: usize = 0;
    while k < ls.len()
        invariant
            sl == split_lines(c@),
            ls@.len() == sl.len(),
            forall|j: int| 0 <= j < sl.len() ==> #[trigger] ls@[j]@ == sl[j],
            k <= ls@.len(),
            in_ltk == in_ltk_after(sl.take(k as int)),
            rewrite_lines(sl.take(k as int), info@).len() == k,
            out@ == join_lines(rewrite_lines(sl.take(k as int), info@)),
        decreases ls@.len() - k,
    {
        let line = ls[k].as_str();
        let ghost prev = rewrite_lines(sl.take(k as int), info@);
        let ghost old_out = out@;
        proof {
            assert(sl.take(k + 1).drop_last() =~= sl.take(k as int));
            assert(sl.take(k + 1).last() == sl[k as int]);
        }
        in_ltk = next_in_ltk_exec(in_ltk, line);
        if k > 0 {
            push_char(&mut out, '\n');
        }
        let ghost before_line = out@;
        if in_ltk && starts_with(line, "Key=") {
            out.append("Key=");
            out.append(info.ltk.as_str());
        } else if in_ltk && starts_with(line, "EDiv=") {
            out.append("EDiv=");
            out.append(info.ediv.as_str());
        } else if in_ltk && starts_with(line, "Rand=") {
            out.append("Rand=");
            out.append(info.erand.as_str());
        } else {
            out.append(line);
        }
        proof {
            let x = rewrite_line(sl[k as int], in_ltk, info@);
            assert(out@ =~= before_line + x);
            let next = rewrite_lines(sl.take(k + 1), info@);
            assert(next == prev.push(x));
            assert(next.drop_last() =~= prev);
            if k > 0 {
                assert(join_lines(next) == join_lines(prev).push('\n') + x);
            } else {
                assert(join_lines(next) == x);
                assert(before_line =~= Seq::<char>::empty());
            }
        }
        k = k + 1;
    }
    proof {
        assert(sl.take(k as int) =~= sl);
    }
    out
}

/// The Long Term Key that an `info` file's content holds: the value of the
/// first `Key=` line of its `[LongTermKey]` section, or the empty string.
pub fn get_ltk(c: &str) -> (r: String)
    ensures
        r@ == stored_ltk(c@),
{
    let ls = lines_of(c);
    let ghost sl = split_lines(c@);
    let mut in_ltk = false;
    let mut k: usize = 0;
    assert(sl.skip(0) =~= sl);
    assert(sl.take(0) =~= Seq::<Seq<char>>::empty());
    while k < ls.len()
        invariant
            sl == split_lines(c@),
            ls@.len() == sl.len(),
            forall|j: int| 0 <= j < sl.len() ==> #[trigger] ls@[j]@ == sl[j],
            k <= ls@.len(),
            in_ltk == in_ltk_after(sl.take(k as int)),
            ltk_scan(sl, false) == ltk_scan(sl.skip(k as int), in_ltk),
        decreases ls@.len() - k,
    {
        let line = ls[k].as_str();
        proof {
            assert(sl.take(k + 1).drop_last() =~= sl.take(k as int));
            assert(sl.take(k + 1).last() == sl[k as int]);
            assert(sl.skip(k as int).drop_first() =~= sl.skip(k + 1));
            assert(sl.skip(k as int)[0] == sl[k as int]);
        }
        in_ltk = next_in_ltk_exec(in_ltk, line);
        if in_ltk && starts_with(line, "Key=") {
            proof {
                reveal_strlit("Key=");
            }
            return String::from_str(line.substring_char(4, line.unicode_len()));
        }
        k = k + 1;
    }
    proof {
        assert(sl.skip(k as int) =~= Seq::<Seq<char>>::empty());
    }
    String::new()
}

/// The display name that an `info` file's content gives: the rest of its
/// first line that begins with `Name=`, if there is one.
pub fn device_name(c: &str) -> (r: Option<String>)
    ensures
        r is Some <==> stored_name(c@) is Some,
        r is Some ==> r->0@ == stored_name(c@)->0,
{
    let ls = lines_of(c);
    let ghost sl = split_lines(c@);
    let mut k: usize = 0;
    assert(sl.skip(0) =~= sl);
    while k < ls.len()
        invariant
            sl == split_lines(c@),
            ls@.len() == sl.len(),
            forall|j: int| 0 <= j < sl.len() ==> #[trigger] ls@[j]@ == sl[j],
            k <= ls@.len(),
            name_scan(sl) == name_scan(sl.skip(k as int)),
        decreases ls@.len() - k,
    {
        let line = ls[k].as_str();
        proof {
            assert(sl.skip(k as int).drop_first() =~= sl.skip(k + 1));
            assert(sl.skip(k as int)[0] == sl[k as int]);
        }
        if starts_with(line, "Name=") {
            proof {
                reveal_strlit("Name=");
            }
            return Some(String::from_str(line.substring_char(5, line.unicode_len())));
        }
        k = k + 1;
    }
    proof {
        assert(sl.skip(k as int) =~= Seq::<Seq<char>>::empty());
    }
    None
}

} // verus!

verus! {

/// A record whose values fit on one line each.
pub open spec fn one_line_values(info: BtDeviceInfoView) -> bool {
    no_newline(info.ltk) && no_newline(info.ediv) && no_newline(info.erand)
}

pub open spec fn ends_with_newline(s: Seq<char>) -> bool {
    s.len() > 0 && s.last() == '\n'
}

proof fn lemma_rewrite_lines_index(ls: Seq<Seq<char>>, info: BtDeviceInfoView)
    ensures
        rewrite_lines(ls, info).len() == ls.len(),
        forall|k: int|
            0 <= k < ls.len() ==> #[trigger] rewrite_lines(ls, info)[k] == rewrite_line(
                ls[k],
                in_ltk_after(ls.take(k + 1)),
                info,
            ),
    decreases ls.len(),
{
    if ls.len() > 0 {
        let front = ls.drop_last();
        lemma_rewrite_lines_index(front, info);
        assert forall|k: int| 0 <= k < ls.len() implies #[trigger] rewrite_lines(ls, info)[k]
            == rewrite_line(ls[k], in_ltk_after(ls.take(k + 1)), info) by {
            if k < ls.len() - 1 {
                assert(front.take(k + 1) =~= ls.take(k + 1));
                assert(front[k] == ls[k]);
            } else {
                assert(ls.take(k + 1) =~= ls);
            }
        }
    }
}

proof fn lemma_rewrite_line_shape(l: Seq<char>, st: bool, info: BtDeviceInfoView)
    requires
        no_newline(l),
        one_line_values(info),
    ensures
        no_newline(rewrite_line(l, st, info)),
        is_header(rewrite_line(l, st, info)) == is_header(l),
        (rewrite_line(l, st, info) == ltk_header()) == (l == ltk_header()),
        (rewrite_line(l, st, info).len() == 0) == (l.len() == 0),
        rewrite_line(rewrite_line(l, st, info), st, info) == rewrite_line(l, st, info),
{
    reveal_strlit("Key=");
    reveal_strlit("EDiv=");
    reveal_strlit("Rand=");
    reveal_strlit("[LongTermKey]");
    let r = rewrite_line(l, st, info);
    if r != l {
        assert(ltk_header()[0] == '[');
        if st && has_prefix(l, "Key="@) {
            assert(l[0] == l.take(4)[0]);
            assert(r.take(4) =~= "Key="@);
        } else if st && has_prefix(l, "EDiv="@) {
            assert(l[0] == l.take(5)[0]);
            assert(r.take(5) =~= "EDiv="@);
            assert(r.take(4) != "Key="@) by {
                assert(r.take(4)[0] != "Key="@[0]);
            }
        } else {
            assert(l[0] == l.take(5)[0]);
            assert(r.take(5) =~= "Rand="@);
            assert(r.take(4) != "Key="@) by {
                assert(r.take(4)[0] != "Key="@[0]);
            }
            assert(r.take(5) != "EDiv="@) by {
                assert(r.take(5)[0] != "EDiv="@[0]);
            }
        }
    }
}

proof fn lemma_rewritten_lines(ls: Seq<Seq<char>>, info: BtDeviceInfoView)
    requires
        forall|k: int| 0 <= k < ls.len() ==> no_newline(#[trigger] ls[k]),
        one_line_values(info),
    ensures
        forall|k: int|
            0 <= k < ls.len() ==> no_newline(#[trigger] rewrite_lines(ls, info)[k]),
        forall|k: int|
            0 <= k <= ls.len() ==> #[trigger] in_ltk_after(rewrite_lines(ls, info).take(k))
                == in_ltk_after(ls.take(k)),
        rewrite_lines(rewrite_lines(ls, info), info) == rewrite_lines(ls, info),
{
    let r = rewrite_lines(ls, info);
    lemma_rewrite_lines_index(ls, info);
    assert forall|k: int| 0 <= k < ls.len() implies no_newline(#[trigger] r[k]) by {
        lemma_rewrite_line_shape(ls[k], in_ltk_after(ls.take(k + 1)), info);
    }
    assert forall|k: int| 0 <= k <= ls.len() implies #[trigger] in_ltk_after(r.take(k))
        == in_ltk_after(ls.take(k)) by {
        lemma_in_ltk_prefix(ls, info, k);
    }
    lemma_rewrite_lines_index(r, info);
    assert forall|k: int| 0 <= k < r.len() implies #[trigger] rewrite_lines(r, info)[k] == r[k] by {
        lemma_in_ltk_prefix(ls, info, k + 1);
        lemma_rewrite_line_shape(ls[k], in_ltk_after(ls.take(k + 1)), info);
    }
    assert(rewrite_lines(r, info) =~= r);
}

proof fn lemma_in_ltk_prefix(ls: Seq<Seq<char>>, info: BtDeviceInfoView, k: int)
    requires
        forall|j: int| 0 <= j < ls.len() ==> no_newline(#[trigger] ls[j]),
        one_line_values(info),
        0 <= k <= ls.len(),
    ensures
        in_ltk_after(rewrite_lines(ls, info).take(k)) == in_ltk_after(ls.take(k)),
    decreases k,
{
    let r = rewrite_lines(ls, info);
    lemma_rewrite_lines_index(ls, info);
    if k > 0 {
        lemma_in_ltk_prefix(ls, info, k - 1);
        assert(r.take(k).drop_last() =~= r.take(k - 1));
        assert(ls.take(k).drop_last() =~= ls.take(k - 1));
        lemma_rewrite_line_shape(ls[k - 1], in_ltk_after(ls.take(k)), info);
    } else {
        assert(r.take(0) =~= Seq::<Seq<char>>::empty());
        assert(ls.take(0) =~= Seq::<Seq<char>>::empty());
    }
}

proof fn lemma_join_ends_with_newline(ls: Seq<Seq<char>>)
    requires
        ls.len() >= 1,
        forall|k: int| 0 <= k < ls.len() ==> no_newline(#[trigger] ls[k]),
    ensures
        ends_with_newline(join_lines(ls)) == (ls.len() >= 2 && ls.last().len() == 0),
{
    if ls.len() >= 2 {
        let j = join_lines(ls);
        let p = join_lines(ls.drop_last());
        assert(j == p.push('\n') + ls.last());
        if ls.last().len() == 0 {
            assert(j =~= p.push('\n'));
        } else {
            assert(j.last() == ls.last().last());
        }
    } else {
        assert(ls.len() == 1);
        assert(join_lines(ls) == ls[0]);
    }
}

/// The rewrite leaves the line structure alone: the result has as many
/// lines as the input, every line is the input's line with the rewrite of
/// its section applied, and every line that is not a `Key=`, `EDiv=` or
/// `Rand=` line of the `[LongTermKey]` section comes out unchanged.
pub proof fn update_changes_only_key_fields(s: Seq<char>, info: BtDeviceInfoView)
    requires
        one_line_values(info),
    ensures
        split_lines(updated_content(s, info)).len() == split_lines(s).len(),
        forall|k: int|
            0 <= k < split_lines(s).len() ==> #[trigger] split_lines(updated_content(s, info))[k]
                == rewrite_line(split_lines(s)[k], in_ltk_after(split_lines(s).take(k + 1)), info),
        forall|k: int|
            0 <= k < split_lines(s).len() && !(in_ltk_after(split_lines(s).take(k + 1)) && (
            has_prefix(split_lines(s)[k], "Key="@) || has_prefix(split_lines(s)[k], "EDiv="@)
                || has_prefix(split_lines(s)[k], "Rand="@))) ==> #[trigger] split_lines(
                updated_content(s, info),
            )[k] == split_lines(s)[k],
{
    let ls = split_lines(s);
    lemma_split_lines_no_newline(s);
    lemma_rewrite_lines_index(ls, info);
    lemma_rewritten_lines(ls, info);
    lemma_split_join(rewrite_lines(ls, info));
}

/// Writing the same record a second time changes nothing.
pub proof fn update_is_idempotent(s: Seq<char>, info: BtDeviceInfoView)
    requires
        one_line_values(info),
    ensures
        updated_content(updated_content(s, info), info) == updated_content(s, info),
{
    let ls = split_lines(s);
    lemma_split_lines_no_newline(s);
    lemma_rewrite_lines_index(ls, info);
    lemma_rewritten_lines(ls, info);
    lemma_split_join(rewrite_lines(ls, info));
}

/// The rewritten content ends with a line feed exactly when the input did.
pub proof fn update_keeps_final_newline(s: Seq<char>, info: BtDeviceInfoView)
    requires
        one_line_values(info),
    ensures
        ends_with_newline(updated_content(s, info)) == ends_with_newline(s),
{
    let ls = split_lines(s);
    let r = rewrite_lines(ls, info);
    lemma_split_lines_no_newline(s);
    lemma_join_split(s);
    lemma_rewrite_lines_index(ls, info);
    lemma_rewritten_lines(ls, info);
    lemma_join_ends_with_newline(ls);
    lemma_join_ends_with_newline(r);
    lemma_rewrite_line_shape(ls.last(), in_ltk_after(ls.take(ls.len() as int)), info);
    assert(r.last() == r[ls.len() - 1]);
}

} // verus!

verus! {

proof fn lemma_name_scan_same(a: Seq<Seq<char>>, b: Seq<Seq<char>>)
    requires
        a.len() == b.len(),
        forall|k: int|
            0 <= k < a.len() ==> has_prefix(#[trigger] a[k], "Name="@) == has_prefix(b[k], "Name="@),
        forall|k: int| 0 <= k < a.len() && has_prefix(#[trigger] a[k], "Name="@) ==> a[k] == b[k],
    ensures
        name_scan(a) == name_scan(b),
    decreases a.len(),
{
    if a.len() > 0 {
        let a1 = a.drop_first();
        let b1 = b.drop_first();
        assert forall|k: int| 0 <= k < a1.len() implies has_prefix(#[trigger] a1[k], "Name="@)
            == has_prefix(b1[k], "Name="@) by {
            assert(a1[k] == a[k + 1]);
            assert(b1[k] == b[k + 1]);
        }
        assert forall|k: int| 0 <= k < a1.len() && has_prefix(#[trigger] a1[k], "Name="@)
            implies a1[k] == b1[k] by {
            assert(a1[k] == a[k + 1]);
            assert(b1[k] == b[k + 1]);
        }
        lemma_name_scan_same(a1, b1);
    }
}

proof fn lemma_rewrite_keeps_name_line(l: Seq<char>, st: bool, info: BtDeviceInfoView)
    ensures
        has_prefix(rewrite_line(l, st, info), "Name="@) == has_prefix(l, "Name="@),
        has_prefix(l, "Name="@) ==> rewrite_line(l, st, info) == l,
{
    reveal_strlit("Key=");
    reveal_strlit("EDiv=");
    reveal_strlit("Rand=");
    reveal_strlit("Name=");
    let r = rewrite_line(l, st, info);
    if r != l {
        if st && has_prefix(l, "Key="@) {
            assert(l.take(4)[0] == 'K' && l[0] == l.take(4)[0]);
            assert(r[0] == "Key="@[0]);
        } else if st && has_prefix(l, "EDiv="@) {
            assert(l.take(5)[0] == 'E' && l[0] == l.take(5)[0]);
            assert(r[0] == "EDiv="@[0]);
        } else {
            assert(l.take(5)[0] == 'R' && l[0] == l.take(5)[0]);
            assert(r[0] == "Rand="@[0]);
        }
        if has_prefix(l, "Name="@) {
            assert(l.take(5)[0] == 'N');
        }
        if has_prefix(r, "Name="@) {
            assert(r.take(5)[0] == 'N' && r[0] == r.take(5)[0]);
        }
    }
}

/// Writing a record into an `info` file keeps the display name that the
/// file gives, so a later run matches the file to the same record.
pub proof fn update_keeps_device_name(s: Seq<char>, info: BtDeviceInfoView)
    requires
        one_line_values(info),
    ensures
        stored_name(updated_content(s, info)) == stored_name(s),
{
    let ls = split_lines(s);
    let r = rewrite_lines(ls, info);
    lemma_split_lines_no_newline(s);
    lemma_rewrite_lines_index(ls, info);
    lemma_rewritten_lines(ls, info);
    lemma_split_join(r);
    assert forall|k: int| 0 <= k < r.len() implies has_prefix(#[trigger] r[k], "Name="@)
        == has_prefix(ls[k], "Name="@) by {
        lemma_rewrite_keeps_name_line(ls[k], in_ltk_after(ls.take(k + 1)), info);
    }
    assert forall|k: int| 0 <= k < r.len() && has_prefix(#[trigger] r[k], "Name="@)
        implies r[k] == ls[k] by {
        lemma_rewrite_keeps_name_line(ls[k], in_ltk_after(ls.take(k + 1)), info);
    }
    lemma_name_scan_same(r, ls);
}

} // verus!
