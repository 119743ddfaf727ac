//! Process panels: which processes are shown, in what order, and how their
//! names and memory use are printed.

use vstd::prelude::*;
use crate::style::{Reading, is_exact, is_scaled, scaled};
use crate::text::{
    byte_len, byte_length, byte_prefix, chars_of, decimal, decimal_string, is_byte_boundary,
    law_byte_prefix_longest_fit,
    pad_end, padded_end, prefix_within_bytes, string_of,
};

verus! {

/// The order of a process panel: by CPU use or by memory use, highest first.
#[derive(Clone, Copy, Debug, PartialEq, Eq, Structural)]
pub enum SortBy {
    Cpu,
    Memory,
}

impl SortBy {
    /// The panel title: ` Processes (CPU) ` or ` Processes (MEM) `.
    pub fn title(&self) -> (s: &'static str)
        ensures
            s@ == match *self {
                SortBy::Cpu => " Processes (CPU) "@,
                SortBy::Memory => " Processes (MEM) "@,
            },
    {
        match self {
            SortBy::Cpu => " Processes (CPU) ",
            SortBy::Memory => " Processes (MEM) ",
        }
    }
}

/// A process: its id and its resident memory in bytes.
#[derive(Clone, Copy, Debug, PartialEq, Eq, Structural)]
pub struct ProcessEntry {
    pub pid: u32,
    pub memory: u64,
}

/// `out` is `input` rearranged by `p` (entry `k` of `out` is entry `p[k]` of
/// `input`, each used once) into descending memory order, entries of equal
/// memory keeping their input order: what a stable descending sort gives.
pub open spec fn stable_descending(input: Seq<ProcessEntry>, out: Seq<ProcessEntry>, p: Seq<int>) -> bool {
    &&& p.len() == input.len()
    &&& out.len() == input.len()
    &&& forall|k: int| 0 <= k < p.len() ==> 0 <= #[trigger] p[k] < input.len() && out[k] == input[p[k]]
    &&& forall|k1: int, k2: int| 0 <= k1 < k2 < p.len() ==> #[trigger] p[k1] != #[trigger] p[k2]
    &&& forall|k1: int, k2: int|
        0 <= k1 < k2 < out.len() ==> (#[trigger] out[k1]).memory >= (#[trigger] out[k2]).memory
    &&& forall|k1: int, k2: int|
        0 <= k1 < k2 < out.len() && (#[trigger] out[k1]).memory == (#[trigger] out[k2]).memory
            ==> p[k1] < p[k2]
}

/// The first `limit` entries of `s`, or all of them.
pub open spec fn first_entries(s: Seq<ProcessEntry>, limit: nat) -> Seq<ProcessEntry> {
    if s.len() <= limit {
        s
    } else {
        s.take(limit as int)
    }
}

/// Inserting entry `i` of the input after all sorted entries with at least
/// its memory keeps the arrangement stable and descending.
proof fn lemma_insert_keeps_order(
    input: Seq<ProcessEntry>,
    out: Seq<ProcessEntry>,
    p: Seq<int>,
    i: int,
    pos: int,
)
    requires
        0 <= i < input.len(),
        stable_descending(input.take(i), out, p),
        0 <= pos <= out.len(),
        forall|k: int| 0 <= k < pos ==> (#[trigger] out[k]).memory >= input[i].memory,
        forall|k: int| pos <= k < out.len() ==> (#[trigger] out[k]).memory < input[i].memory,
    ensures
        stable_descending(input.take(i + 1), out.insert(pos, input[i]), p.insert(pos, i)),
{
    let o2 = out.insert(pos, input[i]);
    let p2 = p.insert(pos, i);
    let t = input.take(i);
    let t2 = input.take(i + 1);
    out.insert_ensures(pos, input[i]);
    p.insert_ensures(pos, i);
    assert forall|k: int| 0 <= k < p2.len() implies 0 <= #[trigger] p2[k] < t2.len() && o2[k]
        == t2[p2[k]] by {
        if k < pos {
            assert(p2[k] == p[k]);
            assert(o2[k] == out[k]);
        } else if k == pos {
        } else {
            assert(p2[k] == p[k - 1]);
            assert(o2[k] == out[k - 1]);
        }
    }
    assert forall|k1: int, k2: int| 0 <= k1 < k2 < p2.len() implies #[trigger] p2[k1]
        != #[trigger] p2[k2] by {
        let a = if k1 < pos { k1 } else { k1 - 1 };
        let b = if k2 < pos { k2 } else { k2 - 1 };
        if k1 != pos && k2 != pos {
            assert(p2[k1] == p[a]);
            assert(p2[k2] == p[b]);
        } else if k1 == pos {
            assert(p2[k2] == p[b]);
            assert(0 <= p[b] < t.len());
        } else {
            assert(p2[k1] == p[a]);
            assert(0 <= p[a] < t.len());
        }
    }
    assert forall|k1: int, k2: int| 0 <= k1 < k2 < o2.len() implies (#[trigger] o2[k1]).memory
        >= (#[trigger] o2[k2]).memory by {
        let a = if k1 < pos { k1 } else { k1 - 1 };
        let b = if k2 < pos { k2 } else { k2 - 1 };
        if k1 != pos && k2 != pos {
            assert(o2[k1] == out[a]);
            assert(o2[k2] == out[b]);
        } else if k1 == pos {
            assert(o2[k2] == out[b]);
        } else {
            assert(o2[k1] == out[a]);
        }
    }
    assert forall|k1: int, k2: int|
        0 <= k1 < k2 < o2.len() && (#[trigger] o2[k1]).memory == (#[trigger] o2[k2]).memory implies p2[k1]
        < p2[k2] by {
        let a = if k1 < pos { k1 } else { k1 - 1 };
        let b = if k2 < pos { k2 } else { k2 - 1 };
        if k1 != pos && k2 != pos {
            assert(o2[k1] == out[a]);
            assert(o2[k2] == out[b]);
            assert(p2[k1] == p[a]);
            assert(p2[k2] == p[b]);
        } else if k1 == pos {
            assert(o2[k2] == out[b]);
        } else {
            assert(o2[k1] == out[a]);
            assert(p2[k1] == p[a]);
            assert(0 <= p[a] < t.len());
        }
    }
}

/// The processes of a memory panel: sorted by memory, highest first, ties
/// in the given order, and cut to the first `limit`.
pub fn top_by_memory(procs: &Vec<ProcessEntry>, limit: usize) -> (top: Vec<ProcessEntry>)
    ensures
        exists|sorted: Seq<ProcessEntry>, p: Seq<int>|
            stable_descending(procs@, sorted, p) && top@ == first_entries(sorted, limit as nat),
{
    let mut out: Vec<ProcessEntry> = Vec::new();
    let ghost mut p: Seq<int> = Seq::empty();
    let mut i: usize = 0;
    while i < procs.len()
        invariant
            i <= procs@.len(),
            stable_descending(procs@.take(i as int), out@, p),
        decreases procs@.len() - i,
    {
        let x = procs[i];
        let mut pos: usize = 0;
        while pos < out.len() && out[pos].memory >= x.memory
            invariant
                pos <= out@.len(),
                x == procs@[i as int],
                stable_descending(procs@.take(i as int), out@, p),
                forall|k: int| 0 <= k < pos ==> (#[trigger] out@[k]).memory >= x.memory,
            decreases out@.len() - pos,
        {
            pos = pos + 1;
        }
        proof {
            assert forall|k: int| pos <= k < out@.len() implies (#[trigger] out@[k]).memory
                < x.memory by {
                if pos < out@.len() {
                    assert(out@[pos as int].memory < x.memory);
                    if k > pos {
                        assert(out@[pos as int].memory >= out@[k].memory);
                    }
                }
            }
            lemma_insert_keeps_order(procs@, out@, p, i as int, pos as int);
            p = p.insert(pos as int, i as int);
        }
        out.insert(pos, x);
        i = i + 1;
    }
    assert(procs@.take(procs@.len() as int) =~= procs@);
    let ghost sorted = out@;
    if limit < out.len() {
        out.truncate(limit);
    }
    assert(out@ == first_entries(sorted, limit as nat));
    out
}

/// The shown processes use at least as much memory as any process left
/// out, and are listed from most to least memory.
pub proof fn law_top_dominates(
    procs: Seq<ProcessEntry>,
    sorted: Seq<ProcessEntry>,
    p: Seq<int>,
    limit: nat,
)
    requires
        stable_descending(procs, sorted, p),
    ensures
        forall|k: int, m: int|
            0 <= k < first_entries(sorted, limit).len() && first_entries(sorted, limit).len() <= m
                < sorted.len() ==> (#[trigger] first_entries(sorted, limit)[k]).memory >= (
            #[trigger] sorted[m]).memory,
        forall|k1: int, k2: int|
            0 <= k1 < k2 < first_entries(sorted, limit).len() ==> (#[trigger] first_entries(
                sorted,
                limit,
            )[k1]).memory >= (#[trigger] first_entries(sorted, limit)[k2]).memory,
{
    assert forall|k: int, m: int|
        0 <= k < first_entries(sorted, limit).len() && first_entries(sorted, limit).len() <= m
            < sorted.len() implies (#[trigger] first_entries(sorted, limit)[k]).memory >= (
        #[trigger] sorted[m]).memory by {
        assert(first_entries(sorted, limit)[k] == sorted[k]);
    }
    assert forall|k1: int, k2: int|
        0 <= k1 < k2 < first_entries(sorted, limit).len() implies (#[trigger] first_entries(
            sorted,
            limit,
        )[k1]).memory >= (#[trigger] first_entries(sorted, limit)[k2]).memory by {
        assert(first_entries(sorted, limit)[k1] == sorted[k1]);
        assert(first_entries(sorted, limit)[k2] == sorted[k2]);
    }
}

/// Entry `x` of `input` comes before entry `y` in a stable descending
/// order: it uses more memory, or as much and comes first.
pub open spec fn comes_before(input: Seq<ProcessEntry>, x: int, y: int) -> bool {
    input[x].memory > input[y].memory || (input[x].memory == input[y].memory && x < y)
}

/// In a stable descending arrangement, earlier positions hold entries that
/// come before those at later positions.
proof fn lemma_arrangement_ordered(
    input: Seq<ProcessEntry>,
    out: Seq<ProcessEntry>,
    p: Seq<int>,
    k1: int,
    k2: int,
)
    requires
        stable_descending(input, out, p),
        0 <= k1 < k2 < p.len(),
    ensures
        comes_before(input, p[k1], p[k2]),
{
    assert(out[k1].memory >= out[k2].memory);
    assert(out[k1] == input[p[k1]]);
    assert(out[k2] == input[p[k2]]);
}

/// Every entry of the input has a position in a stable descending
/// arrangement.
proof fn lemma_arrangement_covers(input: Seq<ProcessEntry>, out: Seq<ProcessEntry>, p: Seq<int>, a: int)
    requires
        stable_descending(input, out, p),
        0 <= a < input.len(),
    ensures
        exists|m: int| 0 <= m < p.len() && p[m] == a,
{
    let n = input.len() as int;
    assert(p.no_duplicates()) by {
        assert forall|i: int, j: int| 0 <= i < p.len() && 0 <= j < p.len() && i != j implies p[i]
            != p[j] by {
            if i < j {
                assert(p[i] != p[j]);
            } else {
                assert(p[j] != p[i]);
            }
        }
    }
    p.unique_seq_to_set();
    let r = vstd::set_lib::set_int_range(0, n);
    vstd::set_lib::lemma_int_range(0, n);
    assert(p.to_set().subset_of(r)) by {
        assert forall|x: int| p.to_set().contains(x) implies r.contains(x) by {
            let i = choose|i: int| 0 <= i < p.len() && p[i] == x;
            assert(0 <= p[i] < n);
        }
    }
    vstd::set_lib::lemma_len_subset(p.to_set(), r);
    vstd::set_lib::lemma_subset_equality(p.to_set(), r);
    assert(r.contains(a));
    assert(p.to_set().contains(a));
}

/// Two stable descending arrangements of one input agree at position `k`.
proof fn lemma_arrangements_agree_at(
    input: Seq<ProcessEntry>,
    s1: Seq<ProcessEntry>,
    p1: Seq<int>,
    s2: Seq<ProcessEntry>,
    p2: Seq<int>,
    k: int,
)
    requires
        stable_descending(input, s1, p1),
        stable_descending(input, s2, p2),
        0 <= k < p1.len(),
    ensures
        p1[k] == p2[k],
    decreases k,
{
    assert forall|j: int| 0 <= j < k implies p1[j] == p2[j] by {
        lemma_arrangements_agree_at(input, s1, p1, s2, p2, j);
    }
    let a = p1[k];
    let b = p2[k];
    if a != b {
        lemma_arrangement_covers(input, s2, p2, a);
        let m = choose|m: int| 0 <= m < p2.len() && p2[m] == a;
        if m < k {
            assert(p1[m] == p2[m]);
            assert(p1[m] != p1[k]);
        }
        lemma_arrangement_ordered(input, s2, p2, k, m);
        lemma_arrangement_covers(input, s1, p1, b);
        let m2 = choose|m2: int| 0 <= m2 < p1.len() && p1[m2] == b;
        if m2 < k {
            assert(p1[m2] == p2[m2]);
            assert(p2[m2] != p2[k]);
        }
        lemma_arrangement_ordered(input, s1, p1, k, m2);
    }
}

/// A stable descending order is unique: two arrangements of one input are
/// the same sequence.
pub proof fn lemma_stable_descending_unique(
    input: Seq<ProcessEntry>,
    s1: Seq<ProcessEntry>,
    p1: Seq<int>,
    s2: Seq<ProcessEntry>,
    p2: Seq<int>,
)
    requires
        stable_descending(input, s1, p1),
        stable_descending(input, s2, p2),
    ensures
        s1 == s2,
{
    assert forall|k: int| 0 <= k < s1.len() implies s1[k] == s2[k] by {
        lemma_arrangements_agree_at(input, s1, p1, s2, p2, k);
    }
    assert(s1 =~= s2);
}

/// A smaller limit shows a prefix of what a larger limit shows: the memory
/// panel's list for `l1` processes is the start of its list for `l2 >= l1`.
pub proof fn law_smaller_limit_is_prefix(
    procs: Seq<ProcessEntry>,
    s1: Seq<ProcessEntry>,
    p1: Seq<int>,
    s2: Seq<ProcessEntry>,
    p2: Seq<int>,
    l1: nat,
    l2: nat,
)
    requires
        stable_descending(procs, s1, p1),
        stable_descending(procs, s2, p2),
        l1 <= l2,
    ensures
        first_entries(s1, l1).len() <= first_entries(s2, l2).len(),
        first_entries(s1, l1) == first_entries(s2, l2).take(first_entries(s1, l1).len() as int),
{
    lemma_stable_descending_unique(procs, s1, p1, s2, p2);
    assert(first_entries(s1, l1) =~= first_entries(s2, l2).take(first_entries(s1, l1).len() as int));
}

/// A process name cut to `max` bytes: longer names keep their first
/// `max - 1` bytes followed by `…`.
pub open spec fn truncated_name(name: Seq<char>, max: nat) -> Seq<char> {
    if byte_len(name) > max {
        byte_prefix(name, max - 1).push('…')
    } else {
        name
    }
}

/// A name that fits in `max` bytes is shown whole; a longer one is shown as
/// the longest start of it within `max - 1` bytes followed by `…`, which is
/// exactly `max - 1` bytes when that is a character boundary.
pub proof fn law_truncated_names(name: Seq<char>, max: nat)
    ensures
        byte_len(name) <= max ==> truncated_name(name, max) == name,
        byte_len(name) > max && max >= 1 ==> {
            let t = truncated_name(name, max);
            &&& t.len() >= 1
            &&& t.last() == '…'
            &&& t.drop_last() == name.subrange(0, t.drop_last().len() as int)
            &&& t.drop_last().len() < name.len()
            &&& byte_len(t.drop_last()) <= max - 1
            &&& is_byte_boundary(name, max - 1) ==> byte_len(t.drop_last()) == max - 1
        },
{
    if byte_len(name) > max && max >= 1 {
        law_byte_prefix_longest_fit(name, max - 1);
        let h = byte_prefix(name, max - 1);
        let t = truncated_name(name, max);
        assert(t.drop_last() =~= h);
        if h.len() == name.len() {
            assert(h =~= name);
        }
    }
}

/// Shortens a process name to fit `max` bytes. A name that is too long needs
/// `max` at least 1 and a character boundary at byte `max - 1`.
pub fn truncate_name(name: &str, max: usize) -> (s: String)
    requires
        byte_len(name@) > max ==> max >= 1 && is_byte_boundary(name@, max - 1),
    ensures
        s@ == truncated_name(name@, max as nat),
{
    let len = byte_length(name);
    if len > max {
        let n = chars_of(name);
        let mut head = prefix_within_bytes(&n, max - 1);
        head.push('…');
        string_of(&head)
    } else {
        name.to_owned()
    }
}

/// How a memory size is printed: at least 1 GiB with one decimal and `G`,
/// at least 1 MiB with no decimals and `M`, at least 1 KiB with no
/// decimals and `K`, and below that the exact count.
pub fn format_memory(bytes: u64) -> (r: Reading)
    ensures
        bytes >= 1_073_741_824 ==> is_scaled(r, 1_073_741_824, 1, "G"@),
        1_048_576 <= bytes < 1_073_741_824 ==> is_scaled(r, 1_048_576, 0, "M"@),
        1024 <= bytes < 1_048_576 ==> is_scaled(r, 1024, 0, "K"@),
        bytes < 1024 ==> is_exact(r, decimal(bytes as nat)),
{
    if bytes >= 1_073_741_824 {
        scaled(1_073_741_824, 1, "G")
    } else if bytes >= 1_048_576 {
        scaled(1_048_576, 0, "M")
    } else if bytes >= 1024 {
        scaled(1024, 0, "K")
    } else {
        Reading::Exact(decimal_string(bytes))
    }
}

/// Columns left for the process name in a panel `inner_width` cells wide:
/// twelve fewer, and none when it is narrower.
pub fn name_width(inner_width: u16) -> (w: usize)
    ensures
        w == if inner_width > 12 { inner_width - 12 } else { 0 },
{
    (inner_width as usize).saturating_sub(12)
}

/// The id cell of a row: the id left-aligned in five columns, then a space.
pub fn pid_cell(pid: u32) -> (s: String)
    ensures
        s@ == pad_end(decimal(pid as nat), 5) + seq![' '],
{
    let d = decimal_string(pid as u64);
    let dc = chars_of(d.as_str());
    let mut v = padded_end(&dc, 5);
    v.push(' ');
    string_of(&v)
}

/// The name cell of a row: the name left-aligned in `width` columns, then a space.
pub fn name_cell(name: &str, width: usize) -> (s: String)
    ensures
        s@ == pad_end(name@, width as nat) + seq![' '],
{
    let n = chars_of(name);
    let mut v = padded_end(&n, width);
    v.push(' ');
    string_of(&v)
}

} // verus!
