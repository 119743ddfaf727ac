//! CPU panel: usage bars, bar width, core counts and the summary line.

use vstd::prelude::*;
use crate::text::{
    byte_len, chars_of, decimal, decimal_string, law_decimal_reads_back, lemma_byte_len_push, pad_start,
    padded_start, push_str, reads_as, lemma_byte_len_concat, lemma_byte_len_repeat, char_width,
    repeat, string_of, utf8_width,
};

verus! {

/// The nine bar glyphs, from empty (`0`) to a full block (`8`), each one
/// eighth wider than the one before.
pub open spec fn block(i: int) -> char {
    if i <= 0 {
        ' '
    } else if i == 1 {
        '▏'
    } else if i == 2 {
        '▎'
    } else if i == 3 {
        '▍'
    } else if i == 4 {
        '▌'
    } else if i == 5 {
        '▋'
    } else if i == 6 {
        '▊'
    } else if i == 7 {
        '▉'
    } else {
        '█'
    }
}

/// Glyph `i` of the bar scale (`i` at most 8).
pub fn block_glyph(i: usize) -> (c: char)
    requires
        i <= 8,
    ensures
        c == block(i as int),
{
    if i == 0 {
        ' '
    } else if i == 1 {
        '▏'
    } else if i == 2 {
        '▎'
    } else if i == 3 {
        '▍'
    } else if i == 4 {
        '▌'
    } else if i == 5 {
        '▋'
    } else if i == 6 {
        '▊'
    } else if i == 7 {
        '▉'
    } else {
        '█'
    }
}

/// Full blocks, then (when they do not already reach `width`) one partial
/// glyph whose index is capped at 8.
pub open spec fn bar_body(full: nat, partial: nat, width: nat) -> Seq<char> {
    repeat(block(8), full) + if full < width {
        seq![block(if partial < 8 { partial as int } else { 8 })]
    } else {
        Seq::<char>::empty()
    }
}

/// The usage bar: `bar_body` followed by spaces until its UTF-8 encoding is
/// `width` bytes long. The width is measured in bytes, as `String::len`
/// measures it, so a bar of multi-byte glyphs gets fewer padding spaces.
pub open spec fn bar_text(full: nat, partial: nat, width: nat) -> Seq<char> {
    let body = bar_body(full, partial, width);
    if byte_len(body) < width {
        body + repeat(' ', (width - byte_len(body)) as nat)
    } else {
        body
    }
}

/// The glyph scale: 0 is a space, 8 a full block, and glyph `i` for `i`
/// from 1 to 7 is the left `i`-eighths block (U+2590 minus `i`).
pub proof fn law_block_glyphs(i: int)
    ensures
        i <= 0 ==> block(i) == ' ',
        i >= 8 ==> block(i) == '█',
        1 <= i <= 8 ==> block(i) as u32 == 0x2590 - i,
{
}

/// A usage bar is `full` full blocks, then (when they leave room within
/// `width`) the glyph for `partial` eighths, then spaces; it takes at least
/// `width` bytes, and exactly `width` when the glyphs leave room for it.
pub proof fn law_usage_bar_shape(full: nat, partial: nat, width: nat)
    ensures
        bar_text(full, partial, width).len() > full || (full >= width && bar_text(full, partial, width).len() == full),
        forall|i: int| 0 <= i < full ==> #[trigger] bar_text(full, partial, width)[i] == '█',
        full < width ==> bar_text(full, partial, width)[full as int] == block(
            if partial < 8 { partial as int } else { 8 },
        ),
        forall|i: int|
            full + (if full < width { 1int } else { 0int }) <= i < bar_text(full, partial, width).len()
                ==> #[trigger] bar_text(full, partial, width)[i] == ' ',
        byte_len(bar_text(full, partial, width)) >= width,
        3 * full + 3 <= width ==> byte_len(bar_text(full, partial, width)) == width,
{
    let g = block(if partial < 8 { partial as int } else { 8 });
    let tail = if full < width { seq![g] } else { Seq::<char>::empty() };
    let body = bar_body(full, partial, width);
    assert(body == repeat(block(8), full) + tail);
    lemma_byte_len_repeat(block(8), full);
    lemma_byte_len_concat(repeat(block(8), full), tail);
    assert(char_width(block(8)) == 3);
    assert(byte_len(tail) <= 3) by {
        if full < width {
            assert(seq![g].drop_first() =~= Seq::<char>::empty());
            assert(seq![g][0] == g);
            assert(char_width(g) <= 3);
            assert(byte_len(Seq::<char>::empty()) == 0);
            assert(byte_len(seq![g]) == char_width(g));
        }
    }
    let b = bar_text(full, partial, width);
    if byte_len(body) < width {
        let pad = repeat(' ', (width - byte_len(body)) as nat);
        lemma_byte_len_repeat(' ', (width - byte_len(body)) as nat);
        lemma_byte_len_concat(body, pad);
        assert(b == body + pad);
        assert forall|i: int| 0 <= i < full implies #[trigger] b[i] == '█' by {
            assert(b[i] == body[i]);
        }
    }
}

/// Builds the usage bar of a core from its whole-block count `full_blocks`
/// and the eighth index `partial_idx` of the following cell.
pub fn usage_bar(full_blocks: usize, partial_idx: usize, width: usize) -> (bar: String)
    requires
        3 * full_blocks + 3 + width <= usize::MAX,
    ensures
        bar@ == bar_text(full_blocks as nat, partial_idx as nat, width as nat),
        byte_len(bar@) >= width,
{
    let mut v: Vec<char> = Vec::new();
    let mut used: usize = 0;
    let mut i: usize = 0;
    while i < full_blocks
        invariant
            i <= full_blocks,
            3 * full_blocks + 3 + width <= usize::MAX,
            v@ == repeat(block(8), i as nat),
            used == byte_len(v@),
            used == 3 * i,
        decreases full_blocks - i,
    {
        proof {
            lemma_byte_len_push(v@, block(8));
        }
        v.push(block_glyph(8));
        used = used + 3;
        i = i + 1;
        assert(v@ =~= repeat(block(8), i as nat));
    }
    if full_blocks < width {
        let g = if partial_idx < 8 { block_glyph(partial_idx) } else { block_glyph(8) };
        proof {
            lemma_byte_len_push(v@, g);
        }
        v.push(g);
        used = used + utf8_width(g);
    }
    assert(v@ =~= bar_body(full_blocks as nat, partial_idx as nat, width as nat));
    let ghost body = v@;
    while used < width
        invariant
            used == byte_len(v@),
            byte_len(body) >= width ==> v@ == body,
            byte_len(body) < width ==> used <= width,
            byte_len(body) < width ==> v@ == body + repeat(' ', (used - byte_len(body)) as nat),
            used >= byte_len(body),
            3 * full_blocks + 3 + width <= usize::MAX,
        decreases width - used,
    {
        proof {
            lemma_byte_len_push(v@, ' ');
        }
        v.push(' ');
        used = used + 1;
        assert(v@ =~= body + repeat(' ', (used - byte_len(body)) as nat));
    }
    proof {
        if byte_len(body) < width {
            assert(used == width);
        } else {
            assert(v@ == body);
        }
    }
    string_of(&v)
}

/// Width of each per-core bar for a panel `inner_width` cells wide:
/// eight cells fewer, at most 25 and at least 5.
pub open spec fn bar_width_for(inner_width: int) -> int {
    let w = if inner_width > 8 { inner_width - 8 } else { 0 };
    let capped = if w < 25 { w } else { 25 };
    if capped > 5 { capped } else { 5 }
}

/// Bars are eight cells narrower than the panel, but never narrower than
/// five nor wider than twenty-five cells.
pub proof fn law_bar_width(inner_width: int)
    ensures
        inner_width <= 13 ==> bar_width_for(inner_width) == 5,
        13 <= inner_width <= 33 ==> bar_width_for(inner_width) == inner_width - 8,
        inner_width >= 33 ==> bar_width_for(inner_width) == 25,
{
}

/// Width of each per-core bar for a panel `inner_width` cells wide.
pub fn bar_width(inner_width: u16) -> (w: usize)
    ensures
        w == bar_width_for(inner_width as int),
        5 <= w <= 25,
{
    let w = (inner_width as usize).saturating_sub(8);
    let capped = if w < 25 { w } else { 25 };
    if capped > 5 { capped } else { 5 }
}

/// Logical CPU count shown: the number of CPU entries, or the physical core
/// count when that is larger.
pub fn logical_count(cpu_entries: usize, physical: usize) -> (n: usize)
    ensures
        n == if cpu_entries >= physical { cpu_entries } else { physical },
{
    if cpu_entries >= physical { cpu_entries } else { physical }
}

/// True when the system reports a single aggregate CPU entry for several
/// physical cores (then one `ALL` bar replaces the per-core bars).
pub fn is_aggregate(cpu_entries: usize, physical: usize) -> (b: bool)
    ensures
        b == (cpu_entries == 1 && physical > 1),
{
    cpu_entries == 1 && physical > 1
}

/// The summary line ` {brand} | {physical}C/{logical}T | {freq}MHz `.
pub open spec fn summary_text(brand: Seq<char>, physical: nat, logical: nat, freq: nat) -> Seq<char> {
    seq![' '] + brand + " | "@ + decimal(physical) + "C/"@ + decimal(logical) + "T | "@ + decimal(freq)
        + "MHz "@
}

/// The summary line of the CPU panel.
pub fn summary_line(brand: &str, physical: usize, logical: usize, freq: u64) -> (s: String)
    ensures
        s@ == summary_text(brand@, physical as nat, logical as nat, freq as nat),
{
    let mut v: Vec<char> = Vec::new();
    v.push(' ');
    push_str(&mut v, brand);
    push_str(&mut v, " | ");
    let p = decimal_string(physical as u64);
    push_str(&mut v, p.as_str());
    push_str(&mut v, "C/");
    let l = decimal_string(logical as u64);
    push_str(&mut v, l.as_str());
    push_str(&mut v, "T | ");
    let f = decimal_string(freq);
    push_str(&mut v, f.as_str());
    push_str(&mut v, "MHz ");
    assert(v@ =~= summary_text(brand@, physical as nat, logical as nat, freq as nat));
    string_of(&v)
}

/// The summary line names the brand, then the physical core count before
/// `C/`, the logical (thread) count before `T`, and the frequency before
/// `MHz`, each as decimal text that reads back as that number: for
/// 4 physical and 8 logical cores the line holds `4C/8T`.
pub proof fn law_summary_fields(brand: Seq<char>, physical: nat, logical: nat, freq: nat)
    ensures
        exists|x: Seq<char>, y: Seq<char>, z: Seq<char>|
            #[trigger] reads_as(x, physical) && #[trigger] reads_as(y, logical) && #[trigger] reads_as(
                z,
                freq,
            ) && summary_text(brand, physical, logical, freq) == seq![' '] + brand + " | "@ + x
                + "C/"@ + y + "T | "@ + z + "MHz "@,
{
    law_decimal_reads_back(physical);
    law_decimal_reads_back(logical);
    law_decimal_reads_back(freq);
    let x = decimal(physical);
    let y = decimal(logical);
    let z = decimal(freq);
    assert(summary_text(brand, physical, logical, freq) == seq![' '] + brand + " | "@ + x + "C/"@
        + y + "T | "@ + z + "MHz "@);
}

/// The label in front of a core's bar: its name right-aligned to three
/// characters, then a space.
pub fn core_label(name: &str) -> (s: String)
    ensures
        s@ == pad_start(name@, 3) + seq![' '],
{
    let n = chars_of(name);
    let mut v = padded_start(&n, 3);
    v.push(' ');
    string_of(&v)
}

} // verus!
