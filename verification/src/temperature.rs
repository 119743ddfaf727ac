//! Temperature panel: short labels for sensor names.

use vstd::prelude::*;
use crate::text::{
    alphanumeric, byte_len, byte_prefix, chars_of, has_infix, is_alphanumeric, is_ascii_digit,
    is_byte_boundary, law_byte_prefix_longest_fit, lowercase, pad_end, padded_end, prefix_within_bytes, push_all, str_contains,
    string_of, to_lowercase, utf8_len, byte_len_exceeds,
};

verus! {

/// Characters a fallback label keeps: letters and digits, space, `-` and `_`.
pub open spec fn keeps(c: char) -> bool {
    alphanumeric(c) || c == ' ' || c == '-' || c == '_'
}

/// The sensor name with every other character removed.
pub open spec fn cleaned(label: Seq<char>) -> Seq<char> {
    label.filter(|c: char| keeps(c))
}

/// The first ASCII digit of `s`, if any.
pub open spec fn first_digit(s: Seq<char>) -> Option<char>
    decreases s.len(),
{
    if s.len() == 0 {
        None
    } else if is_ascii_digit(s[0]) {
        Some(s[0])
    } else {
        first_digit(s.drop_first())
    }
}

/// True when any of the patterns occurs in `s`.
pub open spec fn mentions_any(s: Seq<char>, a: Seq<char>, b: Seq<char>, c: Seq<char>) -> bool {
    has_infix(s, a) || has_infix(s, b) || has_infix(s, c)
}

/// True when the label is not recognised and falls back to the cleaned name.
pub open spec fn is_fallback(lower: Seq<char>) -> bool {
    &&& !mentions_any(lower, "cpu"@, "core"@, "package"@)
    &&& !mentions_any(lower, "gpu"@, "nvidia"@, "amd"@)
    &&& !has_infix(lower, "soc"@)
    &&& !(has_infix(lower, "battery"@) || has_infix(lower, "bat"@))
    &&& !mentions_any(lower, "nand"@, "ssd"@, "disk"@)
    &&& !mentions_any(lower, "acpitz"@, "pch"@, "tctl"@)
    &&& !mentions_any(lower, "pmu"@, "tdev"@, "ans"@)
}

/// The short label of a sensor, given its name and the name lowercased:
/// `CPU` or `C<digit>` for processor sensors, `GPU`, `SoC`, `BAT`, `SSD`,
/// `SYS` for `acpitz`, `PCH` for `pch`, `CPU` for `tctl`, nothing for the
/// `pmu`/`tdev`/`ans` noise sensors, else the cleaned name cut to ten bytes.
pub open spec fn label_from(label: Seq<char>, lower: Seq<char>) -> Seq<char> {
    if mentions_any(lower, "cpu"@, "core"@, "package"@) {
        if has_infix(lower, "package"@) {
            "CPU"@
        } else {
            match first_digit(lower) {
                Some(d) => seq!['C', d],
                None => "CPU"@,
            }
        }
    } else if mentions_any(lower, "gpu"@, "nvidia"@, "amd"@) {
        "GPU"@
    } else if has_infix(lower, "soc"@) {
        "SoC"@
    } else if has_infix(lower, "battery"@) || has_infix(lower, "bat"@) {
        "BAT"@
    } else if mentions_any(lower, "nand"@, "ssd"@, "disk"@) {
        "SSD"@
    } else if has_infix(lower, "acpitz"@) {
        "SYS"@
    } else if has_infix(lower, "pch"@) {
        "PCH"@
    } else if has_infix(lower, "tctl"@) {
        "CPU"@
    } else if mentions_any(lower, "pmu"@, "tdev"@, "ans"@) {
        Seq::empty()
    } else if byte_len(cleaned(label)) > 10 {
        byte_prefix(cleaned(label), 10)
    } else {
        cleaned(label)
    }
}

/// The short label of the sensor named `label`.
pub open spec fn short_label(label: Seq<char>) -> Seq<char> {
    label_from(label, lowercase(label))
}

/// True when shortening `label` cuts its cleaned name inside a character,
/// which `&str` slicing refuses.
pub open spec fn cut_splits_char(label: Seq<char>) -> bool {
    is_fallback(lowercase(label)) && byte_len(cleaned(label)) > 10 && !is_byte_boundary(
        cleaned(label),
        10,
    )
}

/// `first_digit` finds the earliest ASCII digit.
proof fn lemma_first_digit(s: Seq<char>, i: int)
    requires
        0 <= i < s.len(),
        is_ascii_digit(s[i]),
        forall|j: int| 0 <= j < i ==> !is_ascii_digit(#[trigger] s[j]),
    ensures
        first_digit(s) == Some(s[i]),
    decreases i,
{
    if i > 0 {
        let t = s.drop_first();
        assert forall|j: int| 0 <= j < i - 1 implies !is_ascii_digit(#[trigger] t[j]) by {
            assert(t[j] == s[j + 1]);
        }
        lemma_first_digit(t, i - 1);
    }
}

/// Without any ASCII digit, `first_digit` finds none.
proof fn lemma_no_digit(s: Seq<char>)
    requires
        forall|j: int| 0 <= j < s.len() ==> !is_ascii_digit(#[trigger] s[j]),
    ensures
        first_digit(s) is None,
    decreases s.len(),
{
    if s.len() > 0 {
        let t = s.drop_first();
        assert forall|j: int| 0 <= j < t.len() implies !is_ascii_digit(#[trigger] t[j]) by {
            assert(t[j] == s[j + 1]);
        }
        lemma_no_digit(t);
    }
}

/// A sensor whose lowercase name mentions `package` is the whole processor:
/// its label is `CPU`, whatever digits the name holds (`coretemp Package id
/// 0` shows as `CPU`).
pub proof fn law_package_sensors_are_cpu(label: Seq<char>)
    requires
        exists|i: int|
            0 <= i && i + 7 <= lowercase(label).len() && #[trigger] lowercase(label).subrange(i, i + 7)
                == "package"@,
    ensures
        short_label(label) == "CPU"@,
{
    reveal_strlit("package");
    let i = choose|i: int|
        0 <= i && i + 7 <= lowercase(label).len() && #[trigger] lowercase(label).subrange(i, i + 7)
            == "package"@;
    assert(lowercase(label).subrange(i, i + "package"@.len()) == "package"@);
    assert(has_infix(lowercase(label), "package"@));
    assert(mentions_any(lowercase(label), "cpu"@, "core"@, "package"@));
}

/// A core sensor (lowercase name mentioning `cpu` or `core` but not
/// `package`) is labelled `C` followed by the first digit of its name, or
/// `CPU` when the name has no digit (`Core 3` shows as `C3`).
pub proof fn law_core_sensors_numbered(label: Seq<char>)
    requires
        has_infix(lowercase(label), "cpu"@) || has_infix(lowercase(label), "core"@),
        !has_infix(lowercase(label), "package"@),
    ensures
        forall|i: int|
            0 <= i < lowercase(label).len() && '0' <= #[trigger] lowercase(label)[i] <= '9' && (forall|j: int|
                0 <= j < i ==> !('0' <= #[trigger] lowercase(label)[j] <= '9')) ==> short_label(label)
                == seq!['C', lowercase(label)[i]],
        (forall|j: int| 0 <= j < lowercase(label).len() ==> !('0' <= #[trigger] lowercase(label)[j] <= '9'))
            ==> short_label(label) == "CPU"@,
{
    let l = lowercase(label);
    assert forall|i: int|
        0 <= i < l.len() && '0' <= #[trigger] l[i] <= '9' && (forall|j: int|
            0 <= j < i ==> !('0' <= #[trigger] l[j] <= '9')) implies short_label(label) == seq![
        'C',
        l[i],
    ] by {
        assert forall|j: int| 0 <= j < i implies !is_ascii_digit(#[trigger] l[j]) by {
            assert(!('0' <= l[j] <= '9'));
        }
        lemma_first_digit(l, i);
    }
    if forall|j: int| 0 <= j < l.len() ==> !('0' <= #[trigger] l[j] <= '9') {
        assert forall|j: int| 0 <= j < l.len() implies !is_ascii_digit(#[trigger] l[j]) by {
            assert(!('0' <= l[j] <= '9'));
        }
        lemma_no_digit(l);
    }
}

/// The other recognised sensors, each only when no earlier kind matched:
/// `gpu`/`nvidia`/`amd` give `GPU`, then `soc` gives `SoC`, `battery` or
/// `bat` gives `BAT`, `nand`/`ssd`/`disk` give `SSD`, `acpitz` gives `SYS`,
/// `pch` gives `PCH`, `tctl` gives `CPU`, and the `pmu`/`tdev`/`ans` noise
/// sensors get an empty label.
pub proof fn law_recognised_sensors(label: Seq<char>)
    requires
        !has_infix(lowercase(label), "cpu"@),
        !has_infix(lowercase(label), "core"@),
        !has_infix(lowercase(label), "package"@),
    ensures
        has_infix(lowercase(label), "gpu"@) || has_infix(lowercase(label), "nvidia"@) || has_infix(
            lowercase(label),
            "amd"@,
        ) ==> short_label(label) == "GPU"@,
        !mentions_any(lowercase(label), "gpu"@, "nvidia"@, "amd"@) ==> {
            let l = lowercase(label);
            &&& has_infix(l, "soc"@) ==> short_label(label) == "SoC"@
            &&& !has_infix(l, "soc"@) && has_infix(l, "bat"@) ==> short_label(label) == "BAT"@
            &&& !has_infix(l, "soc"@) && !has_infix(l, "bat"@) && !has_infix(l, "battery"@) && (has_infix(
                l,
                "nand"@,
            ) || has_infix(l, "ssd"@) || has_infix(l, "disk"@)) ==> short_label(label) == "SSD"@
            &&& !has_infix(l, "soc"@) && !has_infix(l, "bat"@) && !has_infix(l, "battery"@)
                && !mentions_any(l, "nand"@, "ssd"@, "disk"@) ==> {
                &&& has_infix(l, "acpitz"@) ==> short_label(label) == "SYS"@
                &&& !has_infix(l, "acpitz"@) && has_infix(l, "pch"@) ==> short_label(label) == "PCH"@
                &&& !has_infix(l, "acpitz"@) && !has_infix(l, "pch"@) && has_infix(l, "tctl"@)
                    ==> short_label(label) == "CPU"@
                &&& !mentions_any(l, "acpitz"@, "pch"@, "tctl"@) && (has_infix(l, "pmu"@) || has_infix(
                    l,
                    "tdev"@,
                ) || has_infix(l, "ans"@)) ==> short_label(label) == Seq::<char>::empty()
            }
        },
{
}

/// An unrecognised sensor is labelled by its own name with every character
/// other than letters, digits, space, `-` and `_` removed, cut to at most
/// ten bytes: the label is a prefix of that cleaned name, holds only kept
/// characters, and is the whole cleaned name when that fits.
pub proof fn law_fallback_labels(label: Seq<char>)
    requires
        is_fallback(lowercase(label)),
    ensures
        short_label(label) == cleaned(label).subrange(0, short_label(label).len() as int),
        byte_len(short_label(label)) <= 10,
        byte_len(cleaned(label)) <= 10 ==> short_label(label) == cleaned(label),
        forall|i: int|
            0 <= i < short_label(label).len() ==> alphanumeric(#[trigger] short_label(label)[i])
                || short_label(label)[i] == ' ' || short_label(label)[i] == '-' || short_label(label)[i]
                == '_',
        forall|i: int|
            0 <= i < label.len() && (alphanumeric(#[trigger] label[i]) || label[i] == ' ' || label[i]
                == '-' || label[i] == '_') ==> cleaned(label).contains(label[i]),
        forall|i: int| 0 <= i < cleaned(label).len() ==> label.contains(#[trigger] cleaned(label)[i]),
{
    let c = cleaned(label);
    let f = |ch: char| keeps(ch);
    law_byte_prefix_longest_fit(c, 10);
    let r = short_label(label);
    assert(r == c.subrange(0, r.len() as int));
    assert forall|i: int| 0 <= i < c.len() implies keeps(#[trigger] c[i]) by {
        label.lemma_filter_pred(f, i);
    }
    assert forall|i: int| 0 <= i < r.len() implies alphanumeric(#[trigger] r[i]) || r[i] == ' '
        || r[i] == '-' || r[i] == '_' by {
        assert(r[i] == c[i]);
        assert(keeps(c[i]));
    }
    assert forall|i: int|
        0 <= i < label.len() && (alphanumeric(#[trigger] label[i]) || label[i] == ' ' || label[i]
            == '-' || label[i] == '_') implies c.contains(label[i]) by {
        label.lemma_filter_contains(f, i);
    }
    assert forall|i: int| 0 <= i < c.len() implies label.contains(#[trigger] c[i]) by {
        assert(c.contains(c[i]));
        label.lemma_filter_contains_rev(f, c[i]);
    }
}

/// Whether `s` mentions any of the three patterns.
fn contains_any(s: &Vec<char>, a: &str, b: &str, c: &str) -> (r: bool)
    ensures
        r == mentions_any(s@, a@, b@, c@),
{
    str_contains(s, a) || str_contains(s, b) || str_contains(s, c)
}

/// Whether the lowercased name matches none of the known sensors (see
/// `is_fallback`).
fn falls_back(lower: &Vec<char>) -> (b: bool)
    ensures
        b == is_fallback(lower@),
{
    !contains_any(lower, "cpu", "core", "package") && !contains_any(lower, "gpu", "nvidia", "amd")
        && !str_contains(lower, "soc") && !(str_contains(lower, "battery") || str_contains(
        lower,
        "bat",
    )) && !contains_any(lower, "nand", "ssd", "disk") && !contains_any(
        lower,
        "acpitz",
        "pch",
        "tctl",
    ) && !contains_any(lower, "pmu", "tdev", "ans")
}

/// The first ASCII digit of `s`.
fn find_digit(s: &Vec<char>) -> (d: Option<char>)
    ensures
        d == first_digit(s@),
{
    let mut i: usize = 0;
    assert(s@.skip(0) =~= s@);
    while i < s.len()
        invariant
            i <= s.len(),
            first_digit(s@) == first_digit(s@.skip(i as int)),
        decreases s.len() - i,
    {
        assert(s@.skip(i as int)[0] == s@[i as int]);
        if '0' <= s[i] && s[i] <= '9' {
            return Some(s[i]);
        }
        assert(s@.skip(i as int).drop_first() =~= s@.skip(i + 1));
        i = i + 1;
    }
    assert(s@.skip(i as int) =~= Seq::<char>::empty());
    None
}

/// The sensor name without the characters a label does not keep.
fn clean(label: &Vec<char>) -> (r: Vec<char>)
    ensures
        r@ == cleaned(label@),
{
    let mut r: Vec<char> = Vec::new();
    let mut i: usize = 0;
    while i < label.len()
        invariant
            i <= label.len(),
            r@ == cleaned(label@.take(i as int)),
        decreases label.len() - i,
    {
        proof {
            reveal_with_fuel(Seq::filter, 1);
            assert(label@.take(i + 1).drop_last() =~= label@.take(i as int));
        }
        let c = label[i];
        if is_alphanumeric(c) || c == ' ' || c == '-' || c == '_' {
            r.push(c);
        }
        i = i + 1;
    }
    assert(label@.take(label.len() as int) =~= label@);
    r
}

/// Shortens a sensor name to the label the panel shows. In the fallback
/// case the cleaned name must not be cut inside a character.
pub fn simplify_label(label: &str) -> (s: String)
    requires
        !cut_splits_char(label@),
    ensures
        s@ == short_label(label@),
{
    let lower_s = to_lowercase(label);
    label_from_lower(label, lower_s.as_str())
}

/// The short label of the sensor named `label`, given the name's lowercase
/// form. In the fallback case the cleaned name must not be cut inside a
/// character.
pub fn label_from_lower(label: &str, lower_s: &str) -> (s: String)
    requires
        is_fallback(lower_s@) && byte_len(cleaned(label@)) > 10 ==> is_byte_boundary(
            cleaned(label@),
            10,
        ),
    ensures
        s@ == label_from(label@, lower_s@),
{
    let lower = chars_of(lower_s);
    if contains_any(&lower, "cpu", "core", "package") {
        if str_contains(&lower, "package") {
            return "CPU".to_owned();
        }
        match find_digit(&lower) {
            Some(d) => {
                let mut v: Vec<char> = Vec::new();
                v.push('C');
                v.push(d);
                assert(v@ =~= seq!['C', d]);
                return string_of(&v);
            },
            None => {
                return "CPU".to_owned();
            },
        }
    }
    if contains_any(&lower, "gpu", "nvidia", "amd") {
        return "GPU".to_owned();
    }
    if str_contains(&lower, "soc") {
        return "SoC".to_owned();
    }
    if str_contains(&lower, "battery") || str_contains(&lower, "bat") {
        return "BAT".to_owned();
    }
    if contains_any(&lower, "nand", "ssd", "disk") {
        return "SSD".to_owned();
    }
    if str_contains(&lower, "acpitz") {
        return "SYS".to_owned();
    }
    if str_contains(&lower, "pch") {
        return "PCH".to_owned();
    }
    if str_contains(&lower, "tctl") {
        return "CPU".to_owned();
    }
    if contains_any(&lower, "pmu", "tdev", "ans") {
        return String::new();
    }
    let name = chars_of(label);
    let c = clean(&name);
    if byte_len_exceeds(&c, 10) {
        let head = prefix_within_bytes(&c, 10);
        string_of(&head)
    } else {
        string_of(&c)
    }
}

/// The short label of a sensor, or `None` when shortening would cut the
/// cleaned name inside a character.
pub fn checked_simplify_label(label: &str) -> (s: Option<String>)
    ensures
        s is None <==> cut_splits_char(label@),
        s matches Some(t) ==> t@ == short_label(label@),
{
    let lower_s = to_lowercase(label);
    let lower = chars_of(lower_s.as_str());
    let fallback = falls_back(&lower);
    if fallback {
        let name = chars_of(label);
        let c = clean(&name);
        if byte_len_exceeds(&c, 10) {
            let head = prefix_within_bytes(&c, 10);
            proof {
                crate::text::lemma_byte_prefix_len(c@, 10);
            }
            let hn = utf8_len(&head);
            if hn != 10 {
                return None;
            }
        }
    }
    Some(simplify_label(label))
}

/// The label cell of a sensor row: the label left-aligned in five columns
/// between spaces.
pub fn label_cell(label: &str) -> (s: String)
    ensures
        s@ == seq![' '] + pad_end(label@, 5) + seq![' '],
{
    let lc = chars_of(label);
    let padded = padded_end(&lc, 5);
    let mut v: Vec<char> = Vec::new();
    v.push(' ');
    push_all(&mut v, &padded);
    v.push(' ');
    assert(v@ =~= seq![' '] + pad_end(label@, 5) + seq![' ']);
    string_of(&v)
}

} // verus!
