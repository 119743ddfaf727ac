//! Network panel: which interfaces are listed, how each is labelled, and how
//! transfer rates are printed.

use vstd::prelude::*;
use crate::style::{Reading, Tint, is_exact, is_scaled, scaled};
use crate::text::{
    byte_len, byte_length, byte_prefix, chars_of, decimal, decimal_string, has_infix, has_prefix,
    is_byte_boundary, law_byte_prefix_longest_fit, pad_end, padded_end, prefix_within_bytes,
    push_all, str_contains,
    str_equals, str_starts_with, string_of,
};

verus! {

/// One address of an interface: whether it is IPv4, and its text.
pub struct AddressRecord {
    pub is_ipv4: bool,
    pub text: String,
}

/// One network interface as the operating system lists it, with the bytes
/// received and transmitted since the last refresh.
pub struct InterfaceRecord {
    pub name: String,
    pub addresses: Vec<AddressRecord>,
    pub received: u64,
    pub transmitted: u64,
}

/// True when the interface has at least one IPv4 address.
pub open spec fn has_ipv4(r: InterfaceRecord) -> bool {
    exists|i: int| 0 <= i < r.addresses@.len() && (#[trigger] r.addresses@[i]).is_ipv4
}

/// True when the panel lists the interface: not loopback, not a container
/// bridge (`docker`, `br-`, `veth`), and with an IPv4 address.
pub open spec fn is_listed(r: InterfaceRecord) -> bool {
    &&& !has_prefix(r.name@, "lo"@)
    &&& r.name@ != "lo0"@
    &&& !has_prefix(r.name@, "docker"@)
    &&& !has_prefix(r.name@, "br-"@)
    &&& !has_prefix(r.name@, "veth"@)
    &&& has_ipv4(r)
}

/// The listed interfaces, in the order given.
pub open spec fn listed(rs: Seq<InterfaceRecord>) -> Seq<InterfaceRecord> {
    rs.filter(|r: InterfaceRecord| is_listed(r))
}

/// True for a tunnel (VPN) interface: `utun*`, `tailscale*` or `wg*`.
pub open spec fn is_vpn_name(name: Seq<char>) -> bool {
    has_prefix(name, "utun"@) || has_prefix(name, "tailscale"@) || has_prefix(name, "wg"@)
}

/// True for a wired interface name `eth*`, `eno*` or `ens*`.
pub open spec fn is_wired_name(name: Seq<char>) -> bool {
    has_prefix(name, "eth"@) || has_prefix(name, "eno"@) || has_prefix(name, "ens"@)
}

/// True when the label falls back to the start of the name itself.
pub open spec fn uses_name_prefix(name: Seq<char>) -> bool {
    !is_vpn_name(name) && !is_wired_name(name) && !has_prefix(name, "wlan"@) && !has_prefix(
        name,
        "en"@,
    )
}

/// The byte count the fallback label keeps: four, or fewer for a shorter name.
pub open spec fn label_bytes(name: Seq<char>) -> int {
    if byte_len(name) < 4 {
        byte_len(name) as int
    } else {
        4
    }
}

/// Whether the name is a tunnel's (see `is_vpn_name`).
fn vpn_name(n: &Vec<char>) -> (b: bool)
    ensures
        b == is_vpn_name(n@),
{
    str_starts_with(n, "utun") || str_starts_with(n, "tailscale") || str_starts_with(n, "wg")
}

/// Whether the name is a wired interface's (see `is_wired_name`).
fn wired_name(n: &Vec<char>) -> (b: bool)
    ensures
        b == is_wired_name(n@),
{
    str_starts_with(n, "eth") || str_starts_with(n, "eno") || str_starts_with(n, "ens")
}

/// Whether the label falls back to the start of the name (see `uses_name_prefix`).
fn falls_back_to_name(n: &Vec<char>) -> (b: bool)
    ensures
        b == uses_name_prefix(n@),
{
    !vpn_name(n) && !wired_name(n) && !str_starts_with(n, "wlan") && !str_starts_with(n, "en")
}

/// The byte count the fallback label keeps (see `label_bytes`).
fn label_byte_count(name: &str) -> (k: usize)
    ensures
        k == label_bytes(name@),
{
    let len = byte_length(name);
    if len < 4 {
        len
    } else {
        4
    }
}

/// The type label of an interface: `VPN` for tunnels, `ETH` for wired
/// names, `WiFi` for `wlan*` and for other `en*` names unless they mention
/// `bridge` (then `ETH`), else the first four bytes of the name.
pub open spec fn interface_kind_label(name: Seq<char>) -> Seq<char> {
    if is_vpn_name(name) {
        "VPN"@
    } else if is_wired_name(name) {
        "ETH"@
    } else if has_prefix(name, "wlan"@) {
        "WiFi"@
    } else if has_prefix(name, "en"@) && !has_infix(name, "bridge"@) {
        "WiFi"@
    } else if has_prefix(name, "en"@) {
        "ETH"@
    } else {
        byte_prefix(name, label_bytes(name))
    }
}

/// The network panel's data: the interfaces listed by the operating system.
pub struct NetworkWidget {
    interfaces: Vec<InterfaceRecord>,
}

impl View for NetworkWidget {
    type V = Seq<InterfaceRecord>;

    closed spec fn view(&self) -> Seq<InterfaceRecord> {
        self.interfaces@
    }
}

impl NetworkWidget {
    /// A panel over the given interfaces.
    pub fn new(interfaces: Vec<InterfaceRecord>) -> (w: Self)
        ensures
            w@ == interfaces@,
    {
        NetworkWidget { interfaces }
    }

    /// All interfaces the panel was given.
    pub fn interfaces(&self) -> (v: &Vec<InterfaceRecord>)
        ensures
            v@ == self@,
    {
        &self.interfaces
    }

    /// Whether the panel lists the interface.
    pub fn is_listed(r: &InterfaceRecord) -> (b: bool)
        ensures
            b == is_listed(*r),
    {
        let name = chars_of(r.name.as_str());
        if str_starts_with(&name, "lo") || str_equals(&name, "lo0") {
            return false;
        }
        if str_starts_with(&name, "docker") || str_starts_with(&name, "br-") || str_starts_with(
            &name,
            "veth",
        ) {
            return false;
        }
        Self::any_ipv4(r)
    }

    /// Whether the interface has an IPv4 address.
    fn any_ipv4(r: &InterfaceRecord) -> (b: bool)
        ensures
            b == has_ipv4(*r),
    {
        let mut i: usize = 0;
        while i < r.addresses.len()
            invariant
                i <= r.addresses@.len(),
                forall|k: int| 0 <= k < i ==> !(#[trigger] r.addresses@[k]).is_ipv4,
            decreases r.addresses@.len() - i,
        {
            if r.addresses[i].is_ipv4 {
                assert(r.addresses@[i as int].is_ipv4);
                return true;
            }
            i = i + 1;
        }
        false
    }

    /// The interfaces the panel lists, in the order given.
    pub fn get_interfaces(networks: &Vec<InterfaceRecord>) -> (v: Vec<&InterfaceRecord>)
        ensures
            v@.len() == listed(networks@).len(),
            forall|i: int| 0 <= i < v@.len() ==> *v@[i] == #[trigger] listed(networks@)[i],
    {
        let mut v: Vec<&InterfaceRecord> = Vec::new();
        let mut i: usize = 0;
        while i < networks.len()
            invariant
                i <= networks@.len(),
                v@.len() == listed(networks@.take(i as int)).len(),
                forall|k: int|
                    0 <= k < v@.len() ==> *v@[k] == #[trigger] listed(networks@.take(i as int))[k],
            decreases networks@.len() - i,
        {
            proof {
                reveal_with_fuel(Seq::filter, 1);
                assert(networks@.take(i + 1).drop_last() =~= networks@.take(i as int));
            }
            if Self::is_listed(&networks[i]) {
                v.push(&networks[i]);
            }
            i = i + 1;
        }
        assert(networks@.take(networks@.len() as int) =~= networks@);
        v
    }

    /// How a transfer rate is printed: at least 1 GiB as gibibytes with one
    /// decimal and `G`, then `M`, then `K`, and below 1 KiB the exact count.
    pub fn format_speed(bytes_per_sec: u64) -> (r: Reading)
        ensures
            bytes_per_sec >= 1_073_741_824 ==> is_scaled(r, 1_073_741_824, 1, "G"@),
            1_048_576 <= bytes_per_sec < 1_073_741_824 ==> is_scaled(r, 1_048_576, 1, "M"@),
            1024 <= bytes_per_sec < 1_048_576 ==> is_scaled(r, 1024, 1, "K"@),
            bytes_per_sec < 1024 ==> is_exact(r, decimal(bytes_per_sec as nat)),
    {
        if bytes_per_sec >= 1024 * 1024 * 1024 {
            scaled(1_073_741_824, 1, "G")
        } else if bytes_per_sec >= 1024 * 1024 {
            scaled(1_048_576, 1, "M")
        } else if bytes_per_sec >= 1024 {
            scaled(1024, 1, "K")
        } else {
            Reading::Exact(decimal_string(bytes_per_sec))
        }
    }

    /// The type label of an interface (see `interface_kind_label`). When the
    /// label falls back to the name, the name must be cut at a character
    /// boundary.
    pub fn kind_label(name: &str) -> (s: String)
        requires
            uses_name_prefix(name@) ==> is_byte_boundary(name@, label_bytes(name@)),
        ensures
            s@ == interface_kind_label(name@),
    {
        let n = chars_of(name);
        if vpn_name(&n) {
            return "VPN".to_owned();
        }
        if wired_name(&n) {
            return "ETH".to_owned();
        }
        if str_starts_with(&n, "wlan") {
            return "WiFi".to_owned();
        }
        if str_starts_with(&n, "en") {
            if !str_contains(&n, "bridge") {
                return "WiFi".to_owned();
            }
            return "ETH".to_owned();
        }
        let head = prefix_within_bytes(&n, label_byte_count(name));
        string_of(&head)
    }

    /// The colour of an interface's label: blue for tunnels, white otherwise.
    pub fn kind_tint(name: &str) -> (t: Tint)
        ensures
            t == if is_vpn_name(name@) { Tint::Blue } else { Tint::White },
    {
        let n = chars_of(name);
        if vpn_name(&n) {
            Tint::Blue
        } else {
            Tint::White
        }
    }

    /// The label cell: the type label left-aligned in four columns between spaces.
    pub fn label_cell(name: &str) -> (s: String)
        requires
            uses_name_prefix(name@) ==> is_byte_boundary(name@, label_bytes(name@)),
        ensures
            s@ == seq![' '] + pad_end(interface_kind_label(name@), 4) + seq![' '],
    {
        let label = Self::kind_label(name);
        let lc = chars_of(label.as_str());
        let padded = padded_end(&lc, 4);
        let mut v: Vec<char> = Vec::new();
        v.push(' ');
        push_all(&mut v, &padded);
        v.push(' ');
        assert(v@ =~= seq![' '] + pad_end(interface_kind_label(name@), 4) + seq![' ']);
        string_of(&v)
    }

    /// The label cell, or `None` when the fallback label would cut the name
    /// inside a character.
    pub fn checked_label_cell(name: &str) -> (s: Option<String>)
        ensures
            s is None <==> (uses_name_prefix(name@) && !is_byte_boundary(name@, label_bytes(name@))),
            s matches Some(t) ==> t@ == seq![' '] + pad_end(interface_kind_label(name@), 4) + seq![
                ' ',
            ],
    {
        let n = chars_of(name);
        if falls_back_to_name(&n) {
            let keep = label_byte_count(name);
            let head = prefix_within_bytes(&n, keep);
            proof {
                crate::text::lemma_byte_prefix_len(n@, keep as int);
            }
            if crate::text::utf8_len(&head) != keep {
                return None;
            }
        }
        Some(Self::label_cell(name))
    }

    /// The address cell: the first IPv4 address (or nothing) left-aligned
    /// in fifteen columns, then a space.
    pub fn address_cell(r: &InterfaceRecord) -> (s: String)
        ensures
            s@ == pad_end(first_ipv4(r.addresses@), 15) + seq![' '],
    {
        let mut i: usize = 0;
        let mut found: Option<usize> = None;
        assert(r.addresses@.skip(0) =~= r.addresses@);
        while i < r.addresses.len()
            invariant
                i <= r.addresses@.len(),
                found is None ==> first_ipv4(r.addresses@) == first_ipv4(
                    r.addresses@.skip(i as int),
                ),
                found matches Some(k) ==> k < r.addresses@.len() && first_ipv4(r.addresses@)
                    == r.addresses@[k as int].text@,
            decreases r.addresses@.len() - i,
        {
            if found.is_none() {
                proof {
                    assert(r.addresses@.skip(i as int)[0] == r.addresses@[i as int]);
                    assert(r.addresses@.skip(i as int).drop_first() =~= r.addresses@.skip(i + 1));
                }
                if r.addresses[i].is_ipv4 {
                    found = Some(i);
                }
            }
            i = i + 1;
        }
        let text: Vec<char> = match found {
            Some(k) => chars_of(r.addresses[k].text.as_str()),
            None => {
                assert(r.addresses@.skip(i as int) =~= Seq::<AddressRecord>::empty());
                Vec::new()
            },
        };
        let mut v = padded_end(&text, 15);
        v.push(' ');
        string_of(&v)
    }
}

/// Listing is idempotent: listing the listed interfaces again drops none of them.
pub proof fn law_listing_idempotent(rs: Seq<InterfaceRecord>)
    ensures
        listed(listed(rs)) == listed(rs),
    decreases rs.len(),
{
    reveal_with_fuel(Seq::filter, 1);
    if rs.len() > 0 {
        law_listing_idempotent(rs.drop_last());
        let f = listed(rs.drop_last());
        if is_listed(rs.last()) {
            assert(listed(rs) == f.push(rs.last()));
            assert(f.push(rs.last()).drop_last() =~= f);
            assert(f.push(rs.last()).last() == rs.last());
        }
    }
}

/// Every listed interface has an IPv4 address and is neither loopback nor a
/// container bridge.
pub proof fn law_listed_are_ipv4_links(rs: Seq<InterfaceRecord>)
    ensures
        forall|i: int| 0 <= i < listed(rs).len() ==> is_listed(#[trigger] listed(rs)[i]),
{
    assert forall|i: int| 0 <= i < listed(rs).len() implies is_listed(#[trigger] listed(rs)[i]) by {
        rs.lemma_filter_pred(|r: InterfaceRecord| is_listed(r), i);
    }
}

/// Loopback and container links are never listed: names starting `lo`,
/// `docker`, `br-` or `veth`.
pub proof fn law_loopback_and_container_links_hidden(r: InterfaceRecord)
    requires
        has_prefix(r.name@, "lo"@) || has_prefix(r.name@, "docker"@) || has_prefix(r.name@, "br-"@)
            || has_prefix(r.name@, "veth"@),
    ensures
        !is_listed(r),
{
}

/// Any other interface is listed exactly when some address in its list, at
/// any position, is IPv4.
pub proof fn law_listed_exactly_with_an_ipv4_address(r: InterfaceRecord)
    requires
        !has_prefix(r.name@, "lo"@),
        !has_prefix(r.name@, "docker"@),
        !has_prefix(r.name@, "br-"@),
        !has_prefix(r.name@, "veth"@),
    ensures
        is_listed(r) <==> exists|i: int| 0 <= i < r.addresses@.len() && #[trigger] r.addresses@[i].is_ipv4,
        forall|i: int| 0 <= i < r.addresses@.len() && #[trigger] r.addresses@[i].is_ipv4 ==> is_listed(r),
{
    reveal_strlit("lo");
    reveal_strlit("lo0");
    if r.name@ == "lo0"@ {
        assert(r.name@.subrange(0, 2) =~= "lo"@);
    }
}

/// Every listed interface of the input shows in the panel's list, and the
/// list holds nothing else.
pub proof fn law_listing_is_complete(rs: Seq<InterfaceRecord>)
    ensures
        forall|i: int| 0 <= i < rs.len() && is_listed(#[trigger] rs[i]) ==> listed(rs).contains(rs[i]),
        forall|i: int| 0 <= i < listed(rs).len() ==> rs.contains(#[trigger] listed(rs)[i]),
{
    assert forall|i: int| 0 <= i < rs.len() && is_listed(#[trigger] rs[i]) implies listed(rs).contains(
        rs[i],
    ) by {
        rs.lemma_filter_contains(|r: InterfaceRecord| is_listed(r), i);
    }
    assert forall|i: int| 0 <= i < listed(rs).len() implies rs.contains(#[trigger] listed(rs)[i]) by {
        assert(listed(rs).contains(listed(rs)[i]));
        rs.lemma_filter_contains_rev(|r: InterfaceRecord| is_listed(r), listed(rs)[i]);
    }
}

/// The list keeps the input's order: nothing is listed from no interfaces,
/// and one more interface is appended to the list when it is listed and
/// leaves the list as it was otherwise.
pub proof fn law_listing_keeps_order(rs: Seq<InterfaceRecord>, r: InterfaceRecord)
    ensures
        listed(Seq::empty()) == Seq::<InterfaceRecord>::empty(),
        is_listed(r) ==> listed(rs.push(r)) == listed(rs).push(r),
        !is_listed(r) ==> listed(rs.push(r)) == listed(rs),
{
    reveal_with_fuel(Seq::filter, 1);
    assert(rs.push(r).drop_last() =~= rs);
    assert(listed(Seq::<InterfaceRecord>::empty()) =~= Seq::<InterfaceRecord>::empty());
}

/// The text of the first IPv4 address, or nothing when there is none.
pub open spec fn first_ipv4(addrs: Seq<AddressRecord>) -> Seq<char>
    decreases addrs.len(),
{
    if addrs.len() == 0 {
        Seq::empty()
    } else if addrs[0].is_ipv4 {
        addrs[0].text@
    } else {
        first_ipv4(addrs.drop_first())
    }
}

/// The type labels: tunnels (`utun*`, `tailscale*`, `wg*`) are `VPN`;
/// then wired names (`eth*`, `eno*`, `ens*`) are `ETH`; then `wlan*` is
/// `WiFi`; then other `en*` names are `WiFi`, or `ETH` when they mention
/// `bridge`.
pub proof fn law_interface_labels(name: Seq<char>)
    ensures
        is_vpn_name(name) <==> (has_prefix(name, "utun"@) || has_prefix(name, "tailscale"@)
            || has_prefix(name, "wg"@)),
        is_vpn_name(name) ==> interface_kind_label(name) == "VPN"@,
        !is_vpn_name(name) && (has_prefix(name, "eth"@) || has_prefix(name, "eno"@) || has_prefix(
            name,
            "ens"@,
        )) ==> interface_kind_label(name) == "ETH"@,
        !is_vpn_name(name) && !is_wired_name(name) && has_prefix(name, "wlan"@)
            ==> interface_kind_label(name) == "WiFi"@,
        !is_vpn_name(name) && !is_wired_name(name) && !has_prefix(name, "wlan"@) && has_prefix(
            name,
            "en"@,
        ) ==> interface_kind_label(name) == if has_infix(name, "bridge"@) {
            "ETH"@
        } else {
            "WiFi"@
        },
{
}

/// Any other interface is labelled by the start of its own name: the
/// longest prefix within four bytes, which is the whole name when it is
/// shorter and exactly four bytes when the name is cut at a character
/// boundary.
pub proof fn law_other_interfaces_labelled_by_name(name: Seq<char>)
    requires
        uses_name_prefix(name),
    ensures
        interface_kind_label(name) == name.subrange(0, interface_kind_label(name).len() as int),
        byte_len(interface_kind_label(name)) <= 4,
        byte_len(name) <= 4 ==> interface_kind_label(name) == name,
        is_byte_boundary(name, label_bytes(name)) ==> byte_len(interface_kind_label(name)) == if byte_len(
            name,
        ) < 4 {
            byte_len(name)
        } else {
            4
        },
{
    let k = label_bytes(name);
    law_byte_prefix_longest_fit(name, k);
    let r = byte_prefix(name, k);
    if byte_len(name) <= 4 && r.len() < name.len() {
        assert(name =~= r + name.subrange(r.len() as int, name.len() as int));
        crate::text::lemma_byte_len_concat(r, name.subrange(r.len() as int, name.len() as int));
        let rest = name.subrange(r.len() as int, name.len() as int);
        assert(rest =~= seq![rest[0]] + rest.drop_first());
        crate::text::lemma_byte_len_concat(seq![rest[0]], rest.drop_first());
        assert(byte_len(seq![rest[0]]) == crate::text::char_width(rest[0])) by {
            assert(seq![rest[0]].drop_first() =~= Seq::<char>::empty());
        }
        assert(rest[0] == name[r.len() as int]);
    }
}

/// The address shown is the text of the first IPv4 address in the list,
/// at whatever position, and nothing when there is none.
pub proof fn law_first_ipv4_address(addrs: Seq<AddressRecord>)
    ensures
        forall|i: int|
            0 <= i < addrs.len() && #[trigger] addrs[i].is_ipv4 && (forall|j: int|
                0 <= j < i ==> !(#[trigger] addrs[j]).is_ipv4) ==> first_ipv4(addrs) == addrs[i].text@,
        (forall|j: int| 0 <= j < addrs.len() ==> !(#[trigger] addrs[j]).is_ipv4) ==> first_ipv4(addrs)
            == Seq::<char>::empty(),
    decreases addrs.len(),
{
    if addrs.len() > 0 {
        let t = addrs.drop_first();
        law_first_ipv4_address(t);
        assert forall|i: int|
            0 <= i < addrs.len() && #[trigger] addrs[i].is_ipv4 && (forall|j: int|
                0 <= j < i ==> !(#[trigger] addrs[j]).is_ipv4) implies first_ipv4(addrs)
            == addrs[i].text@ by {
            if i > 0 {
                assert(!addrs[0].is_ipv4);
                assert(t[i - 1] == addrs[i]);
                assert forall|j: int| 0 <= j < i - 1 implies !(#[trigger] t[j]).is_ipv4 by {
                    assert(t[j] == addrs[j + 1]);
                }
            }
        }
        if forall|j: int| 0 <= j < addrs.len() ==> !(#[trigger] addrs[j]).is_ipv4 {
            assert(!addrs[0].is_ipv4);
            assert forall|j: int| 0 <= j < t.len() implies !(#[trigger] t[j]).is_ipv4 by {
                assert(t[j] == addrs[j + 1]);
            }
        }
    }
}

} // verus!
