//! Received packets, and the interfaces that they come from.
use vstd::prelude::*;

use crate::error::{Error, Fault};
use crate::message::{self, write_ipv4, write_ipv6};
use crate::text::{self, decimal_text, join_text, same_text};

verus! {

/// The port of mDNS.
pub const MDNS_PORT: u16 = 5353;

/// The IPv4 multicast group of mDNS, 224.0.0.251.
pub const MDNS_IPV4_ADDR: u32 = 0xe000_00fb;

/// The IPv6 multicast group of mDNS, ff02::fb.
pub const MDNS_IPV6_ADDR: u128 = 0xff02_0000_0000_0000_0000_0000_0000_00fb;

/// An IP address, as a number.
#[derive(Debug, Clone, Copy, PartialEq, Eq, Structural)]
pub enum IpAddr {
    V4(u32),
    V6(u128),
}

/// The address of a sender. Only an IPv6 address has a scope.
#[derive(Debug, Clone, Copy, PartialEq, Eq, Structural)]
pub struct SocketAddr {
    pub ip: IpAddr,
    pub port: u16,
    pub scope_id: u32,
}

/// A received mDNS packet with metadata.
#[derive(Debug, Clone)]
pub struct PacketEvent {
    pub data: Vec<u8>,
    pub source: SocketAddr,
    pub interface: String,
    pub timestamp: String,
}

/// A network interface of this host.
#[derive(Debug, Clone)]
pub struct Interface {
    pub name: String,
    pub index: u32,
    pub addresses: Vec<IpAddr>,
}

/// How an address is written.
pub open spec fn ip_text(ip: IpAddr) -> Seq<char> {
    match ip {
        IpAddr::V4(address) => message::ipv4_text(address),
        IpAddr::V6(address) => message::ipv6_text(address),
    }
}

/// How the address of a sender is written. An IPv6 address stands in
/// brackets, with its scope if it has one.
pub open spec fn socket_text(addr: SocketAddr) -> Seq<char> {
    match addr.ip {
        IpAddr::V4(address) => message::ipv4_text(address) + ":"@ + text::decimal(
            addr.port as nat,
        ),
        IpAddr::V6(address) => if addr.scope_id == 0 {
            "["@ + message::ipv6_text(address) + "]:"@ + text::decimal(addr.port as nat)
        } else {
            "["@ + message::ipv6_text(address) + "%"@ + text::decimal(addr.scope_id as nat)
                + "]:"@ + text::decimal(addr.port as nat)
        },
    }
}

impl IpAddr {
    /// The text of the address.
    pub fn text(&self) -> (r: String)
        ensures
            r@ == ip_text(*self),
    {
        match self {
            IpAddr::V4(address) => write_ipv4(*address),
            IpAddr::V6(address) => write_ipv6(*address),
        }
    }
}

impl SocketAddr {
    /// The text of the address.
    pub fn text(&self) -> (r: String)
        ensures
            r@ == socket_text(*self),
    {
        match self.ip {
            IpAddr::V4(address) => {
                let mut r = write_ipv4(address);
                r.append(":");
                r.append(decimal_text(self.port as u64).as_str());
                r
            },
            IpAddr::V6(address) => {
                let mut r = "[".to_owned();
                r.append(write_ipv6(address).as_str());
                if self.scope_id != 0 {
                    r.append("%");
                    r.append(decimal_text(self.scope_id as u64).as_str());
                }
                r.append("]:");
                r.append(decimal_text(self.port as u64).as_str());
                r
            },
        }
    }
}

/// The number of the first interface with a name.
pub open spec fn interface_index(ifaces: Seq<Interface>, name: Seq<char>) -> Option<u32>
    decreases ifaces.len(),
{
    if ifaces.len() == 0 {
        None
    } else if ifaces[0].name@ == name {
        Some(ifaces[0].index)
    } else {
        interface_index(ifaces.drop_first(), name)
    }
}

/// The number of the interface with a name.
pub fn resolve_interface_index(ifaces: &[Interface], name: &str) -> (r: Result<u32, Error>)
    ensures
        match r {
            Ok(index) => interface_index(ifaces@, name@) == Some(index),
            Err(e) => interface_index(ifaces@, name@) is None && e@ == Fault::InterfaceNotFound(
                name@,
            ),
        },
{
    let mut i: usize = 0;
    assert(ifaces@.skip(0) =~= ifaces@);
    while i < ifaces.len()
        invariant
            i <= ifaces@.len(),
            interface_index(ifaces@, name@) == interface_index(ifaces@.skip(i as int), name@),
        decreases ifaces@.len() - i,
    {
        proof {
            assert(ifaces@.skip(i as int)[0] == ifaces@[i as int]);
            assert(ifaces@.skip(i as int).drop_first() =~= ifaces@.skip(i + 1));
        }
        if same_text(ifaces[i].name.as_str(), name) {
            return Ok(ifaces[i].index);
        }
        i += 1;
    }
    Err(Error::InterfaceNotFound(name.to_owned()))
}

/// An IPv4 address of the loopback network 127.0.0.0/8.
pub open spec fn is_loopback(address: u32) -> bool {
    address / 0x1000000 == 127
}

/// The first IPv4 address that is no loopback address.
pub open spec fn first_ipv4(addresses: Seq<IpAddr>) -> Option<u32>
    decreases addresses.len(),
{
    if addresses.len() == 0 {
        None
    } else {
        match addresses[0] {
            IpAddr::V4(address) => if !is_loopback(address) {
                Some(address)
            } else {
                first_ipv4(addresses.drop_first())
            },
            IpAddr::V6(_) => first_ipv4(addresses.drop_first()),
        }
    }
}

/// The first IPv4 address, no loopback address, of the interfaces with a name.
pub open spec fn interface_ipv4(ifaces: Seq<Interface>, name: Seq<char>) -> Option<u32>
    decreases ifaces.len(),
{
    if ifaces.len() == 0 {
        None
    } else if ifaces[0].name@ == name && first_ipv4(ifaces[0].addresses@) is Some {
        first_ipv4(ifaces[0].addresses@)
    } else {
        interface_ipv4(ifaces.drop_first(), name)
    }
}

/// The first IPv4 address that is no loopback address.
fn find_ipv4(addresses: &Vec<IpAddr>) -> (r: Option<u32>)
    ensures
        r == first_ipv4(addresses@),
{
    let mut i: usize = 0;
    assert(addresses@.skip(0) =~= addresses@);
    while i < addresses.len()
        invariant
            i <= addresses@.len(),
            first_ipv4(addresses@) == first_ipv4(addresses@.skip(i as int)),
        decreases addresses@.len() - i,
    {
        proof {
            assert(addresses@.skip(i as int)[0] == addresses@[i as int]);
            assert(addresses@.skip(i as int).drop_first() =~= addresses@.skip(i + 1));
        }
        if let IpAddr::V4(address) = addresses[i] {
            if address / 0x1000000 != 127 {
                return Some(address);
            }
        }
        i += 1;
    }
    None
}

/// The IPv4 address of the interface with a name.
pub fn interface_ipv4_addr(ifaces: &[Interface], name: &str) -> (r: Option<u32>)
    ensures
        r == interface_ipv4(ifaces@, name@),
{
    let mut i: usize = 0;
    assert(ifaces@.skip(0) =~= ifaces@);
    while i < ifaces.len()
        invariant
            i <= ifaces@.len(),
            interface_ipv4(ifaces@, name@) == interface_ipv4(ifaces@.skip(i as int), name@),
        decreases ifaces@.len() - i,
    {
        proof {
            assert(ifaces@.skip(i as int)[0] == ifaces@[i as int]);
            assert(ifaces@.skip(i as int).drop_first() =~= ifaces@.skip(i + 1));
        }
        if same_text(ifaces[i].name.as_str(), name) {
            let found = find_ipv4(&ifaces[i].addresses);
            if found.is_some() {
                return found;
            }
        }
        i += 1;
    }
    None
}

/// The addresses of some interfaces, interface by interface.
pub open spec fn addresses_of(ifaces: Seq<Interface>) -> Seq<IpAddr>
    decreases ifaces.len(),
{
    if ifaces.len() == 0 {
        Seq::empty()
    } else {
        addresses_of(ifaces.drop_last()) + ifaces.last().addresses@
    }
}

/// Collect all local IP addresses (for loop prevention).
pub fn local_addresses(ifaces: &[Interface]) -> (r: Vec<IpAddr>)
    ensures
        r@ == addresses_of(ifaces@),
{
    let mut addrs: Vec<IpAddr> = Vec::new();
    let mut i: usize = 0;
    while i < ifaces.len()
        invariant
            i <= ifaces@.len(),
            addrs@ == addresses_of(ifaces@.take(i as int)),
        decreases ifaces@.len() - i,
    {
        let more = &ifaces[i].addresses;
        let ghost before = addrs@;
        let mut k: usize = 0;
        assert(before + more@.take(0) =~= before);
        while k < more.len()
            invariant
                k <= more@.len(),
                addrs@ == before + more@.take(k as int),
            decreases more@.len() - k,
        {
            addrs.push(more[k]);
            assert(more@.take(k + 1) =~= more@.take(k as int).push(more@[k as int]));
            k += 1;
        }
        proof {
            assert(more@.take(k as int) =~= more@);
            assert(ifaces@.take(i + 1).drop_last() =~= ifaces@.take(i as int));
            assert(ifaces@.take(i + 1).last() == ifaces@[i as int]);
        }
        i += 1;
    }
    assert(ifaces@.take(i as int) =~= ifaces@);
    addrs
}

/// A text, followed by as many spaces as it takes to reach a width.
pub open spec fn padded(text: Seq<char>, width: nat) -> Seq<char>
    decreases width - text.len(),
{
    if text.len() >= width {
        text
    } else {
        padded(text.push(' '), width)
    }
}

/// Pads a text with spaces.
fn pad(text: String, width: usize) -> (r: String)
    ensures
        r@ == padded(text@, width as nat),
{
    let mut r = text;
    let mut length: usize = r.as_str().unicode_len();
    while length < width
        invariant
            length == r@.len(),
            padded(text@, width as nat) == padded(r@, width as nat),
        decreases width - length,
    {
        let ghost before = r@;
        r.append(" ");
        proof {
            reveal_strlit(" ");
            assert(r@ =~= before.push(' '));
        }
        length += 1;
    }
    r
}

/// A line of the table of interfaces.
pub open spec fn table_line(name: Seq<char>, index: Seq<char>, addresses: Seq<char>) -> Seq<char> {
    padded(name, 20) + " "@ + padded(index, 8) + " "@ + addresses
}

/// Writes a line of the table of interfaces.
fn write_line(name: String, index: String, addresses: String) -> (r: String)
    ensures
        r@ == table_line(name@, index@, addresses@),
{
    let mut r = pad(name, 20);
    r.append(" ");
    r.append(pad(index, 8).as_str());
    r.append(" ");
    r.append(addresses.as_str());
    r
}

/// The texts of some addresses.
pub open spec fn ip_texts(addresses: Seq<IpAddr>) -> Seq<Seq<char>> {
    addresses.map_values(|ip: IpAddr| ip_text(ip))
}

/// The line of an interface in the table of interfaces.
pub open spec fn interface_line(iface: Interface) -> Seq<char> {
    table_line(
        iface.name@,
        text::decimal(iface.index as nat),
        text::joined(ip_texts(iface.addresses@), ", "@),
    )
}

/// The table of interfaces: a heading, a rule and a line for each interface.
pub fn list_interfaces(ifaces: &[Interface]) -> (r: Vec<String>)
    ensures
        r@.len() == ifaces@.len() + 2,
        r@[0]@ == table_line("NAME"@, "INDEX"@, "ADDRESSES"@),
        r@[1]@ == "------------------------------------------------------------"@,
        forall|i: int| 0 <= i < ifaces@.len() ==> (#[trigger] r@[i + 2])@ == interface_line(ifaces@[i]),
{
    let mut lines: Vec<String> = Vec::new();
    lines.push(write_line("NAME".to_owned(), "INDEX".to_owned(), "ADDRESSES".to_owned()));
    lines.push("------------------------------------------------------------".to_owned());
    let mut i: usize = 0;
    while i < ifaces.len()
        invariant
            i <= ifaces@.len(),
            lines@.len() == i + 2,
            lines@[0]@ == table_line("NAME"@, "INDEX"@, "ADDRESSES"@),
            lines@[1]@ == "------------------------------------------------------------"@,
            forall|j: int|
                0 <= j < i ==> (#[trigger] lines@[j + 2])@ == interface_line(ifaces@[j]),
        decreases ifaces@.len() - i,
    {
        let addresses = &ifaces[i].addresses;
        let mut texts: Vec<String> = Vec::new();
        let mut k: usize = 0;
        while k < addresses.len()
            invariant
                k <= addresses@.len(),
                texts@.len() == k,
                forall|j: int| 0 <= j < k ==> (#[trigger] texts@[j])@ == ip_text(addresses@[j]),
            decreases addresses@.len() - k,
        {
            texts.push(addresses[k].text());
            k += 1;
        }
        assert(text::views(texts@) =~= ip_texts(addresses@));
        lines.push(
            write_line(
                ifaces[i].name.clone(),
                decimal_text(ifaces[i].index as u64),
                join_text(texts.as_slice(), ", "),
            ),
        );
        i += 1;
    }
    lines
}

/// The label of the packets from an interface over one version of IP.
pub open spec fn interface_label(name: Seq<char>, ipv6: bool) -> Seq<char> {
    name + if ipv6 {
        ":v6"@
    } else {
        ":v4"@
    }
}

/// The label of the packets from an interface over one version of IP.
pub fn label(name: &str, ipv6: bool) -> (r: String)
    ensures
        r@ == interface_label(name@, ipv6),
{
    let mut r = name.to_owned();
    r.append(if ipv6 {
        ":v6"
    } else {
        ":v4"
    });
    r
}

// --- Laws ---

/// The number of a name is that of the first interface with the name.
pub proof fn names_stand_for_the_first_interface(ifaces: Seq<Interface>, name: Seq<char>, i: int)
    requires
        0 <= i < ifaces.len(),
        ifaces[i].name@ == name,
        forall|j: int| 0 <= j < i ==> (#[trigger] ifaces[j]).name@ != name,
    ensures
        interface_index(ifaces, name) == Some(ifaces[i].index),
    decreases i,
{
    if i > 0 {
        let rest = ifaces.drop_first();
        assert(ifaces[0].name@ != name);
        assert forall|j: int| 0 <= j < i - 1 implies (#[trigger] rest[j]).name@ != name by {
            assert(rest[j] == ifaces[j + 1]);
        }
        names_stand_for_the_first_interface(rest, name, i - 1);
    }
}

/// A name that no interface has stands for no number and for no address.
pub proof fn unknown_names_stand_for_nothing(ifaces: Seq<Interface>, name: Seq<char>)
    requires
        forall|j: int| 0 <= j < ifaces.len() ==> (#[trigger] ifaces[j]).name@ != name,
    ensures
        interface_index(ifaces, name) is None,
        interface_ipv4(ifaces, name) is None,
    decreases ifaces.len(),
{
    if ifaces.len() > 0 {
        let rest = ifaces.drop_first();
        assert(ifaces[0].name@ != name);
        assert forall|j: int| 0 <= j < rest.len() implies (#[trigger] rest[j]).name@ != name by {
            assert(rest[j] == ifaces[j + 1]);
        }
        unknown_names_stand_for_nothing(rest, name);
    }
}

/// An address of IPv4 outside of 127.0.0.0 to 127.255.255.255.
pub open spec fn is_usable(ip: IpAddr) -> bool {
    ip matches IpAddr::V4(address) && (address < 0x7f00_0000 || address > 0x7fff_ffff)
}

/// The loopback addresses are those from 127.0.0.0 to 127.255.255.255.
pub proof fn loopback_addresses_are_a_range(address: u32)
    ensures
        is_loopback(address) <==> 0x7f00_0000 <= address <= 0x7fff_ffff,
{
}

/// Among some addresses the first of IPv4 that is no loopback address counts.
pub proof fn the_first_usable_address_counts(addresses: Seq<IpAddr>, i: int)
    requires
        0 <= i < addresses.len(),
        is_usable(addresses[i]),
        forall|j: int| 0 <= j < i ==> !is_usable(#[trigger] addresses[j]),
    ensures
        first_ipv4(addresses) == Some(addresses[i]->V4_0),
    decreases i,
{
    if i > 0 {
        let rest = addresses.drop_first();
        assert(!is_usable(addresses[0]));
        assert forall|j: int| 0 <= j < i - 1 implies !is_usable(#[trigger] rest[j]) by {
            assert(rest[j] == addresses[j + 1]);
        }
        the_first_usable_address_counts(rest, i - 1);
    }
}

/// Where all addresses are of IPv6 or loopback addresses, none counts.
pub proof fn unusable_addresses_do_not_count(addresses: Seq<IpAddr>)
    requires
        forall|j: int| 0 <= j < addresses.len() ==> !is_usable(#[trigger] addresses[j]),
    ensures
        first_ipv4(addresses) is None,
    decreases addresses.len(),
{
    if addresses.len() > 0 {
        let rest = addresses.drop_first();
        assert(!is_usable(addresses[0]));
        assert forall|j: int| 0 <= j < rest.len() implies !is_usable(#[trigger] rest[j]) by {
            assert(rest[j] == addresses[j + 1]);
        }
        unusable_addresses_do_not_count(rest);
    }
}

/// The address of a name is the first usable one of the first interface with that
/// name that has a usable address.
pub proof fn names_stand_for_a_usable_address(
    ifaces: Seq<Interface>,
    name: Seq<char>,
    i: int,
    k: int,
)
    requires
        0 <= i < ifaces.len(),
        ifaces[i].name@ == name,
        0 <= k < ifaces[i].addresses@.len(),
        is_usable(ifaces[i].addresses@[k]),
        forall|j: int| 0 <= j < k ==> !is_usable(#[trigger] ifaces[i].addresses@[j]),
        forall|h: int, j: int|
            0 <= h < i && ifaces[h].name@ == name && 0 <= j < ifaces[h].addresses@.len()
                ==> !is_usable(#[trigger] ifaces[h].addresses@[j]),
    ensures
        interface_ipv4(ifaces, name) == Some(ifaces[i].addresses@[k]->V4_0),
    decreases i,
{
    if i == 0 {
        the_first_usable_address_counts(ifaces[0].addresses@, k);
    } else {
        let rest = ifaces.drop_first();
        if ifaces[0].name@ == name {
            unusable_addresses_do_not_count(ifaces[0].addresses@);
        }
        assert(rest[i - 1] == ifaces[i]);
        assert forall|h: int, j: int|
            0 <= h < i - 1 && rest[h].name@ == name && 0 <= j
                < rest[h].addresses@.len() implies !is_usable(
            #[trigger] rest[h].addresses@[j],
        ) by {
            assert(rest[h] == ifaces[h + 1]);
            assert(!is_usable(ifaces[h + 1].addresses@[j]));
        }
        names_stand_for_a_usable_address(rest, name, i - 1, k);
    }
}

/// Where no interface with a name has a usable address, the name stands for none.
pub proof fn names_without_a_usable_address_stand_for_none(
    ifaces: Seq<Interface>,
    name: Seq<char>,
)
    requires
        forall|h: int, j: int|
            0 <= h < ifaces.len() && ifaces[h].name@ == name && 0 <= j
                < ifaces[h].addresses@.len() ==> !is_usable(#[trigger] ifaces[h].addresses@[j]),
    ensures
        interface_ipv4(ifaces, name) is None,
    decreases ifaces.len(),
{
    if ifaces.len() > 0 {
        let rest = ifaces.drop_first();
        if ifaces[0].name@ == name {
            unusable_addresses_do_not_count(ifaces[0].addresses@);
        }
        assert forall|h: int, j: int|
            0 <= h < rest.len() && rest[h].name@ == name && 0 <= j
                < rest[h].addresses@.len() implies !is_usable(
            #[trigger] rest[h].addresses@[j],
        ) by {
            assert(rest[h] == ifaces[h + 1]);
            assert(!is_usable(ifaces[h + 1].addresses@[j]));
        }
        names_without_a_usable_address_stand_for_none(rest, name);
    }
}

/// The addresses of one more interface follow those of the others.
pub proof fn addresses_are_collected_in_order(ifaces: Seq<Interface>, iface: Interface)
    ensures
        addresses_of(Seq::empty()).len() == 0,
        addresses_of(ifaces.push(iface)) == addresses_of(ifaces) + iface.addresses@,
{
    assert(ifaces.push(iface).drop_last() =~= ifaces);
}

/// A padded text is the text and then nothing but spaces, as wide as asked, or
/// wider where the text is.
pub proof fn padding_is_spaces(text: Seq<char>, width: nat)
    ensures
        padded(text, width).len() == if text.len() < width {
            width
        } else {
            text.len()
        },
        padded(text, width).take(text.len() as int) == text,
        forall|i: int| text.len() <= i < padded(text, width).len() ==> #[trigger] padded(text, width)[i] == ' ',
    decreases width - text.len(),
{
    if text.len() < width {
        let longer = text.push(' ');
        padding_is_spaces(longer, width);
        let whole = padded(text, width);
        assert(whole == padded(longer, width));
        assert(whole.take(text.len() as int) =~= whole.take(longer.len() as int).take(
            text.len() as int,
        ));
        assert(longer.take(text.len() as int) =~= text);
        assert(whole[text.len() as int] == whole.take(longer.len() as int)[text.len() as int]);
    } else {
        assert(text.take(text.len() as int) =~= text);
    }
}

/// In the table of interfaces names stand at the left, numbers from the 22nd and
/// addresses from the 31st character on, and all else is spaces. The name may have
/// 20 characters and the number 8.
pub proof fn tables_have_columns(name: Seq<char>, index: Seq<char>, addresses: Seq<char>)
    requires
        name.len() <= 20,
        index.len() <= 8,
    ensures
        ({
            let line = table_line(name, index, addresses);
            &&& line.len() == 30 + addresses.len()
            &&& line.take(name.len() as int) == name
            &&& forall|i: int| name.len() <= i < 21 ==> #[trigger] line[i] == ' '
            &&& line.subrange(21, (21 + index.len()) as int) == index
            &&& forall|i: int| 21 + index.len() <= i < 30 ==> #[trigger] line[i] == ' '
            &&& line.skip(30) == addresses
        }),
{
    reveal_strlit(" ");
    let line = table_line(name, index, addresses);
    let left = padded(name, 20);
    let middle = padded(index, 8);
    padding_is_spaces(name, 20);
    padding_is_spaces(index, 8);
    assert(line.take(name.len() as int) =~= left.take(name.len() as int));
    assert forall|i: int| name.len() <= i < 21 implies #[trigger] line[i] == ' ' by {
        if i < 20 {
            assert(line[i] == left[i]);
        }
    }
    assert(line.subrange(21, (21 + index.len()) as int) =~= middle.take(index.len() as int));
    assert forall|i: int| 21 + index.len() <= i < 30 implies #[trigger] line[i] == ' ' by {
        if i < 29 {
            assert(line[i] == middle[i - 21]);
        }
    }
    assert(line.skip(30) =~= addresses);
}

/// The line of an interface shows its name, its number and all its addresses.
pub proof fn lines_show_their_interface(iface: Interface, i: int)
    ensures
        text::begins_with(interface_line(iface), iface.name@),
        text::contains_text(interface_line(iface), text::decimal(iface.index as nat)),
        0 <= i < iface.addresses@.len() ==> text::contains_text(
            interface_line(iface),
            ip_text(iface.addresses@[i]),
        ),
        iface.addresses@.len() == 1 ==> text::finishes_with(
            interface_line(iface),
            ip_text(iface.addresses@[0]),
        ),
{
    let line = interface_line(iface);
    let name = iface.name@;
    let number = text::decimal(iface.index as nat);
    let left = padded(name, 20);
    let middle = padded(number, 8);
    let texts = ip_texts(iface.addresses@);
    let right = text::joined(texts, ", "@);
    padding_is_spaces(name, 20);
    padding_is_spaces(number, 8);
    assert(line.subrange(0, name.len() as int) =~= left.take(name.len() as int));
    let spaces = middle.skip(number.len() as int);
    assert(middle =~= middle.take(number.len() as int) + spaces);
    assert(line =~= (left + " "@) + number + (spaces + " "@ + right));
    text::framed_text_is_contained(left + " "@, number, spaces + " "@ + right);
    if 0 <= i < iface.addresses@.len() {
        text::joined_parts_are_contained(texts, ", "@, i);
        text::framed_text_is_contained(left + " "@ + middle + " "@, right, Seq::empty());
        assert(line =~= left + " "@ + middle + " "@ + right + Seq::<char>::empty());
        text::containment_is_transitive(line, right, texts[i]);
    }
    if iface.addresses@.len() == 1 {
        assert(right == ip_text(iface.addresses@[0]));
        assert(line.subrange(line.len() - right.len(), line.len() as int) =~= right);
    }
}

/// Addresses in a line are in order, with a comma and a space between each two.
pub proof fn lines_list_addresses_in_order(
    name: Seq<char>,
    index: Seq<char>,
    addresses: Seq<IpAddr>,
    ip: IpAddr,
)
    requires
        addresses.len() > 0,
    ensures
        table_line(name, index, text::joined(ip_texts(addresses.push(ip)), ", "@)) == table_line(
            name,
            index,
            text::joined(ip_texts(addresses), ", "@),
        ) + ", "@ + ip_text(ip),
{
    assert(ip_texts(addresses.push(ip)) =~= ip_texts(addresses).push(ip_text(ip)));
    text::parts_are_joined_in_order(ip_texts(addresses), ip_text(ip), ", "@);
    assert(table_line(name, index, text::joined(ip_texts(addresses.push(ip)), ", "@))
        =~= table_line(name, index, text::joined(ip_texts(addresses), ", "@)) + ", "@ + ip_text(
        ip,
    ));
}

/// A sender is written as its address and its port. An address of IPv6 stands in
/// brackets, and its scope, if it has one, stands there with it.
pub proof fn senders_are_written_with_their_port(addr: SocketAddr)
    ensures
        addr.ip is V4 ==> socket_text(addr) == ip_text(addr.ip) + ":"@ + text::decimal(
            addr.port as nat,
        ),
        addr.ip is V6 && addr.scope_id == 0 ==> socket_text(addr) == "["@ + ip_text(addr.ip)
            + "]:"@ + text::decimal(addr.port as nat),
        addr.ip is V6 && addr.scope_id != 0 ==> socket_text(addr) == "["@ + ip_text(addr.ip)
            + "%"@ + text::decimal(addr.scope_id as nat) + "]:"@ + text::decimal(addr.port as nat),
        addr.ip matches IpAddr::V4(address) ==> ip_text(addr.ip) == message::ipv4_text(address),
        addr.ip matches IpAddr::V6(address) ==> ip_text(addr.ip) == message::ipv6_text(address),
{
}

/// The label of an interface is its name and the version of IP, so that no two
/// interfaces, and no two versions, have the same.
pub proof fn labels_tell_interfaces_apart(a: Seq<char>, b: Seq<char>, ipv6: bool)
    ensures
        interface_label(a, false) == a + ":v4"@,
        interface_label(a, true) == a + ":v6"@,
        interface_label(a, true) != interface_label(b, false),
        a != b ==> interface_label(a, ipv6) != interface_label(b, ipv6),
{
    reveal_strlit(":v4");
    reveal_strlit(":v6");
    let six = interface_label(a, true);
    let four = interface_label(b, false);
    assert(six[six.len() - 1] == '6');
    assert(four[four.len() - 1] == '4');
    let la = interface_label(a, ipv6);
    let lb = interface_label(b, ipv6);
    assert(la.take(la.len() - 3) =~= a);
    assert(lb.take(lb.len() - 3) =~= b);
}

} // verus!
