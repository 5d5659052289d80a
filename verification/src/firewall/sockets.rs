//! Sockets that are bound to an interface.
use crate::net::{IpAddr, SocketAddr};
use crate::text::{copy_text, join_three, join_two, push_text, same_text};
use vstd::prelude::*;

verus! {

/// An interface of the system.
#[derive(Debug)]
pub struct InterfaceInfo {
    pub name: String,
    pub index: u32,
}

/// The error of a system that does not list its interfaces.
pub fn interface_count_error(error: &str) -> (s: String)
    ensures
        s@ == "Failed to get interfaces. error: "@ + error@,
{
    join_two("Failed to get interfaces. error: ", error)
}

/// The error of a search in a system that does not list its interfaces.
pub fn interface_index_error(iface_name: &str, error: &str) -> (s: String)
    ensures
        s@ == "Failed to get interfaces. "@ + iface_name@ + ", error: "@ + error@,
{
    let mut s = join_three("Failed to get interfaces. ", iface_name, ", error: ");
    push_text(&mut s, error);
    s
}

/// How many interfaces there are, or the error.
pub fn interface_count(ifaces: Result<Vec<InterfaceInfo>, String>) -> (res: Result<usize, String>)
    ensures
        match (ifaces, res) {
            (Ok(list), Ok(n)) => n == list@.len(),
            (Err(e), Err(s)) => s@ == "Failed to get interfaces. error: "@ + e@,
            _ => false,
        },
{
    match ifaces {
        Ok(list) => Ok(list.len()),
        Err(e) => Err(interface_count_error(e.as_str())),
    }
}

/// The interface at `i` is the first of a name.
pub open spec fn first_named(ifaces: Seq<InterfaceInfo>, name: Seq<char>, i: int) -> bool {
    &&& 0 <= i < ifaces.len()
    &&& ifaces[i].name@ == name
    &&& forall|j: int| 0 <= j < i ==> (#[trigger] ifaces[j]).name@ != name
}

/// Where the first interface of a name stands in a list.
fn position_of(ifaces: &Vec<InterfaceInfo>, iface_name: &str) -> (res: Option<usize>)
    ensures
        match res {
            Some(i) => first_named(ifaces@, iface_name@, i as int),
            None => forall|i: int|
                0 <= i < ifaces@.len() ==> (#[trigger] ifaces@[i]).name@ != iface_name@,
        },
{
    let mut i: usize = 0;
    while i < ifaces.len()
        invariant
            i <= ifaces@.len(),
            forall|j: int| 0 <= j < i ==> (#[trigger] ifaces@[j]).name@ != iface_name@,
        decreases ifaces@.len() - i,
    {
        if same_text(ifaces[i].name.as_str(), iface_name) {
            return Some(i);
        }
        i = i + 1;
    }
    None
}

/// What a search for the index of an interface gives: that of the first interface of the name, the
/// name where there is none, or the error of a system that does not list its interfaces.
pub open spec fn is_index_of(
    ifaces: Result<Vec<InterfaceInfo>, String>,
    iface_name: Seq<char>,
    res: Result<u32, Seq<char>>,
) -> bool {
    match (ifaces, res) {
        (Ok(list), Ok(index)) => exists|i: int| #[trigger]
            first_named(list@, iface_name, i) && list@[i].index == index,
        (Ok(list), Err(s)) => s == iface_name && forall|i: int|
            0 <= i < list@.len() ==> (#[trigger] list@[i]).name@ != iface_name,
        (Err(e), Err(s)) => s == "Failed to get interfaces. "@ + iface_name + ", error: "@ + e@,
        (Err(_), Ok(_)) => false,
    }
}

/// A result with the text of its error.
pub open spec fn with_error_text<T>(res: Result<T, String>) -> Result<T, Seq<char>> {
    match res {
        Ok(value) => Ok(value),
        Err(e) => Err(e@),
    }
}

/// The index of the first interface of a name.
pub fn find_interface_index(ifaces: &Result<Vec<InterfaceInfo>, String>, iface_name: &str) -> (res:
    Result<u32, String>)
    ensures
        is_index_of(*ifaces, iface_name@, with_error_text(res)),
{
    match ifaces {
        Err(e) => Err(interface_index_error(iface_name, e.as_str())),
        Ok(list) => match position_of(list, iface_name) {
            Some(i) => Ok(list[i].index),
            None => Err(copy_text(iface_name)),
        },
    }
}

/// The option that binds a socket to an interface.
#[derive(Clone, Copy, Debug)]
pub enum UnicastIf {
    /// For IPv4: the index, its highest byte first.
    V4([u8; 4]),
    /// For IPv6: the index in the order of the machine.
    V6(u32),
}

/// The option binds a socket for `addr` to the interface of an index.
pub open spec fn is_option_for(option: UnicastIf, addr: SocketAddr, if_index: u32) -> bool {
    match option {
        UnicastIf::V4(bytes) => addr.ip is V4 && bytes@[0] * 0x100_0000 + bytes@[1] * 0x1_0000
            + bytes@[2] * 0x100 + bytes@[3] == if_index,
        UnicastIf::V6(index) => addr.ip is V6 && index == if_index,
    }
}

/// The option that binds a socket for `addr` to the interface of an index.
fn option_for(addr: &SocketAddr, if_index: u32) -> (option: UnicastIf)
    ensures
        is_option_for(option, *addr, if_index),
{
    match addr.ip {
        IpAddr::V4(_) => {
            let a: u8 = (if_index / 0x100_0000) as u8;
            let b: u8 = (if_index / 0x1_0000 % 0x100) as u8;
            let c: u8 = (if_index / 0x100 % 0x100) as u8;
            let d: u8 = (if_index % 0x100) as u8;
            assert(if_index == (if_index / 0x100_0000) * 0x100_0000 + (if_index / 0x1_0000 % 0x100)
                * 0x1_0000 + (if_index / 0x100 % 0x100) * 0x100 + if_index % 0x100) by (bit_vector);
            UnicastIf::V4([a, b, c, d])
        },
        IpAddr::V6(_) => UnicastIf::V6(if_index),
    }
}

/// The result is the option that binds a socket for `addr` to an interface, or why there is none.
pub open spec fn is_binding(
    res: Result<UnicastIf, String>,
    ifaces: Result<Vec<InterfaceInfo>, String>,
    addr: SocketAddr,
    iface: Seq<char>,
) -> bool {
    match res {
        Ok(option) => exists|index: u32| #[trigger]
            is_option_for(option, addr, index) && is_index_of(ifaces, iface, Ok(index)),
        Err(e) => is_index_of(ifaces, iface, Err(e@)),
    }
}

/// The option that binds a socket for `addr` to an interface.
pub fn set_ip_unicast_if(
    ifaces: &Result<Vec<InterfaceInfo>, String>,
    addr: &SocketAddr,
    iface: &str,
) -> (res: Result<UnicastIf, String>)
    ensures
        is_binding(res, *ifaces, *addr, iface@),
{
    match find_interface_index(ifaces, iface) {
        Ok(index) => {
            let option = option_for(addr, index);
            assert(is_option_for(option, *addr, index));
            Ok(option)
        },
        Err(e) => Err(e),
    }
}

/// How a socket is set up.
#[derive(Debug)]
pub struct SocketSetup {
    /// That a destination is unreachable is not reported as an error. This is done first.
    pub disable_connection_reset: bool,
    /// The option that binds the socket to an interface, or why it cannot be bound.
    pub unicast_if: Option<Result<UnicastIf, String>>,
}

/// How a socket is set up: only UDP has the report to switch off, and only a socket for a device is
/// bound to an interface.
pub fn setup_socket_for_win(
    ifaces: &Result<Vec<InterfaceInfo>, String>,
    bind_addr: &SocketAddr,
    bind_dev: Option<&str>,
    is_udp: bool,
) -> (setup: SocketSetup)
    ensures
        setup.disable_connection_reset == is_udp,
        match (bind_dev, setup.unicast_if) {
            (Some(iface), Some(res)) => is_binding(res, *ifaces, *bind_addr, iface@),
            (None, None) => true,
            _ => false,
        },
{
    SocketSetup {
        disable_connection_reset: is_udp,
        unicast_if: match bind_dev {
            Some(iface) => Some(set_ip_unicast_if(ifaces, bind_addr, iface)),
            None => None,
        },
    }
}

/// The index that is found is that of an interface of the name, and of no earlier one there is such a
/// name. Where there is none the error is the name, and where the system does not list its interfaces
/// the error says so.
pub proof fn the_index_is_that_of_the_first_of_the_name(
    list: Vec<InterfaceInfo>,
    name: Seq<char>,
    index: u32,
    text: Seq<char>,
    e: String,
)
    ensures
        is_index_of(Ok(list), name, Ok(index)) ==> exists|i: int|
            0 <= i < list@.len() && (#[trigger] list@[i]).name@ == name && list@[i].index == index
                && forall|j: int| 0 <= j < i ==> (#[trigger] list@[j]).name@ != name,
        is_index_of(Ok(list), name, Err(text)) ==> text == name && forall|i: int|
            0 <= i < list@.len() ==> (#[trigger] list@[i]).name@ != name,
        !is_index_of(Err(e), name, Ok(index)),
        is_index_of(Err(e), name, Err(text)) ==> text == "Failed to get interfaces. "@ + name
            + ", error: "@ + e@,
{
    if is_index_of(Ok(list), name, Ok(index)) {
        let i = choose|i: int| #[trigger]
            first_named(list@, name, i) && list@[i].index == index;
        assert(list@[i].name@ == name);
    }
}

/// An IPv4 socket gets the index with its highest byte first, an IPv6 socket the index as it is.
pub proof fn how_the_index_is_given(
    bytes: [u8; 4],
    index: u32,
    addr: SocketAddr,
    if_index: u32,
)
    ensures
        is_option_for(UnicastIf::V4(bytes), addr, if_index) ==> addr.ip is V4 && bytes@[0] == if_index
            / 0x100_0000 && bytes@[1] == if_index / 0x1_0000 % 0x100 && bytes@[2] == if_index / 0x100
            % 0x100 && bytes@[3] == if_index % 0x100,
        is_option_for(UnicastIf::V6(index), addr, if_index) <==> addr.ip is V6 && index == if_index,
{
    if is_option_for(UnicastIf::V4(bytes), addr, if_index) {
        crate::net::addresses_hold_their_octets(bytes@[0], bytes@[1], bytes@[2], bytes@[3]);
    }
}

/// A socket is bound by the index of the interface, or not at all where that is not found.
pub proof fn a_socket_is_bound_by_the_index(
    option: UnicastIf,
    list: Vec<InterfaceInfo>,
    addr: SocketAddr,
    iface: Seq<char>,
)
    requires
        is_binding(Ok(option), Ok(list), addr, iface),
    ensures
        addr.ip is V4 <==> option is V4,
        exists|i: int|
            0 <= i < list@.len() && (#[trigger] list@[i]).name@ == iface && is_option_for(
                option,
                addr,
                list@[i].index,
            ),
{
    let index = choose|index: u32| #[trigger]
        is_option_for(option, addr, index) && is_index_of(Ok(list), iface, Ok(index));
    let i = choose|i: int| #[trigger] first_named(list@, iface, i) && list@[i].index == index;
    assert(list@[i].name@ == iface);
}

/// A result is shown with the text of its error.
pub proof fn errors_are_shown_by_their_text(index: u32, e: String)
    ensures
        with_error_text::<u32>(Ok(index)) == Ok::<u32, Seq<char>>(index),
        with_error_text::<u32>(Err(e)) == Err::<u32, Seq<char>>(e@),
{
}

/// Only UDP has the report to switch off, and only a socket for a device is bound to an interface.
pub proof fn how_a_socket_is_set_up(
    ifaces: Result<Vec<InterfaceInfo>, String>,
    addr: SocketAddr,
    dev: Option<&str>,
    is_udp: bool,
    setup: SocketSetup,
)
    requires
        call_ensures(setup_socket_for_win, (&ifaces, &addr, dev, is_udp), setup),
    ensures
        setup.disable_connection_reset <==> is_udp,
        setup.unicast_if is Some <==> dev is Some,
        ifaces is Err ==> (setup.unicast_if matches Some(res) ==> res is Err),
{
}

/// The interfaces are counted where they can be listed; the error of a list that cannot be had ends with
/// the reason, and that of a search names the interface too.
pub proof fn interfaces_are_counted(
    ifaces: Result<Vec<InterfaceInfo>, String>,
    res: Result<usize, String>,
    name: &str,
    error: &str,
    s: String,
)
    requires
        call_ensures(interface_count, (ifaces,), res),
        call_ensures(interface_index_error, (name, error), s),
    ensures
        ifaces is Ok <==> res is Ok,
        ifaces matches Ok(list) ==> (res matches Ok(n) ==> n == list@.len()),
        ifaces matches Err(e) ==> (res matches Err(t) ==> t@.len() == 33 + e@.len() && t@.skip(33)
            == e@ && t@.take(33) == "Failed to get interfaces. error: "@),
        s@.len() == 35 + name@.len() + error@.len(),
        s@.take(26) == "Failed to get interfaces. "@,
        s@.subrange(26, 26 + name@.len() as int) == name@,
        s@.skip(35 + name@.len() as int) == error@,
{
    reveal_strlit("Failed to get interfaces. error: ");
    reveal_strlit("Failed to get interfaces. ");
    reveal_strlit(", error: ");
    let n = name@.len() as int;
    if let Err(e) = ifaces {
        if let Err(t) = res {
            assert(t@.take(33) =~= "Failed to get interfaces. error: "@);
            assert(t@.skip(33) =~= e@);
        }
    }
    assert(s@.take(26) =~= "Failed to get interfaces. "@);
    assert(s@.subrange(26, 26 + n) =~= name@);
    assert(s@.skip(35 + n) =~= error@);
}

} // verus!
