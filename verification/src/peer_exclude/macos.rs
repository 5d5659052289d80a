//! macOS: the default route is asked of `route` and of `netstat`, routes are changed with `route`.
use crate::ip_text::{
    ipv4_text, ipv4_to_text, parse_ipv4, parsed_ipv4, reading_undoes_writing,
};
use crate::net::Ipv4Addr;
use crate::peer_exclude::{add_outcome, brief, command_outcome, PhysicalDefaultRoute, RouteCommand};
use crate::scan::{
    a_part_stands_character_by_character, a_text_is_split_at_the_first, lines, lines_of, occurs,
    occurs_at, split_at_first, split_once, starts_with, trim, trimmed, words, words_of,
};
use crate::text::{args_of, copy_text, same_text, texts};
use vstd::prelude::*;

verus! {

/// Whether an interface is that of a tunnel: it cannot be part of the physical path.
pub open spec fn is_tunnel_name(interface: Seq<char>) -> bool {
    occurs_at(interface, "utun"@, 0) || occurs_at(interface, "tun"@, 0) || occurs_at(
        interface,
        "tap"@,
        0,
    ) || occurs_at(interface, "ipsec"@, 0)
}

/// Whether an interface is that of a tunnel.
pub fn is_tunnel_interface(interface: &str) -> (res: bool)
    ensures
        res == is_tunnel_name(interface@),
{
    starts_with(interface, "utun") || starts_with(interface, "tun") || starts_with(interface, "tap")
        || starts_with(interface, "ipsec")
}

/// The gateway that a text names: an address, and not 0.0.0.0, which stands for none.
pub open spec fn real_gateway(text: Seq<char>) -> Option<Ipv4Addr> {
    match parsed_ipv4(text) {
        Some(ip) => if ip.bits == 0 {
            None
        } else {
            Some(ip)
        },
        None => None,
    }
}

/// The gateway that a text names.
fn parse_gateway(text: &str) -> (res: Option<Ipv4Addr>)
    ensures
        res == real_gateway(text@),
{
    match parse_ipv4(text) {
        Some(ip) => {
            if ip.is_unspecified() {
                None
            } else {
                Some(ip)
            }
        },
        None => None,
    }
}

/// A gateway and an interface, as far as they were found.
pub ghost struct Found {
    pub gateway: Option<Ipv4Addr>,
    pub interface: Option<Seq<char>>,
}

/// What the lines of `route -n get default` say. A later line replaces an earlier one; a line that
/// names no real gateway takes back an earlier one.
pub open spec fn found_in(lines: Seq<Seq<char>>) -> Found
    decreases lines.len(),
{
    if lines.len() == 0 {
        Found { gateway: None, interface: None }
    } else {
        let before = found_in(lines.drop_last());
        match split_at_first(lines.last(), ':') {
            None => before,
            Some((key, value)) => if trimmed(key) == "gateway"@ {
                Found { gateway: real_gateway(trimmed(value)), ..before }
            } else if trimmed(key) == "interface"@ {
                Found { interface: Some(trimmed(value)), ..before }
            } else {
                before
            },
        }
    }
}

/// The physical default route that the output of `route -n get default` shows: both parts are
/// there and the interface is no tunnel.
pub open spec fn route_get_default(output: Seq<char>) -> Option<(Ipv4Addr, Seq<char>)> {
    match found_in(lines_of(output)) {
        Found { gateway: Some(gateway), interface: Some(interface) } => if is_tunnel_name(
            interface,
        ) {
            None
        } else {
            Some((gateway, interface))
        },
        _ => None,
    }
}

/// Reads the output of `route -n get default`.
pub fn parse_route_get_default(output: &str) -> (res: Option<(Ipv4Addr, String)>)
    ensures
        match (res, route_get_default(output@)) {
            (Some(found), Some(expected)) => found.0 == expected.0 && found.1@ == expected.1,
            (None, None) => true,
            _ => false,
        },
{
    let all = lines(output);
    let ghost rows = lines_of(output@);
    let mut gateway: Option<Ipv4Addr> = None;
    let mut interface: Option<String> = None;
    let mut i: usize = 0;
    assert(rows.take(0) =~= Seq::empty());
    while i < all.len()
        invariant
            i <= all@.len(),
            texts(all@) == rows,
            rows == lines_of(output@),
            found_in(rows.take(i as int)).gateway == gateway,
            match (interface, found_in(rows.take(i as int)).interface) {
                (Some(a), Some(b)) => a@ == b,
                (None, None) => true,
                _ => false,
            },
        decreases all@.len() - i,
    {
        proof {
            assert(texts(all@)[i as int] == all@[i as int]@);
            assert(rows.take(i + 1).drop_last() =~= rows.take(i as int));
            assert(rows.take(i + 1).last() == all@[i as int]@);
        }
        match split_once(all[i].as_str(), ':') {
            None => {},
            Some((key, value)) => {
                let key = trim(key.as_str());
                if same_text(key.as_str(), "gateway") {
                    gateway = parse_gateway(trim(value.as_str()).as_str());
                } else if same_text(key.as_str(), "interface") {
                    interface = Some(trim(value.as_str()));
                }
            },
        }
        i = i + 1;
    }
    assert(rows.take(i as int) =~= rows);
    match (gateway, interface) {
        (Some(gateway), Some(interface)) => {
            if is_tunnel_interface(interface.as_str()) {
                None
            } else {
                Some((gateway, interface))
            }
        },
        _ => None,
    }
}

/// The default route that a line of `netstat -rn -f inet` shows: it has a real gateway and its
/// interface is no tunnel.
pub open spec fn netstat_line(line: Seq<char>) -> Option<(Ipv4Addr, Seq<char>)> {
    let fields = words_of(line);
    if fields.len() < 4 || (fields[0] != "default"@ && fields[0] != "0.0.0.0"@) {
        None
    } else {
        match real_gateway(fields[1]) {
            Some(gateway) => if is_tunnel_name(fields[3]) {
                None
            } else {
                Some((gateway, fields[3]))
            },
            None => None,
        }
    }
}

/// Reads one line of `netstat -rn -f inet`.
fn parse_netstat_line(line: &str) -> (res: Option<(Ipv4Addr, String)>)
    ensures
        match (res, netstat_line(line@)) {
            (Some(found), Some(expected)) => found.0 == expected.0 && found.1@ == expected.1,
            (None, None) => true,
            _ => false,
        },
{
    let fields = words(line);
    let ghost all = words_of(line@);
    assert(all.len() == fields@.len());
    if fields.len() < 4 {
        return None;
    }
    assert(all[0] == fields@[0]@ && all[1] == fields@[1]@ && all[3] == fields@[3]@);
    if !same_text(fields[0].as_str(), "default") && !same_text(fields[0].as_str(), "0.0.0.0") {
        return None;
    }
    match parse_gateway(fields[1].as_str()) {
        None => None,
        Some(gateway) => {
            if is_tunnel_interface(fields[3].as_str()) {
                None
            } else {
                Some((gateway, copy_text(fields[3].as_str())))
            }
        },
    }
}

/// The first line that shows a default route is that at `i`.
pub open spec fn is_first_route(lines: Seq<Seq<char>>, i: int) -> bool {
    &&& 0 <= i < lines.len()
    &&& netstat_line(lines[i]) is Some
    &&& forall|j: int| 0 <= j < i ==> netstat_line(#[trigger] lines[j]) is None
}

/// Reads the output of `netstat -rn -f inet`: the first line that shows a default route counts.
pub fn parse_netstat_default_route(output: &str) -> (res: Option<(Ipv4Addr, String)>)
    ensures
        match res {
            Some(found) => exists|i: int| #[trigger]
                is_first_route(lines_of(output@), i) && netstat_line(lines_of(output@)[i]) == Some(
                    (found.0, found.1@),
                ),
            None => forall|i: int|
                0 <= i < lines_of(output@).len() ==> netstat_line(
                    #[trigger] lines_of(output@)[i],
                ) is None,
        },
{
    let all = lines(output);
    let ghost rows = lines_of(output@);
    let mut i: usize = 0;
    while i < all.len()
        invariant
            i <= all@.len(),
            texts(all@) == rows,
            rows == lines_of(output@),
            forall|j: int| 0 <= j < i ==> netstat_line(#[trigger] rows[j]) is None,
        decreases all@.len() - i,
    {
        assert(rows[i as int] == all@[i as int]@);
        match parse_netstat_line(all[i].as_str()) {
            Some(found) => {
                assert(is_first_route(rows, i as int));
                return Some(found);
            },
            None => {},
        }
        i = i + 1;
    }
    None
}

/// What to do about the output of `route -n get default`.
#[derive(Debug)]
pub enum AfterRouteGet {
    /// The route is found.
    Found(PhysicalDefaultRoute),
    /// Ask `netstat -rn -f inet`.
    AskNetstat,
}

/// Decides by the output of `route -n get default`, where the command succeeded.
pub fn after_route_get(output: Option<&str>) -> (res: AfterRouteGet)
    ensures
        match (output, res) {
            (Some(text), AfterRouteGet::Found(route)) => route_get_default(text@) == Some(
                (route.gateway, route.interface@),
            ) && route.interface_index is None,
            (Some(text), AfterRouteGet::AskNetstat) => route_get_default(text@) is None,
            (None, AfterRouteGet::Found(_)) => false,
            (None, AfterRouteGet::AskNetstat) => true,
        },
        res matches AfterRouteGet::Found(route) ==> route.gateway.bits != 0,
{
    let found = match output {
        Some(text) => {
            proof {
                the_physical_path_is_no_tunnel(text@, text@);
            }
            parse_route_get_default(text)
        },
        None => None,
    };
    match found {
        Some((gateway, interface)) => AfterRouteGet::Found(
            PhysicalDefaultRoute { gateway, interface, interface_index: None },
        ),
        None => AfterRouteGet::AskNetstat,
    }
}

/// The physical default route that `netstat -rn -f inet` shows, where the command succeeded.
/// Otherwise what went wrong.
pub fn after_netstat(success: bool, stdout: &str, stderr: &str) -> (res: Result<
    PhysicalDefaultRoute,
    String,
>)
    ensures
        res is Ok <==> success && exists|i: int| #[trigger] is_first_route(lines_of(stdout@), i),
        res matches Ok(route) ==> route.gateway.bits != 0,
        res matches Ok(route) ==> route.interface_index is None && exists|i: int| #[trigger]
            is_first_route(lines_of(stdout@), i) && netstat_line(lines_of(stdout@)[i]) == Some(
                (route.gateway, route.interface@),
            ),
        res matches Err(e) ==> e@ == (if success {
            "没有找到带网关的默认路由，无法确定物理出口"@
        } else {
            "netstat -rn -f inet 失败: "@ + brief(stderr@)
        }),
{
    match command_outcome(success, "netstat -rn -f inet 失败: ", stderr) {
        Err(e) => Err(e),
        Ok(_) => match parse_netstat_default_route(stdout) {
            Some((gateway, interface)) => {
                Ok(PhysicalDefaultRoute { gateway, interface, interface_index: None })
            },
            None => Err(copy_text("没有找到带网关的默认路由，无法确定物理出口")),
        },
    }
}

/// The command that adds a host route.
pub fn add_host_route(target: Ipv4Addr, route: &PhysicalDefaultRoute) -> (cmd: RouteCommand)
    ensures
        cmd.runs(
            "route"@,
            seq!["-n"@, "add"@, "-host"@, ipv4_text(target), ipv4_text(route.gateway)],
        ),
{
    let target_text = ipv4_to_text(target);
    let gateway = ipv4_to_text(route.gateway);
    let args = args_of(&["-n", "add", "-host", target_text.as_str(), gateway.as_str()]);
    assert(texts(args@) =~= seq![
        "-n"@,
        "add"@,
        "-host"@,
        ipv4_text(target),
        ipv4_text(route.gateway),
    ]);
    RouteCommand { program: copy_text("route"), args }
}

/// What came of adding a host route.
pub fn add_host_route_outcome(success: bool, stderr: &str) -> (res: Result<(), String>)
    ensures
        res is Ok <==> success || occurs(brief(stderr@), "File exists"@),
        res matches Err(e) ==> e@ == "route -n add -host 失败: "@ + brief(stderr@),
{
    add_outcome(success, "route -n add -host 失败: ", stderr)
}

/// The command that deletes a host route.
pub fn delete_host_route(target: Ipv4Addr) -> (cmd: RouteCommand)
    ensures
        cmd.runs("route"@, seq!["-n"@, "delete"@, "-host"@, ipv4_text(target)]),
{
    let target_text = ipv4_to_text(target);
    let args = args_of(&["-n", "delete", "-host", target_text.as_str()]);
    assert(texts(args@) =~= seq!["-n"@, "delete"@, "-host"@, ipv4_text(target)]);
    RouteCommand { program: copy_text("route"), args }
}

/// What came of deleting a host route.
pub fn delete_host_route_outcome(success: bool, stderr: &str) -> (res: Result<(), String>)
    ensures
        res is Ok <==> success,
        res matches Err(e) ==> e@ == "route -n delete -host 失败: "@ + brief(stderr@),
{
    command_outcome(success, "route -n delete -host 失败: ", stderr)
}

/// What the lines say of the gateway is never 0.0.0.0.
proof fn lemma_found_gateway(lines: Seq<Seq<char>>)
    ensures
        found_in(lines).gateway matches Some(gateway) ==> gateway.bits != 0,
    decreases lines.len(),
{
    if lines.len() > 0 {
        lemma_found_gateway(lines.drop_last());
    }
}

/// The chosen interface is never that of a tunnel, and the gateway never 0.0.0.0.
pub proof fn the_physical_path_is_no_tunnel(output: Seq<char>, line: Seq<char>)
    ensures
        route_get_default(output) matches Some((gateway, interface)) ==> !is_tunnel_name(interface)
            && gateway.bits != 0,
        netstat_line(line) matches Some((gateway, interface)) ==> !is_tunnel_name(interface)
            && gateway.bits != 0,
{
    lemma_found_gateway(lines_of(output));
}

/// The names of tunnels start with `utun`, `tun`, `tap` or `ipsec`, and no others do.
pub proof fn tunnels_are_told_by_the_start_of_their_name(rest: Seq<char>, name: Seq<char>)
    ensures
        is_tunnel_name("utun"@ + rest),
        is_tunnel_name("tun"@ + rest),
        is_tunnel_name("tap"@ + rest),
        is_tunnel_name("ipsec"@ + rest),
        is_tunnel_name(name) <==> {
            ||| name.len() >= 4 && name[0] == 'u' && name[1] == 't' && name[2] == 'u' && name[3] == 'n'
            ||| name.len() >= 3 && name[0] == 't' && name[1] == 'u' && name[2] == 'n'
            ||| name.len() >= 3 && name[0] == 't' && name[1] == 'a' && name[2] == 'p'
            ||| name.len() >= 5 && name[0] == 'i' && name[1] == 'p' && name[2] == 's' && name[3] == 'e'
                && name[4] == 'c'
        },
{
    reveal_strlit("utun");
    reveal_strlit("tun");
    reveal_strlit("tap");
    reveal_strlit("ipsec");
    a_part_stands_character_by_character(rest, "utun"@, 0);
    a_part_stands_character_by_character(rest, "tun"@, 0);
    a_part_stands_character_by_character(rest, "tap"@, 0);
    a_part_stands_character_by_character(rest, "ipsec"@, 0);
    a_part_stands_character_by_character(name, "utun"@, 0);
    a_part_stands_character_by_character(name, "tun"@, 0);
    a_part_stands_character_by_character(name, "tap"@, 0);
    a_part_stands_character_by_character(name, "ipsec"@, 0);
    assert("utun"@ =~= seq!['u', 't', 'u', 'n']);
    assert("tun"@ =~= seq!['t', 'u', 'n']);
    assert("tap"@ =~= seq!['t', 'a', 'p']);
    assert("ipsec"@ =~= seq!['i', 'p', 's', 'e', 'c']);
    lemma_starts(name, seq!['u', 't', 'u', 'n']);
    lemma_starts(name, seq!['t', 'u', 'n']);
    lemma_starts(name, seq!['t', 'a', 'p']);
    lemma_starts(name, seq!['i', 'p', 's', 'e', 'c']);
}

/// A name starts with another where its first characters are the same.
proof fn lemma_starts(name: Seq<char>, start: Seq<char>)
    requires
        3 <= start.len() <= 5,
    ensures
        occurs_at(name, start, 0) <==> name.len() >= start.len() && name[0] == start[0] && name[1]
            == start[1] && name[2] == start[2] && (start.len() > 3 ==> name[3] == start[3]) && (
        start.len() > 4 ==> name[4] == start[4]),
{
    a_part_stands_character_by_character(name, start, 0);
    if occurs_at(name, start, 0) {
        assert(name[0] == start[0] && name[1] == start[1] && name[2] == start[2]);
        if start.len() > 3 {
            assert(name[3] == start[3]);
        }
        if start.len() > 4 {
            assert(name[4] == start[4]);
        }
    } else if name.len() >= start.len() && name[0] == start[0] && name[1] == start[1] && name[2]
        == start[2] && (start.len() > 3 ==> name[3] == start[3]) && (start.len() > 4 ==> name[4]
        == start[4]) {
        assert forall|j: int| 0 <= j < start.len() implies name[0 + j] == #[trigger] start[j] by {
            assert(j == 0 || j == 1 || j == 2 || j == 3 || j == 4);
        }
    }
}

/// A gateway is an address in dotted notation other than 0.0.0.0.
pub proof fn what_is_a_real_gateway(ip: Ipv4Addr, text: Seq<char>)
    ensures
        ip.bits != 0 ==> real_gateway(ipv4_text(ip)) == Some(ip),
        ip.bits == 0 ==> real_gateway(ipv4_text(ip)) is None,
        real_gateway(text) matches Some(found) ==> ipv4_text(found) == text && found.bits != 0,
{
    reading_undoes_writing(ip);
}

/// A line with a colon says something of the gateway or of the interface where its key does, and
/// replaces what was said before of the same; any other line says nothing.
pub proof fn the_last_line_of_a_key_counts(
    lines: Seq<Seq<char>>,
    key: Seq<char>,
    value: Seq<char>,
    line: Seq<char>,
)
    requires
        split_at_first(line, ':') == Some((key, value)),
    ensures
        found_in(Seq::empty()).gateway is None,
        found_in(Seq::empty()).interface is None,
        trimmed(key) == "gateway"@ ==> found_in(lines.push(line)).gateway == real_gateway(
            trimmed(value),
        ) && found_in(lines.push(line)).interface == found_in(lines).interface,
        trimmed(key) == "interface"@ ==> found_in(lines.push(line)).interface == Some(trimmed(value))
            && found_in(lines.push(line)).gateway == found_in(lines).gateway,
        trimmed(key) != "gateway"@ && trimmed(key) != "interface"@ ==> found_in(lines.push(line))
            == found_in(lines),
{
    assert(lines.push(line).drop_last() =~= lines);
    reveal_strlit("gateway");
    reveal_strlit("interface");
    assert("gateway"@.len() != "interface"@.len());
}

/// A line without a colon says nothing.
pub proof fn a_line_without_a_colon_says_nothing(lines: Seq<Seq<char>>, line: Seq<char>)
    requires
        !line.contains(':'),
    ensures
        found_in(lines.push(line)) == found_in(lines),
{
    a_text_is_split_at_the_first(line, ':');
    assert(lines.push(line).drop_last() =~= lines);
}

/// The default route is found where both a gateway and an interface were, and the interface is no
/// tunnel; it is exactly these.
pub proof fn both_parts_make_a_route(output: Seq<char>, gateway: Ipv4Addr, interface: Seq<char>)
    ensures
        route_get_default(output) == Some((gateway, interface)) <==> found_in(
            lines_of(output),
        ).gateway == Some(gateway) && found_in(lines_of(output)).interface == Some(interface)
            && !is_tunnel_name(interface),
{
}

/// A line of the table shows a default route exactly where it has four fields, the first of which is
/// `default` or 0.0.0.0, the second a real gateway, and the fourth no tunnel.
pub proof fn what_a_line_of_the_table_shows(
    line: Seq<char>,
    gateway: Ipv4Addr,
    interface: Seq<char>,
)
    ensures
        netstat_line(line) == Some((gateway, interface)) <==> words_of(line).len() >= 4 && (words_of(
            line,
        )[0] == "default"@ || words_of(line)[0] == "0.0.0.0"@) && real_gateway(words_of(line)[1])
            == Some(gateway) && words_of(line)[3] == interface && !is_tunnel_name(interface),
{
}

} // verus!
