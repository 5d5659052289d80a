//! Interfaces and routes of macOS, which are changed with `ifconfig` and `route`.
//!
//! The routing table of macOS knows no metric. Of two default routes the one that stands first
//! wins, so a default route that was added may be without effect. Whether it won is looked up, and
//! the default route is changed by force only where the user allowed that.
use crate::digits::{decimal, decimal_text, integer, integer_text};
use crate::ip_text::{ipv4_text, ipv4_to_text};
use crate::net::{Ipv4Addr, Ipv4Cidr};
use crate::scan::{
    a_part_stands_character_by_character, lines, lines_of, occurs_at, starts_with, trim, trimmed,
};
use crate::text::{
    ascii_lowercased, chars_of, join_three, join_two, lossy_text, lower_is, push_text,
    same_text, string_of, texts, utf8_lossy,
};
use vstd::arithmetic::power2::{lemma2_to64, lemma_pow2_strictly_increases, lemma_pow2_unfold, pow2};
use vstd::prelude::*;

verus! {

/// The command that shows the default route.
pub const QUERY_DEFAULT_ROUTE: &'static str = "route -n get default";

/// Whether the setting allows to change the default route by force: not where nothing is set.
pub open spec fn take_over_allowed(value: Option<Seq<char>>) -> bool {
    match value {
        Some(v) => v == "1"@ || ascii_lowercased(v) == "true"@ || ascii_lowercased(v) == "yes"@,
        None => false,
    }
}

/// Whether the default route may be changed by force.
pub fn take_over_default_route_enabled(value: Option<&str>) -> (res: bool)
    ensures
        res == take_over_allowed(
            match value {
                Some(v) => Some(v@),
                None => None,
            },
        ),
{
    match value {
        Some(v) => same_text(v, "1") || lower_is(v, "true") || lower_is(v, "yes"),
        None => false,
    }
}

/// What came of a shell command: its output where it succeeded, otherwise both outputs.
pub fn outcome_of_texts(success: bool, stdout: String, stderr: &str) -> (res: Result<String, String>)
    ensures
        match res {
            Ok(out) => success && out@ == stdout@,
            Err(e) => !success && e@ == stdout@ + stderr@,
        },
{
    if success {
        Ok(stdout)
    } else {
        Err(join_two(stdout.as_str(), stderr))
    }
}

/// What came of a shell command, read from the bytes that it wrote.
pub fn run_shell_cmd_capture(success: bool, stdout: &[u8], stderr: &[u8]) -> (res: Result<
    String,
    String,
>)
    ensures
        match res {
            Ok(out) => success && out@ == utf8_lossy(stdout@),
            Err(e) => !success && e@ == utf8_lossy(stdout@) + utf8_lossy(stderr@),
        },
{
    outcome_of_texts(success, lossy_text(stdout), lossy_text(stderr).as_str())
}

/// The interface that a line names.
pub open spec fn interface_in(line: Seq<char>) -> Option<Seq<char>> {
    let shown = trimmed(line);
    if occurs_at(shown, "interface:"@, 0) {
        Some(trimmed(shown.skip("interface:"@.len() as int)))
    } else {
        None
    }
}

/// The interface that the first line to name one names.
pub open spec fn first_interface(lines: Seq<Seq<char>>) -> Option<Seq<char>>
    decreases lines.len(),
{
    if lines.len() == 0 {
        None
    } else {
        match interface_in(lines[0]) {
            Some(name) => Some(name),
            None => first_interface(lines.skip(1)),
        }
    }
}

/// Two texts that may be missing are the same.
pub open spec fn same_option(a: Option<String>, b: Option<Seq<char>>) -> bool {
    match (a, b) {
        (Some(x), Some(y)) => x@ == y,
        (None, None) => true,
        _ => false,
    }
}

/// The interface of the default route, read from the output of `route -n get default`.
pub fn parse_default_route_interface(output: &str) -> (res: Option<String>)
    ensures
        same_option(res, first_interface(lines_of(output@))),
{
    let all = lines(output);
    let ghost rows = lines_of(output@);
    let mut i: usize = 0;
    assert(rows.skip(0) =~= rows);
    while i < all.len()
        invariant
            i <= all@.len(),
            texts(all@) == rows,
            first_interface(rows) == first_interface(rows.skip(i as int)),
            rows == lines_of(output@),
        decreases all@.len() - i,
    {
        proof {
            assert(texts(all@)[i as int] == all@[i as int]@);
            assert(rows.skip(i as int)[0] == all@[i as int]@);
            assert(rows.skip(i as int).skip(1) =~= rows.skip(i + 1));
        }
        let shown = trim(all[i].as_str());
        if starts_with(shown.as_str(), "interface:") {
            let chars = chars_of(shown.as_str());
            let key = chars_of("interface:");
            let name = string_of(&chars, key.len(), chars.len());
            assert(name@ =~= shown@.skip("interface:"@.len() as int));
            return Some(trim(name.as_str()));
        }
        i = i + 1;
    }
    assert(rows.skip(i as int).len() == 0);
    None
}

/// What is done about the default route once it was asked for.
#[derive(Debug)]
pub enum DefaultRouteStep {
    /// The route of the tunnel is in effect.
    InEffect,
    /// It is not; the user is told of the interface in effect and of the command that changes it.
    Warn { current: Option<String>, fix_cmd: String },
    /// It is not, and the command that changes it is run.
    TakeOver { fix_cmd: String },
}

/// The step is the one to take, going by the output of `route -n get default`.
pub open spec fn is_default_route_step(
    step: DefaultRouteStep,
    name: Seq<char>,
    output: Seq<char>,
    take_over: bool,
) -> bool {
    let current = first_interface(lines_of(output));
    let change = "route -n change default -interface "@ + name;
    match step {
        DefaultRouteStep::InEffect => current == Some(name),
        DefaultRouteStep::Warn { current: shown, fix_cmd } => current != Some(name) && !take_over
            && same_option(shown, current) && fix_cmd@ == change,
        DefaultRouteStep::TakeOver { fix_cmd } => current != Some(name) && take_over && fix_cmd@
            == change,
    }
}

/// What is done about the default route, going by the output of `route -n get default`.
pub fn verify_or_take_over_default_route(name: &str, output: &str, take_over: bool) -> (step:
    DefaultRouteStep)
    ensures
        is_default_route_step(step, name@, output@, take_over),
{
    let current = parse_default_route_interface(output);
    if let Some(found) = &current {
        if same_text(found.as_str(), name) {
            return DefaultRouteStep::InEffect;
        }
    }
    let fix_cmd = join_two("route -n change default -interface ", name);
    if take_over {
        DefaultRouteStep::TakeOver { fix_cmd }
    } else {
        DefaultRouteStep::Warn { current, fix_cmd }
    }
}

/// The netmask of a prefix: ones, then as many zeros as the hosts need.
pub open spec fn netmask(prefix: int) -> Ipv4Addr {
    Ipv4Addr { bits: (0x1_0000_0000 - pow2((32 - prefix) as nat)) as u32 }
}

/// The netmask of a prefix.
pub fn cidr_to_subnet_mask(prefix: u8) -> (mask: Ipv4Addr)
    requires
        prefix <= 32,
    ensures
        mask == netmask(prefix as int),
{
    let mut hosts: u64 = 1;
    let mut i: u8 = 32;
    proof {
        lemma2_to64();
    }
    while i > prefix
        invariant
            prefix <= i <= 32,
            hosts == pow2((32 - i) as nat),
            1 <= hosts <= 0x1_0000_0000,
        decreases i,
    {
        proof {
            lemma2_to64();
            lemma_pow2_unfold((33 - i) as nat);
            if i > 1 {
                lemma_pow2_strictly_increases((33 - i) as nat, 32);
            }
        }
        hosts = hosts * 2;
        i = i - 1;
    }
    Ipv4Addr { bits: (0x1_0000_0000 - hosts) as u32 }
}

/// A route to install.
#[derive(Debug)]
pub struct RouteInstall {
    /// The command that installs it.
    pub command: String,
    /// Whether it is a default route, of which is to be asked whether it won.
    pub verify: bool,
}

/// The command that adds an IPv4 route.
pub open spec fn add_ipv4_route_cmd(
    name: Seq<char>,
    address: Ipv4Addr,
    cidr_prefix: int,
    cost: int,
) -> Seq<char> {
    "route -n add "@ + ipv4_text(address) + " -netmask "@ + ipv4_text(netmask(cidr_prefix))
        + " -interface "@ + name + " -hopcount "@ + integer(cost)
}

/// The shell commands that configure interfaces and routes. An IPv6 address is given in its usual
/// notation.
#[derive(Debug)]
pub struct MacIfConfiger {}

impl MacIfConfiger {
    /// The command that adds an IPv4 route. The cost is 7 where none is given.
    pub fn add_ipv4_route(
        &self,
        name: &str,
        address: Ipv4Addr,
        cidr_prefix: u8,
        cost: Option<i32>,
    ) -> (install: RouteInstall)
        requires
            cidr_prefix <= 32,
        ensures
            install.command@ == add_ipv4_route_cmd(
                name@,
                address,
                cidr_prefix as int,
                match cost {
                    Some(c) => c as int,
                    None => 7,
                },
            ),
            install.verify == (cidr_prefix == 0),
    {
        let cost: i32 = match cost {
            Some(c) => c,
            None => 7,
        };
        let mut command = join_three(
            "route -n add ",
            ipv4_to_text(address).as_str(),
            " -netmask ",
        );
        push_text(&mut command, ipv4_to_text(cidr_to_subnet_mask(cidr_prefix)).as_str());
        push_text(&mut command, " -interface ");
        push_text(&mut command, name);
        push_text(&mut command, " -hopcount ");
        push_text(&mut command, integer_text(cost).as_str());
        RouteInstall { command, verify: cidr_prefix == 0 }
    }

    /// The command that removes an IPv4 route.
    pub fn remove_ipv4_route(&self, name: &str, address: Ipv4Addr, cidr_prefix: u8) -> (cmd: String)
        requires
            cidr_prefix <= 32,
        ensures
            cmd@ == "route -n delete "@ + ipv4_text(address) + " -netmask "@ + ipv4_text(
                netmask(cidr_prefix as int),
            ) + " -interface "@ + name@,
    {
        let mut cmd = join_three("route -n delete ", ipv4_to_text(address).as_str(), " -netmask ");
        push_text(&mut cmd, ipv4_to_text(cidr_to_subnet_mask(cidr_prefix)).as_str());
        push_text(&mut cmd, " -interface ");
        push_text(&mut cmd, name);
        cmd
    }

    /// The command that gives an interface an IPv4 address.
    pub fn add_ipv4_ip(&self, name: &str, address: Ipv4Addr, cidr_prefix: u8) -> (cmd: String)
        ensures
            cmd@ == "ifconfig "@ + name@ + " "@ + ipv4_text(address) + "/"@ + decimal(
                cidr_prefix as nat,
            ) + " "@ + ipv4_text(address) + " up"@,
    {
        let mut cmd = join_three("ifconfig ", name, " ");
        push_text(&mut cmd, ipv4_to_text(address).as_str());
        push_text(&mut cmd, "/");
        push_text(&mut cmd, decimal_text(cidr_prefix as u64).as_str());
        push_text(&mut cmd, " ");
        push_text(&mut cmd, ipv4_to_text(address).as_str());
        push_text(&mut cmd, " up");
        cmd
    }

    /// The command that switches an interface on or off.
    pub fn set_link_status(&self, name: &str, up: bool) -> (cmd: String)
        ensures
            cmd@ == "ifconfig "@ + name@ + " "@ + (if up {
                "up"@
            } else {
                "down"@
            }),
    {
        let mut cmd = join_three("ifconfig ", name, " ");
        push_text(
            &mut cmd,
            if up {
                "up"
            } else {
                "down"
            },
        );
        cmd
    }

    /// The command that takes an IPv4 address from an interface, or all of them.
    pub fn remove_ip(&self, name: &str, ip: Option<Ipv4Cidr>) -> (cmd: String)
        ensures
            cmd@ == match ip {
                Some(inet) => "ifconfig "@ + name@ + " inet "@ + ipv4_text(inet.address)
                    + " delete"@,
                None => "ifconfig "@ + name@ + " inet delete"@,
            },
    {
        match ip {
            Some(inet) => {
                let mut cmd = join_three("ifconfig ", name, " inet ");
                push_text(&mut cmd, ipv4_to_text(inet.address).as_str());
                push_text(&mut cmd, " delete");
                cmd
            },
            None => join_three("ifconfig ", name, " inet delete"),
        }
    }

    /// The command that sets the MTU of an interface.
    pub fn set_mtu(&self, name: &str, mtu: u32) -> (cmd: String)
        ensures
            cmd@ == "ifconfig "@ + name@ + " mtu "@ + decimal(mtu as nat),
    {
        let mut cmd = join_three("ifconfig ", name, " mtu ");
        push_text(&mut cmd, decimal_text(mtu as u64).as_str());
        cmd
    }

    /// The command that gives an interface an IPv6 address.
    pub fn add_ipv6_ip(&self, name: &str, address: &str, cidr_prefix: u8) -> (cmd: String)
        ensures
            cmd@ == "ifconfig "@ + name@ + " inet6 "@ + address@ + "/"@ + decimal(
                cidr_prefix as nat,
            ) + " add"@,
    {
        let mut cmd = join_three("ifconfig ", name, " inet6 ");
        push_text(&mut cmd, address);
        push_text(&mut cmd, "/");
        push_text(&mut cmd, decimal_text(cidr_prefix as u64).as_str());
        push_text(&mut cmd, " add");
        cmd
    }

    /// The command that takes an IPv6 address from an interface. To take all of them no command is
    /// run.
    pub fn remove_ipv6(&self, name: &str, ip: Option<&str>) -> (cmd: Option<String>)
        ensures
            match (ip, cmd) {
                (Some(address), Some(c)) => c@ == "ifconfig "@ + name@ + " inet6 "@ + address@
                    + " delete"@,
                (None, None) => true,
                _ => false,
            },
    {
        match ip {
            Some(address) => {
                let mut cmd = join_three("ifconfig ", name, " inet6 ");
                push_text(&mut cmd, address);
                push_text(&mut cmd, " delete");
                Some(cmd)
            },
            None => None,
        }
    }

    /// The command that adds an IPv6 route.
    pub fn add_ipv6_route(
        &self,
        name: &str,
        address: &str,
        cidr_prefix: u8,
        cost: Option<i32>,
    ) -> (cmd: String)
        ensures
            ({
                let add = "route -n add -inet6 "@ + address@ + "/"@ + decimal(cidr_prefix as nat)
                    + " -interface "@ + name@;
                cmd@ == match cost {
                    Some(c) => add + " -hopcount "@ + integer(c as int),
                    None => add,
                }
            }),
    {
        let mut cmd = join_three("route -n add -inet6 ", address, "/");
        push_text(&mut cmd, decimal_text(cidr_prefix as u64).as_str());
        push_text(&mut cmd, " -interface ");
        push_text(&mut cmd, name);
        if let Some(c) = cost {
            push_text(&mut cmd, " -hopcount ");
            push_text(&mut cmd, integer_text(c).as_str());
        }
        cmd
    }

    /// The command that removes an IPv6 route.
    pub fn remove_ipv6_route(&self, name: &str, address: &str, cidr_prefix: u8) -> (cmd: String)
        ensures
            cmd@ == "route -n delete -inet6 "@ + address@ + "/"@ + decimal(cidr_prefix as nat)
                + " -interface "@ + name@,
    {
        let mut cmd = join_three("route -n delete -inet6 ", address, "/");
        push_text(&mut cmd, decimal_text(cidr_prefix as u64).as_str());
        push_text(&mut cmd, " -interface ");
        push_text(&mut cmd, name);
        cmd
    }
}

/// Without the setting the default route is never changed by force, and one that is in effect is
/// left alone whatever is set.
pub proof fn no_change_without_need_or_leave(
    step: DefaultRouteStep,
    name: Seq<char>,
    output: Seq<char>,
    value: Option<Seq<char>>,
)
    requires
        is_default_route_step(step, name, output, take_over_allowed(value)),
    ensures
        value is None ==> step !is TakeOver,
        first_interface(lines_of(output)) == Some(name) ==> step is InEffect,
{
}

/// The zeros of a netmask are as many as the hosts need. For a default route it is zero.
pub proof fn netmask_leaves_room_for_the_hosts(prefix: int)
    requires
        0 <= prefix <= 32,
    ensures
        netmask(prefix).bits + pow2((32 - prefix) as nat) == 0x1_0000_0000,
        netmask(prefix).bits == 0 <==> prefix == 0,
{
    lemma2_to64();
    if prefix > 0 {
        lemma_pow2_strictly_increases((32 - prefix) as nat, 32);
    }
    if prefix < 32 {
        lemma_pow2_strictly_increases(0, (32 - prefix) as nat);
    }
}

/// The setting allows the change with `1`, and with `true` and `yes` in any case of their letters;
/// nothing that is not one, three or four characters long does.
pub proof fn which_settings_allow_the_change(value: Seq<char>)
    ensures
        take_over_allowed(Some("1"@)),
        ascii_lowercased(value) == "true"@ ==> take_over_allowed(Some(value)),
        ascii_lowercased(value) == "yes"@ ==> take_over_allowed(Some(value)),
        !take_over_allowed(None),
        take_over_allowed(Some(value)) ==> value == "1"@ || value.len() == 3 || value.len() == 4,
        take_over_allowed(Some(value)) && value.len() == 3 ==> ascii_lowercased(value) == "yes"@,
        take_over_allowed(Some(value)) && value.len() == 4 ==> ascii_lowercased(value) == "true"@,
{
    reveal_strlit("1");
    reveal_strlit("true");
    reveal_strlit("yes");
    assert(ascii_lowercased(value).len() == value.len());
}

/// A line names an interface where it starts, behind white space, with `interface:`; the name is what
/// follows that, without the white space around it.
pub proof fn what_a_line_names(line: Seq<char>, rest: Seq<char>)
    ensures
        trimmed(line) == "interface:"@ + rest ==> interface_in(line) == Some(trimmed(rest)),
        interface_in(line) matches Some(name) ==> trimmed(line).len() >= 10 && trimmed(line).take(10)
            == "interface:"@ && name == trimmed(trimmed(line).skip(10)),
        interface_in(line) is None ==> trimmed(line) != "interface:"@ + rest,
{
    reveal_strlit("interface:");
    let key = "interface:"@;
    a_part_stands_character_by_character(rest, key, 0);
    assert((key + rest).skip(10) =~= rest);
    if interface_in(line) is Some {
        assert(trimmed(line).take(10) =~= trimmed(line).subrange(0, 10));
    }
}

/// The first line that names an interface counts.
pub proof fn the_first_line_that_names_an_interface_counts(lines: Seq<Seq<char>>, i: int)
    requires
        0 <= i < lines.len(),
        forall|j: int| 0 <= j < i ==> interface_in(#[trigger] lines[j]) is None,
    ensures
        interface_in(lines[i]) is Some ==> first_interface(lines) == interface_in(lines[i]),
        i == lines.len() - 1 && interface_in(lines[i]) is None ==> first_interface(lines) is None,
    decreases i,
{
    let rest = lines.skip(1);
    if i > 0 {
        assert(interface_in(lines[0]) is None);
        assert forall|j: int| 0 <= j < i - 1 implies interface_in(#[trigger] rest[j]) is None by {
            assert(rest[j] == lines[j + 1]);
        }
        the_first_line_that_names_an_interface_counts(rest, i - 1);
    } else if lines.len() == 1 {
        assert(first_interface(rest) is None);
    }
}

/// Where another interface, or none, has the default route, the command that changes it is run where
/// that is allowed and shown where it is not. It names the interface of the tunnel.
pub proof fn the_change_is_run_or_shown(
    step: DefaultRouteStep,
    name: Seq<char>,
    output: Seq<char>,
    take_over: bool,
)
    requires
        is_default_route_step(step, name, output, take_over),
    ensures
        first_interface(lines_of(output)) != Some(name) ==> (take_over <==> step is TakeOver),
        first_interface(lines_of(output)) != Some(name) ==> (!take_over <==> step is Warn),
        step is InEffect ==> first_interface(lines_of(output)) == Some(name),
        step matches DefaultRouteStep::TakeOver { fix_cmd } ==> fix_cmd@
            == "route -n change default -interface "@ + name,
        step matches DefaultRouteStep::Warn { current, fix_cmd } ==> fix_cmd@
            == "route -n change default -interface "@ + name && (current matches Some(shown)
            ==> first_interface(lines_of(output)) == Some(shown@)) && (current is None
            ==> first_interface(lines_of(output)) is None),
{
}

/// The netmasks of whole octets, and that each bit more of the prefix halves the room for hosts.
pub proof fn netmasks_by_prefix(prefix: int)
    requires
        0 <= prefix < 32,
    ensures
        netmask(0).bits == 0,
        netmask(8).bits == 0xff00_0000,
        netmask(16).bits == 0xffff_0000,
        netmask(24).bits == 0xffff_ff00,
        netmask(32).bits == 0xffff_ffff,
        0x1_0000_0000 - netmask(prefix).bits == 2 * (0x1_0000_0000 - netmask(prefix + 1).bits),
{
    lemma2_to64();
    netmask_leaves_room_for_the_hosts(prefix);
    netmask_leaves_room_for_the_hosts(prefix + 1);
    lemma_pow2_unfold((32 - prefix) as nat);
}

/// The command that adds a route names the address, the netmask of the prefix, the interface and the
/// cost, in this order and each with its option.
pub proof fn the_command_that_adds_a_route(
    name: Seq<char>,
    address: Ipv4Addr,
    cidr_prefix: int,
    cost: int,
)
    ensures
        add_ipv4_route_cmd(name, address, cidr_prefix, cost) == "route -n add "@ + ipv4_text(address)
            + " -netmask "@ + ipv4_text(netmask(cidr_prefix)) + " -interface "@ + name
            + " -hopcount "@ + integer(cost),
{
}

/// Texts that may be missing are the same where both are there and equal, or both are missing.
pub proof fn when_texts_that_may_be_missing_are_the_same(a: String, b: Seq<char>)
    ensures
        same_option(Some(a), Some(b)) <==> a@ == b,
        same_option(None, None),
        !same_option(Some(a), None),
        !same_option(None, Some(b)),
        QUERY_DEFAULT_ROUTE@ == "route -n get default"@,
{
}

/// The output of a command counts where it succeeded; otherwise both of its outputs do.
pub proof fn what_counts_of_a_command(
    success: bool,
    stdout: String,
    stderr: &str,
    res: Result<String, String>,
)
    requires
        call_ensures(outcome_of_texts, (success, stdout, stderr), res),
    ensures
        success <==> res is Ok,
        res matches Ok(out) ==> out@ == stdout@,
        res matches Err(e) ==> e@.len() == stdout@.len() + stderr@.len() && e@.take(
            stdout@.len() as int,
        ) == stdout@ && e@.skip(stdout@.len() as int) == stderr@,
{
    if let Err(e) = res {
        assert(e@.take(stdout@.len() as int) =~= stdout@);
        assert(e@.skip(stdout@.len() as int) =~= stderr@);
    }
}

/// The commands that switch an interface on and off name it, and differ in their last word alone.
pub proof fn an_interface_is_switched_on_and_off(
    configer: MacIfConfiger,
    name: &str,
    on: String,
    off: String,
)
    requires
        call_ensures(MacIfConfiger::set_link_status, (&configer, name, true), on),
        call_ensures(MacIfConfiger::set_link_status, (&configer, name, false), off),
    ensures
        on@.take(9) == "ifconfig "@,
        on@.subrange(9, 9 + name@.len() as int) == name@,
        on@.take(10 + name@.len() as int) == off@.take(10 + name@.len() as int),
        on@.skip(10 + name@.len() as int) == "up"@,
        off@.skip(10 + name@.len() as int) == "down"@,
{
    reveal_strlit("ifconfig ");
    reveal_strlit(" ");
    reveal_strlit("up");
    reveal_strlit("down");
    let n = name@.len() as int;
    assert(on@.take(9) =~= "ifconfig "@);
    assert(on@.subrange(9, 9 + n) =~= name@);
    assert(on@.take(10 + n) =~= off@.take(10 + n));
    assert(on@.skip(10 + n) =~= "up"@);
    assert(off@.skip(10 + n) =~= "down"@);
}

/// An IPv6 address is taken from an interface by a command that names both, and without an address
/// nothing is run.
pub proof fn an_ipv6_address_is_taken_by_name(
    configer: MacIfConfiger,
    name: &str,
    address: &str,
    one: Option<String>,
    all: Option<String>,
)
    requires
        call_ensures(MacIfConfiger::remove_ipv6, (&configer, name, Some(address)), one),
        call_ensures(MacIfConfiger::remove_ipv6, (&configer, name, None), all),
    ensures
        all is None,
        one matches Some(cmd) && cmd@.subrange(9, 9 + name@.len() as int) == name@ && cmd@.subrange(
            16 + name@.len() as int,
            16 + name@.len() as int + address@.len() as int,
        ) == address@ && cmd@.skip(16 + name@.len() as int + address@.len() as int) == " delete"@
            && cmd@.take(9) == "ifconfig "@ && cmd@.subrange(
            9 + name@.len() as int,
            16 + name@.len() as int,
        ) == " inet6 "@,
{
    reveal_strlit("ifconfig ");
    reveal_strlit(" inet6 ");
    reveal_strlit(" delete");
    let n = name@.len() as int;
    let a = address@.len() as int;
    if let Some(cmd) = one {
        assert(cmd@.take(9) =~= "ifconfig "@);
        assert(cmd@.subrange(9, 9 + n) =~= name@);
        assert(cmd@.subrange(9 + n, 16 + n) =~= " inet6 "@);
        assert(cmd@.subrange(16 + n, 16 + n + a) =~= address@);
        assert(cmd@.skip(16 + n + a) =~= " delete"@);
    }
}

} // verus!
