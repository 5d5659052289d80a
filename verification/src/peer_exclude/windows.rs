//! Windows: the routing table is enumerated by the system, routes are changed with `route`.
use crate::digits::{decimal, decimal_text};
use crate::ip_text::{ipv4_text, ipv4_to_text};
use crate::net::Ipv4Addr;
use crate::peer_exclude::{add_outcome, brief, command_outcome, PhysicalDefaultRoute, RouteCommand};
use crate::scan::occurs;
use crate::text::{args_of, copy_text, join_two, texts};
use vstd::prelude::*;

verus! {

/// An entry of the routing table.
#[derive(Clone, Copy, Debug, PartialEq, Eq, Structural)]
pub struct RouteTableEntry {
    pub prefix_len: u8,
    pub gateway: Ipv4Addr,
    pub metric: u32,
    pub interface_index: u32,
}

/// The entry is a default route with a gateway.
pub open spec fn is_physical_default(entry: RouteTableEntry) -> bool {
    entry.prefix_len == 0 && entry.gateway.bits != 0
}

/// The entry at `i` is the first default route with a gateway that has the smallest metric.
pub open spec fn is_chosen(entries: Seq<RouteTableEntry>, i: int) -> bool {
    &&& 0 <= i < entries.len()
    &&& is_physical_default(entries[i])
    &&& forall|j: int|
        0 <= j < entries.len() && is_physical_default(#[trigger] entries[j]) ==> entries[i].metric
            <= entries[j].metric && (j < i ==> entries[i].metric < entries[j].metric)
}

/// Finds the physical default route in the routing table.
pub fn find_physical_default_route(entries: &Vec<RouteTableEntry>) -> (res: Result<
    PhysicalDefaultRoute,
    String,
>)
    ensures
        res matches Ok(route) ==> route.gateway.bits != 0,
        match res {
            Ok(route) => exists|i: int| #[trigger]
                is_chosen(entries@, i) && route.gateway == entries@[i].gateway
                    && route.interface_index == Some(entries@[i].interface_index)
                    && route.interface@ == "if "@ + decimal(entries@[i].interface_index as nat),
            Err(e) => e@ == "IPv4 路由表中没有带网关的默认路由，无法确定物理出口"@
                && forall|i: int|
                0 <= i < entries@.len() ==> !is_physical_default(#[trigger] entries@[i]),
        },
        res is Ok <==> exists|i: int|
            0 <= i < entries@.len() && (#[trigger] entries@[i]).prefix_len == 0
                && entries@[i].gateway.bits != 0,
        res matches Ok(route) ==> exists|i: int|
            0 <= i < entries@.len() && (#[trigger] entries@[i]).prefix_len == 0
                && entries@[i].gateway == route.gateway && route.interface_index == Some(
                entries@[i].interface_index,
            ) && forall|j: int|
                0 <= j < entries@.len() && (#[trigger] entries@[j]).prefix_len == 0
                    && entries@[j].gateway.bits != 0 ==> entries@[i].metric <= entries@[j].metric,
{
    let mut best: Option<usize> = None;
    let mut i: usize = 0;
    while i < entries.len()
        invariant
            i <= entries@.len(),
            match best {
                Some(b) => b < i && is_chosen(entries@.take(i as int), b as int),
                None => forall|j: int|
                    0 <= j < i ==> !is_physical_default(#[trigger] entries@[j]),
            },
        decreases entries@.len() - i,
    {
        let entry = entries[i];
        let ghost before = entries@.take(i as int);
        let ghost after = entries@.take(i + 1);
        assert(forall|j: int| 0 <= j < i ==> #[trigger] after[j] == before[j]);
        assert(forall|j: int| 0 <= j < i + 1 ==> #[trigger] after[j] == entries@[j]);
        assert(forall|j: int| 0 <= j < i ==> #[trigger] before[j] == entries@[j]);
        if entry.prefix_len == 0 && !entry.gateway.is_unspecified() {
            let better = match best {
                None => true,
                Some(b) => entry.metric < entries[b].metric,
            };
            if better {
                best = Some(i);
                assert(is_chosen(after, i as int));
            } else {
                assert(is_chosen(after, best->0 as int));
            }
        } else {
            proof {
                if best is Some {
                    assert(is_chosen(after, best->0 as int));
                }
            }
        }
        i = i + 1;
    }
    assert(entries@.take(i as int) =~= entries@);
    proof {
        if best is None {
            assert forall|j: int|
                0 <= j < entries@.len() implies !((#[trigger] entries@[j]).prefix_len == 0
                && entries@[j].gateway.bits != 0) by {
                assert(!is_physical_default(entries@[j]));
            }
        }
    }
    match best {
        None => Err(copy_text("IPv4 路由表中没有带网关的默认路由，无法确定物理出口")),
        Some(b) => {
            let entry = entries[b];
            assert(is_chosen(entries@, b as int));
            assert forall|j: int|
                0 <= j < entries@.len() && (#[trigger] entries@[j]).prefix_len == 0
                    && entries@[j].gateway.bits != 0 implies entries@[b as int].metric
                <= entries@[j].metric by {
                assert(is_physical_default(entries@[j]));
            }
            Ok(
                PhysicalDefaultRoute {
                    gateway: entry.gateway,
                    interface: join_two(
                        "if ",
                        decimal_text(entry.interface_index as u64).as_str(),
                    ),
                    interface_index: Some(entry.interface_index),
                },
            )
        },
    }
}

/// The arguments that add a host route.
pub open spec fn add_args(target: Ipv4Addr, gateway: Ipv4Addr, index: Option<u32>) -> Seq<
    Seq<char>,
> {
    let common = seq![
        "add"@,
        ipv4_text(target),
        "mask"@,
        "255.255.255.255"@,
        ipv4_text(gateway),
        "metric"@,
        "1"@,
    ];
    match index {
        Some(index) => common + seq!["if"@, decimal(index as nat)],
        None => common,
    }
}

/// The command that adds a host route.
pub fn add_host_route(target: Ipv4Addr, route: &PhysicalDefaultRoute) -> (cmd: RouteCommand)
    ensures
        cmd.runs("route"@, add_args(target, route.gateway, route.interface_index)),
{
    let target_text = ipv4_to_text(target);
    let gateway = ipv4_to_text(route.gateway);
    let mut args = args_of(
        &[
            "add",
            target_text.as_str(),
            "mask",
            "255.255.255.255",
            gateway.as_str(),
            "metric",
            "1",
        ],
    );
    let ghost common = texts(args@);
    assert(common =~= add_args(target, route.gateway, None));
    match route.interface_index {
        Some(index) => {
            args.push(copy_text("if"));
            args.push(decimal_text(index as u64));
            assert(texts(args@) =~= common + seq!["if"@, decimal(index as nat)]);
        },
        None => {},
    }
    RouteCommand { program: copy_text("route"), args }
}

/// What came of adding a host route.
pub fn add_host_route_outcome(success: bool, stderr: &str) -> (res: Result<(), String>)
    ensures
        res is Ok <==> success || occurs(brief(stderr@), "File exists"@),
        res matches Err(e) ==> e@ == "route add 失败: "@ + brief(stderr@),
{
    add_outcome(success, "route add 失败: ", stderr)
}

/// The command that deletes a host route.
pub fn delete_host_route(target: Ipv4Addr) -> (cmd: RouteCommand)
    ensures
        cmd.runs("route"@, seq!["delete"@, ipv4_text(target), "mask"@, "255.255.255.255"@]),
{
    let target_text = ipv4_to_text(target);
    let args = args_of(&["delete", target_text.as_str(), "mask", "255.255.255.255"]);
    assert(texts(args@) =~= seq!["delete"@, ipv4_text(target), "mask"@, "255.255.255.255"@]);
    RouteCommand { program: copy_text("route"), args }
}

/// What came of deleting a host route.
pub fn delete_host_route_outcome(success: bool, stderr: &str) -> (res: Result<(), String>)
    ensures
        res is Ok <==> success,
        res matches Err(e) ==> e@ == "route delete 失败: "@ + brief(stderr@),
{
    command_outcome(success, "route delete 失败: ", stderr)
}

/// An entry can be chosen where it leads everywhere and has a gateway other than 0.0.0.0.
pub proof fn what_can_be_chosen(entry: RouteTableEntry)
    ensures
        is_physical_default(entry) <==> entry.prefix_len == 0 && entry.gateway.bits != 0,
{
}

/// The chosen entry has the smallest metric of those that can be chosen, and of several with that the
/// first is chosen.
pub proof fn the_smallest_metric_is_chosen(entries: Seq<RouteTableEntry>, i: int, j: int)
    requires
        is_chosen(entries, i),
        0 <= j < entries.len(),
        entries[j].prefix_len == 0,
        entries[j].gateway.bits != 0,
    ensures
        0 <= i < entries.len(),
        entries[i].prefix_len == 0,
        entries[i].gateway.bits != 0,
        entries[i].metric <= entries[j].metric,
        entries[i].metric == entries[j].metric ==> i <= j,
{
    assert(is_physical_default(entries[j]));
}

/// A host route is added for the whole address, with the metric 1, and through the interface where its
/// index is known.
pub proof fn the_arguments_of_a_host_route(target: Ipv4Addr, gateway: Ipv4Addr, index: u32)
    ensures
        add_args(target, gateway, None).len() == 7,
        add_args(target, gateway, Some(index)).len() == 9,
        add_args(target, gateway, Some(index)).take(7) == add_args(target, gateway, None),
        add_args(target, gateway, None)[0] == "add"@,
        add_args(target, gateway, None)[1] == ipv4_text(target),
        add_args(target, gateway, None)[2] == "mask"@,
        add_args(target, gateway, None)[3] == "255.255.255.255"@,
        add_args(target, gateway, None)[4] == ipv4_text(gateway),
        add_args(target, gateway, None)[5] == "metric"@,
        add_args(target, gateway, None)[6] == "1"@,
        add_args(target, gateway, Some(index))[7] == "if"@,
        add_args(target, gateway, Some(index))[8] == decimal(index as nat),
{
    assert(add_args(target, gateway, Some(index)).take(7) =~= add_args(target, gateway, None));
}

} // verus!
