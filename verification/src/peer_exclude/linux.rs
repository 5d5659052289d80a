//! Linux: the routing table is read from `/proc/net/route`, routes are changed with `ip`.
use crate::ip_text::{ipv4_text, ipv4_to_text};
use crate::net::Ipv4Addr;
use crate::peer_exclude::{
    add_outcome, brief, command_outcome, PhysicalDefaultRoute, RouteCommand,
};
use crate::scan::{lines, lines_of, occurs, parse_u32, parsed_u32, words, words_of};
use crate::text::{args_of, copy_text, join_two, same_text, texts};
use vstd::prelude::*;

verus! {

/// Where the kernel shows its routing table.
pub const PROC_NET_ROUTE: &'static str = "/proc/net/route";

/// A number with its bytes in reverse order.
pub open spec fn bytes_reversed(n: u32) -> u32 {
    (n % 0x100 * 0x100_0000 + n / 0x100 % 0x100 * 0x1_0000 + n / 0x1_0000 % 0x100 * 0x100 + n
        / 0x100_0000) as u32
}

/// The address that a field of the table stands for: eight hexadecimal digits, the last octet
/// first.
pub open spec fn le_hex_ipv4(field: Seq<char>) -> Option<Ipv4Addr> {
    match parsed_u32(field, 16) {
        Some(raw) => Some(Ipv4Addr { bits: bytes_reversed(raw) }),
        None => None,
    }
}

/// Reads an address field of the table.
pub fn parse_le_hex_ipv4(field: &str) -> (res: Option<Ipv4Addr>)
    ensures
        res == le_hex_ipv4(field@),
{
    match parse_u32(field, 16) {
        None => None,
        Some(raw) => {
            assert(raw % 0x100 * 0x100_0000 + raw / 0x100 % 0x100 * 0x1_0000 + raw / 0x1_0000
                % 0x100 * 0x100 + raw / 0x100_0000 <= u32::MAX) by (bit_vector);
            Some(
                Ipv4Addr {
                    bits: raw % 0x100 * 0x100_0000 + raw / 0x100 % 0x100 * 0x1_0000 + raw / 0x1_0000
                        % 0x100 * 0x100 + raw / 0x100_0000,
                },
            )
        },
    }
}

/// A default route of the table.
#[derive(Debug)]
pub struct DefaultRoute {
    pub interface: String,
    pub gateway: Ipv4Addr,
    pub metric: u32,
}

/// A default route of the table, over sequences.
pub ghost struct RouteView {
    pub interface: Seq<char>,
    pub gateway: Ipv4Addr,
    pub metric: u32,
}

impl View for DefaultRoute {
    type V = RouteView;

    open spec fn view(&self) -> RouteView {
        RouteView { interface: self.interface@, gateway: self.gateway, metric: self.metric }
    }
}

/// What the routes of a list are.
pub open spec fn route_views(list: Seq<DefaultRoute>) -> Seq<RouteView> {
    Seq::new(list.len(), |i: int| list[i]@)
}

/// The default route that a line shows: its destination is zero and it has a gateway.
pub open spec fn route_of_line(line: Seq<char>) -> Option<RouteView> {
    let fields = words_of(line);
    if fields.len() < 7 || fields[1] != "00000000"@ {
        None
    } else {
        match le_hex_ipv4(fields[2]) {
            Some(gateway) => if gateway.bits == 0 {
                None
            } else {
                Some(
                    RouteView {
                        interface: fields[0],
                        gateway,
                        metric: match parsed_u32(fields[6], 10) {
                            Some(metric) => metric,
                            None => 0,
                        },
                    },
                )
            },
            None => None,
        }
    }
}

/// The default routes that lines show, in their order.
pub open spec fn routes_of_lines(lines: Seq<Seq<char>>) -> Seq<RouteView>
    decreases lines.len(),
{
    if lines.len() == 0 {
        Seq::empty()
    } else {
        let rest = routes_of_lines(lines.drop_last());
        match route_of_line(lines.last()) {
            Some(route) => rest.push(route),
            None => rest,
        }
    }
}

/// The default routes that a table shows, in its order. The first line is a heading.
pub open spec fn table_routes(content: Seq<char>) -> Seq<RouteView> {
    let lines = lines_of(content);
    if lines.len() == 0 {
        Seq::empty()
    } else {
        routes_of_lines(lines.skip(1))
    }
}

/// The routes are in the order of their metrics.
pub open spec fn by_metric(list: Seq<RouteView>) -> bool {
    forall|i: int, j: int| 0 <= i < j < list.len() ==> list[i].metric <= list[j].metric
}

/// The routes with a given metric, in their order.
pub open spec fn with_metric(list: Seq<RouteView>, metric: u32) -> Seq<RouteView> {
    list.filter(|r: RouteView| r.metric == metric)
}

/// `sorted` holds the routes of `list` in the order of their metrics; those with equal metrics keep
/// their order.
pub open spec fn sorted_from(sorted: Seq<RouteView>, list: Seq<RouteView>) -> bool {
    &&& by_metric(sorted)
    &&& forall|metric: u32| #[trigger] with_metric(sorted, metric) == with_metric(list, metric)
}

/// Reads one line of the table.
fn parse_route_line(line: &str) -> (res: Option<DefaultRoute>)
    ensures
        match (res, route_of_line(line@)) {
            (Some(route), Some(expected)) => route@ == expected,
            (None, None) => true,
            _ => false,
        },
{
    let fields = words(line);
    let ghost all = words_of(line@);
    assert(all.len() == fields@.len());
    if fields.len() < 7 {
        return None;
    }
    assert(all[0] == fields@[0]@ && all[1] == fields@[1]@ && all[2] == fields@[2]@ && all[6]
        == fields@[6]@);
    if !same_text(fields[1].as_str(), "00000000") {
        return None;
    }
    match parse_le_hex_ipv4(fields[2].as_str()) {
        None => None,
        Some(gateway) => {
            if gateway.is_unspecified() {
                return None;
            }
            let metric: u32 = match parse_u32(fields[6].as_str(), 10) {
                Some(metric) => metric,
                None => 0,
            };
            Some(DefaultRoute { interface: copy_text(fields[0].as_str()), gateway, metric })
        },
    }
}

/// Puts a route behind those whose metric is not greater.
fn insert_by_metric(list: &mut Vec<DefaultRoute>, route: DefaultRoute)
    requires
        by_metric(route_views(old(list)@)),
    ensures
        sorted_from(route_views(final(list)@), route_views(old(list)@).push(route@)),
{
    let ghost before = route_views(list@);
    let ghost r = route@;
    let mut i: usize = list.len();
    while i > 0 && list[i - 1].metric > route.metric
        invariant
            i <= list@.len(),
            before == route_views(list@),
            list@ == old(list)@,
            forall|j: int| i <= j < list@.len() ==> #[trigger] before[j].metric > route.metric,
        decreases i,
    {
        i = i - 1;
    }
    list.insert(i, route);
    proof {
        let after = route_views(list@);
        assert(after =~= before.insert(i as int, r));
        if i > 0 {
            assert(before[i - 1].metric <= r.metric);
            assert(forall|j: int| 0 <= j < i ==> #[trigger] before[j].metric <= r.metric);
        }
        assert forall|a: int, b: int| 0 <= a < b < after.len() implies after[a].metric
            <= after[b].metric by {
            let x = if a < i {
                a
            } else {
                a - 1
            };
            let y = if b < i {
                b
            } else {
                b - 1
            };
            if a != i && b != i && x < y {
                assert(before[x].metric <= before[y].metric);
            }
        }
        assert forall|metric: u32| #[trigger] with_metric(after, metric) == with_metric(
            before.push(r),
            metric,
        ) by {
            lemma_insert_filter(before, i as int, r, metric);
        }
    }
}

/// Inserting a route before routes of other metrics is the same to its own metric as pushing it.
proof fn lemma_insert_filter(list: Seq<RouteView>, at: int, route: RouteView, metric: u32)
    requires
        0 <= at <= list.len(),
        forall|j: int| at <= j < list.len() ==> #[trigger] list[j].metric > route.metric,
    ensures
        with_metric(list.insert(at, route), metric) == with_metric(list.push(route), metric),
{
    let keep = |r: RouteView| r.metric == metric;
    let head = list.take(at);
    let tail = list.skip(at);
    let one = seq![route];
    assert(list.insert(at, route) =~= head + one + tail);
    assert(list.push(route) =~= head + tail + one);
    assert(list =~= head + tail);
    Seq::filter_distributes_over_add(head + one, tail, keep);
    Seq::filter_distributes_over_add(head, one, keep);
    Seq::filter_distributes_over_add(head + tail, one, keep);
    Seq::filter_distributes_over_add(head, tail, keep);
    if metric == route.metric {
        lemma_filter_none(tail, keep);
    } else {
        lemma_filter_none(one, keep);
    }
    assert(with_metric(list.insert(at, route), metric) =~= with_metric(list.push(route), metric));
}

/// Nothing is kept where nothing passes.
proof fn lemma_filter_none<A>(list: Seq<A>, keep: spec_fn(A) -> bool)
    requires
        forall|i: int| 0 <= i < list.len() ==> !keep(#[trigger] list[i]),
    ensures
        list.filter(keep) == Seq::<A>::empty(),
    decreases list.len(),
{
    reveal(Seq::filter);
    if list.len() > 0 {
        assert(!keep(list.last()));
        lemma_filter_none(list.drop_last(), keep);
    }
    assert(list.filter(keep) =~= Seq::<A>::empty());
}

/// The default routes with a gateway, in the order of their metrics; those with equal metrics in
/// the order of the table.
pub fn parse_default_routes(content: &str) -> (routes: Vec<DefaultRoute>)
    ensures
        sorted_from(route_views(routes@), table_routes(content@)),
{
    let all = lines(content);
    let ghost rows = if lines_of(content@).len() == 0 {
        Seq::empty()
    } else {
        lines_of(content@).skip(1)
    };
    let mut routes: Vec<DefaultRoute> = Vec::new();
    let mut i: usize = 1;
    assert(route_views(routes@) =~= Seq::empty());
    assert(rows.take(0) =~= Seq::empty());
    while i < all.len()
        invariant
            1 <= i,
            i <= all@.len() || i == 1,
            texts(all@) == lines_of(content@),
            rows == (if lines_of(content@).len() == 0 {
                Seq::empty()
            } else {
                lines_of(content@).skip(1)
            }),
            i - 1 <= rows.len(),
            sorted_from(route_views(routes@), routes_of_lines(rows.take(i - 1))),
        decreases all@.len() - i,
    {
        let ghost before = route_views(routes@);
        let ghost shown = rows.take(i - 1);
        proof {
            assert(texts(all@)[i as int] == all@[i as int]@);
            assert(rows.take(i as int).drop_last() =~= shown);
            assert(rows.take(i as int).last() == all@[i as int]@);
        }
        match parse_route_line(all[i].as_str()) {
            None => {},
            Some(route) => {
                let ghost r = route@;
                insert_by_metric(&mut routes, route);
                proof {
                    let listed = routes_of_lines(shown);
                    assert forall|metric: u32| #[trigger] with_metric(
                        route_views(routes@),
                        metric,
                    ) == with_metric(listed.push(r), metric) by {
                        let keep = |x: RouteView| x.metric == metric;
                        assert(with_metric(route_views(routes@), metric) == with_metric(
                            before.push(r),
                            metric,
                        ));
                        assert(with_metric(before, metric) == with_metric(listed, metric));
                        assert(before.push(r) =~= before + seq![r]);
                        assert(listed.push(r) =~= listed + seq![r]);
                        Seq::filter_distributes_over_add(before, seq![r], keep);
                        Seq::filter_distributes_over_add(listed, seq![r], keep);
                    }
                }
            },
        }
        i = i + 1;
    }
    proof {
        assert(rows.take(i - 1) =~= rows);
    }
    routes
}

/// The route at `i` is the first with the smallest metric.
pub open spec fn is_preferred(list: Seq<RouteView>, i: int) -> bool {
    &&& 0 <= i < list.len()
    &&& forall|j: int|
        0 <= j < list.len() ==> list[i].metric <= (#[trigger] list[j]).metric && (j < i
            ==> list[i].metric < list[j].metric)
}

/// The first of the sorted routes is the preferred one.
pub proof fn the_first_sorted_route_is_preferred(sorted: Seq<RouteView>, list: Seq<RouteView>)
    requires
        sorted_from(sorted, list),
    ensures
        sorted.len() == 0 <==> list.len() == 0,
        sorted.len() > 0 ==> exists|i: int| #[trigger]
            is_preferred(list, i) && list[i] == sorted[0],
{
    if list.len() > 0 {
        lemma_kept(list, list[0].metric, 0);
        assert(with_metric(sorted, list[0].metric) == with_metric(list, list[0].metric));
        if sorted.len() == 0 {
            reveal(Seq::filter);
            assert(with_metric(sorted, list[0].metric).len() == 0);
        }
    }
    if sorted.len() > 0 {
        let metric = sorted[0].metric;
        lemma_first_kept(sorted, metric);
        assert(with_metric(sorted, metric) == with_metric(list, metric));
        lemma_kept_from(list, metric);
        let i = choose|i: int|
            0 <= i < list.len() && #[trigger] list[i] == with_metric(list, metric)[0]
                && list[i].metric == metric && forall|j: int|
                0 <= j < i ==> (#[trigger] list[j]).metric != metric;
        assert forall|j: int| 0 <= j < list.len() implies metric <= (#[trigger] list[j]).metric by {
            let m = list[j].metric;
            lemma_kept(list, m, j);
            assert(with_metric(sorted, m) == with_metric(list, m));
            lemma_kept_from(sorted, m);
            let k = choose|k: int|
                0 <= k < sorted.len() && #[trigger] sorted[k] == with_metric(sorted, m)[0]
                    && sorted[k].metric == m && forall|q: int|
                    0 <= q < k ==> (#[trigger] sorted[q]).metric != m;
            assert(sorted[0].metric <= sorted[k].metric);
        }
        assert(is_preferred(list, i) && list[i] == sorted[0]);
    }
}

/// A route is among those of its metric.
proof fn lemma_kept(list: Seq<RouteView>, metric: u32, i: int)
    requires
        0 <= i < list.len(),
        list[i].metric == metric,
    ensures
        with_metric(list, metric).len() > 0,
    decreases list.len(),
{
    reveal(Seq::filter);
    let keep = |r: RouteView| r.metric == metric;
    assert(with_metric(list, metric) == list.filter(keep));
    if i < list.len() - 1 {
        lemma_kept(list.drop_last(), metric, i);
    }
}

/// The first of the routes of a metric is the first such route of the list.
proof fn lemma_kept_from(list: Seq<RouteView>, metric: u32)
    requires
        with_metric(list, metric).len() > 0,
    ensures
        exists|i: int|
            0 <= i < list.len() && #[trigger] list[i] == with_metric(list, metric)[0]
                && list[i].metric == metric && forall|j: int|
                0 <= j < i ==> (#[trigger] list[j]).metric != metric,
    decreases list.len(),
{
    reveal(Seq::filter);
    let keep = |r: RouteView| r.metric == metric;
    assert(with_metric(list, metric) == list.filter(keep));
    let rest = list.drop_last();
    if with_metric(rest, metric).len() > 0 {
        lemma_kept_from(rest, metric);
        let i = choose|i: int|
            0 <= i < rest.len() && #[trigger] rest[i] == with_metric(rest, metric)[0]
                && rest[i].metric == metric && forall|j: int|
                0 <= j < i ==> (#[trigger] rest[j]).metric != metric;
        assert(list[i] == rest[i]);
        assert(forall|j: int| 0 <= j < i ==> #[trigger] list[j] == rest[j]);
    } else {
        let i = list.len() - 1;
        assert forall|j: int| 0 <= j < i implies (#[trigger] list[j]).metric != metric by {
            if list[j].metric == metric {
                assert(rest[j] == list[j]);
                lemma_kept(rest, metric, j);
            }
        }
        assert(list[i] == with_metric(list, metric)[0]);
    }
}

/// The first route of a list is the first of its metric.
proof fn lemma_first_kept(list: Seq<RouteView>, metric: u32)
    requires
        list.len() > 0,
        list[0].metric == metric,
    ensures
        with_metric(list, metric).len() > 0,
        with_metric(list, metric)[0] == list[0],
{
    lemma_kept(list, metric, 0);
    lemma_kept_from(list, metric);
}

/// Every default route that lines show has a gateway.
proof fn lemma_gateways(lines: Seq<Seq<char>>)
    ensures
        forall|i: int|
            0 <= i < routes_of_lines(lines).len() ==> (#[trigger] routes_of_lines(
                lines,
            )[i]).gateway.bits != 0,
    decreases lines.len(),
{
    if lines.len() > 0 {
        lemma_gateways(lines.drop_last());
        let rest = routes_of_lines(lines.drop_last());
        let all = routes_of_lines(lines);
        assert forall|i: int| 0 <= i < all.len() implies (#[trigger] all[i]).gateway.bits != 0 by {
            if i < rest.len() {
                assert(all[i] == rest[i]);
            }
        }
    }
}

/// The physical default route that a table shows: the one with the smallest metric, and the first
/// of those. An error where no default route has a gateway.
pub fn get_physical_default_route(content: &str) -> (res: Result<PhysicalDefaultRoute, String>)
    ensures
        res is Ok <==> table_routes(content@).len() > 0,
        res matches Err(e) ==> e@ == PROC_NET_ROUTE@
            + " 中没有带网关的默认路由，无法确定物理出口"@,
        res matches Ok(route) ==> route.gateway.bits != 0,
        res matches Ok(route) ==> route.interface_index is None && exists|i: int| #[trigger]
            is_preferred(table_routes(content@), i) && table_routes(content@)[i].interface
                == route.interface@ && table_routes(content@)[i].gateway == route.gateway,
{
    let routes = parse_default_routes(content);
    proof {
        the_first_sorted_route_is_preferred(route_views(routes@), table_routes(content@));
        lemma_gateways(lines_of(content@).skip(1));
    }
    if routes.len() == 0 {
        return Err(
            join_two(PROC_NET_ROUTE, " 中没有带网关的默认路由，无法确定物理出口"),
        );
    }
    assert(route_views(routes@)[0] == routes@[0]@);
    Ok(
        PhysicalDefaultRoute {
            gateway: routes[0].gateway,
            interface: copy_text(routes[0].interface.as_str()),
            interface_index: None,
        },
    )
}

/// A host route to an address.
pub open spec fn host_prefix(target: Ipv4Addr) -> Seq<char> {
    ipv4_text(target) + "/32"@
}

/// The command that adds a host route.
pub fn add_host_route(target: Ipv4Addr, route: &PhysicalDefaultRoute) -> (cmd: RouteCommand)
    ensures
        cmd.runs(
            "ip"@,
            seq![
                "route"@,
                "add"@,
                host_prefix(target),
                "via"@,
                ipv4_text(route.gateway),
                "dev"@,
                route.interface@,
            ],
        ),
{
    let prefix = join_two(ipv4_to_text(target).as_str(), "/32");
    let gateway = ipv4_to_text(route.gateway);
    let args = args_of(
        &[
            "route",
            "add",
            prefix.as_str(),
            "via",
            gateway.as_str(),
            "dev",
            route.interface.as_str(),
        ],
    );
    proof {
        assert(texts(args@) =~= seq![
            "route"@,
            "add"@,
            host_prefix(target),
            "via"@,
            ipv4_text(route.gateway),
            "dev"@,
            route.interface@,
        ]);
    }
    RouteCommand { program: copy_text("ip"), args }
}

/// What came of adding a host route.
pub fn add_host_route_outcome(success: bool, stderr: &str) -> (res: Result<(), String>)
    ensures
        res is Ok <==> success || occurs(brief(stderr@), "File exists"@),
        res matches Err(e) ==> e@ == "ip route add 失败: "@ + brief(stderr@),
{
    add_outcome(success, "ip route add 失败: ", stderr)
}

/// The command that deletes a host route.
pub fn delete_host_route(target: Ipv4Addr) -> (cmd: RouteCommand)
    ensures
        cmd.runs("ip"@, seq!["route"@, "del"@, host_prefix(target)]),
{
    let prefix = join_two(ipv4_to_text(target).as_str(), "/32");
    let args = args_of(&["route", "del", prefix.as_str()]);
    assert(texts(args@) =~= seq!["route"@, "del"@, host_prefix(target)]);
    RouteCommand { program: copy_text("ip"), args }
}

/// What came of deleting a host route.
pub fn delete_host_route_outcome(success: bool, stderr: &str) -> (res: Result<(), String>)
    ensures
        res is Ok <==> success,
        res matches Err(e) ==> e@ == "ip route del 失败: "@ + brief(stderr@),
{
    command_outcome(success, "ip route del 失败: ", stderr)
}

/// Reversing the bytes puts the lowest first, and doing it twice changes nothing.
pub proof fn bytes_are_reversed(a: u8, b: u8, c: u8, d: u8)
    ensures
        bytes_reversed(Ipv4Addr::of_octets(a, b, c, d).bits) == Ipv4Addr::of_octets(d, c, b, a).bits,
{
    crate::net::addresses_hold_their_octets(a, b, c, d);
}

/// A field is read as a hexadecimal number whose lowest byte is the first octet; a field that is no
/// such number names no address.
pub proof fn fields_hold_the_last_octet_first(field: Seq<char>, a: u8, b: u8, c: u8, d: u8)
    ensures
        parsed_u32(field, 16) == Some(Ipv4Addr::of_octets(d, c, b, a).bits) ==> le_hex_ipv4(field)
            == Some(Ipv4Addr::of_octets(a, b, c, d)),
        parsed_u32(field, 16) is None <==> le_hex_ipv4(field) is None,
{
    bytes_are_reversed(d, c, b, a);
}

/// A line shows a default route exactly where it has seven fields, its second is all zeros, and its
/// third names a gateway other than 0.0.0.0. The interface is its first field and the metric its
/// seventh, or zero where that is no number.
pub proof fn what_a_line_shows(line: Seq<char>)
    ensures
        route_of_line(line) is Some <==> words_of(line).len() >= 7 && words_of(line)[1]
            == "00000000"@ && (le_hex_ipv4(words_of(line)[2]) matches Some(gateway) && gateway.bits
            != 0),
        route_of_line(line) matches Some(route) ==> {
            &&& route.interface == words_of(line)[0]
            &&& Some(route.gateway) == le_hex_ipv4(words_of(line)[2])
            &&& parsed_u32(words_of(line)[6], 10) matches Some(metric) ==> route.metric == metric
            &&& parsed_u32(words_of(line)[6], 10) is None ==> route.metric == 0
        },
{
}

/// The first line of a table is not read. Each line after it adds the route that it shows, at the end.
pub proof fn the_table_is_read_line_by_line(
    content: Seq<char>,
    lines: Seq<Seq<char>>,
    line: Seq<char>,
)
    ensures
        lines_of(content).len() <= 1 ==> table_routes(content).len() == 0,
        lines_of(content).len() > 1 ==> table_routes(content) == routes_of_lines(
            lines_of(content).subrange(1, lines_of(content).len() as int),
        ),
        route_of_line(line) matches Some(route) ==> routes_of_lines(lines.push(line))
            == routes_of_lines(lines).push(route),
        route_of_line(line) is None ==> routes_of_lines(lines.push(line)) == routes_of_lines(lines),
        routes_of_lines(Seq::empty()).len() == 0,
{
    assert(lines.push(line).drop_last() =~= lines);
    let all = lines_of(content);
    if all.len() > 0 {
        assert(all.skip(1) =~= all.subrange(1, all.len() as int));
    }
}

/// The preferred route has the smallest metric, and of several with that the first is preferred.
pub proof fn the_smallest_metric_is_preferred(list: Seq<RouteView>, i: int, j: int)
    requires
        is_preferred(list, i),
        0 <= j < list.len(),
    ensures
        0 <= i < list.len(),
        list[i].metric <= list[j].metric,
        list[i].metric == list[j].metric ==> i <= j,
{
}

/// Sorting keeps every route and puts none with a smaller metric behind one with a larger.
pub proof fn sorting_keeps_every_route(
    sorted: Seq<RouteView>,
    list: Seq<RouteView>,
    metric: u32,
    i: int,
    j: int,
)
    requires
        sorted_from(sorted, list),
        0 <= i < j < sorted.len(),
    ensures
        sorted[i].metric <= sorted[j].metric,
        sorted.filter(|r: RouteView| r.metric == metric) == list.filter(
            |r: RouteView| r.metric == metric,
        ),
{
    assert(with_metric(sorted, metric) == with_metric(list, metric));
}

/// A host route is one to a whole address, of 32 bits.
pub proof fn host_routes_have_32_bits(target: Ipv4Addr)
    ensures
        host_prefix(target) == ipv4_text(target) + seq!['/', '3', '2'],
{
    reveal_strlit("/32");
    assert("/32"@ =~= seq!['/', '3', '2']);
}

/// A route is shown as it is, and a list of routes one by one.
pub proof fn routes_are_shown_as_they_are(list: Seq<DefaultRoute>, i: int)
    requires
        0 <= i < list.len(),
    ensures
        list[i]@.interface == list[i].interface@,
        list[i]@.gateway == list[i].gateway,
        list[i]@.metric == list[i].metric,
        route_views(list).len() == list.len(),
        route_views(list)[i] == list[i]@,
        PROC_NET_ROUTE@ == "/proc/net/route"@,
{
}

} // verus!
