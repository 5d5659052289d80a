//! Which peers get a host route while a global route sends everything into the tunnel.
use crate::net::{IpAddr, Ipv4Addr, Ipv4Cidr};
use crate::peer_exclude::PhysicalDefaultRoute;
use crate::text::{copy_text, same_text};
use crate::url::{HostView, PeerUrl, UrlHost};
use vstd::prelude::*;

verus! {

/// One of the routes leads everywhere.
pub open spec fn leads_everywhere(routes: Seq<Ipv4Cidr>) -> bool {
    exists|i: int| 0 <= i < routes.len() && (#[trigger] routes[i]).prefix_len == 0
}

/// Whether one of the configured routes leads everywhere.
pub fn has_global_route(routes: &Option<Vec<Ipv4Cidr>>) -> (res: bool)
    ensures
        res == (routes matches Some(list) && leads_everywhere(list@)),
        res <==> (routes matches Some(list) && exists|i: int|
            0 <= i < list@.len() && (#[trigger] list@[i]).prefix_len == 0),
{
    match routes {
        None => false,
        Some(list) => {
            let mut i: usize = 0;
            while i < list.len()
                invariant
                    *routes == Some(*list),
                    i <= list@.len(),
                    forall|j: int| 0 <= j < i ==> (#[trigger] list@[j]).prefix_len != 0,
                decreases list@.len() - i,
            {
                if list[i].prefix_len == 0 {
                    assert(list@[i as int].prefix_len == 0);
                    return true;
                }
                i = i + 1;
            }
            false
        },
    }
}

/// The addresses are in strictly ascending order.
pub open spec fn ips_ascending(list: Seq<Ipv4Addr>) -> bool {
    forall|i: int, j: int| 0 <= i < j < list.len() ==> list[i].bits < list[j].bits
}

/// Puts an address into an ascending list, unless it is there.
fn insert_ip(list: &mut Vec<Ipv4Addr>, ip: Ipv4Addr)
    requires
        ips_ascending(old(list)@),
    ensures
        ips_ascending(final(list)@),
        forall|x: Ipv4Addr| #[trigger]
            final(list)@.contains(x) <==> old(list)@.contains(x) || x == ip,
{
    let ghost before = list@;
    let mut i: usize = 0;
    while i < list.len() && list[i].bits < ip.bits
        invariant
            i <= list@.len(),
            list@ == before,
            forall|j: int| 0 <= j < i ==> (#[trigger] list@[j]).bits < ip.bits,
        decreases list@.len() - i,
    {
        i = i + 1;
    }
    if i < list.len() && list[i].bits == ip.bits {
        assert(before[i as int] == ip);
        return;
    }
    list.insert(i, ip);
    proof {
        let after = list@;
        assert(after[i as int] == ip);
        assert forall|x: Ipv4Addr| before.contains(x) implies #[trigger] after.contains(x) by {
            let j = choose|j: int| 0 <= j < before.len() && before[j] == x;
            if j < i {
                assert(after[j] == x);
            } else {
                assert(after[j + 1] == x);
            }
        }
        assert forall|x: Ipv4Addr| #[trigger] after.contains(x) implies before.contains(x) || x
            == ip by {
            let j = choose|j: int| 0 <= j < after.len() && after[j] == x;
            if j < i {
                assert(before[j] == x);
            } else if j > i {
                assert(before[j - 1] == x);
            }
        }
        assert forall|p: int, q: int| 0 <= p < q < after.len() implies after[p].bits
            < after[q].bits by {
            if p < i && q > i {
                assert(before[p].bits < before[q - 1].bits);
            } else if p == i {
                assert(before[i as int].bits <= before[q - 1].bits);
            } else if q < i {
                assert(before[p].bits < before[q].bits);
            } else if p > i {
                assert(before[p - 1].bits < before[q - 1].bits);
            }
        }
    }
}

/// The addresses that a name was resolved to; none where it was not.
pub open spec fn resolved_to(resolved: Option<Vec<IpAddr>>, ip: Ipv4Addr) -> bool {
    resolved matches Some(addrs) && addrs@.contains(IpAddr::V4(ip))
}

/// `ip` is an address of the peer: its URL names it, or names a domain that was resolved to it.
pub open spec fn is_address_of(
    peer: PeerUrl,
    resolved: Option<Vec<IpAddr>>,
    ip: Ipv4Addr,
) -> bool {
    match peer@.host {
        Some(HostView::V4(own)) => own == ip,
        Some(HostView::Domain(_)) => resolved_to(resolved, ip),
        _ => false,
    }
}

/// `ip` is an address of one of the peers.
pub open spec fn is_target(
    peers: Seq<PeerUrl>,
    resolved: Seq<Option<Vec<IpAddr>>>,
    ip: Ipv4Addr,
) -> bool {
    exists|i: int| 0 <= i < peers.len() && is_address_of(#[trigger] peers[i], resolved[i], ip)
}

/// Puts the IPv4 addresses among `addrs` into an ascending list.
fn insert_resolved(list: &mut Vec<Ipv4Addr>, addrs: &Vec<IpAddr>)
    requires
        ips_ascending(old(list)@),
    ensures
        ips_ascending(final(list)@),
        forall|x: Ipv4Addr| #[trigger]
            final(list)@.contains(x) <==> old(list)@.contains(x) || addrs@.contains(IpAddr::V4(x)),
{
    let mut i: usize = 0;
    while i < addrs.len()
        invariant
            i <= addrs@.len(),
            ips_ascending(list@),
            forall|x: Ipv4Addr| #[trigger]
                list@.contains(x) <==> old(list)@.contains(x) || addrs@.take(i as int).contains(
                    IpAddr::V4(x),
                ),
        decreases addrs@.len() - i,
    {
        let ghost before = list@;
        match addrs[i] {
            IpAddr::V4(ip) => {
                insert_ip(list, ip);
            },
            IpAddr::V6(_) => {},
        }
        proof {
            let less = addrs@.take(i as int);
            let more = addrs@.take(i + 1);
            let last = addrs@[i as int];
            assert forall|x: Ipv4Addr| #[trigger] list@.contains(x) <==> old(list)@.contains(x)
                || more.contains(IpAddr::V4(x)) by {
                let y = IpAddr::V4(x);
                if less.contains(y) {
                    let j = choose|j: int| 0 <= j < less.len() && less[j] == y;
                    assert(more[j] == y);
                }
                if more.contains(y) {
                    let j = choose|j: int| 0 <= j < more.len() && more[j] == y;
                    if j < i {
                        assert(less[j] == y);
                    }
                }
                assert(more[i as int] == last);
                assert(before.contains(x) <==> old(list)@.contains(x) || less.contains(y));
            }
        }
        i = i + 1;
    }
    assert(addrs@.take(i as int) =~= addrs@);
}

/// The IPv4 addresses of the peers, each once, in ascending order. `resolved` holds for each peer
/// what its domain was resolved to.
pub fn collect_peer_ipv4_targets(
    peers: &Vec<PeerUrl>,
    resolved: &Vec<Option<Vec<IpAddr>>>,
) -> (targets: Vec<Ipv4Addr>)
    requires
        peers@.len() == resolved@.len(),
    ensures
        ips_ascending(targets@),
        forall|ip: Ipv4Addr| #[trigger]
            targets@.contains(ip) <==> is_target(peers@, resolved@, ip),
{
    let mut targets: Vec<Ipv4Addr> = Vec::new();
    let mut i: usize = 0;
    while i < peers.len()
        invariant
            i <= peers@.len(),
            peers@.len() == resolved@.len(),
            ips_ascending(targets@),
            forall|ip: Ipv4Addr| #[trigger]
                targets@.contains(ip) <==> is_target(
                    peers@.take(i as int),
                    resolved@.take(i as int),
                    ip,
                ),
        decreases peers@.len() - i,
    {
        let ghost before = targets@;
        match &peers[i].host {
            Some(UrlHost::V4(ip)) => {
                insert_ip(&mut targets, *ip);
            },
            Some(UrlHost::V6(_)) => {},
            Some(UrlHost::Domain(_)) => {
                match &resolved[i] {
                    Some(addrs) => {
                        insert_resolved(&mut targets, addrs);
                    },
                    None => {},
                }
            },
            None => {},
        }
        proof {
            let p0 = peers@.take(i as int);
            let p1 = peers@.take(i + 1);
            let r0 = resolved@.take(i as int);
            let r1 = resolved@.take(i + 1);
            assert forall|ip: Ipv4Addr| #[trigger] targets@.contains(ip) <==> is_target(
                p1,
                r1,
                ip,
            ) by {
                assert(before.contains(ip) <==> is_target(p0, r0, ip));
                if is_target(p0, r0, ip) {
                    let j = choose|j: int|
                        0 <= j < p0.len() && is_address_of(#[trigger] p0[j], r0[j], ip);
                    assert(is_address_of(p1[j], r1[j], ip));
                }
                if is_target(p1, r1, ip) {
                    let j = choose|j: int|
                        0 <= j < p1.len() && is_address_of(#[trigger] p1[j], r1[j], ip);
                    if j < i {
                        assert(is_address_of(p0[j], r0[j], ip));
                    }
                }
                assert(p1[i as int] == peers@[i as int] && r1[i as int] == resolved@[i as int]);
                assert(targets@.contains(ip) <==> before.contains(ip) || is_address_of(
                    p1[i as int],
                    r1[i as int],
                    ip,
                ));
            }
        }
        i = i + 1;
    }
    assert(peers@.take(i as int) =~= peers@);
    assert(resolved@.take(i as int) =~= resolved@);
    targets
}

/// What the installation of host routes does next.
#[derive(Clone, Copy, Debug, PartialEq, Eq, Structural)]
pub enum NextInstall {
    /// Nothing, and no route is in place.
    Skip,
    /// Resolve the peers, to know the targets.
    ResolvePeers,
    /// Remove what is on record: there is no target, so nothing of it is wanted any more.
    RemoveAll,
    /// Ask for the physical default route.
    AskDefaultRoute,
    /// Install the routes.
    Install,
}

/// What the installation does next. `targets` is none as long as the peers are not resolved, and
/// `route_found` as long as the physical default route was not asked for.
pub open spec fn install_goes_on(
    routes: Option<Vec<Ipv4Cidr>>,
    targets: Option<Vec<Ipv4Addr>>,
    route_found: Option<bool>,
) -> NextInstall {
    if !(routes matches Some(list) && leads_everywhere(list@)) {
        NextInstall::Skip
    } else {
        match targets {
            None => NextInstall::ResolvePeers,
            Some(targets) => if targets@.len() == 0 {
                NextInstall::RemoveAll
            } else {
                match route_found {
                    None => NextInstall::AskDefaultRoute,
                    Some(true) => NextInstall::Install,
                    Some(false) => NextInstall::Skip,
                }
            },
        }
    }
}

/// Decides what the installation of host routes does next: it is for a global route only, it needs
/// a target, and it needs a physical default route.
pub fn next_install(
    routes: &Option<Vec<Ipv4Cidr>>,
    targets: &Option<Vec<Ipv4Addr>>,
    route_found: Option<bool>,
) -> (next: NextInstall)
    ensures
        next == install_goes_on(*routes, *targets, route_found),
{
    if !has_global_route(routes) {
        return NextInstall::Skip;
    }
    match targets {
        None => NextInstall::ResolvePeers,
        Some(targets) => {
            if targets.len() == 0 {
                return NextInstall::RemoveAll;
            }
            match route_found {
                None => NextInstall::AskDefaultRoute,
                Some(found) => {
                    if found {
                        NextInstall::Install
                    } else {
                        NextInstall::Skip
                    }
                },
            }
        },
    }
}

/// A host route that was installed.
#[derive(Debug)]
pub struct InstalledRoute {
    pub target: Ipv4Addr,
    pub gateway: Ipv4Addr,
    pub interface: String,
}

/// A host route, over sequences.
#[verifier::ext_equal]
pub ghost struct RouteRecord {
    pub target: Ipv4Addr,
    pub gateway: Ipv4Addr,
    pub interface: Seq<char>,
}

impl View for InstalledRoute {
    type V = RouteRecord;

    open spec fn view(&self) -> RouteRecord {
        RouteRecord { target: self.target, gateway: self.gateway, interface: self.interface@ }
    }
}

/// A step towards the wanted routes.
#[derive(Clone, Copy, Debug, PartialEq, Eq, Structural)]
pub struct InstallStep {
    pub target: Ipv4Addr,
    /// A route that leads elsewhere has to be deleted first.
    pub replace: bool,
}

/// What has to be done to get to the wanted routes.
#[derive(Debug)]
pub struct SyncPlan {
    /// The targets of routes that are not wanted any more, to be deleted.
    pub obsolete: Vec<Ipv4Addr>,
    /// The routes to add.
    pub install: Vec<InstallStep>,
    /// How many routes are there already.
    pub reused: usize,
}

/// The host routes that this process installed.
#[derive(Debug)]
pub struct ExcludeRoutes {
    pub installed: Vec<InstalledRoute>,
}

impl View for ExcludeRoutes {
    type V = Seq<RouteRecord>;

    open spec fn view(&self) -> Seq<RouteRecord> {
        Seq::new(self.installed@.len(), |i: int| self.installed@[i]@)
    }
}

/// The targets of routes, in their order.
pub open spec fn targets_of(routes: Seq<RouteRecord>) -> Seq<Ipv4Addr> {
    Seq::new(routes.len(), |i: int| routes[i].target)
}

/// The routes lead to different targets.
pub open spec fn distinct_targets(routes: Seq<RouteRecord>) -> bool {
    forall|i: int, j: int|
        0 <= i < j < routes.len() ==> (#[trigger] routes[i]).target != (#[trigger] routes[j]).target
}

/// A route to `target` is on record.
pub open spec fn has_route(routes: Seq<RouteRecord>, target: Ipv4Addr) -> bool {
    exists|i: int| 0 <= i < routes.len() && (#[trigger] routes[i]).target == target
}

/// The route is wanted and leads the way that it should.
pub open spec fn is_current(
    route: RouteRecord,
    targets: Seq<Ipv4Addr>,
    gateway: Ipv4Addr,
    interface: Seq<char>,
) -> bool {
    targets.contains(route.target) && route.gateway == gateway && route.interface == interface
}

/// The routes that stay.
pub open spec fn current_routes(
    routes: Seq<RouteRecord>,
    targets: Seq<Ipv4Addr>,
    gateway: Ipv4Addr,
    interface: Seq<char>,
) -> Seq<RouteRecord> {
    routes.filter(|r: RouteRecord| is_current(r, targets, gateway, interface))
}

/// The routes that are not wanted any more.
pub open spec fn obsolete_routes(routes: Seq<RouteRecord>, targets: Seq<Ipv4Addr>) -> Seq<
    RouteRecord,
> {
    routes.filter(|r: RouteRecord| !targets.contains(r.target))
}

/// What has to be added for one target: nothing where its route stays.
pub open spec fn step_for(
    target: Ipv4Addr,
    routes: Seq<RouteRecord>,
    current: Seq<RouteRecord>,
) -> Option<InstallStep> {
    if has_route(current, target) {
        None
    } else {
        Some(InstallStep { target, replace: has_route(routes, target) })
    }
}

/// What has to be added for the targets, in their order.
pub open spec fn steps_for(
    targets: Seq<Ipv4Addr>,
    routes: Seq<RouteRecord>,
    current: Seq<RouteRecord>,
) -> Seq<InstallStep>
    decreases targets.len(),
{
    if targets.len() == 0 {
        Seq::empty()
    } else {
        let rest = steps_for(targets.drop_last(), routes, current);
        match step_for(targets.last(), routes, current) {
            Some(step) => rest.push(step),
            None => rest,
        }
    }
}

/// Whether an address is in a list.
fn contains_ip(list: &Vec<Ipv4Addr>, ip: Ipv4Addr) -> (res: bool)
    ensures
        res == list@.contains(ip),
{
    let mut i: usize = 0;
    while i < list.len()
        invariant
            i <= list@.len(),
            forall|j: int| 0 <= j < i ==> list@[j] != ip,
        decreases list@.len() - i,
    {
        if list[i].bits == ip.bits {
            assert(list@[i as int] == ip);
            return true;
        }
        i = i + 1;
    }
    false
}

impl ExcludeRoutes {
    /// No routes.
    pub fn new() -> (res: ExcludeRoutes)
        ensures
            res@ == Seq::<RouteRecord>::empty(),
            distinct_targets(res@),
    {
        let res = ExcludeRoutes { installed: Vec::new() };
        assert(res@ =~= Seq::<RouteRecord>::empty());
        res
    }

    /// Whether a route to `target` is on record.
    pub fn has_target(&self, target: Ipv4Addr) -> (res: bool)
        ensures
            res == has_route(self@, target),
    {
        let mut i: usize = 0;
        while i < self.installed.len()
            invariant
                i <= self.installed@.len(),
                forall|j: int| 0 <= j < i ==> (#[trigger] self@[j]).target != target,
            decreases self.installed@.len() - i,
        {
            assert(self@[i as int] == self.installed@[i as int]@);
            if self.installed[i].target.bits == target.bits {
                assert(self@[i as int].target == target);
                return true;
            }
            i = i + 1;
        }
        false
    }

    /// Takes the routes that do not stay off the record, and plans what has to be done: delete
    /// those that are not wanted any more, replace those that lead elsewhere, add the rest.
    pub fn install_peer_exclude_routes(
        &mut self,
        targets: &Vec<Ipv4Addr>,
        route: &PhysicalDefaultRoute,
    ) -> (plan: SyncPlan)
        requires
            distinct_targets(old(self)@),
            ips_ascending(targets@),
        ensures
            distinct_targets(final(self)@),
            final(self)@ == current_routes(
                old(self)@,
                targets@,
                route.gateway,
                route.interface@,
            ),
            plan.obsolete@ == targets_of(obsolete_routes(old(self)@, targets@)),
            plan.install@ == steps_for(targets@, old(self)@, final(self)@),
            plan.reused == targets@.len() - plan.install@.len(),
    {
        let mut before = ExcludeRoutes { installed: Vec::new() };
        std::mem::swap(&mut self.installed, &mut before.installed);
        let ghost all = before@;
        let ghost stay = |r: RouteRecord| is_current(r, targets@, route.gateway, route.interface@);
        let ghost gone = |r: RouteRecord| !targets@.contains(r.target);
        let mut obsolete: Vec<Ipv4Addr> = Vec::new();
        let mut i: usize = 0;
        proof {
            reveal(Seq::filter);
            assert(all =~= old(self)@);
            assert(self@ =~= all.take(0).filter(stay));
            assert(all.take(0).filter(gone).len() == 0);
        }
        while i < before.installed.len()
            invariant
                i <= before.installed@.len(),
                all == before@,
                stay == (|r: RouteRecord|
                    is_current(r, targets@, route.gateway, route.interface@)),
                gone == (|r: RouteRecord| !targets@.contains(r.target)),
                self@ == all.take(i as int).filter(stay),
                obsolete@.len() == all.take(i as int).filter(gone).len(),
                forall|j: int|
                    0 <= j < obsolete@.len() ==> #[trigger] obsolete@[j] == all.take(
                        i as int,
                    ).filter(gone)[j].target,
            decreases before.installed@.len() - i,
        {
            let old_route = &before.installed[i];
            let ghost record = all[i as int];
            let ghost self0 = self@;
            proof {
                reveal(Seq::filter);
                assert(record == before.installed@[i as int]@);
                assert(all.take(i + 1).drop_last() =~= all.take(i as int));
                assert(all.take(i + 1).last() == record);
            }
            if !contains_ip(targets, old_route.target) {
                obsolete.push(old_route.target);
            } else if old_route.gateway.bits == route.gateway.bits && same_text(
                old_route.interface.as_str(),
                route.interface.as_str(),
            ) {
                self.installed.push(
                    InstalledRoute {
                        target: old_route.target,
                        gateway: old_route.gateway,
                        interface: copy_text(old_route.interface.as_str()),
                    },
                );
                assert(self@ =~= self0.push(record));
            }
            i = i + 1;
        }
        assert(all.take(i as int) =~= all);
        let mut install: Vec<InstallStep> = Vec::new();
        let mut reused: usize = 0;
        let ghost current = self@;
        let mut k: usize = 0;
        assert(targets@.take(0) =~= Seq::empty());
        while k < targets.len()
            invariant
                k <= targets@.len(),
                all == before@,
                current == self@,
                install@ == steps_for(targets@.take(k as int), all, current),
                reused == k - install@.len(),
                install@.len() <= k,
            decreases targets@.len() - k,
        {
            let target = targets[k];
            proof {
                assert(targets@.take(k + 1).drop_last() =~= targets@.take(k as int));
                assert(targets@.take(k + 1).last() == target);
            }
            if self.has_target(target) {
                reused = reused + 1;
            } else {
                install.push(InstallStep { target, replace: before.has_target(target) });
            }
            k = k + 1;
        }
        proof {
            assert(targets@.take(k as int) =~= targets@);
            lemma_current_distinct(all, stay);
        }
        SyncPlan { obsolete, install, reused }
    }

    /// A step was carried out: `added` says whether its route was added. Gives how many routes are in
    /// place, `count` of which were so before.
    pub fn note_step(
        &mut self,
        step: &InstallStep,
        added: bool,
        route: &PhysicalDefaultRoute,
        count: usize,
    ) -> (now_in_place: usize)
        requires
            distinct_targets(old(self)@),
            !has_route(old(self)@, step.target),
            count < usize::MAX,
        ensures
            distinct_targets(final(self)@),
            final(self)@ == after_step(old(self)@, *step, added, route.gateway, route.interface@),
            now_in_place == count + (if added {
                1int
            } else {
                0int
            }),
    {
        if added {
            self.note_installed(step.target, route);
            count + 1
        } else {
            count
        }
    }

    /// The route for `target` was added.
    pub fn note_installed(&mut self, target: Ipv4Addr, route: &PhysicalDefaultRoute)
        requires
            distinct_targets(old(self)@),
            !has_route(old(self)@, target),
        ensures
            distinct_targets(final(self)@),
            final(self)@ == old(self)@.push(
                RouteRecord { target, gateway: route.gateway, interface: route.interface@ },
            ),
    {
        let ghost before = self@;
        self.installed.push(
            InstalledRoute {
                target,
                gateway: route.gateway,
                interface: copy_text(route.interface.as_str()),
            },
        );
        proof {
            let record = RouteRecord {
                target,
                gateway: route.gateway,
                interface: route.interface@,
            };
            assert(self@ =~= before.push(record));
            assert forall|i: int, j: int| 0 <= i < j < self@.len() implies (
            #[trigger] self@[i]).target != (#[trigger] self@[j]).target by {
                if j == before.len() {
                    assert(before[i].target != target);
                }
            }
        }
    }

    /// The route for one of the targets to remove was deleted, or could not be. Gives how many were
    /// deleted, `count` of them before.
    pub fn note_removed(deleted: bool, count: usize) -> (now_removed: usize)
        requires
            count < usize::MAX,
        ensures
            now_removed == count + (if deleted {
                1int
            } else {
                0int
            }),
    {
        if deleted {
            count + 1
        } else {
            count
        }
    }

    /// Takes every route off the record, whether it can be deleted or not, and gives the targets to
    /// delete the routes of, in the order of the record.
    pub fn remove_peer_exclude_routes(&mut self) -> (targets: Vec<Ipv4Addr>)
        ensures
            final(self)@ == Seq::<RouteRecord>::empty(),
            targets@ == targets_of(old(self)@),
    {
        let mut targets: Vec<Ipv4Addr> = Vec::new();
        let mut i: usize = 0;
        while i < self.installed.len()
            invariant
                i <= self.installed@.len(),
                self@ == old(self)@,
                targets@.len() == i,
                forall|j: int| 0 <= j < i ==> #[trigger] targets@[j] == self@[j].target,
            decreases self.installed@.len() - i,
        {
            assert(self@[i as int] == self.installed@[i as int]@);
            targets.push(self.installed[i].target);
            i = i + 1;
        }
        self.installed = Vec::new();
        assert(self@ =~= Seq::<RouteRecord>::empty());
        targets
    }
}

/// What is kept of routes with different targets has different targets.
proof fn lemma_current_distinct(routes: Seq<RouteRecord>, keep: spec_fn(RouteRecord) -> bool)
    requires
        distinct_targets(routes),
    ensures
        distinct_targets(routes.filter(keep)),
        forall|r: RouteRecord| #[trigger]
            routes.filter(keep).contains(r) ==> routes.contains(r) && keep(r),
    decreases routes.len(),
{
    reveal(Seq::filter);
    if routes.len() > 0 {
        let rest = routes.drop_last();
        assert(distinct_targets(rest)) by {
            assert forall|i: int, j: int| 0 <= i < j < rest.len() implies (
            #[trigger] rest[i]).target != (#[trigger] rest[j]).target by {
                assert(routes[i].target != routes[j].target);
            }
        }
        lemma_current_distinct(rest, keep);
        let kept = rest.filter(keep);
        assert forall|r: RouteRecord| rest.contains(r) implies routes.contains(r) && r.target
            != routes.last().target by {
            let i = choose|i: int| 0 <= i < rest.len() && rest[i] == r;
            assert(routes[i] == r);
            assert(routes[i].target != routes[routes.len() - 1].target);
        }
        assert(routes.contains(routes.last())) by {
            assert(routes[routes.len() - 1] == routes.last());
        }
        if keep(routes.last()) {
            let after = kept.push(routes.last());
            assert(routes.filter(keep) == after);
            assert forall|i: int, j: int| 0 <= i < j < after.len() implies (
            #[trigger] after[i]).target != (#[trigger] after[j]).target by {
                assert(kept.contains(kept[i]));
                if j < kept.len() {
                    assert(kept[i].target != kept[j].target);
                }
            }
            assert forall|r: RouteRecord| #[trigger] after.contains(r) implies routes.contains(r)
                && keep(r) by {
                let i = choose|i: int| 0 <= i < after.len() && after[i] == r;
                if i < kept.len() {
                    assert(kept.contains(r));
                }
            }
        }
    }
}

/// The record of a route that a step adds.
pub open spec fn record_of(
    step: InstallStep,
    gateway: Ipv4Addr,
    interface: Seq<char>,
) -> RouteRecord {
    RouteRecord { target: step.target, gateway, interface }
}

/// The record after every step was carried out.
pub open spec fn all_installed(
    current: Seq<RouteRecord>,
    steps: Seq<InstallStep>,
    gateway: Ipv4Addr,
    interface: Seq<char>,
) -> Seq<RouteRecord> {
    current + Seq::new(steps.len(), |i: int| record_of(steps[i], gateway, interface))
}

/// The record after one step: a route that was added is on record.
pub open spec fn after_step(
    routes: Seq<RouteRecord>,
    step: InstallStep,
    added: bool,
    gateway: Ipv4Addr,
    interface: Seq<char>,
) -> Seq<RouteRecord> {
    if added {
        routes.push(record_of(step, gateway, interface))
    } else {
        routes
    }
}

/// The record after the first `n` steps, where `added` says of each whether its route was added.
pub open spec fn after_steps(
    current: Seq<RouteRecord>,
    steps: Seq<InstallStep>,
    added: Seq<bool>,
    gateway: Ipv4Addr,
    interface: Seq<char>,
    n: int,
) -> Seq<RouteRecord>
    decreases n,
{
    if n <= 0 {
        current
    } else {
        after_step(
            after_steps(current, steps, added, gateway, interface, n - 1),
            steps[n - 1],
            added[n - 1],
            gateway,
            interface,
        )
    }
}

/// How many of the first `n` steps succeeded.
pub open spec fn successes(added: Seq<bool>, n: int) -> int
    decreases n,
{
    if n <= 0 {
        0
    } else {
        successes(added, n - 1) + (if added[n - 1] {
            1int
        } else {
            0int
        })
    }
}

/// A step that succeeded leads to `target`.
pub open spec fn was_added(
    steps: Seq<InstallStep>,
    added: Seq<bool>,
    n: int,
    target: Ipv4Addr,
) -> bool {
    exists|i: int| 0 <= i < n && (#[trigger] steps[i]).target == target && added[i]
}

/// What the record holds after the first `n` steps.
proof fn lemma_after_steps(
    current: Seq<RouteRecord>,
    steps: Seq<InstallStep>,
    added: Seq<bool>,
    gateway: Ipv4Addr,
    interface: Seq<char>,
    n: int,
)
    requires
        0 <= n <= steps.len(),
        distinct_targets(current),
        forall|i: int| 0 <= i < steps.len() ==> !has_route(current, (#[trigger] steps[i]).target),
        forall|i: int, j: int|
            0 <= i < j < steps.len() ==> (#[trigger] steps[i]).target != (
            #[trigger] steps[j]).target,
    ensures
        ({
            let after = after_steps(current, steps, added, gateway, interface, n);
            &&& distinct_targets(after)
            &&& after.len() == current.len() + successes(added, n)
            &&& forall|t: Ipv4Addr| #[trigger]
                has_route(after, t) <==> has_route(current, t) || was_added(steps, added, n, t)
            &&& forall|r: RouteRecord| #[trigger]
                after.contains(r) ==> current.contains(r) || r.gateway == gateway && r.interface
                    == interface && was_added(steps, added, n, r.target)
        }),
    decreases n,
{
    if n > 0 {
        let rest = after_steps(current, steps, added, gateway, interface, n - 1);
        let after = after_steps(current, steps, added, gateway, interface, n);
        let step = steps[n - 1];
        lemma_after_steps(current, steps, added, gateway, interface, n - 1);
        assert forall|t: Ipv4Addr| was_added(steps, added, n, t) <==> #[trigger] was_added(
            steps,
            added,
            n - 1,
            t,
        ) || added[n - 1] && step.target == t by {
            if was_added(steps, added, n - 1, t) {
                let i = choose|i: int|
                    0 <= i < n - 1 && (#[trigger] steps[i]).target == t && added[i];
                assert(steps[i].target == t);
            }
            if added[n - 1] && step.target == t {
                assert(steps[n - 1].target == t);
            }
        }
        if added[n - 1] {
            let record = record_of(step, gateway, interface);
            assert(!has_route(rest, step.target)) by {
                if was_added(steps, added, n - 1, step.target) {
                    let i = choose|i: int|
                        0 <= i < n - 1 && (#[trigger] steps[i]).target == step.target && added[i];
                    assert(steps[i].target != steps[n - 1].target);
                }
            }
            assert forall|i: int, j: int| 0 <= i < j < after.len() implies (
            #[trigger] after[i]).target != (#[trigger] after[j]).target by {
                assert(after[i] == rest[i]);
                if j < rest.len() {
                    assert(rest[i].target != rest[j].target);
                }
            }
            assert forall|t: Ipv4Addr| #[trigger] has_route(after, t) <==> has_route(current, t)
                || was_added(steps, added, n, t) by {
                assert(was_added(steps, added, n, t) <==> was_added(steps, added, n - 1, t)
                    || step.target == t);
                if has_route(rest, t) {
                    let i = choose|i: int| 0 <= i < rest.len() && (#[trigger] rest[i]).target == t;
                    assert(after[i].target == t);
                }
                if step.target == t {
                    assert(after[rest.len() as int].target == t);
                }
                if has_route(after, t) {
                    let i = choose|i: int|
                        0 <= i < after.len() && (#[trigger] after[i]).target == t;
                    if i < rest.len() {
                        assert(rest[i].target == t);
                    }
                }
            }
            assert forall|r: RouteRecord| #[trigger] after.contains(r) implies current.contains(r)
                || r.gateway == gateway && r.interface == interface && was_added(
                steps,
                added,
                n,
                r.target,
            ) by {
                let i = choose|i: int| 0 <= i < after.len() && after[i] == r;
                if i < rest.len() {
                    assert(rest.contains(rest[i]));
                    assert(was_added(steps, added, n - 1, r.target) ==> was_added(
                        steps,
                        added,
                        n,
                        r.target,
                    ));
                } else {
                    assert(r == record);
                    assert(steps[n - 1].target == r.target);
                }
            }
        } else {
            assert forall|t: Ipv4Addr| #[trigger] has_route(after, t) <==> has_route(current, t)
                || was_added(steps, added, n, t) by {
                assert(was_added(steps, added, n, t) <==> was_added(steps, added, n - 1, t));
            }
            assert forall|r: RouteRecord| #[trigger] after.contains(r) implies current.contains(r)
                || r.gateway == gateway && r.interface == interface && was_added(
                steps,
                added,
                n,
                r.target,
            ) by {
                assert(rest.contains(r));
                assert(was_added(steps, added, n, r.target) <==> was_added(
                    steps,
                    added,
                    n - 1,
                    r.target,
                ));
            }
        }
    } else {
        assert forall|t: Ipv4Addr| !(#[trigger] was_added(steps, added, 0, t)) by {}
    }
}

/// The steps lead to different targets without a route that stays, and there is one for each target
/// that has none.
proof fn lemma_steps_apart(
    targets: Seq<Ipv4Addr>,
    routes: Seq<RouteRecord>,
    current: Seq<RouteRecord>,
)
    requires
        targets.no_duplicates(),
    ensures
        ({
            let steps = steps_for(targets, routes, current);
            &&& forall|i: int|
                0 <= i < steps.len() ==> !has_route(current, (#[trigger] steps[i]).target)
            &&& forall|i: int, j: int|
                0 <= i < j < steps.len() ==> (#[trigger] steps[i]).target != (
                #[trigger] steps[j]).target
            &&& steps.len() + targets.filter(|t: Ipv4Addr| has_route(current, t)).len()
                == targets.len()
        }),
    decreases targets.len(),
{
    reveal(Seq::filter);
    if targets.len() > 0 {
        let rest = targets.drop_last();
        let steps0 = steps_for(rest, routes, current);
        let steps = steps_for(targets, routes, current);
        lemma_steps_apart(rest, routes, current);
        lemma_steps(rest, routes, current);
        assert forall|i: int| 0 <= i < steps.len() implies !has_route(
            current,
            (#[trigger] steps[i]).target,
        ) by {
            if i < steps0.len() {
                assert(steps[i] == steps0[i]);
            }
        }
        assert forall|i: int, j: int| 0 <= i < j < steps.len() implies (
        #[trigger] steps[i]).target != (#[trigger] steps[j]).target by {
            assert(steps[i] == steps0[i]);
            if j < steps0.len() {
                assert(steps[j] == steps0[j]);
            } else {
                assert(rest.contains(steps0[i].target));
                let k = choose|k: int| 0 <= k < rest.len() && rest[k] == steps0[i].target;
                assert(targets[k] != targets[targets.len() - 1]);
            }
        }
    }
}

/// As many routes stay as there are targets without a step.
proof fn lemma_reused(
    targets: Seq<Ipv4Addr>,
    current: Seq<RouteRecord>,
)
    requires
        targets.no_duplicates(),
        distinct_targets(current),
        forall|i: int| 0 <= i < current.len() ==> targets.contains((#[trigger] current[i]).target),
    ensures
        targets.filter(|t: Ipv4Addr| has_route(current, t)).len() == current.len(),
{
    let keep = |t: Ipv4Addr| has_route(current, t);
    let covered = targets.filter(keep);
    let there = Seq::new(current.len(), |i: int| current[i].target);
    lemma_kept_targets(targets, keep);
    assert(there.no_duplicates()) by {
        assert forall|i: int, j: int| 0 <= i < there.len() && 0 <= j < there.len() && i
            != j implies there[i] != there[j] by {
            if i < j {
                assert(current[i].target != current[j].target);
            } else {
                assert(current[j].target != current[i].target);
            }
        }
    }
    assert(covered.to_set() =~= there.to_set()) by {
        assert forall|t: Ipv4Addr| covered.contains(t) <==> there.contains(t) by {
            if there.contains(t) {
                let i = choose|i: int| 0 <= i < there.len() && there[i] == t;
                assert(current[i].target == t);
                assert(targets.contains(current[i].target));
            }
            if covered.contains(t) {
                let i = choose|i: int| 0 <= i < current.len() && (#[trigger] current[i]).target == t;
                assert(there[i] == t);
            }
        }
    }
    covered.unique_seq_to_set();
    there.unique_seq_to_set();
}

/// What is kept of different targets are those that pass, each once.
proof fn lemma_kept_targets(targets: Seq<Ipv4Addr>, keep: spec_fn(Ipv4Addr) -> bool)
    requires
        targets.no_duplicates(),
    ensures
        targets.filter(keep).no_duplicates(),
        forall|t: Ipv4Addr| #[trigger]
            targets.filter(keep).contains(t) <==> targets.contains(t) && keep(t),
    decreases targets.len(),
{
    reveal(Seq::filter);
    if targets.len() > 0 {
        let rest = targets.drop_last();
        let last = targets.last();
        lemma_kept_targets(rest, keep);
        let kept = rest.filter(keep);
        let all = targets.filter(keep);
        assert forall|t: Ipv4Addr| targets.contains(t) <==> #[trigger] rest.contains(t) || t
            == last by {
            if targets.contains(t) {
                let i = choose|i: int| 0 <= i < targets.len() && targets[i] == t;
                if i < rest.len() {
                    assert(rest[i] == t);
                }
            }
            if rest.contains(t) {
                let i = choose|i: int| 0 <= i < rest.len() && rest[i] == t;
                assert(targets[i] == t);
            }
            if t == last {
                assert(targets[targets.len() - 1] == t);
            }
        }
        assert(!rest.contains(last)) by {
            if rest.contains(last) {
                let i = choose|i: int| 0 <= i < rest.len() && rest[i] == last;
                assert(targets[i] != targets[targets.len() - 1]);
            }
        }
        if keep(last) {
            assert(all == kept.push(last));
            assert forall|t: Ipv4Addr| #[trigger] all.contains(t) <==> targets.contains(t) && keep(
                t,
            ) by {
                assert(targets.contains(t) <==> rest.contains(t) || t == last);
                if all.contains(t) {
                    let i = choose|i: int| 0 <= i < all.len() && all[i] == t;
                    if i < kept.len() {
                        assert(kept.contains(kept[i]));
                    }
                }
                if kept.contains(t) {
                    let i = choose|i: int| 0 <= i < kept.len() && kept[i] == t;
                    assert(all[i] == t);
                }
                if t == last {
                    assert(all[kept.len() as int] == t);
                }
            }
            assert forall|i: int, j: int| 0 <= i < all.len() && 0 <= j < all.len() && i
                != j implies all[i] != all[j] by {
                if i < kept.len() {
                    assert(kept.contains(kept[i]));
                }
                if j < kept.len() {
                    assert(kept.contains(kept[j]));
                }
            }
        } else {
            assert forall|t: Ipv4Addr| #[trigger] all.contains(t) <==> targets.contains(t) && keep(
                t,
            ) by {
                assert(targets.contains(t) <==> rest.contains(t) || t == last);
                assert(kept.contains(t) <==> rest.contains(t) && keep(t));
            }
        }
    }
}

/// However many additions fail, the record holds exactly the targets whose route stayed and those
/// whose route was added, each once and with the way out that it leads through. The routes in place
/// are as many as the record holds.
pub proof fn the_record_holds_what_is_in_place(
    routes: Seq<RouteRecord>,
    targets: Seq<Ipv4Addr>,
    gateway: Ipv4Addr,
    interface: Seq<char>,
    added: Seq<bool>,
)
    requires
        distinct_targets(routes),
        ips_ascending(targets),
    ensures
        ({
            let current = current_routes(routes, targets, gateway, interface);
            let steps = steps_for(targets, routes, current);
            let n = steps.len() as int;
            let after = after_steps(current, steps, added, gateway, interface, n);
            &&& distinct_targets(after)
            &&& forall|r: RouteRecord| #[trigger]
                after.contains(r) ==> is_current(r, targets, gateway, interface)
            &&& forall|t: Ipv4Addr| #[trigger]
                has_route(after, t) <==> has_route(current, t) || was_added(steps, added, n, t)
            &&& after.len() == targets.len() - steps.len() + successes(added, n)
        }),
{
    let stay = |r: RouteRecord| is_current(r, targets, gateway, interface);
    let current = current_routes(routes, targets, gateway, interface);
    let steps = steps_for(targets, routes, current);
    let n = steps.len() as int;
    let after = after_steps(current, steps, added, gateway, interface, n);
    assert(targets.no_duplicates());
    lemma_current_distinct(routes, stay);
    lemma_steps(targets, routes, current);
    lemma_steps_apart(targets, routes, current);
    lemma_after_steps(current, steps, added, gateway, interface, n);
    assert forall|i: int| 0 <= i < current.len() implies targets.contains(
        (#[trigger] current[i]).target,
    ) by {
        assert(current.contains(current[i]));
    }
    lemma_reused(targets, current);
    assert forall|r: RouteRecord| #[trigger] after.contains(r) implies is_current(
        r,
        targets,
        gateway,
        interface,
    ) by {
        if !current.contains(r) {
            let i = choose|i: int| 0 <= i < n && (#[trigger] steps[i]).target == r.target
                && added[i];
            assert(targets.contains(steps[i].target));
        }
    }
}

/// The number of routes that were removed: none where no deletion succeeds, all where each does, and
/// never more. Each target is deleted once, and a second removal has nothing to delete.
pub proof fn removals_are_counted(routes: Seq<RouteRecord>, deleted: Seq<bool>, n: int)
    requires
        distinct_targets(routes),
        0 <= n <= routes.len(),
        deleted.len() == routes.len(),
    ensures
        targets_of(routes).no_duplicates(),
        0 <= successes(deleted, n) <= n,
        (forall|i: int| 0 <= i < n ==> deleted[i]) ==> successes(deleted, n) == n,
        (forall|i: int| 0 <= i < n ==> !deleted[i]) ==> successes(deleted, n) == 0,
        targets_of(Seq::<RouteRecord>::empty()) == Seq::<Ipv4Addr>::empty(),
        successes(deleted, 0) == 0,
    decreases n,
{
    let targets = targets_of(routes);
    assert forall|i: int, j: int| 0 <= i < targets.len() && 0 <= j < targets.len() && i
        != j implies targets[i] != targets[j] by {
        if i < j {
            assert(routes[i].target != routes[j].target);
        } else {
            assert(routes[j].target != routes[i].target);
        }
    }
    assert(targets_of(Seq::<RouteRecord>::empty()) =~= Seq::<Ipv4Addr>::empty());
    if n > 0 {
        removals_are_counted(routes, deleted, n - 1);
    }
}

/// Without a target no route stays: all of them are obsolete, whatever the way out is.
pub proof fn without_targets_no_route_stays(
    routes: Seq<RouteRecord>,
    gateway: Ipv4Addr,
    interface: Seq<char>,
)
    ensures
        current_routes(routes, Seq::empty(), gateway, interface) == Seq::<RouteRecord>::empty(),
        obsolete_routes(routes, Seq::empty()) == routes,
{
    let none = Seq::<Ipv4Addr>::empty();
    lemma_filter_all_or_none(routes, |r: RouteRecord| is_current(r, none, gateway, interface));
    lemma_filter_all_or_none(routes, |r: RouteRecord| !none.contains(r.target));
}

/// Each target has its route or a step that adds it, and a step adds a route to a target.
proof fn lemma_steps(targets: Seq<Ipv4Addr>, routes: Seq<RouteRecord>, current: Seq<RouteRecord>)
    ensures
        forall|t: Ipv4Addr| #[trigger]
            targets.contains(t) && !has_route(current, t) ==> exists|i: int|
                0 <= i < steps_for(targets, routes, current).len() && (
                #[trigger] steps_for(targets, routes, current)[i]).target == t,
        forall|i: int|
            0 <= i < steps_for(targets, routes, current).len() ==> targets.contains(
                (#[trigger] steps_for(targets, routes, current)[i]).target,
            ),
    decreases targets.len(),
{
    if targets.len() > 0 {
        let rest = targets.drop_last();
        let steps0 = steps_for(rest, routes, current);
        let steps = steps_for(targets, routes, current);
        lemma_steps(rest, routes, current);
        assert forall|t: Ipv4Addr| #[trigger]
            targets.contains(t) && !has_route(current, t) implies exists|i: int|
            0 <= i < steps.len() && (#[trigger] steps[i]).target == t by {
            if rest.contains(t) {
                let i = choose|i: int| 0 <= i < steps0.len() && (#[trigger] steps0[i]).target == t;
                assert(steps[i] == steps0[i]);
            } else {
                let j = choose|j: int| 0 <= j < targets.len() && targets[j] == t;
                if j < targets.len() - 1 {
                    assert(rest[j] == t);
                }
                assert(steps[steps0.len() as int].target == t);
            }
        }
        assert forall|i: int| 0 <= i < steps.len() implies targets.contains(
            (#[trigger] steps[i]).target,
        ) by {
            if i < steps0.len() {
                assert(steps[i] == steps0[i]);
                assert(rest.contains(steps0[i].target));
                let j = choose|j: int| 0 <= j < rest.len() && rest[j] == steps0[i].target;
                assert(targets[j] == steps0[i].target);
            } else {
                assert(targets[targets.len() - 1] == steps[i].target);
            }
        }
    }
}

/// A filter that everything passes changes nothing, and one that nothing passes leaves nothing.
proof fn lemma_filter_all_or_none<A>(list: Seq<A>, keep: spec_fn(A) -> bool)
    ensures
        (forall|i: int| 0 <= i < list.len() ==> keep(#[trigger] list[i])) ==> list.filter(keep)
            == list,
        (forall|i: int| 0 <= i < list.len() ==> !keep(#[trigger] list[i])) ==> list.filter(keep)
            == Seq::<A>::empty(),
    decreases list.len(),
{
    reveal(Seq::filter);
    if list.len() > 0 {
        let rest = list.drop_last();
        lemma_filter_all_or_none(rest, keep);
        if forall|i: int| 0 <= i < list.len() ==> keep(#[trigger] list[i]) {
            assert(forall|i: int| 0 <= i < rest.len() ==> #[trigger] rest[i] == list[i]);
            assert(list.filter(keep) =~= list);
        }
        if forall|i: int| 0 <= i < list.len() ==> !keep(#[trigger] list[i]) {
            assert(forall|i: int| 0 <= i < rest.len() ==> #[trigger] rest[i] == list[i]);
            assert(list.filter(keep) =~= Seq::<A>::empty());
        }
    } else {
        assert(list.filter(keep) =~= list);
        assert(list.filter(keep) =~= Seq::<A>::empty());
    }
}

/// No steps are needed where every target has its route.
proof fn lemma_no_steps(targets: Seq<Ipv4Addr>, routes: Seq<RouteRecord>, current: Seq<RouteRecord>)
    requires
        forall|t: Ipv4Addr| #[trigger] targets.contains(t) ==> has_route(current, t),
    ensures
        steps_for(targets, routes, current) == Seq::<InstallStep>::empty(),
    decreases targets.len(),
{
    if targets.len() > 0 {
        let rest = targets.drop_last();
        assert(targets.contains(targets[targets.len() - 1]));
        assert forall|t: Ipv4Addr| #[trigger] rest.contains(t) implies has_route(current, t) by {
            let j = choose|j: int| 0 <= j < rest.len() && rest[j] == t;
            assert(targets[j] == t);
            assert(targets.contains(t));
        }
        lemma_no_steps(rest, routes, current);
    }
}

/// Only wanted routes stay, and they lead the way that they should.
pub proof fn only_wanted_routes_stay(
    routes: Seq<RouteRecord>,
    targets: Seq<Ipv4Addr>,
    gateway: Ipv4Addr,
    interface: Seq<char>,
)
    requires
        distinct_targets(routes),
    ensures
        forall|r: RouteRecord| #[trigger]
            current_routes(routes, targets, gateway, interface).contains(r) ==> is_current(
                r,
                targets,
                gateway,
                interface,
            ),
{
    lemma_current_distinct(
        routes,
        |r: RouteRecord| is_current(r, targets, gateway, interface),
    );
}

/// Installing again changes nothing: after every step was carried out, each target has its route,
/// every route stays, nothing is obsolete and no step is left.
pub proof fn installing_twice_changes_nothing(
    routes: Seq<RouteRecord>,
    targets: Seq<Ipv4Addr>,
    gateway: Ipv4Addr,
    interface: Seq<char>,
)
    requires
        distinct_targets(routes),
    ensures
        ({
            let current = current_routes(routes, targets, gateway, interface);
            let steps = steps_for(targets, routes, current);
            let after = all_installed(current, steps, gateway, interface);
            &&& forall|t: Ipv4Addr| #[trigger] targets.contains(t) ==> has_route(after, t)
            &&& current_routes(after, targets, gateway, interface) == after
            &&& obsolete_routes(after, targets) == Seq::<RouteRecord>::empty()
            &&& steps_for(targets, after, after) == Seq::<InstallStep>::empty()
        }),
{
    let stay = |r: RouteRecord| is_current(r, targets, gateway, interface);
    let gone = |r: RouteRecord| !targets.contains(r.target);
    let current = current_routes(routes, targets, gateway, interface);
    let steps = steps_for(targets, routes, current);
    let added = Seq::new(steps.len(), |i: int| record_of(steps[i], gateway, interface));
    let after = all_installed(current, steps, gateway, interface);
    lemma_current_distinct(routes, stay);
    lemma_steps(targets, routes, current);
    assert forall|i: int| 0 <= i < after.len() implies stay(#[trigger] after[i]) by {
        if i < current.len() {
            assert(current.contains(current[i]));
        } else {
            assert(after[i] == record_of(steps[i - current.len()], gateway, interface));
        }
    }
    assert forall|i: int| 0 <= i < after.len() implies !gone(#[trigger] after[i]) by {
        assert(stay(after[i]));
    }
    lemma_filter_all_or_none(after, stay);
    lemma_filter_all_or_none(after, gone);
    assert forall|t: Ipv4Addr| #[trigger] targets.contains(t) implies has_route(after, t) by {
        if has_route(current, t) {
            let i = choose|i: int| 0 <= i < current.len() && (#[trigger] current[i]).target == t;
            assert(after[i] == current[i]);
        } else {
            let i = choose|i: int| 0 <= i < steps.len() && (#[trigger] steps[i]).target == t;
            assert(after[current.len() + i].target == t);
        }
    }
    lemma_no_steps(targets, after, after);
}

/// A list of routes leads everywhere exactly where one of them has a prefix of no bits.
pub proof fn a_prefix_of_no_bits_leads_everywhere(routes: Seq<Ipv4Cidr>, more: Ipv4Cidr)
    ensures
        leads_everywhere(routes.push(more)) <==> leads_everywhere(routes) || more.prefix_len == 0,
        !leads_everywhere(Seq::empty()),
{
    let all = routes.push(more);
    if leads_everywhere(routes) {
        let i = choose|i: int| 0 <= i < routes.len() && (#[trigger] routes[i]).prefix_len == 0;
        assert(all[i].prefix_len == 0);
    }
    assert(all[routes.len() as int] == more);
    if leads_everywhere(all) && more.prefix_len != 0 {
        let i = choose|i: int| 0 <= i < all.len() && (#[trigger] all[i]).prefix_len == 0;
        assert(routes[i].prefix_len == 0);
    }
}

/// The addresses of a peer, by what its URL names: an IPv4 address is its only one, whatever else was
/// resolved; a domain has the IPv4 addresses that it was resolved to; an IPv6 address and no host at
/// all have none.
pub proof fn addresses_of_a_peer(
    peer: PeerUrl,
    resolved: Option<Vec<IpAddr>>,
    ip: Ipv4Addr,
)
    ensures
        peer.host matches Some(UrlHost::V4(own)) ==> (is_address_of(peer, resolved, ip) <==> own
            == ip),
        peer.host matches Some(UrlHost::Domain(_)) ==> (is_address_of(peer, resolved, ip) <==> (
        resolved matches Some(addrs) && addrs@.contains(IpAddr::V4(ip)))),
        peer.host matches Some(UrlHost::V6(_)) ==> !is_address_of(peer, resolved, ip),
        peer.host is None ==> !is_address_of(peer, resolved, ip),
{
}

/// The targets are the addresses of all peers: one peer more adds its own and takes none away.
pub proof fn one_peer_more_adds_its_addresses(
    peers: Seq<PeerUrl>,
    resolved: Seq<Option<Vec<IpAddr>>>,
    peer: PeerUrl,
    found: Option<Vec<IpAddr>>,
    ip: Ipv4Addr,
)
    requires
        peers.len() == resolved.len(),
    ensures
        is_target(peers.push(peer), resolved.push(found), ip) <==> is_target(peers, resolved, ip)
            || is_address_of(peer, found, ip),
        !is_target(Seq::empty(), Seq::empty(), ip),
{
    let p = peers.push(peer);
    let r = resolved.push(found);
    let n = peers.len() as int;
    if is_target(peers, resolved, ip) {
        let i = choose|i: int|
            0 <= i < peers.len() && is_address_of(#[trigger] peers[i], resolved[i], ip);
        assert(is_address_of(p[i], r[i], ip));
    }
    assert(p[n] == peer && r[n] == found);
    if is_target(p, r, ip) {
        let i = choose|i: int| 0 <= i < p.len() && is_address_of(#[trigger] p[i], r[i], ip);
        if i < n {
            assert(is_address_of(peers[i], resolved[i], ip));
        }
    }
}

/// Routes are installed only where a route leads everywhere, there is a target, and the physical way
/// out was found. What is not known yet is asked for, the targets first. Without a target everything is
/// removed, whatever the way out is.
pub proof fn what_an_installation_needs(
    routes: Option<Vec<Ipv4Cidr>>,
    targets: Option<Vec<Ipv4Addr>>,
    route_found: Option<bool>,
)
    ensures
        ({
            let next = install_goes_on(routes, targets, route_found);
            let global = routes matches Some(list) && exists|i: int|
                0 <= i < list@.len() && (#[trigger] list@[i]).prefix_len == 0;
            &&& !global ==> next == NextInstall::Skip
            &&& global && targets is None ==> next == NextInstall::ResolvePeers
            &&& global && (targets matches Some(list) && list@.len() == 0) ==> next
                == NextInstall::RemoveAll
            &&& global && (targets matches Some(list) && list@.len() > 0) ==> {
                &&& route_found is None ==> next == NextInstall::AskDefaultRoute
                &&& route_found == Some(true) ==> next == NextInstall::Install
                &&& route_found == Some(false) ==> next == NextInstall::Skip
            }
        }),
{
}

/// A route on record is what was installed, part by part, and its target is listed in its place.
pub proof fn records_are_what_was_installed(route: InstalledRoute, routes: Seq<RouteRecord>, i: int)
    requires
        0 <= i < routes.len(),
    ensures
        route@.target == route.target,
        route@.gateway == route.gateway,
        route@.interface == route.interface@,
        targets_of(routes).len() == routes.len(),
        targets_of(routes)[i] == routes[i].target,
        has_route(routes, routes[i].target),
{
}

/// Which routes stay: those to a target that lead through the wanted gateway and interface. A route
/// with another gateway, another interface or to something else does not. They keep their order.
pub proof fn which_routes_stay(
    routes: Seq<RouteRecord>,
    route: RouteRecord,
    targets: Seq<Ipv4Addr>,
    gateway: Ipv4Addr,
    interface: Seq<char>,
)
    ensures
        ({
            let wanted = targets.contains(route.target) && route.gateway == gateway
                && route.interface == interface;
            let before = current_routes(routes, targets, gateway, interface);
            let after = current_routes(routes.push(route), targets, gateway, interface);
            &&& wanted ==> after == before.push(route)
            &&& !wanted ==> after == before
        }),
        current_routes(Seq::empty(), targets, gateway, interface) == Seq::<RouteRecord>::empty(),
{
    reveal(Seq::filter);
    assert(routes.push(route).drop_last() =~= routes);
}

/// Which routes are obsolete: those to something that is no target, and no others. They keep their
/// order.
pub proof fn which_routes_are_obsolete(
    routes: Seq<RouteRecord>,
    route: RouteRecord,
    targets: Seq<Ipv4Addr>,
)
    ensures
        !targets.contains(route.target) ==> obsolete_routes(routes.push(route), targets)
            == obsolete_routes(routes, targets).push(route),
        targets.contains(route.target) ==> obsolete_routes(routes.push(route), targets)
            == obsolete_routes(routes, targets),
        obsolete_routes(Seq::empty(), targets) == Seq::<RouteRecord>::empty(),
{
    reveal(Seq::filter);
    assert(routes.push(route).drop_last() =~= routes);
}

/// One target more adds a step at the end exactly where no route to it stays. The step replaces a
/// route exactly where there was one.
pub proof fn a_target_without_a_route_gets_a_step(
    targets: Seq<Ipv4Addr>,
    target: Ipv4Addr,
    routes: Seq<RouteRecord>,
    current: Seq<RouteRecord>,
)
    ensures
        ({
            let stays = exists|i: int|
                0 <= i < current.len() && (#[trigger] current[i]).target == target;
            let there = exists|i: int|
                0 <= i < routes.len() && (#[trigger] routes[i]).target == target;
            let before = steps_for(targets, routes, current);
            let after = steps_for(targets.push(target), routes, current);
            &&& stays ==> after == before
            &&& !stays ==> after == before.push(InstallStep { target, replace: there })
        }),
        steps_for(Seq::empty(), routes, current) == Seq::<InstallStep>::empty(),
{
    assert(targets.push(target).drop_last() =~= targets);
}

/// A route that was added is put on record behind the others, with its target and the way out; one
/// that could not be added leaves the record as it is.
pub proof fn only_added_routes_are_put_on_record(
    routes: Seq<RouteRecord>,
    step: InstallStep,
    gateway: Ipv4Addr,
    interface: Seq<char>,
)
    ensures
        after_step(routes, step, false, gateway, interface) == routes,
        after_step(routes, step, true, gateway, interface).len() == routes.len() + 1,
        after_step(routes, step, true, gateway, interface).drop_last() == routes,
        after_step(routes, step, true, gateway, interface).last().target == step.target,
        after_step(routes, step, true, gateway, interface).last().gateway == gateway,
        after_step(routes, step, true, gateway, interface).last().interface == interface,
{
    assert(after_step(routes, step, true, gateway, interface).drop_last() =~= routes);
}

/// The routes on record lead to different targets.
pub proof fn what_different_targets_means(routes: Seq<RouteRecord>, i: int, j: int)
    requires
        distinct_targets(routes),
        0 <= i < routes.len(),
        0 <= j < routes.len(),
    ensures
        routes[i].target == routes[j].target ==> i == j,
{
    if i < j {
        assert(routes[i].target != routes[j].target);
    } else if j < i {
        assert(routes[j].target != routes[i].target);
    }
}

/// A target has a route exactly where one on record leads to it.
pub proof fn when_a_target_has_a_route(
    routes: Seq<RouteRecord>,
    route: RouteRecord,
    target: Ipv4Addr,
)
    ensures
        has_route(routes.push(route), target) <==> has_route(routes, target) || route.target == target,
        !has_route(Seq::empty(), target),
{
    let all = routes.push(route);
    if has_route(routes, target) {
        let i = choose|i: int| 0 <= i < routes.len() && (#[trigger] routes[i]).target == target;
        assert(all[i].target == target);
    }
    assert(all[routes.len() as int] == route);
    if has_route(all, target) {
        let i = choose|i: int| 0 <= i < all.len() && (#[trigger] all[i]).target == target;
        if i < routes.len() {
            assert(routes[i].target == target);
        }
    }
}

/// The addresses of an ascending list grow from one to the next.
pub proof fn what_ascending_addresses_are(list: Seq<Ipv4Addr>, i: int, j: int)
    requires
        ips_ascending(list),
        0 <= i < j < list.len(),
    ensures
        list[i].bits < list[j].bits,
{
}

/// Only a route that was deleted is counted, and it counts once.
pub proof fn deleted_routes_are_counted(count: usize, deleted: usize, kept: usize)
    requires
        count < usize::MAX,
        call_ensures(ExcludeRoutes::note_removed, (true, count), deleted),
        call_ensures(ExcludeRoutes::note_removed, (false, count), kept),
    ensures
        kept == count,
        deleted == kept + 1,
{
}

} // verus!
