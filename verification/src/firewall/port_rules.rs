//! Rules for the ports of an exit node.
use crate::digits::{decimal, decimal_text};
use crate::scan::{at_most, take_chars, words, words_of};
use crate::text::{
    args_of, ascii_lowercased, chars_of, contains_text, copy_text, join_two, lossy_text, lower_is, push_text,
    texts, utf8_lossy,
};
use crate::url::{PeerUrl, UrlView};
use vstd::prelude::*;

verus! {

/// The port of the control connections where none is configured.
pub const DEFAULT_CTRL_PORT: u16 = 11010;

/// The port of the WireGuard tunnel where none is configured.
pub const DEFAULT_WG_PORT: u16 = 11011;

/// What a port is for.
#[derive(Clone, Copy, Debug, PartialEq, Eq, Structural)]
pub enum RuleKind {
    /// The WireGuard tunnel.
    Wg,
    /// The control connections.
    Ctrl,
}

/// A port to let in.
#[derive(Clone, Copy, Debug, PartialEq, Eq, Structural)]
pub struct PortFirewallRule {
    pub is_udp: bool,
    pub port: u16,
    pub kind: RuleKind,
}

/// The rule that a listener asks for: only control connections and the WireGuard tunnel get one,
/// with their usual port where the URL has none.
pub open spec fn rule_of(url: UrlView) -> Option<PortFirewallRule> {
    let scheme = ascii_lowercased(url.scheme);
    if scheme == "tcp"@ {
        Some(
            PortFirewallRule {
                is_udp: false,
                port: url.port.unwrap_or(DEFAULT_CTRL_PORT),
                kind: RuleKind::Ctrl,
            },
        )
    } else if scheme == "udp"@ {
        Some(
            PortFirewallRule {
                is_udp: true,
                port: url.port.unwrap_or(DEFAULT_CTRL_PORT),
                kind: RuleKind::Ctrl,
            },
        )
    } else if scheme == "wg"@ {
        Some(
            PortFirewallRule {
                is_udp: true,
                port: url.port.unwrap_or(DEFAULT_WG_PORT),
                kind: RuleKind::Wg,
            },
        )
    } else {
        None
    }
}

/// The rule that a listener asks for.
pub fn listener_url_to_port_rule(uri: &PeerUrl) -> (res: Option<PortFirewallRule>)
    ensures
        res == rule_of(uri@),
{
    let scheme = uri.scheme.as_str();
    let (is_udp, kind, default_port): (bool, RuleKind, u16) = if lower_is(scheme, "tcp") {
        (false, RuleKind::Ctrl, DEFAULT_CTRL_PORT)
    } else if lower_is(scheme, "udp") {
        (true, RuleKind::Ctrl, DEFAULT_CTRL_PORT)
    } else if lower_is(scheme, "wg") {
        (true, RuleKind::Wg, DEFAULT_WG_PORT)
    } else {
        return None;
    };
    let port: u16 = match uri.port {
        Some(port) => port,
        None => default_port,
    };
    Some(PortFirewallRule { is_udp, port, kind })
}

/// A rule for the port is there.
pub open spec fn lets_in(rules: Seq<PortFirewallRule>, is_udp: bool, port: u16) -> bool {
    exists|i: int|
        0 <= i < rules.len() && (#[trigger] rules[i]).is_udp == is_udp && rules[i].port == port
}

/// The rules with one more, unless its port is let in already.
pub open spec fn with_rule(rules: Seq<PortFirewallRule>, rule: PortFirewallRule) -> Seq<
    PortFirewallRule,
> {
    if lets_in(rules, rule.is_udp, rule.port) {
        rules
    } else {
        rules.push(rule)
    }
}

/// What the URLs of a list are.
pub open spec fn url_views(list: Seq<PeerUrl>) -> Seq<UrlView> {
    Seq::new(list.len(), |i: int| list[i]@)
}

/// The rules that the listeners ask for, each port once, in their order.
pub open spec fn configured_rules(urls: Seq<UrlView>) -> Seq<PortFirewallRule>
    decreases urls.len(),
{
    if urls.len() == 0 {
        Seq::empty()
    } else {
        let rest = configured_rules(urls.drop_last());
        match rule_of(urls.last()) {
            Some(rule) => with_rule(rest, rule),
            None => rest,
        }
    }
}

/// A listener asks for a rule of this kind.
pub open spec fn asks_for(urls: Seq<UrlView>, kind: RuleKind) -> bool {
    exists|i: int|
        0 <= i < urls.len() && (rule_of(#[trigger] urls[i]) matches Some(rule) && rule.kind == kind)
}

/// The rules of an exit node: those that its listeners ask for, and the usual ports of a kind that
/// none of them asks for.
pub open spec fn exit_node_rules(urls: Seq<UrlView>) -> Seq<PortFirewallRule> {
    let configured = configured_rules(urls);
    let with_wg = if asks_for(urls, RuleKind::Wg) {
        configured
    } else {
        with_rule(
            configured,
            PortFirewallRule { is_udp: true, port: DEFAULT_WG_PORT, kind: RuleKind::Wg },
        )
    };
    if asks_for(urls, RuleKind::Ctrl) {
        with_wg
    } else {
        with_rule(
            with_rule(
                with_wg,
                PortFirewallRule { is_udp: true, port: DEFAULT_CTRL_PORT, kind: RuleKind::Ctrl },
            ),
            PortFirewallRule { is_udp: false, port: DEFAULT_CTRL_PORT, kind: RuleKind::Ctrl },
        )
    }
}

/// Adds a rule, unless its port is let in already.
fn add_rule(rules: &mut Vec<PortFirewallRule>, rule: PortFirewallRule)
    ensures
        final(rules)@ == with_rule(old(rules)@, rule),
{
    let mut i: usize = 0;
    while i < rules.len()
        invariant
            i <= rules@.len(),
            rules@ == old(rules)@,
            forall|j: int|
                0 <= j < i ==> !((#[trigger] rules@[j]).is_udp == rule.is_udp && rules@[j].port
                    == rule.port),
        decreases rules@.len() - i,
    {
        if rules[i].is_udp == rule.is_udp && rules[i].port == rule.port {
            assert(rules@[i as int].is_udp == rule.is_udp);
            return;
        }
        i = i + 1;
    }
    rules.push(rule);
}

/// The ports that an exit node lets in, each once.
pub fn collect_exit_node_port_rules(listener_uris: &Vec<PeerUrl>) -> (rules: Vec<PortFirewallRule>)
    ensures
        rules@ == exit_node_rules(url_views(listener_uris@)),
{
    let ghost urls = url_views(listener_uris@);
    let mut rules: Vec<PortFirewallRule> = Vec::new();
    let mut has_wg = false;
    let mut has_ctrl = false;
    let mut i: usize = 0;
    assert(urls.take(0) =~= Seq::empty());
    while i < listener_uris.len()
        invariant
            i <= listener_uris@.len(),
            urls == url_views(listener_uris@),
            rules@ == configured_rules(urls.take(i as int)),
            has_wg == asks_for(urls.take(i as int), RuleKind::Wg),
            has_ctrl == asks_for(urls.take(i as int), RuleKind::Ctrl),
        decreases listener_uris@.len() - i,
    {
        let ghost less = urls.take(i as int);
        let ghost more = urls.take(i + 1);
        proof {
            assert(more.drop_last() =~= less);
            assert(more.last() == listener_uris@[i as int]@);
            lemma_asks_for_one_more(urls, i as int, RuleKind::Wg);
            lemma_asks_for_one_more(urls, i as int, RuleKind::Ctrl);
        }
        match listener_url_to_port_rule(&listener_uris[i]) {
            None => {},
            Some(rule) => {
                match rule.kind {
                    RuleKind::Wg => {
                        has_wg = true;
                    },
                    RuleKind::Ctrl => {
                        has_ctrl = true;
                    },
                }
                add_rule(&mut rules, rule);
            },
        }
        i = i + 1;
    }
    assert(urls.take(i as int) =~= urls);
    if !has_wg {
        add_rule(
            &mut rules,
            PortFirewallRule { is_udp: true, port: DEFAULT_WG_PORT, kind: RuleKind::Wg },
        );
    }
    if !has_ctrl {
        add_rule(
            &mut rules,
            PortFirewallRule { is_udp: true, port: DEFAULT_CTRL_PORT, kind: RuleKind::Ctrl },
        );
        add_rule(
            &mut rules,
            PortFirewallRule { is_udp: false, port: DEFAULT_CTRL_PORT, kind: RuleKind::Ctrl },
        );
    }
    rules
}

/// What one listener more asks for.
proof fn lemma_asks_for_one_more(urls: Seq<UrlView>, n: int, kind: RuleKind)
    requires
        0 <= n < urls.len(),
    ensures
        asks_for(urls.take(n + 1), kind) == (asks_for(urls.take(n), kind) || (rule_of(urls[n]) matches Some(
            rule,
        ) && rule.kind == kind)),
{
    let less = urls.take(n);
    let more = urls.take(n + 1);
    assert(more[n] == urls[n]);
    if asks_for(less, kind) {
        let i = choose|i: int|
            0 <= i < less.len() && (rule_of(#[trigger] less[i]) matches Some(rule) && rule.kind
                == kind);
        assert(more[i] == less[i]);
    }
    if asks_for(more, kind) {
        let i = choose|i: int|
            0 <= i < more.len() && (rule_of(#[trigger] more[i]) matches Some(rule) && rule.kind
                == kind);
        if i < n {
            assert(less[i] == more[i]);
        }
    }
}

/// No port is let in twice.
pub open spec fn ports_differ(rules: Seq<PortFirewallRule>) -> bool {
    forall|i: int, j: int|
        0 <= i < j < rules.len() ==> (#[trigger] rules[i]).is_udp != (#[trigger] rules[j]).is_udp
            || rules[i].port != rules[j].port
}

/// One rule more keeps the ports apart, and closes no port.
proof fn lemma_with_rule(rules: Seq<PortFirewallRule>, rule: PortFirewallRule)
    requires
        ports_differ(rules),
    ensures
        ports_differ(with_rule(rules, rule)),
        lets_in(with_rule(rules, rule), rule.is_udp, rule.port),
        forall|udp: bool, port: u16|
            lets_in(rules, udp, port) ==> #[trigger] lets_in(with_rule(rules, rule), udp, port),
{
    let after = with_rule(rules, rule);
    if !lets_in(rules, rule.is_udp, rule.port) {
        assert(after[rules.len() as int] == rule);
        assert forall|udp: bool, port: u16| lets_in(rules, udp, port) implies #[trigger] lets_in(
            after,
            udp,
            port,
        ) by {
            let i = choose|i: int|
                0 <= i < rules.len() && (#[trigger] rules[i]).is_udp == udp && rules[i].port
                    == port;
            assert(after[i] == rules[i]);
        }
        assert forall|i: int, j: int| 0 <= i < j < after.len() implies (
        #[trigger] after[i]).is_udp != (#[trigger] after[j]).is_udp || after[i].port
            != after[j].port by {
            if j < rules.len() {
                assert(rules[i].is_udp != rules[j].is_udp || rules[i].port != rules[j].port);
            } else {
                assert(after[i] == rules[i]);
            }
        }
    }
}

/// The rules of the listeners keep the ports apart and let every listener's port in.
proof fn lemma_configured(urls: Seq<UrlView>)
    ensures
        ports_differ(configured_rules(urls)),
        forall|i: int| #![trigger urls[i]]
            0 <= i < urls.len() ==> (rule_of(urls[i]) matches Some(rule) ==> lets_in(
                configured_rules(urls),
                rule.is_udp,
                rule.port,
            )),
    decreases urls.len(),
{
    if urls.len() > 0 {
        let rest = urls.drop_last();
        lemma_configured(rest);
        if let Some(rule) = rule_of(urls.last()) {
            lemma_with_rule(configured_rules(rest), rule);
        }
        assert forall|i: int| #![trigger urls[i]] 0 <= i < urls.len() implies (rule_of(
            urls[i],
        ) matches Some(rule) ==> lets_in(configured_rules(urls), rule.is_udp, rule.port)) by {
            if i < rest.len() {
                assert(rest[i] == urls[i]);
            }
        }
    }
}

/// An exit node lets in the port of every control and WireGuard listener, and no port twice.
pub proof fn every_listener_is_let_in(urls: Seq<UrlView>, i: int, rule: PortFirewallRule)
    requires
        0 <= i < urls.len(),
        rule_of(urls[i]) == Some(rule),
    ensures
        ports_differ(exit_node_rules(urls)),
        lets_in(exit_node_rules(urls), rule.is_udp, rule.port),
{
    lemma_exit_node_rules(urls);
    lemma_configured(urls);
}

/// Without a listener of a kind an exit node lets in the usual ports of that kind.
pub proof fn missing_listeners_get_the_usual_ports(urls: Seq<UrlView>)
    ensures
        ports_differ(exit_node_rules(urls)),
        !asks_for(urls, RuleKind::Wg) ==> lets_in(exit_node_rules(urls), true, DEFAULT_WG_PORT),
        !asks_for(urls, RuleKind::Ctrl) ==> lets_in(exit_node_rules(urls), true, DEFAULT_CTRL_PORT)
            && lets_in(exit_node_rules(urls), false, DEFAULT_CTRL_PORT),
{
    lemma_exit_node_rules(urls);
}

/// The usual ports keep the ports apart and close none.
proof fn lemma_exit_node_rules(urls: Seq<UrlView>)
    ensures
        ports_differ(exit_node_rules(urls)),
        forall|udp: bool, port: u16|
            lets_in(configured_rules(urls), udp, port) ==> #[trigger] lets_in(
                exit_node_rules(urls),
                udp,
                port,
            ),
        !asks_for(urls, RuleKind::Wg) ==> lets_in(exit_node_rules(urls), true, DEFAULT_WG_PORT),
        !asks_for(urls, RuleKind::Ctrl) ==> lets_in(exit_node_rules(urls), true, DEFAULT_CTRL_PORT)
            && lets_in(exit_node_rules(urls), false, DEFAULT_CTRL_PORT),
{
    let wg = PortFirewallRule { is_udp: true, port: DEFAULT_WG_PORT, kind: RuleKind::Wg };
    let udp = PortFirewallRule { is_udp: true, port: DEFAULT_CTRL_PORT, kind: RuleKind::Ctrl };
    let tcp = PortFirewallRule { is_udp: false, port: DEFAULT_CTRL_PORT, kind: RuleKind::Ctrl };
    let configured = configured_rules(urls);
    lemma_configured(urls);
    lemma_with_rule(configured, wg);
    let with_wg = if asks_for(urls, RuleKind::Wg) {
        configured
    } else {
        with_rule(configured, wg)
    };
    lemma_with_rule(with_wg, udp);
    lemma_with_rule(with_rule(with_wg, udp), tcp);
}

/// The character of a hexadecimal digit, in lower case.
pub open spec fn hex_digit(d: int) -> char {
    if d == 10 {
        'a'
    } else if d == 11 {
        'b'
    } else if d == 12 {
        'c'
    } else if d == 13 {
        'd'
    } else if d == 14 {
        'e'
    } else if d == 15 {
        'f'
    } else {
        crate::digits::digit(d)
    }
}

/// The last `width` hexadecimal digits of a number.
pub open spec fn hex_digits(n: nat, width: nat) -> Seq<char>
    decreases width,
{
    if width == 0 {
        Seq::empty()
    } else {
        hex_digits(n / 16, (width - 1) as nat).push(hex_digit((n % 16) as int))
    }
}

/// A UUID as text: 32 hexadecimal digits in groups of 8, 4, 4, 4 and 12.
pub open spec fn uuid_text(id: u128) -> Seq<char> {
    let hex = hex_digits(id as nat, 32);
    hex.subrange(0, 8) + seq!['-'] + hex.subrange(8, 12) + seq!['-'] + hex.subrange(12, 16)
        + seq!['-'] + hex.subrange(16, 20) + seq!['-'] + hex.subrange(20, 32)
}

/// `uuid::Uuid::from_u128` and its `to_string`. Claimed: the result is the UUID in lower case, its
/// groups parted by hyphens.
#[verifier::external_body]
fn uuid_to_text(id: u128) -> (s: String)
    ensures
        s@ == uuid_text(id),
{
    uuid::Uuid::from_u128(id).to_string()
}

/// A text without hyphens.
pub open spec fn without_hyphens(s: Seq<char>) -> Seq<char> {
    s.filter(|c: char| c != '-')
}

/// Takes the hyphens out of a text.
pub fn remove_hyphens(s: &str) -> (res: String)
    ensures
        res@ == without_hyphens(s@),
{
    let v = chars_of(s);
    let keep: Ghost<spec_fn(char) -> bool> = Ghost(|c: char| c != '-');
    let mut res = String::new();
    let mut i: usize = 0;
    proof {
        reveal(Seq::filter);
        assert(v@.take(0).filter(keep@) =~= Seq::empty());
    }
    while i < v.len()
        invariant
            i <= v@.len(),
            keep@ == (|c: char| c != '-'),
            res@ == v@.take(i as int).filter(keep@),
        decreases v@.len() - i,
    {
        proof {
            reveal(Seq::filter);
            assert(v@.take(i + 1).drop_last() =~= v@.take(i as int));
        }
        if v[i] != '-' {
            res.push(v[i]);
        }
        i = i + 1;
    }
    assert(v@.take(i as int) =~= v@);
    res
}

/// Hexadecimal digits are no hyphens.
proof fn lemma_hex_digits(n: nat, width: nat)
    ensures
        hex_digits(n, width).len() == width,
        forall|i: int| 0 <= i < width ==> #[trigger] hex_digits(n, width)[i] != '-',
    decreases width,
{
    if width > 0 {
        lemma_hex_digits(n / 16, (width - 1) as nat);
    }
}

/// A text without hyphens stays as it is.
proof fn lemma_no_hyphens(s: Seq<char>)
    requires
        forall|i: int| 0 <= i < s.len() ==> #[trigger] s[i] != '-',
    ensures
        without_hyphens(s) == s,
    decreases s.len(),
{
    reveal(Seq::filter);
    if s.len() > 0 {
        lemma_no_hyphens(s.drop_last());
        assert(s.drop_last().push(s.last()) =~= s);
    }
}

/// Without its hyphens a UUID is its hexadecimal digits.
pub proof fn a_uuid_without_hyphens_is_its_digits(id: u128)
    ensures
        without_hyphens(uuid_text(id)) == hex_digits(id as nat, 32),
{
    let keep = |c: char| c != '-';
    let hex = hex_digits(id as nat, 32);
    lemma_hex_digits(id as nat, 32);
    let a = hex.subrange(0, 8);
    let b = hex.subrange(8, 12);
    let c = hex.subrange(12, 16);
    let d = hex.subrange(16, 20);
    let e = hex.subrange(20, 32);
    let h = seq!['-'];
    lemma_no_hyphens(a);
    lemma_no_hyphens(b);
    lemma_no_hyphens(c);
    lemma_no_hyphens(d);
    lemma_no_hyphens(e);
    assert(h.filter(keep) =~= Seq::empty()) by {
        reveal(Seq::filter);
        assert(h.drop_last() =~= Seq::empty());
        assert(h.drop_last().filter(keep) =~= Seq::empty());
        assert(!keep(h.last()));
    }
    Seq::filter_distributes_over_add(a, h, keep);
    Seq::filter_distributes_over_add(a + h, b, keep);
    Seq::filter_distributes_over_add(a + h + b, h, keep);
    Seq::filter_distributes_over_add(a + h + b + h, c, keep);
    Seq::filter_distributes_over_add(a + h + b + h + c, h, keep);
    Seq::filter_distributes_over_add(a + h + b + h + c + h, d, keep);
    Seq::filter_distributes_over_add(a + h + b + h + c + h + d, h, keep);
    Seq::filter_distributes_over_add(a + h + b + h + c + h + d + h, e, keep);
    assert(without_hyphens(uuid_text(id)) =~= a + b + c + d + e);
    assert(a + b + c + d + e =~= hex);
}

/// Whether a character may stand in the name of a rule.
pub open spec fn is_rule_char(c: char) -> bool {
    'a' <= c && c <= 'z' || 'A' <= c && c <= 'Z' || '0' <= c && c <= '9' || c == '-' || c == '_'
        || c == '.'
}

/// The first 32 characters of a text that may stand in the name of a rule.
pub open spec fn sanitized(raw: Seq<char>) -> Seq<char> {
    at_most(raw.filter(|c: char| is_rule_char(c)), 32)
}

/// The first 32 characters of a text that may stand in the name of a rule.
pub fn sanitize_rule_name_component(raw: &str) -> (res: String)
    ensures
        res@ == sanitized(raw@),
{
    let v = chars_of(raw);
    let keep: Ghost<spec_fn(char) -> bool> = Ghost(|c: char| is_rule_char(c));
    let mut kept = String::new();
    let mut i: usize = 0;
    proof {
        reveal(Seq::filter);
        assert(v@.take(0).filter(keep@) =~= Seq::empty());
    }
    while i < v.len()
        invariant
            i <= v@.len(),
            keep@ == (|c: char| is_rule_char(c)),
            kept@ == v@.take(i as int).filter(keep@),
        decreases v@.len() - i,
    {
        let c: char = v[i];
        proof {
            reveal(Seq::filter);
            assert(v@.take(i + 1).drop_last() =~= v@.take(i as int));
        }
        if 'a' <= c && c <= 'z' || 'A' <= c && c <= 'Z' || '0' <= c && c <= '9' || c == '-' || c
            == '_' || c == '.' {
            kept.push(c);
        }
        i = i + 1;
    }
    assert(v@.take(i as int) =~= v@);
    take_chars(kept.as_str(), 32)
}

/// The part of the rules' names that tells instances apart: the id without hyphens, or the name of
/// the network where there is no id, or `default` where there is neither.
pub open spec fn instance_tag(id_text: Seq<char>, network_name: Seq<char>) -> Seq<char> {
    if without_hyphens(id_text).len() > 0 {
        without_hyphens(id_text)
    } else if sanitized(network_name).len() > 0 {
        sanitized(network_name)
    } else {
        "default"@
    }
}

/// The part of the rules' names that tells instances apart.
pub fn instance_tag_of(id_text: &str, network_name: &str) -> (tag: String)
    ensures
        tag@ == instance_tag(id_text@, network_name@),
{
    let id = remove_hyphens(id_text);
    if chars_of(id.as_str()).len() > 0 {
        return id;
    }
    let name = sanitize_rule_name_component(network_name);
    if chars_of(name.as_str()).len() > 0 {
        return name;
    }
    copy_text("default")
}

/// What the rules of an instance depend on.
#[derive(Debug)]
pub struct InstanceInfo {
    /// The bits of the instance's UUID.
    pub id: u128,
    pub network_name: String,
    pub enable_exit_node: bool,
    pub listeners: Vec<PeerUrl>,
}

/// The part of the rules' names that tells an instance apart: the 32 digits of its id.
pub fn firewall_rule_instance_tag(instance: &InstanceInfo) -> (tag: String)
    ensures
        tag@ == hex_digits(instance.id as nat, 32),
{
    let tag = instance_tag_of(
        uuid_to_text(instance.id).as_str(),
        instance.network_name.as_str(),
    );
    proof {
        a_uuid_without_hyphens_is_its_digits(instance.id);
        lemma_hex_digits(instance.id as nat, 32);
    }
    tag
}

/// Two runs of `netsh`: the first deletes the rules of a name, the second adds one. The first is
/// left out where a rule of that name was added just before.
#[derive(Debug)]
pub struct NetshRule {
    pub delete: Option<Vec<String>>,
    pub add: Vec<String>,
}

impl NetshRule {
    /// The runs replace the rules of a name by one, or add one to them where `first` is false.
    pub open spec fn runs(self, name: Seq<char>, first: bool, is_udp: bool, port: u16) -> bool {
        &&& self.delete is Some <==> first
        &&& self.delete matches Some(args) ==> texts(args@) == delete_rule_args(name)
        &&& texts(self.add@) == add_rule_args(name, is_udp, port)
    }
}

/// The arguments that delete the rules of a name.
pub open spec fn delete_rule_args(name: Seq<char>) -> Seq<Seq<char>> {
    seq!["advfirewall"@, "firewall"@, "delete"@, "rule"@, "name="@ + name]
}

/// The arguments that add a rule for a port.
pub open spec fn add_rule_args(name: Seq<char>, is_udp: bool, port: u16) -> Seq<Seq<char>> {
    seq![
        "advfirewall"@,
        "firewall"@,
        "add"@,
        "rule"@,
        "name="@ + name,
        "dir=in"@,
        "action=allow"@,
        "protocol="@ + (if is_udp {
            "UDP"@
        } else {
            "TCP"@
        }),
        "localport="@ + decimal(port as nat),
        "profile=any"@,
        "enable=yes"@,
    ]
}

/// Replaces the rules of a name by one that lets a port in.
pub fn add_inbound_port_firewall_rule(rule_name: &str, is_udp: bool, port: u16) -> (rule: NetshRule)
    ensures
        rule.runs(rule_name@, true, is_udp, port),
{
    let name_arg = join_two("name=", rule_name);
    let protocol_arg = join_two(
        "protocol=",
        if is_udp {
            "UDP"
        } else {
            "TCP"
        },
    );
    let port_arg = join_two("localport=", decimal_text(port as u64).as_str());
    let delete = args_of(&["advfirewall", "firewall", "delete", "rule", name_arg.as_str()]);
    let add = args_of(
        &[
            "advfirewall",
            "firewall",
            "add",
            "rule",
            name_arg.as_str(),
            "dir=in",
            "action=allow",
            protocol_arg.as_str(),
            port_arg.as_str(),
            "profile=any",
            "enable=yes",
        ],
    );
    assert(texts(delete@) =~= delete_rule_args(rule_name@));
    assert(texts(add@) =~= add_rule_args(rule_name@, is_udp, port));
    NetshRule { delete: Some(delete), add }
}

/// The name of the rule for a port. All ports of a kind and protocol share it.
pub open spec fn port_rule_name(tag: Seq<char>, rule: PortFirewallRule) -> Seq<char> {
    "EasyTier-"@ + tag + (match rule.kind {
        RuleKind::Wg => "-wg-"@,
        RuleKind::Ctrl => "-ctrl-"@,
    }) + (if rule.is_udp {
        "udp"@
    } else {
        "tcp"@
    })
}

/// The name of the rule for a port.
fn port_rule_name_text(tag: &str, rule: &PortFirewallRule) -> (s: String)
    ensures
        s@ == port_rule_name(tag@, *rule),
{
    let mut s = join_two("EasyTier-", tag);
    match rule.kind {
        RuleKind::Wg => push_text(&mut s, "-wg-"),
        RuleKind::Ctrl => push_text(&mut s, "-ctrl-"),
    }
    if rule.is_udp {
        push_text(&mut s, "udp");
    } else {
        push_text(&mut s, "tcp");
    }
    s
}

/// The rules of different instances have different names.
pub proof fn names_tell_instances_apart(
    a: u128,
    b: u128,
    first: PortFirewallRule,
    second: PortFirewallRule,
)
    requires
        a != b,
    ensures
        port_rule_name(hex_digits(a as nat, 32), first) != port_rule_name(
            hex_digits(b as nat, 32),
            second,
        ),
{
    let s = hex_digits(a as nat, 32);
    let t = hex_digits(b as nat, 32);
    let x = port_rule_name(s, first);
    let y = port_rule_name(t, second);
    lemma_hex_digits(a as nat, 32);
    lemma_hex_digits(b as nat, 32);
    reveal_strlit("EasyTier-");
    if x == y {
        assert(x.subrange(9, 41) =~= s);
        assert(y.subrange(9, 41) =~= t);
        lemma_pow16();
        lemma_hex_one_to_one(a as nat, b as nat, 32);
    }
}

/// How many numbers have so many hexadecimal digits.
pub open spec fn pow16(width: nat) -> nat
    decreases width,
{
    if width == 0 {
        1
    } else {
        16 * pow16((width - 1) as nat)
    }
}

/// The number of UUIDs.
proof fn lemma_pow16()
    ensures
        pow16(32) == u128::MAX + 1,
{
    reveal_with_fuel(pow16, 33);
}

/// Different numbers have different digits, where there are enough of them.
proof fn lemma_hex_one_to_one(a: nat, b: nat, width: nat)
    requires
        hex_digits(a, width) == hex_digits(b, width),
        a < pow16(width),
        b < pow16(width),
    ensures
        a == b,
    decreases width,
{
    if width > 0 {
        let s = hex_digits(a, width);
        let t = hex_digits(b, width);
        let less = (width - 1) as nat;
        assert(s.last() == hex_digit((a % 16) as int));
        assert(t.last() == hex_digit((b % 16) as int));
        assert(s.drop_last() =~= hex_digits(a / 16, less));
        assert(t.drop_last() =~= hex_digits(b / 16, less));
        lemma_hex_one_to_one(a / 16, b / 16, less);
    }
}

/// The rule at `i` is the first of its name.
pub open spec fn is_first_of_name(tag: Seq<char>, rules: Seq<PortFirewallRule>, i: int) -> bool {
    forall|j: int|
        0 <= j < i ==> port_rule_name(tag, #[trigger] rules[j]) != port_rule_name(tag, rules[i])
}

/// `netsh` is run for each of the rules, in their order. What a name had before is deleted once,
/// before the first rule of that name is added.
pub open spec fn runs_for(
    plans: Seq<NetshRule>,
    tag: Seq<char>,
    rules: Seq<PortFirewallRule>,
) -> bool {
    &&& plans.len() == rules.len()
    &&& forall|i: int| #![trigger plans[i]]
        0 <= i < rules.len() ==> plans[i].runs(
            port_rule_name(tag, rules[i]),
            is_first_of_name(tag, rules, i),
            rules[i].is_udp,
            rules[i].port,
        )
}

/// What a firewall lets in under each name after the runs for the first `n` of the rules.
pub open spec fn firewall_after(
    before: Map<Seq<char>, Set<(bool, u16)>>,
    tag: Seq<char>,
    rules: Seq<PortFirewallRule>,
    n: int,
) -> Map<Seq<char>, Set<(bool, u16)>>
    decreases n,
{
    if n <= 0 {
        before
    } else {
        let rest = firewall_after(before, tag, rules, n - 1);
        let rule = rules[n - 1];
        let name = port_rule_name(tag, rule);
        let left = if is_first_of_name(tag, rules, n - 1) {
            Set::<(bool, u16)>::empty()
        } else {
            rest[name]
        };
        rest.insert(name, left.insert((rule.is_udp, rule.port)))
    }
}

/// One of the first `n` rules has the name and lets the port in.
pub open spec fn is_wanted(
    tag: Seq<char>,
    rules: Seq<PortFirewallRule>,
    n: int,
    name: Seq<char>,
    port: (bool, u16),
) -> bool {
    exists|i: int|
        0 <= i < n && port_rule_name(tag, #[trigger] rules[i]) == name && (
        rules[i].is_udp,
        rules[i].port,
    ) == port
}

/// Once the runs are over, the firewall lets in under the name of a rule exactly the ports of the
/// rules of that name: none that was added is lost, and none is left of former runs.
pub proof fn exactly_the_wanted_ports_are_open(
    before: Map<Seq<char>, Set<(bool, u16)>>,
    tag: Seq<char>,
    rules: Seq<PortFirewallRule>,
    n: int,
    i: int,
)
    requires
        0 <= i < n <= rules.len(),
    ensures
        ({
            let name = port_rule_name(tag, rules[i]);
            let after = firewall_after(before, tag, rules, n);
            &&& after.dom().contains(name)
            &&& after[name].contains((rules[i].is_udp, rules[i].port))
            &&& forall|port: (bool, u16)| #[trigger]
                after[name].contains(port) <==> is_wanted(tag, rules, n, name, port)
        }),
    decreases n,
{
    let name = port_rule_name(tag, rules[i]);
    let last = rules[n - 1];
    let last_name = port_rule_name(tag, last);
    let rest = firewall_after(before, tag, rules, n - 1);
    let after = firewall_after(before, tag, rules, n);
    assert forall|port: (bool, u16)| #[trigger] is_wanted(tag, rules, n, name, port) <==> is_wanted(
        tag,
        rules,
        n - 1,
        name,
        port,
    ) || last_name == name && (last.is_udp, last.port) == port by {
        if is_wanted(tag, rules, n - 1, name, port) {
            let j = choose|j: int|
                0 <= j < n - 1 && port_rule_name(tag, #[trigger] rules[j]) == name && (
                rules[j].is_udp,
                rules[j].port,
            ) == port;
            assert(port_rule_name(tag, rules[j]) == name);
        }
        if last_name == name && (last.is_udp, last.port) == port {
            assert(port_rule_name(tag, rules[n - 1]) == name);
        }
    }
    if is_first_of_name(tag, rules, n - 1) && last_name == name {
        assert(i == n - 1) by {
            if i < n - 1 {
                assert(port_rule_name(tag, rules[i]) != last_name);
            }
        }
        assert forall|port: (bool, u16)| !(#[trigger] is_wanted(
            tag,
            rules,
            n - 1,
            name,
            port,
        )) by {}
    } else {
        let j = if i < n - 1 {
            i
        } else {
            choose|j: int|
                0 <= j < n - 1 && port_rule_name(tag, #[trigger] rules[j]) == port_rule_name(
                    tag,
                    rules[n - 1],
                )
        };
        exactly_the_wanted_ports_are_open(before, tag, rules, n - 1, j);
        assert(port_rule_name(tag, rules[j]) == name);
    }
    assert(is_wanted(tag, rules, n, name, (rules[i].is_udp, rules[i].port)));
    assert forall|port: (bool, u16)| #[trigger] after[name].contains(port) <==> is_wanted(
        tag,
        rules,
        n,
        name,
        port,
    ) by {
        assert(is_wanted(tag, rules, n, name, port) <==> is_wanted(tag, rules, n - 1, name, port)
            || last_name == name && (last.is_udp, last.port) == port);
    }
}

/// No run deletes the name under which an earlier run added its rule.
pub open spec fn no_run_undoes_another(plans: Seq<NetshRule>) -> bool {
    forall|i: int, j: int| #![trigger plans[i], plans[j]]
        0 <= i < j < plans.len() ==> (plans[j].delete matches Some(args) ==> texts(
            plans[i].add@,
        )[4] != texts(args@)[4])
}

/// The run is for a rule of the instance with this id.
pub open spec fn runs_in_the_name_of(plan: NetshRule, id: u128) -> bool {
    exists|rule: PortFirewallRule|
        texts(plan.add@)[4] == "name="@ + #[trigger] port_rule_name(
            hex_digits(id as nat, 32),
            rule,
        ) && (plan.delete matches Some(args) ==> texts(args@)[4] == texts(plan.add@)[4])
}

/// A name can be told from the argument that holds it.
proof fn lemma_name_argument(x: Seq<char>, y: Seq<char>)
    requires
        "name="@ + x == "name="@ + y,
    ensures
        x == y,
{
    let start = "name="@;
    assert((start + x).skip(start.len() as int) =~= x);
    assert((start + y).skip(start.len() as int) =~= y);
}

/// A run for one instance deletes nothing of another.
proof fn lemma_runs_of_others(first: NetshRule, second: NetshRule, a: u128, b: u128)
    requires
        a != b,
        runs_in_the_name_of(first, a),
        runs_in_the_name_of(second, b),
    ensures
        second.delete matches Some(args) ==> texts(first.add@)[4] != texts(args@)[4],
{
    let p = choose|rule: PortFirewallRule|
        texts(first.add@)[4] == "name="@ + #[trigger] port_rule_name(
            hex_digits(a as nat, 32),
            rule,
        ) && (first.delete matches Some(args) ==> texts(args@)[4] == texts(first.add@)[4]);
    let q = choose|rule: PortFirewallRule|
        texts(second.add@)[4] == "name="@ + #[trigger] port_rule_name(
            hex_digits(b as nat, 32),
            rule,
        ) && (second.delete matches Some(args) ==> texts(args@)[4] == texts(second.add@)[4]);
    let x = port_rule_name(hex_digits(a as nat, 32), p);
    let y = port_rule_name(hex_digits(b as nat, 32), q);
    names_tell_instances_apart(a, b, p, q);
    if "name="@ + x == "name="@ + y {
        lemma_name_argument(x, y);
    }
}

/// The instances have different ids.
pub open spec fn ids_differ(instances: Seq<InstanceInfo>) -> bool {
    forall|i: int, j: int|
        0 <= i < j < instances.len() ==> (#[trigger] instances[i]).id != (
        #[trigger] instances[j]).id
}

/// The rules that an instance gets: none unless it is an exit node.
pub open spec fn instance_rules(instance: InstanceInfo) -> Seq<PortFirewallRule> {
    if instance.enable_exit_node {
        exit_node_rules(url_views(instance.listeners@))
    } else {
        Seq::empty()
    }
}

/// The runs of `netsh` that let the ports of an exit node in. Other nodes get none.
pub fn add_exit_node_firewall_rules(instance: &InstanceInfo) -> (plans: Vec<NetshRule>)
    ensures
        runs_for(plans@, hex_digits(instance.id as nat, 32), instance_rules(*instance)),
        no_run_undoes_another(plans@),
{
    let mut plans: Vec<NetshRule> = Vec::new();
    if !instance.enable_exit_node {
        return plans;
    }
    let tag = firewall_rule_instance_tag(instance);
    let rules = collect_exit_node_port_rules(&instance.listeners);
    let mut names: Vec<String> = Vec::new();
    let mut i: usize = 0;
    while i < rules.len()
        invariant
            i <= rules@.len(),
            tag@ == hex_digits(instance.id as nat, 32),
            names@.len() == i,
            forall|k: int| 0 <= k < i ==> (#[trigger] names@[k])@ == port_rule_name(tag@, rules@[k]),
            plans@.len() == i,
            forall|k: int| #![trigger plans@[k]]
                0 <= k < i ==> plans@[k].runs(
                    port_rule_name(tag@, rules@[k]),
                    is_first_of_name(tag@, rules@, k),
                    rules@[k].is_udp,
                    rules@[k].port,
                ),
        decreases rules@.len() - i,
    {
        let rule = rules[i];
        let name = port_rule_name_text(tag.as_str(), &rule);
        let mut plan = add_inbound_port_firewall_rule(name.as_str(), rule.is_udp, rule.port);
        let known = contains_text(&names, name.as_str());
        if known {
            plan.delete = None;
        }
        proof {
            if known {
                let k = choose|k: int| 0 <= k < i && texts(names@)[k] == name@;
                assert(names@[k]@ == port_rule_name(tag@, rules@[k]));
                assert(!is_first_of_name(tag@, rules@, i as int));
            } else {
                assert forall|j: int| 0 <= j < i implies port_rule_name(tag@, #[trigger] rules@[j])
                    != port_rule_name(tag@, rules@[i as int]) by {
                    assert(texts(names@)[j] == names@[j]@);
                    assert(texts(names@).contains(names@[j]@));
                }
            }
        }
        names.push(name);
        plans.push(plan);
        i = i + 1;
    }
    proof {
        assert forall|a: int, b: int| #![trigger plans@[a], plans@[b]]
            0 <= a < b < plans@.len() implies (plans@[b].delete matches Some(args) ==> texts(
            plans@[a].add@,
        )[4] != texts(args@)[4]) by {
            let x = port_rule_name(tag@, rules@[a]);
            let y = port_rule_name(tag@, rules@[b]);
            if "name="@ + x == "name="@ + y {
                lemma_name_argument(x, y);
            }
        }
    }
    plans
}

/// The entries that are still alive, in their order.
pub open spec fn alive_entries(registered: Seq<u64>, alive: Seq<bool>, n: int) -> Seq<u64>
    decreases n,
{
    if n <= 0 {
        Seq::empty()
    } else {
        let rest = alive_entries(registered, alive, n - 1);
        if alive[n - 1] {
            rest.push(registered[n - 1])
        } else {
            rest
        }
    }
}

/// Takes the instances that have ended off the list.
pub fn retain_alive(registered: &mut Vec<u64>, alive: &Vec<bool>)
    requires
        old(registered)@.len() == alive@.len(),
    ensures
        final(registered)@ == alive_entries(
            old(registered)@,
            alive@,
            old(registered)@.len() as int,
        ),
{
    let mut kept: Vec<u64> = Vec::new();
    let mut i: usize = 0;
    while i < registered.len()
        invariant
            i <= registered@.len(),
            registered@.len() == alive@.len(),
            kept@ == alive_entries(registered@, alive@, i as int),
        decreases registered@.len() - i,
    {
        if alive[i] {
            kept.push(registered[i]);
        }
        i = i + 1;
    }
    *registered = kept;
}

/// Puts an instance on the list, unless it is there. Those that have ended are taken off.
pub fn register_firewall_global_ctx(registered: &mut Vec<u64>, alive: &Vec<bool>, instance: u64)
    requires
        old(registered)@.len() == alive@.len(),
    ensures
        ({
            let kept = alive_entries(old(registered)@, alive@, old(registered)@.len() as int);
            final(registered)@ == (if kept.contains(instance) {
                kept
            } else {
                kept.push(instance)
            })
        }),
{
    retain_alive(registered, alive);
    let mut i: usize = 0;
    while i < registered.len()
        invariant
            i <= registered@.len(),
            registered@ == alive_entries(
                old(registered)@,
                alive@,
                old(registered)@.len() as int,
            ),
            forall|j: int| 0 <= j < i ==> registered@[j] != instance,
        decreases registered@.len() - i,
    {
        if registered[i] == instance {
            assert(registered@[i as int] == instance);
            return;
        }
        i = i + 1;
    }
    registered.push(instance);
}

/// What is alive was on the list, and once each where the list had no duplicates.
proof fn lemma_alive(registered: Seq<u64>, alive: Seq<bool>, n: int)
    requires
        0 <= n <= registered.len(),
        registered.no_duplicates(),
    ensures
        alive_entries(registered, alive, n).no_duplicates(),
        forall|x: u64| #[trigger]
            alive_entries(registered, alive, n).contains(x) ==> registered.take(n).contains(x),
    decreases n,
{
    if n > 0 {
        lemma_alive(registered, alive, n - 1);
        let rest = alive_entries(registered, alive, n - 1);
        let after = alive_entries(registered, alive, n);
        let less = registered.take(n - 1);
        let more = registered.take(n);
        assert forall|x: u64| less.contains(x) implies more.contains(x) && x != registered[n - 1] by {
            let j = choose|j: int| 0 <= j < less.len() && less[j] == x;
            assert(more[j] == x);
            assert(registered[j] != registered[n - 1]);
        }
        assert(more[n - 1] == registered[n - 1]);
        if alive[n - 1] {
            assert forall|x: u64| #[trigger] after.contains(x) implies more.contains(x) by {
                let j = choose|j: int| 0 <= j < after.len() && after[j] == x;
                if j < rest.len() {
                    assert(rest.contains(x));
                }
            }
            assert forall|a: int, b: int| 0 <= a < b < after.len() implies after[a]
                != after[b] by {
                assert(rest.contains(rest[a]));
            }
        }
    }
}

/// An instance is on the list once, however often it is put there.
pub proof fn instances_are_registered_once(registered: Seq<u64>, alive: Seq<bool>, instance: u64)
    requires
        registered.no_duplicates(),
        registered.len() == alive.len(),
    ensures
        ({
            let kept = alive_entries(registered, alive, registered.len() as int);
            let after = if kept.contains(instance) {
                kept
            } else {
                kept.push(instance)
            };
            after.no_duplicates() && after.contains(instance)
        }),
{
    lemma_alive(registered, alive, registered.len() as int);
    let kept = alive_entries(registered, alive, registered.len() as int);
    if !kept.contains(instance) {
        let after = kept.push(instance);
        assert(after[kept.len() as int] == instance);
        assert forall|a: int, b: int| 0 <= a < b < after.len() implies after[a] != after[b] by {
            if b == kept.len() {
                assert(kept.contains(kept[a]));
            }
        }
    }
}

/// The runs of `netsh` for each of the instances, in their order.
pub open spec fn runs_for_all(
    plans: Seq<NetshRule>,
    instances: Seq<InstanceInfo>,
    n: int,
) -> bool
    decreases n,
{
    if n <= 0 {
        plans.len() == 0
    } else {
        let last = instances[n - 1];
        let count = instance_rules(last).len() as int;
        &&& count <= plans.len()
        &&& runs_for_all(plans.take(plans.len() - count), instances, n - 1)
        &&& runs_for(
            plans.skip(plans.len() - count),
            hex_digits(last.id as nat, 32),
            instance_rules(last),
        )
    }
}

/// The runs of `netsh` that let in the ports of all registered exit nodes.
pub fn add_registered_exit_node_firewall_rules(instances: &Vec<InstanceInfo>) -> (plans: Vec<
    NetshRule,
>)
    ensures
        runs_for_all(plans@, instances@, instances@.len() as int),
        ids_differ(instances@) ==> no_run_undoes_another(plans@),
{
    let mut plans: Vec<NetshRule> = Vec::new();
    let mut i: usize = 0;
    while i < instances.len()
        invariant
            i <= instances@.len(),
            runs_for_all(plans@, instances@, i as int),
            forall|k: int| #![trigger plans@[k]]
                0 <= k < plans@.len() ==> exists|m: int|
                    0 <= m < i && runs_in_the_name_of(plans@[k], (#[trigger] instances@[m]).id),
            ids_differ(instances@) ==> no_run_undoes_another(plans@),
        decreases instances@.len() - i,
    {
        let ghost before = plans@;
        let mut more = add_exit_node_firewall_rules(&instances[i]);
        let ghost added = more@;
        plans.append(&mut more);
        proof {
            assert(plans@ =~= before + added);
            assert(plans@.take(plans@.len() - added.len()) =~= before);
            assert(plans@.skip(plans@.len() - added.len()) =~= added);
            let n = before.len();
            let id = instances@[i as int].id;
            assert forall|k: int| 0 <= k < added.len() implies runs_in_the_name_of(
                #[trigger] added[k],
                id,
            ) by {
                let rule = instance_rules(instances@[i as int])[k];
                let name = port_rule_name(hex_digits(id as nat, 32), rule);
                assert(texts(added[k].add@) == add_rule_args(name, rule.is_udp, rule.port));
            }
            assert forall|k: int| #![trigger plans@[k]] 0 <= k < plans@.len() implies exists|m: int|
                0 <= m < i + 1 && runs_in_the_name_of(plans@[k], (#[trigger] instances@[m]).id) by {
                if k < n {
                    assert(plans@[k] == before[k]);
                } else {
                    assert(plans@[k] == added[k - n]);
                    assert(runs_in_the_name_of(added[k - n], instances@[i as int].id));
                }
            }
            if ids_differ(instances@) {
                assert forall|a: int, b: int| #![trigger plans@[a], plans@[b]]
                    0 <= a < b < plans@.len() implies (plans@[b].delete matches Some(
                    args,
                ) ==> texts(plans@[a].add@)[4] != texts(args@)[4]) by {
                    if b < n {
                        assert(plans@[a] == before[a] && plans@[b] == before[b]);
                    } else if a >= n {
                        assert(plans@[a] == added[a - n] && plans@[b] == added[b - n]);
                    } else {
                        assert(plans@[a] == before[a] && plans@[b] == added[b - n]);
                        let m = choose|m: int|
                            0 <= m < i && runs_in_the_name_of(
                                before[a],
                                (#[trigger] instances@[m]).id,
                            );
                        assert(instances@[m].id != instances@[i as int].id);
                        lemma_runs_of_others(before[a], added[b - n], instances@[m].id, id);
                    }
                }
            }
        }
        i = i + 1;
    }
    plans
}

/// Words with one space between them.
pub open spec fn joined(words: Seq<Seq<char>>) -> Seq<char>
    decreases words.len(),
{
    if words.len() == 0 {
        Seq::empty()
    } else if words.len() == 1 {
        words[0]
    } else {
        joined(words.drop_last()) + seq![' '] + words.last()
    }
}

/// The words of a text with one space between them.
pub fn on_one_line(text: &str) -> (res: String)
    ensures
        res@ == joined(words_of(text@)),
{
    let list = words(text);
    let ghost all = words_of(text@);
    let mut res = String::new();
    let mut i: usize = 0;
    assert(all.take(0) =~= Seq::empty());
    while i < list.len()
        invariant
            i <= list@.len(),
            texts(list@) == all,
            all == words_of(text@),
            res@ == joined(all.take(i as int)),
        decreases list@.len() - i,
    {
        proof {
            assert(all[i as int] == list@[i as int]@);
            assert(all.take(i + 1).drop_last() =~= all.take(i as int));
        }
        if i > 0 {
            res.push(' ');
            push_text(&mut res, list[i].as_str());
            assert(res@ =~= joined(all.take(i as int)) + seq![' '] + all[i as int]);
        } else {
            push_text(&mut res, list[i].as_str());
            assert(res@ =~= all[0]);
        }
        i = i + 1;
    }
    assert(all.take(i as int) =~= all);
    res
}

/// What is shown of the output of `netsh`: both outputs on one line, and no more than 200
/// characters.
pub open spec fn netsh_summary(stdout: Seq<char>, stderr: Seq<char>) -> Seq<char> {
    let out = joined(words_of(stdout));
    let err = joined(words_of(stderr));
    at_most(
        if out.len() == 0 {
            err
        } else if err.len() == 0 {
            out
        } else {
            out + seq![' '] + err
        },
        200,
    )
}

/// What is shown of the texts that `netsh` wrote.
pub fn summarize_texts(stdout: &str, stderr: &str) -> (res: String)
    ensures
        res@ == netsh_summary(stdout@, stderr@),
{
    let out = on_one_line(stdout);
    let err = on_one_line(stderr);
    let has_out = chars_of(out.as_str()).len() > 0;
    let has_err = chars_of(err.as_str()).len() > 0;
    let mut summary = out;
    if has_err {
        if has_out {
            summary.push(' ');
        }
        push_text(&mut summary, err.as_str());
    }
    proof {
        let o = joined(words_of(stdout@));
        let e = joined(words_of(stderr@));
        if has_out && has_err {
            assert(summary@ =~= o + seq![' '] + e);
        } else if has_err {
            assert(summary@ =~= e);
        } else if !has_out {
            assert(o =~= e);
        }
    }
    take_chars(summary.as_str(), 200)
}

/// What is shown of the output of `netsh`.
pub fn summarize_netsh_output(stdout: &[u8], stderr: &[u8]) -> (res: String)
    ensures
        res@ == netsh_summary(utf8_lossy(stdout@), utf8_lossy(stderr@)),
{
    summarize_texts(lossy_text(stdout).as_str(), lossy_text(stderr).as_str())
}

/// Which listeners get a rule, by their scheme in lower case: `tcp` and `udp` a control rule for their
/// own protocol, `wg` a WireGuard rule for UDP. The port is the listener's own, or else 11010 for control
/// connections and 11011 for WireGuard. No other scheme gets a rule.
pub proof fn which_listeners_get_a_rule(url: UrlView)
    ensures
        ascii_lowercased(url.scheme) == "tcp"@ ==> (rule_of(url) matches Some(rule) && !rule.is_udp
            && rule.kind == RuleKind::Ctrl && (url.port matches Some(port) ==> rule.port == port) && (
        url.port is None ==> rule.port == 11010)),
        ascii_lowercased(url.scheme) == "udp"@ ==> (rule_of(url) matches Some(rule) && rule.is_udp
            && rule.kind == RuleKind::Ctrl && (url.port matches Some(port) ==> rule.port == port) && (
        url.port is None ==> rule.port == 11010)),
        ascii_lowercased(url.scheme) == "wg"@ ==> (rule_of(url) matches Some(rule) && rule.is_udp
            && rule.kind == RuleKind::Wg && (url.port matches Some(port) ==> rule.port == port) && (
        url.port is None ==> rule.port == 11011)),
        rule_of(url) is Some ==> ascii_lowercased(url.scheme) == "tcp"@ || ascii_lowercased(
            url.scheme,
        ) == "udp"@ || ascii_lowercased(url.scheme) == "wg"@,
{
    reveal_strlit("tcp");
    reveal_strlit("udp");
    reveal_strlit("wg");
    assert("tcp"@[0] == 't' && "udp"@[0] == 'u' && "wg"@[0] == 'w');
}

/// A rule more is put at the end, unless its port is let in for its protocol already.
pub proof fn a_port_is_let_in_once(
    rules: Seq<PortFirewallRule>,
    rule: PortFirewallRule,
    is_udp: bool,
    port: u16,
)
    ensures
        lets_in(rules, rule.is_udp, rule.port) ==> with_rule(rules, rule) == rules,
        !lets_in(rules, rule.is_udp, rule.port) ==> with_rule(rules, rule) == rules.push(rule),
        lets_in(rules.push(rule), is_udp, port) <==> lets_in(rules, is_udp, port) || rule.is_udp
            == is_udp && rule.port == port,
        !lets_in(Seq::empty(), is_udp, port),
{
    let all = rules.push(rule);
    if lets_in(rules, is_udp, port) {
        let i = choose|i: int|
            0 <= i < rules.len() && (#[trigger] rules[i]).is_udp == is_udp && rules[i].port == port;
        assert(all[i] == rules[i]);
    }
    assert(all[rules.len() as int] == rule);
    if lets_in(all, is_udp, port) {
        let i = choose|i: int|
            0 <= i < all.len() && (#[trigger] all[i]).is_udp == is_udp && all[i].port == port;
        if i < rules.len() {
            assert(rules[i] == all[i]);
        }
    }
}

/// The rules of one listener more are those of the others and its own.
pub proof fn one_listener_more_adds_its_rule(urls: Seq<UrlView>, url: UrlView, kind: RuleKind)
    ensures
        configured_rules(Seq::empty()).len() == 0,
        rule_of(url) matches Some(rule) ==> configured_rules(urls.push(url)) == with_rule(
            configured_rules(urls),
            rule,
        ),
        rule_of(url) is None ==> configured_rules(urls.push(url)) == configured_rules(urls),
        asks_for(urls.push(url), kind) <==> asks_for(urls, kind) || (rule_of(url) matches Some(rule)
            && rule.kind == kind),
        !asks_for(Seq::empty(), kind),
{
    assert(urls.push(url).drop_last() =~= urls);
    lemma_asks_for_one_more(urls.push(url), urls.len() as int, kind);
    assert(urls.push(url).take(urls.len() as int) =~= urls);
    assert(urls.push(url).take(urls.len() as int + 1) =~= urls.push(url));
}

/// The rule is one that a listener asks for.
proof fn lemma_configured_come_from_listeners(urls: Seq<UrlView>, i: int)
    requires
        0 <= i < configured_rules(urls).len(),
    ensures
        exists|j: int|
            0 <= j < urls.len() && rule_of(#[trigger] urls[j]) == Some(configured_rules(urls)[i]),
    decreases urls.len(),
{
    if urls.len() > 0 {
        let rest = urls.drop_last();
        if i < configured_rules(rest).len() {
            lemma_configured_come_from_listeners(rest, i);
            let j = choose|j: int|
                0 <= j < rest.len() && rule_of(#[trigger] rest[j]) == Some(configured_rules(rest)[i]);
            assert(urls[j] == rest[j]);
        } else {
            assert(rule_of(urls[urls.len() - 1]) == Some(configured_rules(urls)[i]));
        }
    }
}

/// An exit node lets nothing else in: each of its rules is one that a listener asks for, or one for the
/// usual ports of a kind that none asks for, 11011 by UDP for WireGuard and 11010 by UDP and TCP for
/// control connections.
pub proof fn no_other_port_is_let_in(urls: Seq<UrlView>, i: int)
    requires
        0 <= i < exit_node_rules(urls).len(),
    ensures
        ({
            let rule = exit_node_rules(urls)[i];
            ||| exists|j: int| 0 <= j < urls.len() && rule_of(#[trigger] urls[j]) == Some(rule)
            ||| !asks_for(urls, RuleKind::Wg) && rule.kind == RuleKind::Wg && rule.is_udp && rule.port
                == 11011
            ||| !asks_for(urls, RuleKind::Ctrl) && rule.kind == RuleKind::Ctrl && rule.port == 11010
        }),
{
    if i < configured_rules(urls).len() {
        lemma_configured_come_from_listeners(urls, i);
    }
}

/// Without a listener of a kind its usual ports are let in: 11011 by UDP, and 11010 by UDP and TCP.
pub proof fn the_usual_ports_by_number(urls: Seq<UrlView>)
    ensures
        !asks_for(urls, RuleKind::Wg) ==> lets_in(exit_node_rules(urls), true, 11011),
        !asks_for(urls, RuleKind::Ctrl) ==> lets_in(exit_node_rules(urls), true, 11010) && lets_in(
            exit_node_rules(urls),
            false,
            11010,
        ),
{
    missing_listeners_get_the_usual_ports(urls);
}

/// Only an exit node gets rules for its ports.
pub proof fn only_exit_nodes_get_rules(instance: InstanceInfo)
    ensures
        !instance.enable_exit_node ==> instance_rules(instance).len() == 0,
        instance.enable_exit_node ==> instance_rules(instance) == exit_node_rules(
            url_views(instance.listeners@),
        ),
{
}

/// The hexadecimal digits are `0` to `9` and `a` to `f`, in lower case.
pub proof fn hexadecimal_digits(d: int)
    requires
        0 <= d < 16,
    ensures
        d < 10 ==> hex_digit(d) as int == 48 + d,
        d >= 10 ==> hex_digit(d) as int == 87 + d,
{
}

/// The digits of a number are read back, where there are enough of them, and are as many as asked for.
pub proof fn hexadecimal_numbers_are_read_back(n: nat, width: nat)
    requires
        n < pow16(width),
    ensures
        hex_digits(n, width).len() == width,
        crate::scan::number_of(hex_digits(n, width), 16) == Some(n),
    decreases width,
{
    if width > 0 {
        let less = (width - 1) as nat;
        hexadecimal_numbers_are_read_back(n / 16, less);
        hexadecimal_digits((n % 16) as int);
        crate::scan::digits_of_a_radix(hex_digit((n % 16) as int), 16);
        crate::scan::numbers_are_read_digit_by_digit(
            hex_digits(n / 16, less),
            hex_digit((n % 16) as int),
            16,
        );
    } else {
        crate::scan::numbers_are_read_digit_by_digit(Seq::empty(), '0', 16);
    }
}

/// The digits that tell an instance apart are 32, and those of its id.
pub proof fn an_instance_is_told_by_its_id(id: u128)
    ensures
        hex_digits(id as nat, 32).len() == 32,
        crate::scan::number_of(hex_digits(id as nat, 32), 16) == Some(id as nat),
{
    lemma_pow16();
    hexadecimal_numbers_are_read_back(id as nat, 32);
}

/// A hyphen is left out and any other character stays, in its order.
pub proof fn only_hyphens_are_left_out(s: Seq<char>, c: char)
    ensures
        without_hyphens(Seq::empty()) == Seq::<char>::empty(),
        without_hyphens(s.push('-')) == without_hyphens(s),
        c != '-' ==> without_hyphens(s.push(c)) == without_hyphens(s).push(c),
{
    reveal(Seq::filter);
    assert(s.push(c).drop_last() =~= s);
    assert(s.push('-').drop_last() =~= s);
}

/// The name of a rule may hold the letters and digits of ASCII, the hyphen, the underscore and the dot.
/// Of a text those are kept, in their order, and the first 32 of them are taken.
pub proof fn what_may_stand_in_the_name_of_a_rule(s: Seq<char>, c: char)
    ensures
        is_rule_char(c) <==> 97 <= c as int <= 122 || 65 <= c as int <= 90 || 48 <= c as int <= 57 || c
            == '-' || c == '_' || c == '.',
        sanitized(s).len() <= 32,
        is_rule_char(c) && sanitized(s).len() < 32 ==> sanitized(s.push(c)) == sanitized(s).push(c),
        !is_rule_char(c) || sanitized(s).len() == 32 ==> sanitized(s.push(c)) == sanitized(s),
        sanitized(Seq::empty()) == Seq::<char>::empty(),
{
    reveal(Seq::filter);
    let keep = |x: char| is_rule_char(x);
    assert(s.push(c).drop_last() =~= s);
    let kept = s.filter(keep);
    if kept.len() >= 32 {
        assert(kept.push(c).take(32) =~= kept.take(32));
        if kept.len() == 32 {
            assert(kept.take(32) =~= kept);
        }
    }
}

/// An instance is told apart by its id where it has one, by the name of its network where it has none,
/// and is called `default` where neither says anything.
pub proof fn instances_are_told_apart_by_their_id_first(id_text: Seq<char>, network_name: Seq<char>)
    ensures
        without_hyphens(id_text).len() > 0 ==> instance_tag(id_text, network_name)
            == without_hyphens(id_text),
        without_hyphens(id_text).len() == 0 && sanitized(network_name).len() > 0 ==> instance_tag(
            id_text,
            network_name,
        ) == sanitized(network_name),
        without_hyphens(id_text).len() == 0 && sanitized(network_name).len() == 0 ==> instance_tag(
            id_text,
            network_name,
        ) == "default"@,
{
}

/// The arguments of the runs of `netsh`: what is deleted and what is added has the same name, and what
/// is added lets the port in for its protocol, under every profile.
pub proof fn the_arguments_of_netsh(name: Seq<char>, is_udp: bool, port: u16)
    ensures
        delete_rule_args(name) == seq![
            "advfirewall"@,
            "firewall"@,
            "delete"@,
            "rule"@,
            "name="@ + name,
        ],
        add_rule_args(name, is_udp, port).len() == 11,
        add_rule_args(name, is_udp, port).take(5) == seq![
            "advfirewall"@,
            "firewall"@,
            "add"@,
            "rule"@,
            "name="@ + name,
        ],
        add_rule_args(name, is_udp, port)[5] == "dir=in"@,
        add_rule_args(name, is_udp, port)[6] == "action=allow"@,
        is_udp ==> add_rule_args(name, is_udp, port)[7] == "protocol="@ + "UDP"@,
        !is_udp ==> add_rule_args(name, is_udp, port)[7] == "protocol="@ + "TCP"@,
        add_rule_args(name, is_udp, port)[8] == "localport="@ + decimal(port as nat),
        add_rule_args(name, is_udp, port)[9] == "profile=any"@,
        add_rule_args(name, is_udp, port)[10] == "enable=yes"@,
{
    assert(add_rule_args(name, is_udp, port).take(5) =~= seq![
        "advfirewall"@,
        "firewall"@,
        "add"@,
        "rule"@,
        "name="@ + name,
    ]);
}

/// The name of a rule says whose it is, for which kind and which protocol, and not for which port.
pub proof fn names_of_the_port_rules(tag: Seq<char>, port: u16)
    ensures
        port_rule_name(tag, PortFirewallRule { is_udp: true, port, kind: RuleKind::Wg })
            == "EasyTier-"@ + tag + "-wg-"@ + "udp"@,
        port_rule_name(tag, PortFirewallRule { is_udp: false, port, kind: RuleKind::Wg })
            == "EasyTier-"@ + tag + "-wg-"@ + "tcp"@,
        port_rule_name(tag, PortFirewallRule { is_udp: true, port, kind: RuleKind::Ctrl })
            == "EasyTier-"@ + tag + "-ctrl-"@ + "udp"@,
        port_rule_name(tag, PortFirewallRule { is_udp: false, port, kind: RuleKind::Ctrl })
            == "EasyTier-"@ + tag + "-ctrl-"@ + "tcp"@,
{
}

/// What was there under a name is deleted before the first of its rules is added, and not again; and
/// each rule is added under its own name, protocol and port.
pub proof fn each_name_is_cleared_once(
    plans: Seq<NetshRule>,
    tag: Seq<char>,
    rules: Seq<PortFirewallRule>,
    i: int,
)
    requires
        runs_for(plans, tag, rules),
        0 <= i < rules.len(),
    ensures
        plans.len() == rules.len(),
        plans[i].delete is Some <==> forall|j: int|
            0 <= j < i ==> port_rule_name(tag, #[trigger] rules[j]) != port_rule_name(tag, rules[i]),
        plans[i].delete matches Some(args) ==> texts(args@) == delete_rule_args(
            port_rule_name(tag, rules[i]),
        ),
        texts(plans[i].add@) == add_rule_args(
            port_rule_name(tag, rules[i]),
            rules[i].is_udp,
            rules[i].port,
        ),
{
}

/// The entries that are alive stay, in their order, and no others do.
pub proof fn only_living_entries_stay(registered: Seq<u64>, alive: Seq<bool>, n: int)
    requires
        0 <= n < registered.len(),
        registered.len() == alive.len(),
    ensures
        alive_entries(registered, alive, 0).len() == 0,
        alive[n] ==> alive_entries(registered, alive, n + 1) == alive_entries(
            registered,
            alive,
            n,
        ).push(registered[n]),
        !alive[n] ==> alive_entries(registered, alive, n + 1) == alive_entries(registered, alive, n),
{
}

/// Words are joined by one space between each two, and by none around them.
pub proof fn words_are_joined_by_one_space(words: Seq<Seq<char>>, word: Seq<char>)
    ensures
        joined(Seq::empty()) == Seq::<char>::empty(),
        joined(seq![word]) == word,
        words.len() > 0 ==> joined(words.push(word)) == joined(words) + seq![' '] + word,
{
    assert(words.push(word).drop_last() =~= words);
}

/// Both outputs of `netsh` are shown on one line, the ordinary one first, as far as 200 characters; an
/// empty one leaves no space behind.
pub proof fn both_outputs_are_shown(stdout: Seq<char>, stderr: Seq<char>)
    ensures
        netsh_summary(stdout, stderr).len() <= 200,
        words_of(stdout).len() == 0 && words_of(stderr).len() == 0 ==> netsh_summary(stdout, stderr)
            == Seq::<char>::empty(),
        ({
            let out = joined(words_of(stdout));
            let err = joined(words_of(stderr));
            &&& out.len() == 0 && err.len() <= 200 ==> netsh_summary(stdout, stderr) == err
            &&& err.len() == 0 && out.len() <= 200 ==> netsh_summary(stdout, stderr) == out
            &&& out.len() > 0 && err.len() > 0 && out.len() + err.len() < 200 ==> netsh_summary(
                stdout,
                stderr,
            ) == out + seq![' '] + err
            &&& out.len() >= 200 ==> netsh_summary(stdout, stderr) == out.take(200)
        }),
{
    let out = joined(words_of(stdout));
    let err = joined(words_of(stderr));
    if out.len() >= 200 {
        if err.len() > 0 {
            assert((out + seq![' '] + err).take(200) =~= out.take(200));
        } else if out.len() == 200 {
            assert(out.take(200) =~= out);
        }
    }
    assert(words_of(stderr).len() == 0 ==> err.len() == 0);
    assert(words_of(stdout).len() == 0 ==> out.len() == 0);
}

/// The usual ports.
pub proof fn usual_ports()
    ensures
        DEFAULT_CTRL_PORT == 11010,
        DEFAULT_WG_PORT == 11011,
{
}

/// The parts of the URLs of a list are those of each, in their order.
pub proof fn urls_are_shown_one_by_one(list: Seq<PeerUrl>, i: int)
    requires
        0 <= i < list.len(),
    ensures
        url_views(list).len() == list.len(),
        url_views(list)[i] == list[i]@,
{
}

/// The rules of the listeners come first. Where a kind is missing, its usual ports follow them, that of
/// WireGuard before those of the control connections, and UDP before TCP.
pub proof fn the_order_of_the_rules(urls: Seq<UrlView>)
    ensures
        ({
            let rules = exit_node_rules(urls);
            let configured = configured_rules(urls);
            let wg = PortFirewallRule { is_udp: true, port: 11011, kind: RuleKind::Wg };
            let udp = PortFirewallRule { is_udp: true, port: 11010, kind: RuleKind::Ctrl };
            let tcp = PortFirewallRule { is_udp: false, port: 11010, kind: RuleKind::Ctrl };
            let has_wg = asks_for(urls, RuleKind::Wg);
            let has_ctrl = asks_for(urls, RuleKind::Ctrl);
            &&& has_wg && has_ctrl ==> rules == configured
            &&& !has_wg && has_ctrl ==> rules == with_rule(configured, wg)
            &&& has_wg && !has_ctrl ==> rules == with_rule(with_rule(configured, udp), tcp)
            &&& !has_wg && !has_ctrl ==> rules == with_rule(
                with_rule(with_rule(configured, wg), udp),
                tcp,
            )
            &&& configured.len() <= rules.len() <= configured.len() + 3
            &&& rules.take(configured.len() as int) == configured
        }),
{
    let configured = configured_rules(urls);
    assert(exit_node_rules(urls).take(configured.len() as int) =~= configured);
}

/// The runs for the instances stand one behind the other, in the order of the instances: those for the
/// last stand at the end, and before them the runs for the others.
pub proof fn runs_stand_in_the_order_of_the_instances(
    plans: Seq<NetshRule>,
    more: Seq<NetshRule>,
    instances: Seq<InstanceInfo>,
    n: int,
)
    requires
        0 <= n < instances.len(),
        runs_for_all(plans, instances, n),
    ensures
        runs_for(
            more,
            hex_digits(instances[n].id as nat, 32),
            instance_rules(instances[n]),
        ) <==> runs_for_all(plans + more, instances, n + 1) && more.len() == instance_rules(
            instances[n],
        ).len(),
        n == 0 ==> plans.len() == 0,
{
    let all = plans + more;
    let count = instance_rules(instances[n]).len() as int;
    if more.len() == count {
        assert(all.take(all.len() - count) =~= plans);
        assert(all.skip(all.len() - count) =~= more);
    }
}

/// An output that is too long with the other behind it is cut within that.
pub proof fn long_outputs_are_cut(stdout: Seq<char>, stderr: Seq<char>)
    ensures
        ({
            let out = joined(words_of(stdout));
            let err = joined(words_of(stderr));
            &&& out.len() > 0 && err.len() > 0 && out.len() + 1 + err.len() > 200 ==> netsh_summary(
                stdout,
                stderr,
            ) == (out + seq![' '] + err).take(200)
            &&& out.len() == 0 && err.len() > 200 ==> netsh_summary(stdout, stderr) == err.take(200)
        }),
{
}

} // verus!
