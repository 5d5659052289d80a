//! Rules for the interface of the virtual network.
use crate::firewall::program_rules::{direction, direction_text, FirewallRule};
use crate::text::{copy_text, join_three, push_text, texts};
use vstd::prelude::*;

verus! {

/// A protocol that gets rules of its own, or all of them.
#[derive(Clone, Copy, Debug, PartialEq, Eq, Structural)]
pub enum RuleProtocol {
    Tcp,
    Udp,
    Icmp,
    All,
}

/// The name of a protocol.
pub open spec fn protocol_name(protocol: RuleProtocol) -> Seq<char> {
    match protocol {
        RuleProtocol::Tcp => "TCP"@,
        RuleProtocol::Udp => "UDP"@,
        RuleProtocol::Icmp => "ICMP"@,
        RuleProtocol::All => "ALL"@,
    }
}

/// The number of a protocol; none for all of them.
pub open spec fn protocol_number(protocol: RuleProtocol) -> Option<i32> {
    match protocol {
        RuleProtocol::Tcp => Some(6),
        RuleProtocol::Udp => Some(17),
        RuleProtocol::Icmp => Some(1),
        RuleProtocol::All => None,
    }
}

/// The name of a protocol.
fn protocol_text(protocol: RuleProtocol) -> (s: String)
    ensures
        s@ == protocol_name(protocol),
{
    match protocol {
        RuleProtocol::Tcp => copy_text("TCP"),
        RuleProtocol::Udp => copy_text("UDP"),
        RuleProtocol::Icmp => copy_text("ICMP"),
        RuleProtocol::All => copy_text("ALL"),
    }
}

/// The name of the rule for a protocol in one direction.
pub open spec fn rule_name(interface: Seq<char>, protocol: RuleProtocol, inbound: bool) -> Seq<
    char,
> {
    "EasyTier "@ + interface + " - "@ + protocol_name(protocol) + " Protocol ("@ + direction(
        inbound,
    ) + ")"@
}

/// The name of the rule for a protocol in one direction.
fn rule_name_text(interface: &str, protocol: RuleProtocol, inbound: bool) -> (s: String)
    ensures
        s@ == rule_name(interface@, protocol, inbound),
{
    let mut s = join_three("EasyTier ", interface, " - ");
    push_text(&mut s, protocol_text(protocol).as_str());
    push_text(&mut s, " Protocol (");
    push_text(&mut s, direction_text(inbound).as_str());
    push_text(&mut s, ")");
    s
}

/// The rule is the one for a protocol in one direction.
pub open spec fn is_interface_rule(
    rule: FirewallRule,
    interface: Seq<char>,
    protocol: RuleProtocol,
    inbound: bool,
) -> bool {
    &&& rule.name@ == rule_name(interface, protocol, inbound)
    &&& rule.description@ == "Allow "@ + protocol_name(protocol)
        + " traffic on EasyTier interface "@ + interface
    &&& rule.application is None
    &&& rule.protocol == protocol_number(protocol)
    &&& rule.inbound == inbound
    &&& (rule.interface matches Some(name) && name@ == interface)
    &&& rule.grouping@ == "EasyTier"@
}

/// The rule for a protocol in one direction.
fn interface_rule(interface: &str, protocol: RuleProtocol, inbound: bool) -> (rule: FirewallRule)
    ensures
        is_interface_rule(rule, interface@, protocol, inbound),
{
    let mut description = join_three(
        "Allow ",
        protocol_text(protocol).as_str(),
        " traffic on EasyTier interface ",
    );
    push_text(&mut description, interface);
    FirewallRule {
        name: rule_name_text(interface, protocol, inbound),
        description,
        application: None,
        protocol: match protocol {
            RuleProtocol::Tcp => Some(6),
            RuleProtocol::Udp => Some(17),
            RuleProtocol::Icmp => Some(1),
            RuleProtocol::All => None,
        },
        inbound,
        interface: Some(copy_text(interface)),
        grouping: copy_text("EasyTier"),
    }
}

/// The rules for a protocol: inbound, then outbound.
pub fn add_protocol_firewall_rules(interface: &str, protocol: RuleProtocol) -> (rules: (
    FirewallRule,
    FirewallRule,
))
    ensures
        is_interface_rule(rules.0, interface@, protocol, true),
        is_interface_rule(rules.1, interface@, protocol, false),
{
    (interface_rule(interface, protocol, true), interface_rule(interface, protocol, false))
}

/// The protocols, in the order of their rules.
pub open spec fn protocol_at(i: int) -> RuleProtocol {
    if i == 0 {
        RuleProtocol::Tcp
    } else if i == 1 {
        RuleProtocol::Udp
    } else if i == 2 {
        RuleProtocol::Icmp
    } else {
        RuleProtocol::All
    }
}

/// The rules are those of an interface: for each protocol one inbound and one outbound.
pub open spec fn are_interface_rules(rules: Seq<FirewallRule>, interface: Seq<char>) -> bool {
    &&& rules.len() == 8
    &&& forall|i: int| #![trigger rules[i]]
        0 <= i < 8 ==> is_interface_rule(rules[i], interface, protocol_at(i / 2), i % 2 == 0)
}

/// The names are those of the rules of an interface.
pub open spec fn are_rule_names(names: Seq<String>, interface: Seq<char>) -> bool {
    &&& names.len() == 8
    &&& forall|i: int| #![trigger names[i]]
        0 <= i < 8 ==> names[i]@ == rule_name(interface, protocol_at(i / 2), i % 2 == 0)
}

/// The rules that let all traffic of an interface through: for each protocol and for all of them,
/// inbound and outbound.
pub fn add_interface_to_firewall_allowlist(interface: &str) -> (rules: Vec<FirewallRule>)
    ensures
        are_interface_rules(rules@, interface@),
{
    let mut rules: Vec<FirewallRule> = Vec::new();
    let (a, b) = add_protocol_firewall_rules(interface, RuleProtocol::Tcp);
    rules.push(a);
    rules.push(b);
    let (a, b) = add_protocol_firewall_rules(interface, RuleProtocol::Udp);
    rules.push(a);
    rules.push(b);
    let (a, b) = add_protocol_firewall_rules(interface, RuleProtocol::Icmp);
    rules.push(a);
    rules.push(b);
    let (a, b) = add_protocol_firewall_rules(interface, RuleProtocol::All);
    rules.push(a);
    rules.push(b);
    rules
}

/// The names of the rules of an interface, in the order in which they are added.
fn rule_names(interface: &str) -> (names: Vec<String>)
    ensures
        are_rule_names(names@, interface@),
{
    let mut names: Vec<String> = Vec::new();
    names.push(rule_name_text(interface, RuleProtocol::Tcp, true));
    names.push(rule_name_text(interface, RuleProtocol::Tcp, false));
    names.push(rule_name_text(interface, RuleProtocol::Udp, true));
    names.push(rule_name_text(interface, RuleProtocol::Udp, false));
    names.push(rule_name_text(interface, RuleProtocol::Icmp, true));
    names.push(rule_name_text(interface, RuleProtocol::Icmp, false));
    names.push(rule_name_text(interface, RuleProtocol::All, true));
    names.push(rule_name_text(interface, RuleProtocol::All, false));
    names
}

/// The names of the rules to remove for an interface; that one is not there counts for nothing.
pub fn remove_interface_firewall_rules(interface: &str) -> (names: Vec<String>)
    ensures
        are_rule_names(names@, interface@),
{
    rule_names(interface)
}

/// The name at `i` among those that are looked for: that of the rule which is added there.
pub open spec fn listed_name(interface: Seq<char>, i: int) -> Seq<char> {
    rule_name(interface, protocol_at(i / 2), i % 2 == 0)
}

/// The names of the rules that are looked for.
pub fn listed_rule_names(interface: &str) -> (names: Vec<String>)
    ensures
        are_rule_names(names@, interface@),
        forall|i: int| #![trigger names@[i]]
            0 <= i < 8 ==> names@[i]@ == listed_name(interface@, i),
{
    rule_names(interface)
}

/// The first `n` names that are looked for and are there.
pub open spec fn found_names(interface: Seq<char>, there: Seq<bool>, n: int) -> Seq<Seq<char>>
    decreases n,
{
    if n <= 0 {
        Seq::empty()
    } else {
        let rest = found_names(interface, there, n - 1);
        if there[n - 1] {
            rest.push(listed_name(interface, n - 1))
        } else {
            rest
        }
    }
}

/// The names that are looked for and are there. `there` says so of each, in their order.
pub fn list_interface_firewall_rules(interface: &str, there: &Vec<bool>) -> (found: Vec<String>)
    requires
        there@.len() == 8,
    ensures
        texts(found@) == found_names(interface@, there@, 8),
{
    let names = listed_rule_names(interface);
    let mut found: Vec<String> = Vec::new();
    let mut i: usize = 0;
    assert(texts(found@) =~= Seq::empty());
    while i < 8
        invariant
            i <= 8,
            there@.len() == 8,
            names@.len() == 8,
            forall|k: int| #![trigger names@[k]]
                0 <= k < 8 ==> names@[k]@ == listed_name(interface@, k),
            texts(found@) == found_names(interface@, there@, i as int),
        decreases 8 - i,
    {
        if there[i] {
            let ghost before = texts(found@);
            found.push(copy_text(names[i].as_str()));
            assert(texts(found@) =~= before.push(listed_name(interface@, i as int)));
        }
        i = i + 1;
    }
    found
}

/// What is removed for an interface is what was added for it.
pub proof fn removal_undoes_addition(
    rules: Seq<FirewallRule>,
    names: Seq<String>,
    interface: Seq<char>,
)
    requires
        are_interface_rules(rules, interface),
        are_rule_names(names, interface),
    ensures
        rules.len() == names.len(),
        forall|i: int| 0 <= i < rules.len() ==> (#[trigger] rules[i]).name@ == names[i]@,
{
    assert forall|i: int| 0 <= i < rules.len() implies (#[trigger] rules[i]).name@
        == names[i]@ by {
        assert(names[i]@ == rule_name(interface, protocol_at(i / 2), i % 2 == 0));
    }
}

/// What is listed where the rules of the given names are there.
pub open spec fn listed(there: Set<Seq<char>>, interface: Seq<char>) -> Seq<Seq<char>> {
    found_names(interface, Seq::new(8, |i: int| there.contains(listed_name(interface, i))), 8)
}

/// The name is that of a rule of an interface.
pub open spec fn is_rule_name(name: Seq<char>, interface: Seq<char>) -> bool {
    exists|protocol: RuleProtocol, inbound: bool|
        name == #[trigger] rule_name(interface, protocol, inbound)
}

/// Once the rules of an interface were added, they are listed, all of them and in their order.
pub proof fn added_rules_are_listed(
    there: Set<Seq<char>>,
    interface: Seq<char>,
    protocol: RuleProtocol,
    inbound: bool,
)
    requires
        forall|name: Seq<char>| #[trigger] is_rule_name(name, interface) ==> there.contains(name),
    ensures
        listed(there, interface) == Seq::new(8, |i: int| listed_name(interface, i)),
        listed(there, interface).contains(rule_name(interface, protocol, inbound)),
{
    let found = Seq::new(8, |k: int| there.contains(listed_name(interface, k)));
    assert forall|i: int| 0 <= i < 8 implies found[i] by {
        assert(is_rule_name(rule_name(interface, protocol_at(i / 2), i % 2 == 0), interface));
    }
    lemma_all_found(interface, found, 8);
    let row: int = match protocol {
        RuleProtocol::Tcp => 0,
        RuleProtocol::Udp => 1,
        RuleProtocol::Icmp => 2,
        RuleProtocol::All => 3,
    };
    let i: int = 2 * row + (if inbound {
        0int
    } else {
        1int
    });
    assert(protocol_at(i / 2) == protocol && (i % 2 == 0) == inbound);
    assert(listed(there, interface)[i] == rule_name(interface, protocol, inbound));
}

/// Where all of them are there, all are found.
proof fn lemma_all_found(interface: Seq<char>, there: Seq<bool>, n: int)
    requires
        0 <= n <= there.len(),
        forall|i: int| 0 <= i < there.len() ==> there[i],
    ensures
        found_names(interface, there, n) == Seq::new(n as nat, |i: int| listed_name(interface, i)),
    decreases n,
{
    if n > 0 {
        lemma_all_found(interface, there, n - 1);
        assert(there[n - 1]);
    }
    assert(found_names(interface, there, n) =~= Seq::new(
        n as nat,
        |i: int| listed_name(interface, i),
    ));
}

/// Nothing is listed once the rules of the interface were removed.
pub proof fn nothing_is_listed_after_removal(there: Set<Seq<char>>, interface: Seq<char>)
    ensures
        listed(there.filter(|name: Seq<char>| !is_rule_name(name, interface)), interface) == Seq::<
            Seq<char>,
        >::empty(),
{
    let left = there.filter(|name: Seq<char>| !is_rule_name(name, interface));
    let found = Seq::new(8, |k: int| left.contains(listed_name(interface, k)));
    assert forall|i: int| 0 <= i < found.len() implies !found[i] by {
        assert(is_rule_name(rule_name(interface, protocol_at(i / 2), i % 2 == 0), interface));
    }
    lemma_none_found(interface, found, 8);
}

/// Where nothing is there, nothing is found.
proof fn lemma_none_found(interface: Seq<char>, there: Seq<bool>, n: int)
    requires
        0 <= n <= there.len(),
        forall|i: int| 0 <= i < there.len() ==> !there[i],
    ensures
        found_names(interface, there, n) == Seq::<Seq<char>>::empty(),
    decreases n,
{
    if n > 0 {
        lemma_none_found(interface, there, n - 1);
    }
}

/// The protocols by their numbers and names; all of them together have no number.
pub proof fn protocols_by_number_and_name()
    ensures
        protocol_number(RuleProtocol::Tcp) == Some(6i32),
        protocol_number(RuleProtocol::Udp) == Some(17i32),
        protocol_number(RuleProtocol::Icmp) == Some(1i32),
        protocol_number(RuleProtocol::All) is None,
        protocol_name(RuleProtocol::Tcp) == "TCP"@,
        protocol_name(RuleProtocol::Udp) == "UDP"@,
        protocol_name(RuleProtocol::Icmp) == "ICMP"@,
        protocol_name(RuleProtocol::All) == "ALL"@,
{
}

/// The rule for a protocol in one direction is for exactly this interface, protocol and direction, and
/// for no program in particular. Its name and its description say so.
pub proof fn the_rule_for_an_interface(
    rule: FirewallRule,
    interface: Seq<char>,
    protocol: RuleProtocol,
    inbound: bool,
)
    requires
        is_interface_rule(rule, interface, protocol, inbound),
    ensures
        rule.inbound == inbound,
        rule.interface matches Some(name) && name@ == interface,
        rule.protocol == (match protocol {
            RuleProtocol::Tcp => Some(6i32),
            RuleProtocol::Udp => Some(17i32),
            RuleProtocol::Icmp => Some(1i32),
            RuleProtocol::All => None,
        }),
        rule.application is None,
        rule.grouping@ == "EasyTier"@,
        rule.name@ == "EasyTier "@ + interface + " - "@ + protocol_name(protocol) + " Protocol ("@
            + (if inbound {
            "Inbound"@
        } else {
            "Outbound"@
        }) + ")"@,
        rule.description@ == "Allow "@ + protocol_name(protocol) + " traffic on EasyTier interface "@
            + interface,
{
}

/// An interface gets eight rules: for TCP, UDP, ICMP and all protocols, each inbound and outbound.
pub proof fn the_rules_of_an_interface(rules: Seq<FirewallRule>, interface: Seq<char>)
    requires
        are_interface_rules(rules, interface),
    ensures
        rules.len() == 8,
        is_interface_rule(rules[0], interface, RuleProtocol::Tcp, true),
        is_interface_rule(rules[1], interface, RuleProtocol::Tcp, false),
        is_interface_rule(rules[2], interface, RuleProtocol::Udp, true),
        is_interface_rule(rules[3], interface, RuleProtocol::Udp, false),
        is_interface_rule(rules[4], interface, RuleProtocol::Icmp, true),
        is_interface_rule(rules[5], interface, RuleProtocol::Icmp, false),
        is_interface_rule(rules[6], interface, RuleProtocol::All, true),
        is_interface_rule(rules[7], interface, RuleProtocol::All, false),
{
}

/// The rules of one interface have different names.
pub proof fn names_tell_the_rules_apart(
    interface: Seq<char>,
    p: RuleProtocol,
    q: RuleProtocol,
    a: bool,
    b: bool,
)
    requires
        rule_name(interface, p, a) == rule_name(interface, q, b),
    ensures
        p == q,
        a == b,
{
    let n = 12 + interface.len() as int;
    let x = rule_name(interface, p, a);
    let y = rule_name(interface, q, b);
    reveal_strlit("EasyTier ");
    reveal_strlit(" - ");
    reveal_strlit("TCP");
    reveal_strlit("UDP");
    reveal_strlit("ICMP");
    reveal_strlit("ALL");
    reveal_strlit(" Protocol (");
    reveal_strlit("Inbound");
    reveal_strlit("Outbound");
    reveal_strlit(")");
    assert(x[n] == protocol_name(p)[0]);
    assert(y[n] == protocol_name(q)[0]);
    assert(p == q);
    assert(direction(true).len() != direction(false).len());
    assert(x.len() == n + protocol_name(p).len() + 12 + direction(a).len());
    assert(y.len() == n + protocol_name(q).len() + 12 + direction(b).len());
}

/// The names that are found are those that are there, in their order.
pub proof fn found_names_are_those_that_are_there(
    interface: Seq<char>,
    there: Seq<bool>,
    n: int,
)
    requires
        0 <= n < there.len(),
    ensures
        there[n] ==> found_names(interface, there, n + 1) == found_names(interface, there, n).push(
            listed_name(interface, n),
        ),
        !there[n] ==> found_names(interface, there, n + 1) == found_names(interface, there, n),
        found_names(interface, there, 0).len() == 0,
{
}

/// The names that are looked for are those of the rules that are added, one by one.
pub proof fn names_are_looked_for_as_they_are_added(interface: Seq<char>)
    ensures
        listed_name(interface, 0) == rule_name(interface, RuleProtocol::Tcp, true),
        listed_name(interface, 1) == rule_name(interface, RuleProtocol::Tcp, false),
        listed_name(interface, 2) == rule_name(interface, RuleProtocol::Udp, true),
        listed_name(interface, 3) == rule_name(interface, RuleProtocol::Udp, false),
        listed_name(interface, 4) == rule_name(interface, RuleProtocol::Icmp, true),
        listed_name(interface, 5) == rule_name(interface, RuleProtocol::Icmp, false),
        listed_name(interface, 6) == rule_name(interface, RuleProtocol::All, true),
        listed_name(interface, 7) == rule_name(interface, RuleProtocol::All, false),
{
}

} // verus!
