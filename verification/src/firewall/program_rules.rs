//! Rules for the program itself.
use crate::firewall::port_rules::{
    add_exit_node_firewall_rules, add_registered_exit_node_firewall_rules, hex_digits,
    instance_rules, runs_for, runs_for_all, InstanceInfo, NetshRule,
};
use crate::scan::{is_at, occurs_at};
use crate::text::{chars_of, copy_text, join_three, push_text};
use vstd::prelude::*;

verus! {

/// A rule of the firewall that allows traffic in one direction, under every profile. It replaces
/// the rules of its name.
#[derive(Debug)]
pub struct FirewallRule {
    pub name: String,
    pub description: String,
    /// The program that the rule is for, if it is for one.
    pub application: Option<String>,
    /// The number of the protocol that the rule is for, if it is for one.
    pub protocol: Option<i32>,
    pub inbound: bool,
    /// The interface that the rule is for, if it is for one.
    pub interface: Option<String>,
    pub grouping: String,
}

/// The name of a direction.
pub open spec fn direction(inbound: bool) -> Seq<char> {
    if inbound {
        "Inbound"@
    } else {
        "Outbound"@
    }
}

/// The name of a direction.
pub fn direction_text(inbound: bool) -> (s: String)
    ensures
        s@ == direction(inbound),
{
    if inbound {
        copy_text("Inbound")
    } else {
        copy_text("Outbound")
    }
}

/// What is left of `s` from `i` on when every `p` is taken out, from left to right.
pub open spec fn removed_from(s: Seq<char>, p: Seq<char>, i: int) -> Seq<char>
    decreases s.len() - i,
{
    if i < 0 || i >= s.len() {
        Seq::empty()
    } else if p.len() > 0 && occurs_at(s, p, i) {
        removed_from(s, p, i + p.len())
    } else {
        seq![s[i]] + removed_from(s, p, i + 1)
    }
}

/// `s` with every `p` taken out.
pub open spec fn without(s: Seq<char>, p: Seq<char>) -> Seq<char> {
    removed_from(s, p, 0)
}

/// Takes every `p` out of `s`.
pub fn remove_all(s: &str, p: &str) -> (res: String)
    ensures
        res@ == without(s@, p@),
{
    let v = chars_of(s);
    let q = chars_of(p);
    let mut res = String::new();
    let mut i: usize = 0;
    while i < v.len()
        invariant
            v@ == s@,
            q@ == p@,
            i <= v@.len(),
            res@ + removed_from(v@, q@, i as int) == without(v@, q@),
        decreases v@.len() - i,
    {
        if q.len() > 0 && is_at(&v, &q, i) {
            i = i + q.len();
        } else {
            let ghost before = res@;
            res.push(v[i]);
            i = i + 1;
            assert(res@ + removed_from(v@, q@, i as int) =~= before + removed_from(
                v@,
                q@,
                i - 1,
            ));
        }
    }
    assert(res@ + removed_from(v@, q@, i as int) =~= res@);
    res
}

/// The path of a program as the firewall knows it.
pub open spec fn plain_path(exe_path: Seq<char>) -> Seq<char> {
    without(exe_path, "\\\\?\\"@)
}

/// The rule is the one for the program.
pub open spec fn is_program_rule(rule: FirewallRule, exe_path: Seq<char>, inbound: bool) -> bool {
    &&& rule.name@ == "EasyTier "@ + plain_path(exe_path) + " ("@ + direction(inbound) + ")"@
    &&& rule.description@ == "Allow EasyTier to do subnet proxy and kcp proxy"@
    &&& (rule.application matches Some(path) && path@ == plain_path(exe_path))
    &&& rule.protocol is None
    &&& rule.inbound == inbound
    &&& rule.interface is None
    &&& rule.grouping@ == "EasyTier"@
}

/// The rule that lets the program through in one direction.
pub fn do_add_self_to_firewall_allowlist(exe_path: &str, inbound: bool) -> (rule: FirewallRule)
    ensures
        is_program_rule(rule, exe_path@, inbound),
{
    let path = remove_all(exe_path, "\\\\?\\");
    let mut name = join_three("EasyTier ", path.as_str(), " (");
    push_text(&mut name, direction_text(inbound).as_str());
    push_text(&mut name, ")");
    FirewallRule {
        name,
        description: copy_text("Allow EasyTier to do subnet proxy and kcp proxy"),
        application: Some(path),
        protocol: None,
        inbound,
        interface: None,
        grouping: copy_text("EasyTier"),
    }
}

/// What lets the program and its ports through.
#[derive(Debug)]
pub struct AllowlistPlan {
    /// The runs of `netsh` for the ports; they come first, and their failures count for nothing.
    pub port_rules: Vec<NetshRule>,
    /// The rules for the program, one for each direction.
    pub inbound: FirewallRule,
    pub outbound: FirewallRule,
}

/// Why there is no rule for the program.
#[derive(Debug)]
pub enum AllowlistError {
    /// The path of the program is not known. The rules for the ports are made all the same.
    NoExecutable { port_rules: Vec<NetshRule> },
}

/// The rules for the program, behind those for the ports.
fn with_program_rules(port_rules: Vec<NetshRule>, exe_path: Option<&str>) -> (res: Result<
    AllowlistPlan,
    AllowlistError,
>)
    ensures
        res is Ok <==> exe_path is Some,
        res matches Ok(plan) ==> plan.port_rules == port_rules && is_program_rule(
            plan.inbound,
            exe_path.unwrap()@,
            true,
        ) && is_program_rule(plan.outbound, exe_path.unwrap()@, false),
        res matches Err(AllowlistError::NoExecutable { port_rules: kept }) ==> kept == port_rules,
{
    match exe_path {
        Some(path) => Ok(
            AllowlistPlan {
                port_rules,
                inbound: do_add_self_to_firewall_allowlist(path, true),
                outbound: do_add_self_to_firewall_allowlist(path, false),
            },
        ),
        None => Err(AllowlistError::NoExecutable { port_rules }),
    }
}

/// Lets the program through, and the ports of every registered exit node.
pub fn add_self_to_firewall_allowlist(instances: &Vec<InstanceInfo>, exe_path: Option<&str>) -> (
res: Result<AllowlistPlan, AllowlistError>)
    ensures
        res is Ok <==> exe_path is Some,
        res matches Ok(plan) ==> runs_for_all(
            plan.port_rules@,
            instances@,
            instances@.len() as int,
        ) && is_program_rule(plan.inbound, exe_path.unwrap()@, true) && is_program_rule(
            plan.outbound,
            exe_path.unwrap()@,
            false,
        ),
        res matches Err(AllowlistError::NoExecutable { port_rules }) ==> runs_for_all(
            port_rules@,
            instances@,
            instances@.len() as int,
        ),
{
    with_program_rules(add_registered_exit_node_firewall_rules(instances), exe_path)
}

/// Lets the program through, and the ports of one exit node.
pub fn add_self_to_firewall_allowlist_with_ctx(instance: &InstanceInfo, exe_path: Option<&str>) -> (
res: Result<AllowlistPlan, AllowlistError>)
    ensures
        res is Ok <==> exe_path is Some,
        res matches Ok(plan) ==> runs_for(
            plan.port_rules@,
            hex_digits(instance.id as nat, 32),
            instance_rules(*instance),
        ) && is_program_rule(plan.inbound, exe_path.unwrap()@, true) && is_program_rule(
            plan.outbound,
            exe_path.unwrap()@,
            false,
        ),
        res matches Err(AllowlistError::NoExecutable { port_rules }) ==> runs_for(
            port_rules@,
            hex_digits(instance.id as nat, 32),
            instance_rules(*instance),
        ),
{
    with_program_rules(add_exit_node_firewall_rules(instance), exe_path)
}

/// The directions are called `Inbound` and `Outbound`.
pub proof fn names_of_the_directions()
    ensures
        direction(true) == "Inbound"@,
        direction(false) == "Outbound"@,
{
}

/// What is left from some place on does not depend on what stands before it.
proof fn lemma_removed_shift(q: Seq<char>, s: Seq<char>, p: Seq<char>, i: int)
    requires
        0 <= i,
    ensures
        removed_from(q + s, p, q.len() + i) == removed_from(s, p, i),
    decreases s.len() - i,
{
    let all = q + s;
    if i < s.len() {
        assert(occurs_at(all, p, q.len() + i) == occurs_at(s, p, i)) by {
            if i + p.len() <= s.len() {
                assert(all.subrange(q.len() + i, q.len() + i + p.len()) =~= s.subrange(
                    i,
                    i + p.len(),
                ));
            }
        }
        assert(all[q.len() + i] == s[i]);
        if p.len() > 0 && occurs_at(s, p, i) {
            lemma_removed_shift(q, s, p, i + p.len());
        } else {
            lemma_removed_shift(q, s, p, i + 1);
        }
    }
}

/// Taking a part out takes it off the start, and goes on behind it. A character where it does not start
/// stays. Where it stands nowhere, nothing changes.
pub proof fn a_part_is_taken_out_wherever_it_stands(s: Seq<char>, p: Seq<char>, c: char)
    requires
        p.len() > 0,
    ensures
        without(p + s, p) == without(s, p),
        !occurs_at(seq![c] + s, p, 0) ==> without(seq![c] + s, p) == seq![c] + without(s, p),
        without(Seq::empty(), p) == Seq::<char>::empty(),
        (forall|i: int| !(#[trigger] occurs_at(s, p, i))) ==> without(s, p) == s,
{
    let led = p + s;
    assert(led.subrange(0, p.len() as int) =~= p);
    assert(occurs_at(led, p, 0));
    lemma_removed_shift(p, s, p, 0);
    let one = seq![c] + s;
    assert(one[0] == c);
    lemma_removed_shift(seq![c], s, p, 0);
    if forall|i: int| !(#[trigger] occurs_at(s, p, i)) {
        lemma_nothing_removed(s, p, 0);
        assert(s.subrange(0, s.len() as int) =~= s);
    }
}

/// Where the part stands nowhere, nothing is taken out.
proof fn lemma_nothing_removed(s: Seq<char>, p: Seq<char>, i: int)
    requires
        0 <= i <= s.len(),
        forall|j: int| !(#[trigger] occurs_at(s, p, j)),
    ensures
        removed_from(s, p, i) == s.subrange(i, s.len() as int),
    decreases s.len() - i,
{
    if i < s.len() {
        lemma_nothing_removed(s, p, i + 1);
        assert(s.subrange(i, s.len() as int) =~= seq![s[i]] + s.subrange(i + 1, s.len() as int));
    } else {
        assert(s.subrange(i, s.len() as int) =~= Seq::empty());
    }
}

/// The prefix of a verbatim path is taken off, and a plain path stays as it is.
pub proof fn verbatim_paths_become_plain(path: Seq<char>)
    requires
        forall|i: int| !(#[trigger] occurs_at(path, "\\\\?\\"@, i)),
    ensures
        plain_path(path) == path,
        plain_path("\\\\?\\"@ + path) == path,
{
    reveal_strlit("\\\\?\\");
    a_part_is_taken_out_wherever_it_stands(path, "\\\\?\\"@, 'a');
}

/// The rule for the program names it, is for its traffic on any interface and of any protocol, and for
/// the direction that its name says.
pub proof fn the_rule_for_the_program(rule: FirewallRule, exe_path: Seq<char>, inbound: bool)
    requires
        is_program_rule(rule, exe_path, inbound),
    ensures
        rule.inbound == inbound,
        inbound ==> rule.name@ == "EasyTier "@ + plain_path(exe_path) + " ("@ + "Inbound"@ + ")"@,
        !inbound ==> rule.name@ == "EasyTier "@ + plain_path(exe_path) + " ("@ + "Outbound"@ + ")"@,
        rule.application matches Some(path) && path@ == plain_path(exe_path),
        rule.protocol is None,
        rule.interface is None,
        rule.grouping@ == "EasyTier"@,
        rule.description@ == "Allow EasyTier to do subnet proxy and kcp proxy"@,
{
}

} // verus!
