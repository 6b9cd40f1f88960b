//! Runtime preconditions of a VT against the knowledge base of the scanned host.
use vstd::prelude::*;
use vstd::string::*;
use crate::outcome::ScriptResultKind;

verus! {

/// Transport protocol of a required port.
#[derive(Clone, Copy, Debug, PartialEq, Eq, Structural)]
pub enum Protocol {
    TCP,
    UDP,
}

/// Canonical name of a protocol.
pub open spec fn protocol_name(p: Protocol) -> Seq<char> {
    match p {
        Protocol::TCP => "tcp"@,
        Protocol::UDP => "udp"@,
    }
}

impl Protocol {
    /// Canonical name of the protocol, as used in knowledge-base keys.
    pub fn name(&self) -> (r: &'static str)
        ensures
            r@ == protocol_name(*self),
    {
        match self {
            Protocol::TCP => "tcp",
            Protocol::UDP => "udp",
        }
    }
}

/// The knowledge-base key that records whether a port is enabled:
/// `Ports/<protocol>/<port>`.
pub open spec fn port_kb_key(protocol: Protocol, port: Seq<char>) -> Seq<char> {
    "Ports/"@ + protocol_name(protocol) + "/"@ + port
}

/// Builds the knowledge-base key `Ports/<protocol>/<port>`.
pub fn generate_port_kb_key(protocol: Protocol, port: &str) -> (r: String)
    ensures
        r@ == port_kb_key(protocol, port@),
{
    let mut key = String::from_str("Ports/");
    key.append(protocol.name());
    key.append("/");
    key.append(port);
    key
}

/// What a lookup of one key in the knowledge base gave.
#[derive(Clone, Copy, Debug, PartialEq, Eq, Structural)]
pub enum KbLookup {
    /// No entry under the key.
    Missing,
    /// An entry, with its value coerced to a boolean.
    Found(bool),
    /// The store failed to answer.
    StoreError,
}

/// One key that a VT names, with what the knowledge base holds under it.
#[derive(Clone, Debug, PartialEq, Eq)]
pub struct KeyCheck {
    pub key: String,
    pub lookup: KbLookup,
}

/// The preconditions of a VT, each name paired with its lookup in the
/// knowledge base of the current host. Ports are the port strings as the VT
/// declares them, looked up under `Ports/<protocol>/<port>`.
#[derive(Clone, Debug, PartialEq, Eq)]
pub struct Preconditions {
    pub required_keys: Vec<KeyCheck>,
    pub mandatory_keys: Vec<KeyCheck>,
    pub excluded_keys: Vec<KeyCheck>,
    pub tcp_ports: Vec<KeyCheck>,
    pub udp_ports: Vec<KeyCheck>,
}

/// The kinds of precondition, in the order in which they are checked.
#[derive(Clone, Copy, Debug, PartialEq, Eq, Structural)]
pub enum Rule {
    RequiredKey,
    MandatoryKey,
    ExcludedKey,
    TcpPort,
    UdpPort,
}

/// A lookup that fails a precondition of this kind. Required and mandatory
/// keys fail closed on a store error; excluded keys fail open.
pub open spec fn denies(rule: Rule, l: KbLookup) -> bool {
    match rule {
        Rule::RequiredKey => !(l is Found),
        Rule::MandatoryKey => !(l is Found),
        Rule::ExcludedKey => l is Found,
        Rule::TcpPort => l != KbLookup::Found(true),
        Rule::UdpPort => l != KbLookup::Found(true),
    }
}

/// No check of `s` fails.
pub open spec fn passes_all(s: Seq<KeyCheck>, rule: Rule) -> bool {
    forall|i: int| 0 <= i < s.len() ==> !denies(rule, #[trigger] s[i].lookup)
}

/// `i` is the first check of `s` that fails.
pub open spec fn first_denied_at(s: Seq<KeyCheck>, rule: Rule, i: int) -> bool {
    &&& 0 <= i < s.len()
    &&& denies(rule, s[i].lookup)
    &&& forall|j: int| 0 <= j < i ==> !denies(rule, #[trigger] s[j].lookup)
}

/// The checks of `p` of one kind.
pub open spec fn checks_of(p: Preconditions, rule: Rule) -> Seq<KeyCheck> {
    match rule {
        Rule::RequiredKey => p.required_keys@,
        Rule::MandatoryKey => p.mandatory_keys@,
        Rule::ExcludedKey => p.excluded_keys@,
        Rule::TcpPort => p.tcp_ports@,
        Rule::UdpPort => p.udp_ports@,
    }
}

/// `k` is the denial that a failed check of this kind on `key` gives.
pub open spec fn is_denial(k: ScriptResultKind, rule: Rule, key: Seq<char>) -> bool {
    match rule {
        Rule::RequiredKey => k matches ScriptResultKind::MissingRequiredKey(n) && n@ == key,
        Rule::MandatoryKey => k matches ScriptResultKind::MissingMandatoryKey(n) && n@ == key,
        Rule::ExcludedKey => k matches ScriptResultKind::ContainsExcludedKey(n) && n@ == key,
        Rule::TcpPort => k matches ScriptResultKind::MissingPort(Protocol::TCP, n) && n@ == key,
        Rule::UdpPort => k matches ScriptResultKind::MissingPort(Protocol::UDP, n) && n@ == key,
    }
}

/// The index of the first failing check of `s`; meaningful when some check fails.
pub open spec fn first_denied(s: Seq<KeyCheck>, rule: Rule) -> int {
    choose|i: int| first_denied_at(s, rule, i)
}

/// Which check decides: `None` when every check passes, else the kind and
/// index of the first failing check, taking the kinds in the order
/// required keys, mandatory keys, excluded keys, TCP ports, UDP ports.
pub open spec fn deciding_check(p: Preconditions) -> Option<(Rule, int)> {
    if !passes_all(p.required_keys@, Rule::RequiredKey) {
        Some((Rule::RequiredKey, first_denied(p.required_keys@, Rule::RequiredKey)))
    } else if !passes_all(p.mandatory_keys@, Rule::MandatoryKey) {
        Some((Rule::MandatoryKey, first_denied(p.mandatory_keys@, Rule::MandatoryKey)))
    } else if !passes_all(p.excluded_keys@, Rule::ExcludedKey) {
        Some((Rule::ExcludedKey, first_denied(p.excluded_keys@, Rule::ExcludedKey)))
    } else if !passes_all(p.tcp_ports@, Rule::TcpPort) {
        Some((Rule::TcpPort, first_denied(p.tcp_ports@, Rule::TcpPort)))
    } else if !passes_all(p.udp_ports@, Rule::UdpPort) {
        Some((Rule::UdpPort, first_denied(p.udp_ports@, Rule::UdpPort)))
    } else {
        None
    }
}

/// `r` is the verdict of the preconditions `p`: permit when no check fails,
/// else the denial of the deciding check, naming its key.
pub open spec fn is_verdict(p: Preconditions, r: Result<(), ScriptResultKind>) -> bool {
    match deciding_check(p) {
        None => r is Ok,
        Some((rule, i)) => r matches Err(k) && is_denial(k, rule, checks_of(p, rule)[i].key@),
    }
}

fn fails(rule: Rule, l: KbLookup) -> (r: bool)
    ensures
        r == denies(rule, l),
{
    match rule {
        Rule::RequiredKey | Rule::MandatoryKey => !matches!(l, KbLookup::Found(_)),
        Rule::ExcludedKey => matches!(l, KbLookup::Found(_)),
        Rule::TcpPort | Rule::UdpPort => !matches!(l, KbLookup::Found(true)),
    }
}

/// Checks one kind of precondition: `Ok` when every check passes, else the
/// denial for the first one that fails.
fn check_rule(checks: &Vec<KeyCheck>, rule: Rule) -> (r: Result<(), ScriptResultKind>)
    ensures
        r is Ok <==> passes_all(checks@, rule),
        r matches Err(k) ==> is_denial(k, rule, checks@[first_denied(checks@, rule)].key@),
{
    let ghost s = checks@;
    let mut i: usize = 0;
    while i < checks.len()
        invariant
            checks@ == s,
            i <= s.len(),
            forall|j: int| 0 <= j < i ==> !denies(rule, #[trigger] s[j].lookup),
        decreases s.len() - i,
    {
        if fails(rule, checks[i].lookup) {
            proof {
                assert(first_denied_at(s, rule, i as int));
                let c = choose|c: int| first_denied_at(s, rule, c);
                if c < i {
                    assert(!denies(rule, s[c].lookup));
                } else if c > i {
                    assert(!denies(rule, s[i as int].lookup));
                }
                assert(first_denied(s, rule) == i as int);
            }
            let key = String::from_str(checks[i].key.as_str());
            return Err(
                match rule {
                    Rule::RequiredKey => ScriptResultKind::MissingRequiredKey(key),
                    Rule::MandatoryKey => ScriptResultKind::MissingMandatoryKey(key),
                    Rule::ExcludedKey => ScriptResultKind::ContainsExcludedKey(key),
                    Rule::TcpPort => ScriptResultKind::MissingPort(Protocol::TCP, key),
                    Rule::UdpPort => ScriptResultKind::MissingPort(Protocol::UDP, key),
                },
            );
        }
        i += 1;
    }
    Ok(())
}

/// Decides whether a VT may run: required keys, mandatory keys, excluded
/// keys, TCP ports and UDP ports are checked in this order, and the first
/// failing check gives the denial.
pub fn check_keys(p: &Preconditions) -> (r: Result<(), ScriptResultKind>)
    ensures
        is_verdict(*p, r),
{
    check_rule(&p.required_keys, Rule::RequiredKey)?;
    check_rule(&p.mandatory_keys, Rule::MandatoryKey)?;
    check_rule(&p.excluded_keys, Rule::ExcludedKey)?;
    check_rule(&p.tcp_ports, Rule::TcpPort)?;
    check_rule(&p.udp_ports, Rule::UdpPort)?;
    Ok(())
}

/// Decides whether a VT invocation may start: one that carries parameters
/// is refused, since parameters cannot be bound yet; otherwise the
/// preconditions decide.
pub fn may_run(has_parameters: bool, p: &Preconditions) -> (r: Result<(), ScriptResultKind>)
    ensures
        has_parameters ==> r == Err::<(), ScriptResultKind>(ScriptResultKind::Parameter),
        !has_parameters ==> is_verdict(*p, r),
{
    if has_parameters {
        Err(ScriptResultKind::Parameter)
    } else {
        check_keys(p)
    }
}

} // verus!
