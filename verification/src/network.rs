//! Networking: VPC, subnets, security groups and traffic rules.

use vstd::prelude::*;
use crate::text::{owned, decimal, push_decimal};

verus! {

/// VPC settings, subnets and security policies.
#[derive(Debug, Clone)]
pub struct NetworkConfig {
    /// VPC CIDR block (e.g., "10.0.0.0/16")
    pub vpc_cidr: String,
    /// Subnets within this network
    pub subnets: Vec<Subnet>,
    /// Security groups for traffic control
    pub security_groups: Vec<SecurityGroup>,
}

impl NetworkConfig {
    /// Create a network with the given VPC block and no subnets or groups.
    pub fn new(vpc_cidr: &str) -> (r: Self)
        ensures
            r.vpc_cidr@ == vpc_cidr@,
            r.subnets@.len() == 0,
            r.security_groups@.len() == 0,
    {
        NetworkConfig { vpc_cidr: owned(vpc_cidr), subnets: Vec::new(), security_groups: Vec::new() }
    }

    /// Append a subnet, leaving everything else unchanged.
    pub fn add_subnet(self, subnet: Subnet) -> (r: Self)
        ensures
            r.subnets@ == self.subnets@.push(subnet),
            r.vpc_cidr == self.vpc_cidr,
            r.security_groups == self.security_groups,
    {
        let mut s = self;
        s.subnets.push(subnet);
        s
    }

    /// Append a security group, leaving everything else unchanged.
    pub fn add_security_group(self, sg: SecurityGroup) -> (r: Self)
        ensures
            r.security_groups@ == self.security_groups@.push(sg),
            r.vpc_cidr == self.vpc_cidr,
            r.subnets == self.subnets,
    {
        let mut s = self;
        s.security_groups.push(sg);
        s
    }
}

impl Default for NetworkConfig {
    fn default() -> (r: Self)
        ensures
            r.vpc_cidr@ == "10.0.0.0/16"@,
            r.subnets@.len() == 0,
            r.security_groups@.len() == 0,
    {
        NetworkConfig::new("10.0.0.0/16")
    }
}

/// Subnet within a network.
#[derive(Debug, Clone)]
pub struct Subnet {
    /// CIDR block for this subnet (e.g., "10.0.1.0/24")
    pub cidr: String,
    /// Availability zone or location
    pub availability_zone: String,
    /// Whether this is a public subnet (has internet access)
    pub is_public: bool,
}

impl Subnet {
    /// Create a private subnet.
    pub fn new(cidr: &str, availability_zone: &str) -> (r: Self)
        ensures
            r.cidr@ == cidr@,
            r.availability_zone@ == availability_zone@,
            !r.is_public,
    {
        Subnet { cidr: owned(cidr), availability_zone: owned(availability_zone), is_public: false }
    }

    /// Mark this subnet as public, leaving the rest unchanged.
    pub fn as_public(self) -> (r: Self)
        ensures
            r == (Subnet { is_public: true, ..self }),
    {
        let mut s = self;
        s.is_public = true;
        s
    }
}

/// Security group: named inbound and outbound traffic rules.
#[derive(Debug, Clone)]
pub struct SecurityGroup {
    /// Security group name
    pub name: String,
    /// Description of the security group's purpose
    pub description: String,
    /// Inbound traffic rules
    pub ingress: Vec<IngressRule>,
    /// Outbound traffic rules
    pub egress: Vec<EgressRule>,
}

impl SecurityGroup {
    /// Create a security group with no rules.
    pub fn new(name: &str, description: &str) -> (r: Self)
        ensures
            r.name@ == name@,
            r.description@ == description@,
            r.ingress@.len() == 0,
            r.egress@.len() == 0,
    {
        SecurityGroup {
            name: owned(name),
            description: owned(description),
            ingress: Vec::new(),
            egress: Vec::new(),
        }
    }

    /// Append an ingress rule, leaving everything else unchanged.
    pub fn add_ingress(self, rule: IngressRule) -> (r: Self)
        ensures
            r.ingress@ == self.ingress@.push(rule),
            r.name == self.name,
            r.description == self.description,
            r.egress == self.egress,
    {
        let mut s = self;
        s.ingress.push(rule);
        s
    }

    /// Append an egress rule, leaving everything else unchanged.
    pub fn add_egress(self, rule: EgressRule) -> (r: Self)
        ensures
            r.egress@ == self.egress@.push(rule),
            r.name == self.name,
            r.description == self.description,
            r.ingress == self.ingress,
    {
        let mut s = self;
        s.egress.push(rule);
        s
    }
}

/// The port range text of a rule: the single port when both ends agree,
/// `from-to` otherwise.
pub open spec fn port_range_text(from_port: u16, to_port: u16) -> Seq<char> {
    if from_port == to_port {
        decimal(from_port as nat)
    } else {
        decimal(from_port as nat) + seq!['-'] + decimal(to_port as nat)
    }
}

fn format_port_range(from_port: u16, to_port: u16) -> (r: String)
    ensures
        r@ == port_range_text(from_port, to_port),
{
    let mut s = String::new();
    push_decimal(&mut s, from_port as u64);
    if from_port != to_port {
        s.push('-');
        push_decimal(&mut s, to_port as u64);
    }
    assert(s@ =~= port_range_text(from_port, to_port));
    s
}

/// Inbound traffic rule.
#[derive(Debug, Clone)]
pub struct IngressRule {
    /// Protocol: tcp, udp, icmp, or -1 (all)
    pub protocol: String,
    /// Port or port range (e.g., "80", "80-443")
    pub port_range: String,
    /// CIDR block or security group ID (e.g., "0.0.0.0/0" or "sg-xxx")
    pub source: String,
}

impl IngressRule {
    /// Create an ingress rule for the ports `from_port..=to_port`.
    pub fn new(protocol: &str, from_port: u16, to_port: u16, source: &str) -> (r: Self)
        ensures
            r.protocol@ == protocol@,
            r.port_range@ == port_range_text(from_port, to_port),
            r.source@ == source@,
    {
        let port_range = format_port_range(from_port, to_port);
        IngressRule { protocol: owned(protocol), port_range, source: owned(source) }
    }
}

/// Outbound traffic rule.
#[derive(Debug, Clone)]
pub struct EgressRule {
    /// Protocol: tcp, udp, icmp, or -1 (all)
    pub protocol: String,
    /// Port or port range (e.g., "80", "80-443")
    pub port_range: String,
    /// Destination CIDR block or security group ID
    pub destination: String,
}

impl EgressRule {
    /// Create an egress rule for the ports `from_port..=to_port`.
    pub fn new(protocol: &str, from_port: u16, to_port: u16, destination: &str) -> (r: Self)
        ensures
            r.protocol@ == protocol@,
            r.port_range@ == port_range_text(from_port, to_port),
            r.destination@ == destination@,
    {
        let port_range = format_port_range(from_port, to_port);
        EgressRule { protocol: owned(protocol), port_range, destination: owned(destination) }
    }
}

} // verus!
