//! A host and a port.
use vstd::prelude::*;
use vstd::string::*;
use crate::text::{decimal, push_decimal, same_text};

verus! {

#[derive(Debug, PartialEq, Eq)]
pub struct Address {
    pub host: String,
    pub port: u16,
}

impl Clone for Address {
    fn clone(&self) -> (r: Address)
        ensures
            r == *self,
    {
        Address { host: self.host.clone(), port: self.port }
    }
}

/// A host and a port with a colon between them.
pub open spec fn host_and_port(host: Seq<char>, port: u16) -> Seq<char> {
    host + ":"@ + decimal(port as nat)
}

/// Writes a host and a port with a colon between them.
pub fn join_host_port(host: &str, port: u16) -> (r: String)
    ensures
        r@ == host_and_port(host@, port),
{
    let mut r: String = crate::text::owned(host);
    r.append(":");
    push_decimal(&mut r, port as u64);
    r
}

impl Address {
    pub open spec fn text(&self) -> Seq<char> {
        host_and_port(self.host@, self.port)
    }

    /// How the address reads: `host:port`.
    pub fn message(&self) -> (r: String)
        ensures
            r@ == self.text(),
    {
        join_host_port(self.host.as_str(), self.port)
    }

    /// Whether both name the same host and port.
    pub open spec fn same_as(&self, other: &Address) -> bool {
        self.host@ == other.host@ && self.port == other.port
    }

    pub fn same(&self, other: &Address) -> (r: bool)
        ensures
            r == self.same_as(other),
    {
        self.port == other.port && same_text(self.host.as_str(), other.host.as_str())
    }
}

/// An address reads as its host and its port with a colon between, and the port
/// reads back from what stands behind the colon.
pub proof fn an_address_reads_as_host_and_port(a: Address)
    ensures
        a.text().len() > a.host@.len() + 1,
        a.text().take(a.host@.len() as int) == a.host@,
        a.text()[a.host@.len() as int] == ':',
        crate::text::digits_value(a.text().skip(a.host@.len() as int + 1)) == a.port,
        crate::text::all_digits(a.text().skip(a.host@.len() as int + 1)),
{
    reveal_strlit(":");
    crate::text::a_written_number_reads_back(a.port as nat);
    assert(a.text().take(a.host@.len() as int) =~= a.host@);
    assert(a.text().skip(a.host@.len() as int + 1) =~= decimal(a.port as nat));
}

/// Addresses are the same where host and port are, and then they read the same.
pub proof fn an_address_is_its_host_and_its_port(a: Address, b: Address)
    ensures
        a.same_as(&b) <==> a.host@ == b.host@ && a.port == b.port,
        a.same_as(&b) ==> a.text() == b.text(),
{
}

} // verus!
