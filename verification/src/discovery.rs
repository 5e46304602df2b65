//! What the client makes of the daemons that mDNS reports.
use vstd::prelude::*;

use crate::rest::{SERVICE_DOMAIN, SERVICE_TYPE};
use crate::text::{
    decimal, join, owned, push_decimal, push_joined, push_str, same_text, strip_prefix_or,
    strip_prefix_or_self, strip_suffix_or, strip_suffix_or_self, trim_end_char, trim_end_matches,
    views,
};

verus! {

/// One address of a resolved service, as text.
#[derive(Debug, Clone)]
pub struct HostAddress {
    pub ipv4: bool,
    pub text: String,
}

/// A resolved mDNS service: what the client reads of it.
#[derive(Debug, Clone)]
pub struct ServiceEntry {
    /// The full name: instance, service type and domain.
    pub fullname: String,
    /// The service type with its domain, as the entry reports it.
    pub service_type: String,
    pub hostname: String,
    pub port: u16,
    pub addresses: Vec<HostAddress>,
    /// The `id` text property, rendered as `id=<value>`.
    pub id_property: Option<String>,
}

/// The texts of the addresses of one family, in order.
pub open spec fn family_texts(addrs: Seq<HostAddress>, ipv4: bool) -> Seq<Seq<char>>
    decreases addrs.len(),
{
    if addrs.len() == 0 {
        Seq::<Seq<char>>::empty()
    } else if addrs.last().ipv4 == ipv4 {
        family_texts(addrs.drop_last(), ipv4).push(addrs.last().text@)
    } else {
        family_texts(addrs.drop_last(), ipv4)
    }
}

/// `host:port`.
pub open spec fn endpoint_text(host: Seq<char>, port: u16) -> Seq<char> {
    host + ":"@ + decimal(port as nat)
}

/// The node id carried in a discovery record, without an `id=` prefix.
pub fn clean_node_id(id: &str) -> (r: String)
    ensures
        r@ == strip_prefix_or_self(id@, "id="@),
{
    strip_prefix_or(id, "id=")
}

/// The node id of a resolved service: its cleaned `id` property, or empty.
pub fn entry_id(entry: &ServiceEntry) -> (r: String)
    ensures
        r@ == match entry.id_property {
            Some(p) => strip_prefix_or_self(p@, "id="@),
            None => Seq::<char>::empty(),
        },
{
    match &entry.id_property {
        Some(p) => clean_node_id(p.as_str()),
        None => String::new(),
    }
}

/// The host name of a resolved service, without trailing dots.
pub fn entry_host(entry: &ServiceEntry) -> (r: String)
    ensures
        r@ == trim_end_char(entry.hostname@, '.'),
{
    trim_end_matches(entry.hostname.as_str(), '.')
}

/// The address texts of one family.
fn texts_of_family(addrs: &Vec<HostAddress>, ipv4: bool) -> (r: Vec<String>)
    ensures
        views(r@) == family_texts(addrs@, ipv4),
{
    let mut r: Vec<String> = Vec::new();
    let mut i: usize = 0;
    while i < addrs.len()
        invariant
            i <= addrs@.len(),
            views(r@) == family_texts(addrs@.take(i as int), ipv4),
        decreases addrs@.len() - i,
    {
        assert(addrs@.take(i + 1).drop_last() =~= addrs@.take(i as int));
        if addrs[i].ipv4 == ipv4 {
            let ghost before = r@;
            let t = owned(addrs[i].text.as_str());
            r.push(t);
            assert(views(r@) =~= views(before).push(t@));
        }
        i = i + 1;
    }
    assert(addrs@.take(addrs@.len() as int) =~= addrs@);
    r
}

/// The addresses of a resolved service: IPv4 ones first, then IPv6 ones,
/// separated by commas.
pub fn entry_addresses(entry: &ServiceEntry) -> (r: String)
    ensures
        r@ == join(
            family_texts(entry.addresses@, true) + family_texts(entry.addresses@, false),
            ","@,
        ),
{
    let mut all = texts_of_family(&entry.addresses, true);
    let ghost v4 = views(all@);
    let mut v6 = texts_of_family(&entry.addresses, false);
    let ghost v6v = views(v6@);
    all.append(&mut v6);
    assert(views(all@) =~= v4 + v6v);
    let mut r = String::new();
    push_joined(&mut r, &all, ",");
    assert(r@ =~= join(v4 + v6v, ","@));
    r
}

/// The suffix that follows the instance in a full name: a dot and the service type.
pub open spec fn instance_suffix(service_type: Seq<char>) -> Seq<char> {
    "."@ + service_type
}

/// The instance name of a resolved service: its full name without the service
/// type suffix.
pub fn entry_instance(entry: &ServiceEntry) -> (r: String)
    ensures
        r@ == strip_suffix_or_self(entry.fullname@, instance_suffix(entry.service_type@)),
{
    let mut suffix = String::new();
    push_str(&mut suffix, ".");
    push_str(&mut suffix, entry.service_type.as_str());
    assert(suffix@ =~= instance_suffix(entry.service_type@));
    strip_suffix_or(entry.fullname.as_str(), suffix.as_str())
}

/// The service name that the client browses: the service type without its
/// trailing dots, a dot, and the domain.
pub fn browse_service_name() -> (r: String)
    ensures
        r@ == trim_end_char(SERVICE_TYPE@, '.') + "."@ + SERVICE_DOMAIN@,
{
    let mut r = trim_end_matches(SERVICE_TYPE, '.');
    push_str(&mut r, ".");
    push_str(&mut r, SERVICE_DOMAIN);
    r
}

/// `host:port` for one address of a service.
pub fn endpoint(host: &str, port: u16) -> (r: String)
    ensures
        r@ == endpoint_text(host@, port),
{
    let mut r = owned(host);
    push_str(&mut r, ":");
    push_decimal(&mut r, port as u64);
    assert(r@ =~= endpoint_text(host@, port));
    r
}

/// The header of the table of discovered daemons.
pub const DISCOVERY_HEADER: &'static str = "ID\tHOST\tADDRESS\tPORT\tINSTANCE";

/// The row of the table for a resolved service.
pub open spec fn discovery_row_text(e: ServiceEntry) -> Seq<char> {
    (match e.id_property {
        Some(p) => strip_prefix_or_self(p@, "id="@),
        None => Seq::<char>::empty(),
    }) + "\t"@ + trim_end_char(e.hostname@, '.') + "\t"@ + join(
        family_texts(e.addresses@, true) + family_texts(e.addresses@, false),
        ","@,
    ) + "\t"@ + decimal(e.port as nat) + "\t"@ + strip_suffix_or_self(
        e.fullname@,
        instance_suffix(e.service_type@),
    )
}

/// The table row for a resolved service: id, host, addresses, port, instance.
pub fn discovery_row(entry: &ServiceEntry) -> (r: String)
    ensures
        r@ == discovery_row_text(*entry),
{
    let mut r = entry_id(entry);
    push_str(&mut r, "\t");
    let h = entry_host(entry);
    push_str(&mut r, h.as_str());
    push_str(&mut r, "\t");
    let a = entry_addresses(entry);
    push_str(&mut r, a.as_str());
    push_str(&mut r, "\t");
    push_decimal(&mut r, entry.port as u64);
    push_str(&mut r, "\t");
    let i = entry_instance(entry);
    push_str(&mut r, i.as_str());
    assert(r@ =~= discovery_row_text(*entry));
    r
}

/// Whether a list of strings holds `s`.
fn holds(v: &Vec<String>, s: &str) -> (r: bool)
    ensures
        r == views(v@).contains(s@),
{
    let mut i: usize = 0;
    while i < v.len()
        invariant
            i <= v@.len(),
            forall|k: int| 0 <= k < i ==> v@[k]@ != s@,
        decreases v@.len() - i,
    {
        if same_text(v[i].as_str(), s) {
            assert(views(v@)[i as int] == s@);
            return true;
        }
        i = i + 1;
    }
    assert forall|k: int| 0 <= k < views(v@).len() implies views(v@)[k] != s@ by {
        assert(views(v@)[k] == v@[k]@);
    }
    false
}

/// No text occurs twice.
pub open spec fn distinct(s: Seq<Seq<char>>) -> bool {
    forall|i: int, j: int| 0 <= i < j < s.len() ==> s[i] != s[j]
}

/// What the `discover` command has seen so far.
#[derive(Debug)]
pub struct DiscoverSession {
    /// Full names of the services already listed.
    pub seen: Vec<String>,
    /// Whether the table header has been printed.
    pub header_printed: bool,
    /// (address:port, id) of each listed service that had an address.
    pub discovered: Vec<(String, String)>,
}

/// What to print for a newly resolved service.
#[derive(Debug)]
pub struct DiscoveryOutput {
    /// Print the table header first.
    pub header: bool,
    /// The table row.
    pub row: String,
}

impl DiscoverSession {
    /// A session that has seen nothing.
    pub fn new() -> (r: DiscoverSession)
        ensures
            r.seen@.len() == 0,
            !r.header_printed,
            r.discovered@.len() == 0,
    {
        DiscoverSession { seen: Vec::new(), header_printed: false, discovered: Vec::new() }
    }

    /// Handles a resolved service: a service already listed gives nothing and
    /// changes nothing; a new one is listed, with the header before the first
    /// row, and recorded with its first address when it has one.
    pub fn on_resolved(&mut self, entry: &ServiceEntry) -> (r: Option<DiscoveryOutput>)
        ensures
            views(old(self).seen@).contains(entry.fullname@) ==> r is None && views(final(self).seen@)
                == views(old(self).seen@) && final(self).header_printed == old(
                self,
            ).header_printed && final(self).discovered@ == old(self).discovered@,
            !views(old(self).seen@).contains(entry.fullname@) ==> {
                &&& r matches Some(out)
                &&& out.header == !old(self).header_printed
                &&& out.row@ == discovery_row_text(*entry)
                &&& views(final(self).seen@) == views(old(self).seen@).push(entry.fullname@)
                &&& final(self).header_printed
                &&& if entry.addresses@.len() > 0 {
                    final(self).discovered@.len() == old(self).discovered@.len() + 1
                        && final(self).discovered@.drop_last() == old(self).discovered@
                        && final(self).discovered@.last().0@ == endpoint_text(
                        entry.addresses@[0].text@,
                        entry.port,
                    ) && final(self).discovered@.last().1@ == match entry.id_property {
                        Some(p) => strip_prefix_or_self(p@, "id="@),
                        None => Seq::<char>::empty(),
                    }
                } else {
                    final(self).discovered@ == old(self).discovered@
                }
            },
            distinct(views(old(self).seen@)) ==> distinct(views(final(self).seen@)),
    {
        if holds(&self.seen, entry.fullname.as_str()) {
            return None;
        }
        let ghost before = self.seen@;
        let name = owned(entry.fullname.as_str());
        self.seen.push(name);
        assert(views(self.seen@) =~= views(before).push(entry.fullname@));
        let header = !self.header_printed;
        self.header_printed = true;
        let row = discovery_row(entry);
        if entry.addresses.len() > 0 {
            let addr = endpoint(entry.addresses[0].text.as_str(), entry.port);
            let id = entry_id(entry);
            let ghost d = self.discovered@;
            self.discovered.push((addr, id));
            assert(self.discovered@.drop_last() =~= d);
        }
        Some(DiscoveryOutput { header, row })
    }
}

/// The `host:port` targets of the daemons found so far, each once.
#[derive(Debug)]
pub struct TargetCollector {
    pub targets: Vec<String>,
}

impl TargetCollector {
    /// A collector that has found nothing.
    pub fn new() -> (r: TargetCollector)
        ensures
            r.targets@.len() == 0,
    {
        TargetCollector { targets: Vec::new() }
    }

    /// Adds `address:port` for every address of a resolved service, unless present.
    pub fn on_resolved(&mut self, entry: &ServiceEntry)
        ensures
            distinct(views(old(self).targets@)) ==> distinct(views(final(self).targets@)),
            views(final(self).targets@).len() >= views(old(self).targets@).len(),
            views(final(self).targets@).take(old(self).targets@.len() as int) == views(
                old(self).targets@,
            ),
            forall|i: int|
                0 <= i < entry.addresses@.len() ==> views(final(self).targets@).contains(
                    #[trigger] endpoint_text(entry.addresses@[i].text@, entry.port),
                ),
            forall|t: Seq<char>|
                views(final(self).targets@).contains(t) ==> views(old(self).targets@).contains(t)
                    || exists|i: int|
                    0 <= i < entry.addresses@.len() && t == #[trigger] endpoint_text(
                        entry.addresses@[i].text@,
                        entry.port,
                    ),
    {
        let ghost start = views(self.targets@);
        let mut i: usize = 0;
        while i < entry.addresses.len()
            invariant
                i <= entry.addresses@.len(),
                distinct(start) ==> distinct(views(self.targets@)),
                views(self.targets@).len() >= start.len(),
                views(self.targets@).take(start.len() as int) == start,
                forall|k: int|
                    0 <= k < i ==> views(self.targets@).contains(
                        #[trigger] endpoint_text(entry.addresses@[k].text@, entry.port),
                    ),
                forall|t: Seq<char>|
                    views(self.targets@).contains(t) ==> start.contains(t) || exists|k: int|
                        0 <= k < i && t == #[trigger] endpoint_text(
                            entry.addresses@[k].text@,
                            entry.port,
                        ),
            decreases entry.addresses@.len() - i,
        {
            let t = endpoint(entry.addresses[i].text.as_str(), entry.port);
            if !holds(&self.targets, t.as_str()) {
                let ghost before = views(self.targets@);
                let ghost tv = t@;
                self.targets.push(t);
                assert(views(self.targets@) =~= before.push(tv));
                assert(views(self.targets@).take(start.len() as int) =~= before.take(
                    start.len() as int,
                ));
                assert(views(self.targets@)[before.len() as int] == tv);
                assert forall|u: Seq<char>| views(self.targets@).contains(u) implies before.contains(
                    u,
                ) || u == tv by {
                    let j = choose|j: int| 0 <= j < views(self.targets@).len() && views(self.targets@)[j] == u;
                    if j < before.len() {
                        assert(before[j] == u);
                    }
                }
                assert forall|k: int| 0 <= k < i implies views(self.targets@).contains(
                    #[trigger] endpoint_text(entry.addresses@[k].text@, entry.port),
                ) by {
                    let w = endpoint_text(entry.addresses@[k].text@, entry.port);
                    let j = choose|j: int| 0 <= j < before.len() && before[j] == w;
                    assert(views(self.targets@)[j] == w);
                }
            }
            i = i + 1;
        }
    }
}

} // verus!
