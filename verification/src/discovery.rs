//! Receivers on the local network: what their announcements say, and the list of them.

use vstd::prelude::*;

use crate::network::IpAddr;
use crate::text::{
    ascii_lowercase, characters, comes_before, decimal, lemma_decimal_round_trips,
    lemma_dictionary_order, lemma_dictionary_order_transitive, parse_unsigned, precedes,
    to_ascii_lowercase, unsigned_number,
};

verus! {

/// What a receiver can play.
#[derive(Clone, Copy, Debug, PartialEq, Eq, Structural)]
pub enum DeviceCapability {
    AudioOnly,
    Video,
    Unknown,
}

/// What the capability bits of an announcement say: the lowest bit stands for video output, the
/// third for audio output.
pub open spec fn capability_in(bits: nat) -> DeviceCapability {
    if bits % 2 == 1 {
        DeviceCapability::Video
    } else if bits / 4 % 2 == 1 {
        DeviceCapability::AudioOnly
    } else {
        DeviceCapability::Unknown
    }
}

/// What the capability field of an announcement says.
pub open spec fn announced_capability(value: Option<Seq<char>>) -> DeviceCapability {
    match value {
        None => DeviceCapability::Unknown,
        Some(text) => match unsigned_number(text, u32::MAX as nat) {
            None => DeviceCapability::Unknown,
            Some(bits) => capability_in(bits),
        },
    }
}

impl DeviceCapability {
    /// Reads the capability field of an announcement.
    pub fn from_mdns(value: Option<&str>) -> (capability: Self)
        ensures
            capability == announced_capability(
                match value {
                    Some(text) => Some(text@),
                    None => None,
                },
            ),
    {
        let text: Vec<char> = match value {
            Some(text) => characters(text),
            None => {
                return DeviceCapability::Unknown;
            },
        };
        match parse_unsigned(text.as_slice(), u32::MAX as u64) {
            None => DeviceCapability::Unknown,
            Some(bits) => if bits % 2 == 1 {
                DeviceCapability::Video
            } else if bits / 4 % 2 == 1 {
                DeviceCapability::AudioOnly
            } else {
                DeviceCapability::Unknown
            },
        }
    }

    pub fn label(self) -> (label: &'static str)
        ensures
            label@ == match self {
                DeviceCapability::AudioOnly => "Audio only"@,
                DeviceCapability::Video => "Audio + video"@,
                DeviceCapability::Unknown => "Unknown"@,
            },
    {
        match self {
            DeviceCapability::AudioOnly => "Audio only",
            DeviceCapability::Video => "Audio + video",
            DeviceCapability::Unknown => "Unknown",
        }
    }
}

/// A receiver on the network.
#[derive(Debug)]
pub struct CastService {
    pub name: String,
    pub model: String,
    pub capability: DeviceCapability,
    pub address: IpAddr,
    pub port: u16,
}

/// An announcement as it was resolved: addresses in the order in which they were found.
pub struct ResolvedService {
    pub ipv4_addresses: Vec<IpAddr>,
    pub addresses: Vec<IpAddr>,
    pub friendly_name: Option<String>,
    pub model: Option<String>,
    pub capabilities: Option<String>,
    pub fullname: String,
    pub port: u16,
}

impl CastService {
    /// Whether two entries stand for the same receiver.
    pub open spec fn same_receiver(&self, other: &CastService) -> bool {
        self.address.names(&other.address) && self.port == other.port
    }

    /// Whether one receiver is listed before another: by name without regard to case, then by
    /// address, then by port.
    pub open spec fn listed_before(&self, other: &CastService) -> bool {
        let mine = ascii_lowercase(self.name@);
        let theirs = ascii_lowercase(other.name@);
        if mine != theirs {
            comes_before(mine, theirs)
        } else if !self.address.names(&other.address) {
            self.address.comes_before(&other.address)
        } else {
            self.port < other.port
        }
    }

    fn is_same_receiver(&self, other: &CastService) -> (result: bool)
        ensures
            result == self.same_receiver(other),
    {
        self.address.same(&other.address) && self.port == other.port
    }

    fn is_listed_before(&self, other: &CastService) -> (result: bool)
        ensures
            result == self.listed_before(other),
    {
        let mine: Vec<char> = to_ascii_lowercase(self.name.as_str());
        let theirs: Vec<char> = to_ascii_lowercase(other.name.as_str());
        proof {
            lemma_dictionary_order(mine@, theirs@);
        }
        if precedes(mine.as_slice(), theirs.as_slice()) {
            return true;
        }
        if precedes(theirs.as_slice(), mine.as_slice()) {
            return false;
        }
        if !self.address.same(&other.address) {
            return self.address.before(&other.address);
        }
        self.port < other.port
    }
}

/// The receiver that an announcement describes; none where it has no address. An IPv4 address is
/// preferred.
pub fn service_from_info(info: &ResolvedService) -> (service: Option<CastService>)
    ensures
        service is None <==> info.ipv4_addresses@.len() == 0 && info.addresses@.len() == 0,
        service matches Some(service) ==> {
            &&& service.name@ == match info.friendly_name {
                Some(name) => name@,
                None => info.fullname@,
            }
            &&& service.model@ == match info.model {
                Some(model) => model@,
                None => "Unknown"@,
            }
            &&& service.capability == announced_capability(
                match info.capabilities {
                    Some(text) => Some(text@),
                    None => None,
                },
            )
            &&& service.address == if info.ipv4_addresses@.len() > 0 {
                info.ipv4_addresses@[0]
            } else {
                info.addresses@[0]
            }
            &&& service.port == info.port
        },
{
    let address: IpAddr = if info.ipv4_addresses.len() > 0 {
        info.ipv4_addresses[0].clone()
    } else if info.addresses.len() > 0 {
        info.addresses[0].clone()
    } else {
        return None;
    };
    let capabilities: Option<&str> = match &info.capabilities {
        Some(text) => Some(text.as_str()),
        None => None,
    };
    Some(
        CastService {
            name: match &info.friendly_name {
                Some(name) => name.clone(),
                None => info.fullname.clone(),
            },
            model: match &info.model {
                Some(model) => model.clone(),
                None => "Unknown".to_owned(),
            },
            capability: DeviceCapability::from_mdns(capabilities),
            address,
            port: info.port,
        },
    )
}

/// A sorted list with one more entry, behind those that it does not come before.
pub open spec fn inserted(services: Seq<CastService>, service: CastService) -> Seq<CastService>
    decreases services.len(),
{
    if services.len() == 0 || !service.listed_before(&services.last()) {
        services.push(service)
    } else {
        inserted(services.drop_last(), service).push(services.last())
    }
}

/// The entries in the order in which they are listed; entries of the same rank keep their order.
pub open spec fn listed(services: Seq<CastService>) -> Seq<CastService>
    decreases services.len(),
{
    if services.len() == 0 {
        services
    } else {
        inserted(listed(services.drop_last()), services.last())
    }
}

/// Whether no entry is listed before an earlier one.
pub open spec fn is_listed(services: Seq<CastService>) -> bool {
    forall|i: int, j: int|
        #![trigger services[i], services[j]]
        0 <= i < j < services.len() ==> !services[j].listed_before(&services[i])
}

/// Whether no two entries stand for the same receiver.
pub open spec fn all_different(services: Seq<CastService>) -> bool {
    forall|i: int, j: int|
        #![trigger services[i], services[j]]
        0 <= i < j < services.len() ==> !services[i].same_receiver(&services[j])
}

/// The position of the first entry from `start` on for the same receiver.
pub open spec fn receiver_from(services: Seq<CastService>, service: CastService, start: int) -> int
    decreases services.len() - start,
{
    if start >= services.len() {
        services.len() as int
    } else if services[start].same_receiver(&service) {
        start
    } else {
        receiver_from(services, service, start + 1)
    }
}

/// The entries once a receiver was found: its earlier entry is replaced, or it is added.
pub open spec fn found(services: Seq<CastService>, service: CastService) -> Seq<CastService> {
    let index = receiver_from(services, service, 0);
    if index < services.len() {
        services.update(index, service)
    } else {
        services.push(service)
    }
}

proof fn lemma_inserted_at(services: Seq<CastService>, service: CastService, position: int)
    requires
        0 <= position <= services.len(),
        forall|i: int|
            #![trigger services[i]]
            position <= i < services.len() ==> service.listed_before(&services[i]),
        position > 0 ==> !service.listed_before(&services[position - 1]),
    ensures
        inserted(services, service) == services.insert(position, service),
    decreases services.len(),
{
    if position == services.len() {
        assert(services.insert(position, service) =~= services.push(service));
    } else {
        let front = services.drop_last();
        assert(service.listed_before(&services[services.len() - 1]));
        assert forall|i: int|
            #![trigger front[i]]
            position <= i < front.len() implies service.listed_before(&front[i]) by {
            assert(front[i] == services[i]);
        }
        lemma_inserted_at(front, service, position);
        assert(services.insert(position, service) =~= front.insert(position, service).push(
            services.last(),
        ));
    }
}

proof fn lemma_listed_before_transitive(a: CastService, b: CastService, c: CastService)
    ensures
        a.listed_before(&b) ==> !b.listed_before(&a),
        a.listed_before(&b) && !c.listed_before(&b) ==> a.listed_before(&c),
{
    let x = ascii_lowercase(a.name@);
    let y = ascii_lowercase(b.name@);
    let z = ascii_lowercase(c.name@);
    lemma_dictionary_order(x, y);
    lemma_dictionary_order(y, z);
    lemma_dictionary_order(x, z);
    if comes_before(x, y) && comes_before(y, z) {
        lemma_dictionary_order_transitive(x, y, z);
    }
    if comes_before(z, x) && comes_before(x, y) {
        lemma_dictionary_order_transitive(z, x, y);
    }
}

proof fn lemma_inserted_is_listed(services: Seq<CastService>, service: CastService)
    requires
        is_listed(services),
    ensures
        is_listed(inserted(services, service)),
        inserted(services, service).len() == services.len() + 1,
        inserted(services, service).to_multiset() == services.to_multiset().insert(service),
        forall|i: int|
            0 <= i < inserted(services, service).len() ==> #[trigger] inserted(services, service)[i]
                == service || services.contains(inserted(services, service)[i]),
    decreases services.len(),
{
    broadcast use vstd::seq_lib::group_to_multiset_ensures;

    let after = inserted(services, service);
    if services.len() == 0 || !service.listed_before(&services.last()) {
        assert forall|i: int, j: int|
            #![trigger after[i], after[j]]
            0 <= i < j < after.len() implies !after[j].listed_before(&after[i]) by {
            if j == services.len() {
                if service.listed_before(&services[i]) && i < services.len() - 1 {
                    lemma_listed_before_transitive(service, services[i], services.last());
                }
            }
        }
        assert forall|i: int| 0 <= i < after.len() implies #[trigger] after[i] == service
            || services.contains(after[i]) by {
            if i < services.len() {
                assert(services[i] == after[i]);
            }
        }
    } else {
        let front = services.drop_last();
        let rest = inserted(front, service);
        lemma_inserted_is_listed(front, service);
        assert forall|i: int, j: int|
            #![trigger after[i], after[j]]
            0 <= i < j < after.len() implies !after[j].listed_before(&after[i]) by {
            if j == rest.len() {
                assert(after[i] == rest[i]);
                if rest[i] == service {
                    lemma_listed_before_transitive(service, services.last(), service);
                } else {
                    let k = choose|k: int| 0 <= k < front.len() && front[k] == rest[i];
                    assert(services[k] == rest[i]);
                    assert(!services[services.len() - 1].listed_before(&services[k]));
                }
            }
        }
        assert forall|i: int| 0 <= i < after.len() implies #[trigger] after[i] == service
            || services.contains(after[i]) by {
            if i < rest.len() {
                assert(after[i] == rest[i]);
                if rest[i] != service {
                    let k = choose|k: int| 0 <= k < front.len() && front[k] == rest[i];
                    assert(services[k] == rest[i]);
                }
            } else {
                assert(services[services.len() - 1] == after[i]);
            }
        }
        assert(services =~= front.push(services.last()));
        assert(after.to_multiset() =~= services.to_multiset().insert(service));
    }
}

/// The list is in order and holds the same entries, each as often as before.
pub proof fn lemma_listing_sorts_the_same_services(services: Seq<CastService>)
    ensures
        is_listed(listed(services)),
        listed(services).len() == services.len(),
        listed(services).to_multiset() == services.to_multiset(),
    decreases services.len(),
{
    broadcast use vstd::seq_lib::group_to_multiset_ensures;

    if services.len() > 0 {
        let front = services.drop_last();
        lemma_listing_sorts_the_same_services(front);
        lemma_inserted_is_listed(listed(front), services.last());
        assert(services =~= front.push(services.last()));
    }
}

proof fn lemma_receiver_from(services: Seq<CastService>, service: CastService, start: int)
    requires
        0 <= start <= services.len(),
    ensures
        start <= receiver_from(services, service, start) <= services.len(),
        receiver_from(services, service, start) < services.len() ==> services[receiver_from(
            services,
            service,
            start,
        )].same_receiver(&service),
        forall|i: int|
            start <= i < receiver_from(services, service, start) ==> !(
            #[trigger] services[i]).same_receiver(&service),
    decreases services.len() - start,
{
    if start < services.len() && !services[start].same_receiver(&service) {
        lemma_receiver_from(services, service, start + 1);
    }
}

/// Finding a receiver again never lists it twice.
pub proof fn lemma_receivers_are_listed_once(services: Seq<CastService>, service: CastService)
    requires
        all_different(services),
    ensures
        all_different(found(services, service)),
        found(services, service).contains(service),
{
    lemma_receiver_from(services, service, 0);
    let index = receiver_from(services, service, 0);
    let after = found(services, service);
    if index < services.len() {
        assert(after[index] == service);
        assert forall|i: int, j: int|
            #![trigger after[i], after[j]]
            0 <= i < j < after.len() implies !after[i].same_receiver(&after[j]) by {
            if i == index {
                assert(after[j] == services[j]);
                assert(!services[index].same_receiver(&services[j]));
            } else if j == index {
                assert(after[i] == services[i]);
                assert(!services[i].same_receiver(&services[index]));
            } else {
                assert(!services[i].same_receiver(&services[j]));
            }
        }
    } else {
        assert(after[services.len() as int] == service);
        assert forall|i: int, j: int|
            #![trigger after[i], after[j]]
            0 <= i < j < after.len() implies !after[i].same_receiver(&after[j]) by {
            if j < services.len() {
                assert(!services[i].same_receiver(&services[j]));
            }
        }
    }
}

/// An announcement says what a device can do in the bits of a number: the lowest for video, and
/// without it the third for audio.
pub proof fn lemma_capabilities_are_bits(bits: u32)
    ensures
        bits & 1 == 1 <==> announced_capability(Some(decimal(bits as nat)))
            == DeviceCapability::Video,
        bits & 1 == 0 && bits & 4 == 4 <==> announced_capability(Some(decimal(bits as nat)))
            == DeviceCapability::AudioOnly,
        bits & 5 == 0 <==> announced_capability(Some(decimal(bits as nat)))
            == DeviceCapability::Unknown,
        announced_capability(None) == DeviceCapability::Unknown,
{
    lemma_decimal_round_trips(bits as nat);
    assert(crate::text::is_digit(decimal(bits as nat)[0]));
    assert(bits & 1 == 1 <==> bits % 2 == 1) by (bit_vector);
    assert(bits & 1 == 0 <==> bits % 2 == 0) by (bit_vector);
    assert(bits & 4 == 4 <==> bits / 4 % 2 == 1) by (bit_vector);
    assert(bits & 5 == 0 <==> bits & 1 == 0 && bits & 4 != 4) by (bit_vector);
    assert(bits as nat % 2 == bits % 2);
    assert(bits as nat / 4 % 2 == (bits / 4) % 2);
}

/// Services are listed by their names, whatever the case of the letters, then by their addresses
/// and last by their ports.
pub proof fn lemma_services_are_listed_by_name(first: CastService, second: CastService)
    ensures
        ascii_lowercase(first.name@) != ascii_lowercase(second.name@) ==> (first.listed_before(
            &second,
        ) <==> comes_before(ascii_lowercase(first.name@), ascii_lowercase(second.name@))),
        ascii_lowercase(first.name@) == ascii_lowercase(second.name@) && first.address.rank()
            != second.address.rank() ==> (first.listed_before(&second)
            <==> first.address.comes_before(&second.address)),
        ascii_lowercase(first.name@) == ascii_lowercase(second.name@) && first.address.rank()
            == second.address.rank() ==> (first.listed_before(&second) <==> first.port
            < second.port),
{
}

/// A service that is found again takes the place of what was known of it, and a new one comes
/// last; the others stay.
pub proof fn lemma_found_services_take_their_place(services: Seq<CastService>, service: CastService)
    ensures
        ({
            let after = found(services, service);
            let known = exists|i: int|
                0 <= i < services.len() && (#[trigger] services[i]).same_receiver(&service);
            &&& known ==> after.len() == services.len()
            &&& !known ==> after == services.push(service)
            &&& forall|i: int|
                0 <= i < services.len() && !(#[trigger] services[i]).same_receiver(&service)
                    ==> after[i] == services[i]
        }),
{
    lemma_receiver_from(services, service, 0);
    let index = receiver_from(services, service, 0);
    if index < services.len() {
        assert(services[index].same_receiver(&service));
    }
}

/// Brings the list into order. Entries of the same rank keep their order.
pub fn sort_services(services: &mut Vec<CastService>)
    ensures
        final(services)@ == listed(old(services)@),
{
    let ghost all = services@;
    let mut sorted: Vec<CastService> = Vec::new();
    let ghost mut done: int = 0;
    assert(all.take(0) =~= Seq::<CastService>::empty());
    assert(all.skip(0) =~= all);
    while services.len() > 0
        invariant
            0 <= done <= all.len(),
            services@ == all.skip(done),
            sorted@ == listed(all.take(done)),
        decreases services@.len(),
    {
        let service: CastService = services.remove(0);
        assert(service == all[done]);
        let mut position: usize = sorted.len();
        while position > 0 && service.is_listed_before(&sorted[position - 1])
            invariant
                position <= sorted@.len(),
                forall|i: int|
                    #![trigger sorted@[i]]
                    position <= i < sorted@.len() ==> service.listed_before(&sorted@[i]),
            decreases position,
        {
            position = position - 1;
        }
        proof {
            lemma_inserted_at(sorted@, service, position as int);
            assert(all.take(done + 1).drop_last() =~= all.take(done));
            assert(all.skip(done).remove(0) =~= all.skip(done + 1));
            done = done + 1;
        }
        sorted.insert(position, service);
    }
    assert(all.take(done) =~= all);
    *services = sorted;
}

/// Adds a receiver to the list, or brings its entry up to date, and keeps the list in order.
pub fn merge_service(services: &mut Vec<CastService>, service: CastService)
    ensures
        final(services)@ == listed(found(old(services)@, service)),
{
    let mut index: usize = 0;
    while index < services.len() && !services[index].is_same_receiver(&service)
        invariant
            index <= services@.len(),
            services@ == old(services)@,
            receiver_from(services@, service, 0) == receiver_from(services@, service, index as int),
        decreases services@.len() - index,
    {
        index = index + 1;
    }
    if index < services.len() {
        services.set(index, service);
    } else {
        services.push(service);
    }
    assert(services@ =~= found(old(services)@, service));
    sort_services(services);
}

} // verus!
