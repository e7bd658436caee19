//! Addresses, media URLs and the private routes that keep them apart.

use vstd::prelude::*;

use crate::random::{random_bytes, RandomUnavailable};
use crate::text::{
    decimal, hex, hex_text, is_digit, is_hex_digit, lemma_decimal_round_trips,
    lemma_hex_text_is_hex, lemma_texts_are_taken_apart, push_decimal, split_once,
};

verus! {

/// An IPv6 address together with the text that the platform prints for it.
#[derive(Debug)]
pub struct Ipv6Addr {
    pub bits: u128,
    pub text: String,
}

/// The address of a host.
#[derive(Debug)]
pub enum IpAddr {
    V4(u8, u8, u8, u8),
    V6(Ipv6Addr),
}

impl Clone for Ipv6Addr {
    fn clone(&self) -> (copy: Self)
        ensures
            copy == *self,
    {
        Ipv6Addr { bits: self.bits, text: self.text.clone() }
    }
}

impl Clone for IpAddr {
    fn clone(&self) -> (copy: Self)
        ensures
            copy == *self,
    {
        match self {
            IpAddr::V4(a, b, c, d) => IpAddr::V4(*a, *b, *c, *d),
            IpAddr::V6(address) => IpAddr::V6(address.clone()),
        }
    }
}

impl IpAddr {
    /// The place of an address in the order of addresses: IPv4 first, then by value.
    pub open spec fn rank(&self) -> (int, int) {
        match self {
            IpAddr::V4(a, b, c, d) => (
                0,
                *a * 0x100_0000 + *b * 0x1_0000 + *c * 0x100 + *d,
            ),
            IpAddr::V6(address) => (1, address.bits as int),
        }
    }

    /// Whether two values name the same address.
    pub open spec fn names(&self, other: &IpAddr) -> bool {
        self.rank() == other.rank()
    }

    /// Whether one address comes before another.
    pub open spec fn comes_before(&self, other: &IpAddr) -> bool {
        self.rank().0 < other.rank().0 || (self.rank().0 == other.rank().0 && self.rank().1
            < other.rank().1)
    }

    /// The printed form of an address.
    pub open spec fn printed(&self) -> Seq<char> {
        match self {
            IpAddr::V4(a, b, c, d) => decimal(*a as nat) + "."@ + decimal(*b as nat) + "."@ + decimal(
                *c as nat,
            ) + "."@ + decimal(*d as nat),
            IpAddr::V6(address) => address.text@,
        }
    }

    fn number(&self) -> (number: u128)
        ensures
            number == self.rank().1,
    {
        match self {
            IpAddr::V4(a, b, c, d) => *a as u128 * 0x100_0000 + *b as u128 * 0x1_0000 + *c as u128
                * 0x100 + *d as u128,
            IpAddr::V6(address) => address.bits,
        }
    }

    pub fn is_ipv4(&self) -> (result: bool)
        ensures
            result == (self is V4),
    {
        match self {
            IpAddr::V4(_, _, _, _) => true,
            IpAddr::V6(_) => false,
        }
    }

    /// Whether two values name the same address.
    pub fn same(&self, other: &IpAddr) -> (result: bool)
        ensures
            result == self.names(other),
    {
        self.is_ipv4() == other.is_ipv4() && self.number() == other.number()
    }

    /// Whether one address comes before another.
    pub fn before(&self, other: &IpAddr) -> (result: bool)
        ensures
            result == self.comes_before(other),
    {
        if self.is_ipv4() == other.is_ipv4() {
            self.number() < other.number()
        } else {
            self.is_ipv4()
        }
    }

    /// The printed form of an address.
    pub fn text(&self) -> (text: String)
        ensures
            text@ == self.printed(),
    {
        match self {
            IpAddr::V4(a, b, c, d) => {
                let mut text: String = String::new();
                push_decimal(&mut text, *a as u64);
                let mut text: String = text.concat(".");
                push_decimal(&mut text, *b as u64);
                let mut text: String = text.concat(".");
                push_decimal(&mut text, *c as u64);
                let mut text: String = text.concat(".");
                push_decimal(&mut text, *d as u64);
                assert(text@ =~= self.printed());
                text
            },
            IpAddr::V6(address) => address.text.clone(),
        }
    }

    /// The local address that a route probe to this host binds.
    pub fn probe_bind_address(&self) -> (bind: &'static str)
        ensures
            bind@ == if self is V4 {
                "0.0.0.0:0"@
            } else {
                "[::]:0"@
            },
    {
        if self.is_ipv4() {
            "0.0.0.0:0"
        } else {
            "[::]:0"
        }
    }
}

/// A port on a host.
#[derive(Debug)]
pub struct SocketAddr {
    pub ip: IpAddr,
    pub port: u16,
}

/// The URL of a path on a server. An IPv6 address stands in brackets.
pub open spec fn url_of(address: SocketAddr, path: Seq<char>) -> Seq<char> {
    if address.ip is V4 {
        "http://"@ + address.ip.printed() + ":"@ + decimal(address.port as nat) + path
    } else {
        "http://["@ + address.ip.printed() + "]:"@ + decimal(address.port as nat) + path
    }
}

proof fn lemma_no_mark_in_numbers(value: nat, mark: char)
    requires
        !is_digit(mark),
    ensures
        !decimal(value).contains(mark),
{
    lemma_decimal_round_trips(value);
    let digits = decimal(value);
    if digits.contains(mark) {
        let i = choose|i: int| 0 <= i < digits.len() && digits[i] == mark;
        assert(is_digit(digits[i]));
    }
}

/// An address of version four is printed as its four parts, with a point between two.
pub proof fn lemma_printed_addresses_are_taken_apart(a: u8, b: u8, c: u8, d: u8)
    ensures
        split_once(IpAddr::V4(a, b, c, d).printed(), '.') == Some(
            (decimal(a as nat), decimal(b as nat) + "."@ + decimal(c as nat) + "."@ + decimal(
                d as nat,
            )),
        ),
        split_once(
            decimal(b as nat) + "."@ + decimal(c as nat) + "."@ + decimal(d as nat),
            '.',
        ) == Some((decimal(b as nat), decimal(c as nat) + "."@ + decimal(d as nat))),
{
    reveal_strlit(".");
    lemma_no_mark_in_numbers(a as nat, '.');
    lemma_no_mark_in_numbers(b as nat, '.');
    let last = decimal(c as nat) + "."@ + decimal(d as nat);
    let rest = decimal(b as nat) + "."@ + decimal(c as nat) + "."@ + decimal(d as nat);
    lemma_texts_are_taken_apart(decimal(a as nat), '.', rest);
    lemma_texts_are_taken_apart(decimal(b as nat), '.', last);
    assert(IpAddr::V4(a, b, c, d).printed() =~= decimal(a as nat) + seq!['.'] + rest);
    assert(rest =~= decimal(b as nat) + seq!['.'] + last);
}

/// The URL of a server of version four is taken apart at the colon behind the address, and that of
/// one of version six at its brackets.
pub proof fn lemma_urls_name_their_server(address: SocketAddr, path: Seq<char>)
    ensures
        url_of(address, path).take(7) == "http://"@,
        address.ip is V4 ==> split_once(url_of(address, path).skip(7), ':') == Some(
            (address.ip.printed(), decimal(address.port as nat) + path),
        ),
        address.ip is V6 && !address.ip.printed().contains(']') ==> url_of(address, path)[7] == '['
            && split_once(url_of(address, path).skip(8), ']') == Some(
            (address.ip.printed(), seq![':'] + decimal(address.port as nat) + path),
        ),
{
    reveal_strlit("http://");
    reveal_strlit(":");
    reveal_strlit("http://[");
    reveal_strlit("]:");
    reveal_strlit(".");
    let host = address.ip.printed();
    let url = url_of(address, path);
    assert(url.take(7) =~= "http://"@);
    let port = decimal(address.port as nat);
    match address.ip {
        IpAddr::V4(a, b, c, d) => {
            lemma_no_mark_in_numbers(a as nat, ':');
            lemma_no_mark_in_numbers(b as nat, ':');
            lemma_no_mark_in_numbers(c as nat, ':');
            lemma_no_mark_in_numbers(d as nat, ':');
            let first = decimal(a as nat);
            let second = decimal(b as nat);
            let third = decimal(c as nat);
            let fourth = decimal(d as nat);
            assert(!host.contains(':')) by {
                if host.contains(':') {
                    let i = choose|i: int| 0 <= i < host.len() && host[i] == ':';
                    let from_second = i - first.len() - 1;
                    let from_third = from_second - second.len() - 1;
                    let from_fourth = from_third - third.len() - 1;
                    if i < first.len() {
                        assert(first[i] == ':');
                    } else if 0 <= from_second < second.len() {
                        assert(second[from_second] == ':');
                    } else if 0 <= from_third < third.len() {
                        assert(third[from_third] == ':');
                    } else if 0 <= from_fourth < fourth.len() {
                        assert(fourth[from_fourth] == ':');
                    }
                }
            }
            lemma_texts_are_taken_apart(host, ':', port + path);
            assert(url.skip(7) =~= host + seq![':'] + (port + path));
        },
        IpAddr::V6(_) => {
            if !host.contains(']') {
                lemma_texts_are_taken_apart(host, ']', seq![':'] + port + path);
                assert(url.skip(8) =~= host + seq![']'] + (seq![':'] + port + path));
            }
        },
    }
}

/// Two addresses name the same host exactly where they are of one family and every part agrees,
/// and addresses of version four are ordered part by part.
pub proof fn lemma_addresses_agree_in_every_part(
    a: (u8, u8, u8, u8),
    b: (u8, u8, u8, u8),
    address: Ipv6Addr,
    other: Ipv6Addr,
)
    ensures
        IpAddr::V4(a.0, a.1, a.2, a.3).names(&IpAddr::V4(b.0, b.1, b.2, b.3)) <==> a == b,
        !IpAddr::V4(a.0, a.1, a.2, a.3).names(&IpAddr::V6(address)),
        IpAddr::V6(address).names(&IpAddr::V6(other)) <==> address.bits == other.bits,
        a.0 < b.0 ==> IpAddr::V4(a.0, a.1, a.2, a.3).comes_before(
            &IpAddr::V4(b.0, b.1, b.2, b.3),
        ),
        a.0 == b.0 && a.1 < b.1 ==> IpAddr::V4(a.0, a.1, a.2, a.3).comes_before(
            &IpAddr::V4(b.0, b.1, b.2, b.3),
        ),
        a.0 == b.0 && a.1 == b.1 && a.2 < b.2 ==> IpAddr::V4(a.0, a.1, a.2, a.3).comes_before(
            &IpAddr::V4(b.0, b.1, b.2, b.3),
        ),
        a.0 == b.0 && a.1 == b.1 && a.2 == b.2 && a.3 < b.3 ==> IpAddr::V4(
            a.0,
            a.1,
            a.2,
            a.3,
        ).comes_before(&IpAddr::V4(b.0, b.1, b.2, b.3)),
        IpAddr::V4(a.0, a.1, a.2, a.3).comes_before(&IpAddr::V6(address)),
{
}

/// The URL of a path on a server.
pub fn http_url(address: &SocketAddr, path: &str) -> (url: String)
    ensures
        url@ == url_of(*address, path@),
{
    let host: String = address.ip.text();
    let mut url: String = if address.ip.is_ipv4() {
        "http://".to_owned().concat(host.as_str()).concat(":")
    } else {
        "http://[".to_owned().concat(host.as_str()).concat("]:")
    };
    push_decimal(&mut url, address.port as u64);
    url.concat(path)
}

/// The route that some random bytes make.
pub fn route_for(bytes: &[u8]) -> (route: String)
    ensures
        route@ == hex_text(bytes@),
{
    hex(bytes)
}

/// A route that cannot be guessed: 128 random bits, as 32 hexadecimal digits.
pub fn private_route() -> (result: Result<String, RandomUnavailable>)
    ensures
        result matches Ok(route) ==> {
            &&& route@.len() == 32
            &&& forall|i: int| 0 <= i < 32 ==> is_hex_digit(#[trigger] route@[i])
            &&& exists|bytes: Seq<u8>| bytes.len() == 16 && route@ == #[trigger] hex_text(bytes)
        },
{
    match random_bytes(16) {
        Ok(bytes) => {
            proof {
                lemma_hex_text_is_hex(bytes@);
            }
            Ok(route_for(bytes.as_slice()))
        },
        Err(error) => Err(error),
    }
}

} // verus!
