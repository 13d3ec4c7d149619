//! The supervisor's picture of the kernel load balancer: a snapshot of
//! virtual services with their real servers, the `ip:port` address syntax,
//! and the lookup of loopback real servers by port.
use crate::search::{first_where, lemma_first_is};
use crate::text::{chars_of, starts_with};
use vstd::prelude::*;

verus! {

/// One real server behind a virtual service.
#[derive(Debug, PartialEq, Eq)]
pub struct IpvsServer {
    pub address: String,
    pub port: u16,
    pub active_conn: i32,
    pub weight: i32,
}

/// `IpvsServer` as contracts see it.
pub struct IpvsServerView {
    pub address: Seq<char>,
    pub port: u16,
    pub active_conn: i32,
    pub weight: i32,
}

impl View for IpvsServer {
    type V = IpvsServerView;

    open spec fn view(&self) -> IpvsServerView {
        IpvsServerView {
            address: self.address@,
            port: self.port,
            active_conn: self.active_conn,
            weight: self.weight,
        }
    }
}

impl DeepView for IpvsServer {
    type V = IpvsServerView;

    open spec fn deep_view(&self) -> IpvsServerView {
        self@
    }
}

impl Clone for IpvsServer {
    fn clone(&self) -> (r: Self)
        ensures
            r@ == self@,
    {
        IpvsServer {
            address: self.address.clone(),
            port: self.port,
            active_conn: self.active_conn,
            weight: self.weight,
        }
    }
}

/// One virtual service, keyed in the snapshot by its local address and port.
#[derive(Debug, PartialEq, Eq)]
pub struct IpvsService {
    pub local_address: String,
    pub local_port: u16,
    pub scheduler: String,
    pub servers: Vec<IpvsServer>,
}

/// `IpvsService` as contracts see it.
pub struct IpvsServiceView {
    pub local_address: Seq<char>,
    pub local_port: u16,
    pub scheduler: Seq<char>,
    pub servers: Seq<IpvsServerView>,
}

impl View for IpvsService {
    type V = IpvsServiceView;

    open spec fn view(&self) -> IpvsServiceView {
        IpvsServiceView {
            local_address: self.local_address@,
            local_port: self.local_port,
            scheduler: self.scheduler@,
            servers: self.servers.deep_view(),
        }
    }
}

impl DeepView for IpvsService {
    type V = IpvsServiceView;

    open spec fn deep_view(&self) -> IpvsServiceView {
        self@
    }
}

impl Clone for IpvsService {
    fn clone(&self) -> (r: Self)
        ensures
            r@ == self@,
    {
        let mut servers: Vec<IpvsServer> = Vec::new();
        let mut i: usize = 0;
        while i < self.servers.len()
            invariant
                i <= self.servers.len(),
                servers.deep_view() == self.servers.deep_view().take(i as int),
            decreases self.servers.len() - i,
        {
            let ghost before = servers.deep_view();
            servers.push(self.servers[i].clone());
            assert(servers.deep_view() =~= before.push(self.servers[i as int]@));
            assert(self.servers.deep_view().take(i as int + 1) =~= self.servers.deep_view().take(
                i as int,
            ).push(self.servers[i as int]@));
            i += 1;
        }
        assert(self.servers.deep_view().take(i as int) =~= self.servers.deep_view());
        IpvsService {
            local_address: self.local_address.clone(),
            local_port: self.local_port,
            scheduler: self.scheduler.clone(),
            servers,
        }
    }
}

/// A snapshot of every virtual service the kernel reports.
#[derive(Debug, PartialEq, Eq)]
pub struct IpvsState {
    pub services: Vec<IpvsService>,
}

/// `IpvsState` as contracts see it.
pub struct IpvsStateView {
    pub services: Seq<IpvsServiceView>,
}

impl View for IpvsState {
    type V = IpvsStateView;

    open spec fn view(&self) -> IpvsStateView {
        IpvsStateView { services: self.services.deep_view() }
    }
}

impl DeepView for IpvsState {
    type V = IpvsStateView;

    open spec fn deep_view(&self) -> IpvsStateView {
        self@
    }
}

impl Clone for IpvsState {
    fn clone(&self) -> (r: Self)
        ensures
            r@ == self@,
    {
        let mut services: Vec<IpvsService> = Vec::new();
        let mut i: usize = 0;
        while i < self.services.len()
            invariant
                i <= self.services.len(),
                services.deep_view() == self.services.deep_view().take(i as int),
            decreases self.services.len() - i,
        {
            let ghost before = services.deep_view();
            services.push(self.services[i].clone());
            assert(services.deep_view() =~= before.push(self.services[i as int]@));
            assert(self.services.deep_view().take(i as int + 1) =~= self.services.deep_view().take(
                i as int,
            ).push(self.services[i as int]@));
            i += 1;
        }
        assert(self.services.deep_view().take(i as int) =~= self.services.deep_view());
        IpvsState { services }
    }
}

/// Whether `host` lies in the block that virtual services must use.
pub open spec fn service_ip(host: Seq<char>) -> bool {
    "127.0.0."@.is_prefix_of(host)
}

/// Whether `host` lies in the block that virtual services must use.
pub fn is_service_ip(host: &str) -> (r: bool)
    ensures
        r == service_ip(host@),
{
    starts_with(host, "127.0.0.")
}

/// Whether `c` is a decimal digit.
pub open spec fn is_digit(c: char) -> bool {
    c == '0' || c == '1' || c == '2' || c == '3' || c == '4' || c == '5' || c == '6' || c == '7'
        || c == '8' || c == '9'
}

/// The value of the decimal digit `c`.
pub open spec fn digit_value(c: char) -> nat {
    if c == '1' {
        1
    } else if c == '2' {
        2
    } else if c == '3' {
        3
    } else if c == '4' {
        4
    } else if c == '5' {
        5
    } else if c == '6' {
        6
    } else if c == '7' {
        7
    } else if c == '8' {
        8
    } else if c == '9' {
        9
    } else {
        0
    }
}

/// Whether every character of `s` is a decimal digit.
pub open spec fn all_digits(s: Seq<char>) -> bool {
    forall|j: int| 0 <= j < s.len() ==> is_digit(#[trigger] s[j])
}

/// The number that the digits of `s` write in base ten.
pub open spec fn decimal_value(s: Seq<char>) -> nat
    decreases s.len(),
{
    if s.len() == 0 {
        0
    } else {
        decimal_value(s.drop_last()) * 10 + digit_value(s.last())
    }
}

/// The port that `s` writes: one or more digits, at most 65535.
pub open spec fn port_value(s: Seq<char>) -> Option<u16> {
    if s.len() > 0 && all_digits(s) && decimal_value(s) <= 65535 {
        Some(decimal_value(s) as u16)
    } else {
        None
    }
}

/// Why an address is not of the form `ip:port`.
#[derive(Clone, Copy, Debug, PartialEq, Eq, Structural)]
pub enum AddressError {
    /// The text holds no `:`.
    MissingPort,
    /// What follows the first `:` is not a port number.
    InvalidPort,
}

impl AddressError {
    /// The text of the error.
    pub open spec fn spec_message(self) -> Seq<char> {
        match self {
            AddressError::MissingPort => "Missing port in address"@,
            AddressError::InvalidPort => "Invalid port in address"@,
        }
    }

    /// The text shown to an operator.
    pub fn message(&self) -> (s: String)
        ensures
            s@ == self.spec_message(),
    {
        match self {
            AddressError::MissingPort => "Missing port in address".to_owned(),
            AddressError::InvalidPort => "Invalid port in address".to_owned(),
        }
    }
}

/// The position of the first `:` in `s`, or its length.
pub open spec fn colon_position(s: Seq<char>) -> int {
    first_where(s.len() as int, |j: int| s[j] == ':')
}

/// The host and port that `s` names: the host is what precedes the first
/// `:`, the port what follows it.
pub open spec fn host_and_port(s: Seq<char>) -> Result<(Seq<char>, u16), AddressError> {
    let i = colon_position(s);
    if i >= s.len() {
        Err(AddressError::MissingPort)
    } else {
        match port_value(s.subrange(i + 1, s.len() as int)) {
            Some(port) => Ok((s.subrange(0, i), port)),
            None => Err(AddressError::InvalidPort),
        }
    }
}

/// A longer run of digits writes a number at least as large as any prefix.
proof fn lemma_decimal_value_grows(s: Seq<char>, k: int)
    requires
        0 <= k <= s.len(),
    ensures
        decimal_value(s.take(k)) <= decimal_value(s),
    decreases s.len() - k,
{
    if k < s.len() {
        lemma_decimal_value_grows(s.drop_last(), k);
        assert(s.drop_last().take(k) =~= s.take(k));
    } else {
        assert(s.take(k) =~= s);
    }
}

/// The value of `c`, if it is a decimal digit.
fn digit_of(c: char) -> (d: Option<u32>)
    ensures
        d is Some == is_digit(c),
        d is Some ==> d->0 == digit_value(c),
{
    match c {
        '0' => Some(0),
        '1' => Some(1),
        '2' => Some(2),
        '3' => Some(3),
        '4' => Some(4),
        '5' => Some(5),
        '6' => Some(6),
        '7' => Some(7),
        '8' => Some(8),
        '9' => Some(9),
        _ => None,
    }
}

/// Reads the port written by `chars[from..]`.
fn parse_port(chars: &Vec<char>, from: usize) -> (r: Option<u16>)
    requires
        from <= chars.len(),
    ensures
        r == port_value(chars@.subrange(from as int, chars@.len() as int)),
{
    let ghost digits = chars@.subrange(from as int, chars@.len() as int);
    if from == chars.len() {
        return None;
    }
    let mut acc: u32 = 0;
    let mut i: usize = from;
    while i < chars.len()
        invariant
            from <= i <= chars.len(),
            digits == chars@.subrange(from as int, chars@.len() as int),
            all_digits(digits.take(i - from)),
            acc == decimal_value(digits.take(i - from)),
            acc <= 65535,
        decreases chars.len() - i,
    {
        let ghost seen = digits.take(i - from);
        let ghost next = digits.take(i - from + 1);
        proof {
            assert(next.drop_last() =~= seen);
            assert(next.last() == chars@[i as int]);
        }
        match digit_of(chars[i]) {
            None => {
                assert(!is_digit(digits[i - from]));
                return None;
            },
            Some(d) => {
                acc = acc * 10 + d;
                assert(all_digits(next)) by {
                    assert forall|j: int| 0 <= j < next.len() implies is_digit(
                        #[trigger] next[j],
                    ) by {
                        if j < seen.len() {
                            assert(next[j] == seen[j]);
                        }
                    }
                }
                if acc > 65535 {
                    proof {
                        lemma_decimal_value_grows(digits, i - from + 1);
                    }
                    return None;
                }
            },
        }
        i += 1;
    }
    assert(digits.take(i - from) =~= digits);
    Some(acc as u16)
}

/// Splits an `ip:port` address at its first `:`.
pub fn parse_host_and_port(s: &str) -> (r: Result<(String, u16), AddressError>)
    ensures
        match r {
            Ok(pair) => host_and_port(s@) == Ok::<(Seq<char>, u16), AddressError>(
                (pair.0@, pair.1),
            ),
            Err(e) => host_and_port(s@) == Err::<(Seq<char>, u16), AddressError>(e),
        },
{
    let chars = chars_of(s);
    let ghost is_colon = |j: int| s@[j] == ':';
    let mut i: usize = 0;
    while i < chars.len() && chars[i] != ':'
        invariant
            i <= chars.len(),
            chars@ == s@,
            forall|j: int| 0 <= j < i ==> !#[trigger] is_colon(j),
            is_colon == (|j: int| s@[j] == ':'),
        decreases chars.len() - i,
    {
        i += 1;
    }
    proof {
        lemma_first_is(0, s@.len() as int, is_colon, i as int);
    }
    if i == chars.len() {
        return Err(AddressError::MissingPort);
    }
    match parse_port(&chars, i + 1) {
        None => Err(AddressError::InvalidPort),
        Some(port) => {
            let host = s.substring_char(0, i).to_owned();
            Ok((host, port))
        },
    }
}

/// What the supervisor reads of one loopback real server.
#[derive(Clone, Copy, Debug, PartialEq, Eq, Structural)]
pub struct LoopbackInfo {
    pub connections: i32,
    pub weight: i32,
}

/// Whether `server` is a loopback real server on `port`.
pub open spec fn serves_port(server: IpvsServerView, port: u16) -> bool {
    server.address == "127.0.0.1"@ && server.port == port
}

/// The first loopback real server on `port` under `service`, if the service
/// is bound to a service address.
pub open spec fn service_info(service: IpvsServiceView, port: u16) -> Option<LoopbackInfo> {
    let k = first_where(
        service.servers.len() as int,
        |j: int| serves_port(service.servers[j], port),
    );
    if service_ip(service.local_address) && k < service.servers.len() {
        Some(
            LoopbackInfo {
                connections: service.servers[k].active_conn,
                weight: service.servers[k].weight,
            },
        )
    } else {
        None
    }
}

/// The first loopback real server on `port` in the snapshot.
pub open spec fn loopback_info(state: IpvsStateView, port: u16) -> Option<LoopbackInfo> {
    let i = first_where(
        state.services.len() as int,
        |j: int| service_info(state.services[j], port) is Some,
    );
    if i < state.services.len() {
        service_info(state.services[i], port)
    } else {
        None
    }
}

/// The connections and weight of the loopback real server on `port`, when
/// no snapshot may have been taken yet.
pub open spec fn cached_info(state: Option<IpvsStateView>, port: u16) -> Option<LoopbackInfo> {
    match state {
        Some(s) => loopback_info(s, port),
        None => None,
    }
}

/// The active connections counted for `port`; zero when it has no real server.
pub open spec fn connections_on(state: Option<IpvsStateView>, port: u16) -> int {
    match cached_info(state, port) {
        Some(info) => info.connections as int,
        None => 0,
    }
}

/// The weight the kernel holds for `port`; zero when it has no real server.
pub open spec fn weight_on(state: Option<IpvsStateView>, port: u16) -> int {
    match cached_info(state, port) {
        Some(info) => info.weight as int,
        None => 0,
    }
}

impl IpvsService {
    /// The first loopback real server on `port` under this service.
    pub fn info(&self, port: u16) -> (r: Option<LoopbackInfo>)
        ensures
            r == service_info(self@, port),
    {
        let ghost hit = |j: int| serves_port(self@.servers[j], port);
        if !is_service_ip(self.local_address.as_str()) {
            return None;
        }
        let mut k: usize = 0;
        while k < self.servers.len()
            invariant
                k <= self.servers.len(),
                service_ip(self@.local_address),
                hit == (|j: int| serves_port(self@.servers[j], port)),
                forall|j: int| 0 <= j < k ==> !#[trigger] hit(j),
            decreases self.servers.len() - k,
        {
            let server = &self.servers[k];
            proof {
                reveal_strlit("127.0.0.1");
            }
            assert(self@.servers[k as int] == server@);
            if server.port == port && is_loopback(server.address.as_str()) {
                proof {
                    lemma_first_is(0, self@.servers.len() as int, hit, k as int);
                }
                return Some(
                    LoopbackInfo { connections: server.active_conn, weight: server.weight },
                );
            }
            k += 1;
        }
        proof {
            lemma_first_is(0, self@.servers.len() as int, hit, k as int);
        }
        None
    }
}

/// Whether `address` is the loopback address of real servers.
pub fn is_loopback(address: &str) -> (r: bool)
    ensures
        r == (address@ == "127.0.0.1"@),
{
    let a = chars_of(address);
    let b = chars_of("127.0.0.1");
    if a.len() != b.len() {
        return false;
    }
    let mut i: usize = 0;
    while i < a.len()
        invariant
            i <= a.len(),
            a.len() == b.len(),
            a@ == address@,
            b@ == "127.0.0.1"@,
            forall|j: int| 0 <= j < i ==> a@[j] == b@[j],
        decreases a.len() - i,
    {
        if a[i] != b[i] {
            return false;
        }
        i += 1;
    }
    assert(a@ =~= b@);
    true
}

impl IpvsState {
    /// The first loopback real server on `port` in this snapshot.
    pub fn info(&self, port: u16) -> (r: Option<LoopbackInfo>)
        ensures
            r == loopback_info(self@, port),
    {
        let ghost hit = |j: int| service_info(self@.services[j], port) is Some;
        let mut i: usize = 0;
        while i < self.services.len()
            invariant
                i <= self.services.len(),
                hit == (|j: int| service_info(self@.services[j], port) is Some),
                forall|j: int| 0 <= j < i ==> !#[trigger] hit(j),
            decreases self.services.len() - i,
        {
            assert(self@.services[i as int] == self.services[i as int]@);
            let found = self.services[i].info(port);
            if found.is_some() {
                proof {
                    lemma_first_is(0, self@.services.len() as int, hit, i as int);
                }
                return found;
            }
            i += 1;
        }
        proof {
            lemma_first_is(0, self@.services.len() as int, hit, i as int);
        }
        None
    }
}

/// The first loopback real server on `port` in the cached snapshot.
pub fn lookup(state: &Option<IpvsState>, port: u16) -> (r: Option<LoopbackInfo>)
    ensures
        r == cached_info(state.deep_view(), port),
{
    match state {
        Some(s) => s.info(port),
        None => None,
    }
}

} // verus!
