//! Network addresses, URIs and the Chim library's socket objects. The
//! sockets keep only their addresses and flags: reads and writes move no
//! data and report zero bytes.
use vstd::prelude::*;
use crate::text::{decimal, owned, push_decimal, string_push_str};

pub mod http;

verus! {

/// The two forms of an IP address.
#[derive(Debug, Clone, PartialEq)]
pub enum IpAddrKind {
    V4(u8, u8, u8, u8),
    V6(String),
}

/// An IP address.
#[derive(Debug, Clone, PartialEq)]
pub struct IpAddr {
    inner: IpAddrKind,
}

/// Mathematical form of an IP address.
pub enum IpView {
    V4(u8, u8, u8, u8),
    V6(Seq<char>),
}

/// Dotted-decimal text of an IPv4 address, or the text of an IPv6 one.
pub open spec fn ip_text(v: IpView) -> Seq<char> {
    match v {
        IpView::V4(a, b, c, d) => decimal(a as nat) + "."@ + decimal(b as nat) + "."@ + decimal(
            c as nat,
        ) + "."@ + decimal(d as nat),
        IpView::V6(s) => s,
    }
}

impl View for IpAddr {
    type V = IpView;

    closed spec fn view(&self) -> IpView {
        match self.inner {
            IpAddrKind::V4(a, b, c, d) => IpView::V4(a, b, c, d),
            IpAddrKind::V6(s) => IpView::V6(s@),
        }
    }
}

/// A copy of an address.
pub fn copy_ip(ip: &IpAddr) -> (r: IpAddr)
    ensures
        r@ == ip@,
{
    match &ip.inner {
        IpAddrKind::V4(a, b, c, d) => IpAddr { inner: IpAddrKind::V4(*a, *b, *c, *d) },
        IpAddrKind::V6(s) => IpAddr { inner: IpAddrKind::V6(s.clone()) },
    }
}

impl IpAddr {
    pub fn new_v4(a: u8, b: u8, c: u8, d: u8) -> (r: IpAddr)
        ensures
            r@ == IpView::V4(a, b, c, d),
    {
        IpAddr { inner: IpAddrKind::V4(a, b, c, d) }
    }

    pub fn new_v6(s: String) -> (r: IpAddr)
        ensures
            r@ == IpView::V6(s@),
    {
        IpAddr { inner: IpAddrKind::V6(s) }
    }

    /// `127.0.0.1`.
    pub fn localhost() -> (r: IpAddr)
        ensures
            r@ == IpView::V4(127, 0, 0, 1),
    {
        IpAddr::new_v4(127, 0, 0, 1)
    }

    /// An IPv4 address in `127.*`, or the IPv6 text `::1`.
    pub fn is_loopback(&self) -> (r: bool)
        ensures
            r == (match self@ {
                IpView::V4(a, _, _, _) => a == 127,
                IpView::V6(s) => s == "::1"@,
            }),
    {
        match &self.inner {
            IpAddrKind::V4(a, _, _, _) => *a == 127,
            IpAddrKind::V6(s) => crate::text::str_eq(s.as_str(), "::1"),
        }
    }

    /// Whether the address is in a private range. The test on the first
    /// octet alone admits only `10.*`: its conditions for `172.16/12` and
    /// `192.168/16` compare the first octet with two different values.
    pub fn is_private(&self) -> (r: bool)
        ensures
            r == (match self@ {
                IpView::V4(a, _, _, _) => a == 10,
                IpView::V6(_) => false,
            }),
    {
        match &self.inner {
            IpAddrKind::V4(a, _, _, _) => {
                let a = *a;
                a == 10 || (a == 172 && a >= 16 && a <= 31) || (a == 192 && a == 168)
            },
            IpAddrKind::V6(_) => false,
        }
    }

    pub fn to_string(&self) -> (r: String)
        ensures
            r@ == ip_text(self@),
    {
        match &self.inner {
            IpAddrKind::V4(a, b, c, d) => {
                let mut s = String::new();
                push_decimal(&mut s, *a as u64);
                string_push_str(&mut s, ".");
                push_decimal(&mut s, *b as u64);
                string_push_str(&mut s, ".");
                push_decimal(&mut s, *c as u64);
                string_push_str(&mut s, ".");
                push_decimal(&mut s, *d as u64);
                proof {
                    reveal_strlit(".");
                    assert(s@ =~= ip_text(self@));
                }
                s
            },
            IpAddrKind::V6(s) => s.clone(),
        }
    }
}

/// An IP address with a port.
#[derive(Debug, Clone)]
pub struct SocketAddr {
    ip: IpAddr,
    port: u16,
}

/// Mathematical form of a socket address.
pub struct SocketView {
    pub ip: IpView,
    pub port: u16,
}

impl View for SocketAddr {
    type V = SocketView;

    closed spec fn view(&self) -> SocketView {
        SocketView { ip: self.ip@, port: self.port }
    }
}

/// A copy of a socket address.
pub fn copy_addr(a: &SocketAddr) -> (r: SocketAddr)
    ensures
        r@ == a@,
{
    SocketAddr { ip: copy_ip(&a.ip), port: a.port }
}

/// A copy of an optional socket address.
pub fn copy_opt_addr(a: &Option<SocketAddr>) -> (r: Option<SocketAddr>)
    ensures
        match a {
            Some(x) => r is Some && r->0@ == x@,
            None => r is None,
        },
{
    match a {
        Some(x) => Some(copy_addr(x)),
        None => None,
    }
}

impl SocketAddr {
    pub fn new(ip: IpAddr, port: u16) -> (r: SocketAddr)
        ensures
            r@ == (SocketView { ip: ip@, port }),
    {
        SocketAddr { ip, port }
    }

    pub fn ip(&self) -> (r: &IpAddr)
        ensures
            r@ == self@.ip,
    {
        &self.ip
    }

    pub fn port(&self) -> (r: u16)
        ensures
            r == self@.port,
    {
        self.port
    }

    /// `ip:port`.
    pub fn to_string(&self) -> (r: String)
        ensures
            r@ == ip_text(self@.ip) + ":"@ + decimal(self@.port as nat),
    {
        let mut s = self.ip.to_string();
        string_push_str(&mut s, ":");
        push_decimal(&mut s, self.port as u64);
        s
    }
}

/// Kinds of network error.
#[derive(Debug, Clone, Copy, PartialEq, Eq, Structural)]
pub enum ErrorKind {
    NotFound,
    PermissionDenied,
    ConnectionRefused,
    ConnectionReset,
    HostUnreachable,
    NetworkUnreachable,
    Timeout,
    Other,
}

/// A network error: its kind and a message.
#[derive(Debug, Clone)]
pub struct Error {
    kind: ErrorKind,
    message: String,
}

impl Error {
    pub closed spec fn kind_of(&self) -> ErrorKind {
        self.kind
    }

    pub closed spec fn text(&self) -> Seq<char> {
        self.message@
    }

    pub fn new(kind: ErrorKind, message: String) -> (r: Error)
        ensures
            r.kind_of() == kind,
            r.text() == message@,
    {
        Error { kind, message }
    }

    pub fn kind(&self) -> (r: ErrorKind)
        ensures
            r == self.kind_of(),
    {
        self.kind
    }

    pub fn message(&self) -> (r: &String)
        ensures
            r@ == self.text(),
    {
        &self.message
    }
}

/// A TCP connection.
pub struct TcpStream {
    local_addr: Option<SocketAddr>,
    peer_addr: Option<SocketAddr>,
    connected: bool,
}

/// Mathematical form of an optional socket address.
pub open spec fn opt_view(a: Option<SocketAddr>) -> Option<SocketView> {
    match a {
        Some(x) => Some(x@),
        None => None,
    }
}

impl TcpStream {
    pub closed spec fn local(&self) -> Option<SocketView> {
        opt_view(self.local_addr)
    }

    pub closed spec fn peer(&self) -> Option<SocketView> {
        opt_view(self.peer_addr)
    }

    pub closed spec fn connected_flag(&self) -> bool {
        self.connected
    }

    /// A connection to `port` on the local host; the host name is not
    /// looked up.
    pub fn connect(host: &String, port: u16) -> (r: Result<TcpStream, Error>)
        ensures
            r is Ok,
            r->Ok_0.local() is None,
            r->Ok_0.peer() == Some(SocketView { ip: IpView::V4(127, 0, 0, 1), port }),
            r->Ok_0.connected_flag(),
    {
        Ok(
            TcpStream {
                local_addr: None,
                peer_addr: Some(SocketAddr::new(IpAddr::localhost(), port)),
                connected: true,
            },
        )
    }

    /// A connection to `addr`.
    pub fn connect_addr(addr: &SocketAddr) -> (r: Result<TcpStream, Error>)
        ensures
            r is Ok,
            r->Ok_0.local() is None,
            r->Ok_0.peer() == Some(addr@),
            r->Ok_0.connected_flag(),
    {
        Ok(TcpStream { local_addr: None, peer_addr: Some(copy_addr(addr)), connected: true })
    }

    /// Reads nothing: zero bytes.
    pub fn read(&mut self, buf: &mut [u8]) -> (r: Result<i64, Error>)
        ensures
            r == Ok::<i64, Error>(0),
            final(buf)@ == old(buf)@,
    {
        Ok(0)
    }

    /// Reads nothing: zero bytes.
    pub fn read_to_string(&mut self, buf: &mut String) -> (r: Result<i64, Error>)
        ensures
            r == Ok::<i64, Error>(0),
            final(buf)@ == old(buf)@,
    {
        Ok(0)
    }

    /// Sends nothing: zero bytes.
    pub fn write(&mut self, buf: &[u8]) -> (r: Result<i64, Error>)
        ensures
            r == Ok::<i64, Error>(0),
    {
        Ok(0)
    }

    /// Sends nothing: zero bytes.
    pub fn write_str(&mut self, s: &String) -> (r: Result<i64, Error>)
        ensures
            r == Ok::<i64, Error>(0),
    {
        Ok(0)
    }

    pub fn flush(&mut self) -> (r: Result<(), Error>)
        ensures
            r is Ok,
    {
        Ok(())
    }

    pub fn peer_addr(&self) -> (r: Option<SocketAddr>)
        ensures
            opt_view(r) == self.peer(),
    {
        copy_opt_addr(&self.peer_addr)
    }

    pub fn local_addr(&self) -> (r: Option<SocketAddr>)
        ensures
            opt_view(r) == self.local(),
    {
        copy_opt_addr(&self.local_addr)
    }

    pub fn is_connected(&self) -> (r: bool)
        ensures
            r == self.connected_flag(),
    {
        self.connected
    }

    /// Marks the connection closed.
    pub fn shutdown(&mut self) -> (r: Result<(), Error>)
        ensures
            r is Ok,
            !final(self).connected_flag(),
            final(self).local() == old(self).local(),
            final(self).peer() == old(self).peer(),
    {
        self.connected = false;
        Ok(())
    }
}

/// A TCP listener bound to an address.
pub struct TcpListener {
    addr: SocketAddr,
    accepting: bool,
}

impl TcpListener {
    pub closed spec fn bound_to(&self) -> SocketView {
        self.addr@
    }

    pub fn bind(addr: &SocketAddr) -> (r: Result<TcpListener, Error>)
        ensures
            r is Ok,
            r->Ok_0.bound_to() == addr@,
    {
        Ok(TcpListener { addr: copy_addr(addr), accepting: false })
    }

    /// A connection whose local address is the listener's, paired with the
    /// listener's address.
    pub fn accept(&mut self) -> (r: Result<(TcpStream, SocketAddr), Error>)
        ensures
            r is Ok,
            r->Ok_0.0.local() == Some(old(self).bound_to()),
            r->Ok_0.0.peer() is None,
            r->Ok_0.0.connected_flag(),
            r->Ok_0.1@ == old(self).bound_to(),
            final(self).bound_to() == old(self).bound_to(),
    {
        let stream = TcpStream {
            local_addr: Some(copy_addr(&self.addr)),
            peer_addr: None,
            connected: true,
        };
        Ok((stream, copy_addr(&self.addr)))
    }

    pub fn local_addr(&self) -> (r: SocketAddr)
        ensures
            r@ == self.bound_to(),
    {
        copy_addr(&self.addr)
    }

    /// Accepts and ignores a time-to-live.
    pub fn set_ttl(&mut self, ttl: u32) -> (r: Result<(), Error>)
        ensures
            r is Ok,
            final(self).bound_to() == old(self).bound_to(),
    {
        Ok(())
    }

    /// Always 64.
    pub fn ttl(&self) -> (r: u32)
        ensures
            r == 64,
    {
        64
    }

    /// Always `false`.
    pub fn non_blocking(&self) -> (r: bool)
        ensures
            !r,
    {
        false
    }

    /// Accepts and ignores the flag.
    pub fn set_non_blocking(&mut self, nonblocking: bool) -> (r: Result<(), Error>)
        ensures
            r is Ok,
            final(self).bound_to() == old(self).bound_to(),
    {
        Ok(())
    }
}

/// A UDP socket.
pub struct UdpSocket {
    local_addr: Option<SocketAddr>,
    bound: bool,
}

impl UdpSocket {
    pub closed spec fn local(&self) -> Option<SocketView> {
        opt_view(self.local_addr)
    }

    pub fn bind(addr: &SocketAddr) -> (r: Result<UdpSocket, Error>)
        ensures
            r is Ok,
            r->Ok_0.local() == Some(addr@),
    {
        Ok(UdpSocket { local_addr: Some(copy_addr(addr)), bound: true })
    }

    /// Sends nothing: zero bytes.
    pub fn send_to(&mut self, buf: &[u8], addr: &SocketAddr) -> (r: Result<i64, Error>)
        ensures
            r == Ok::<i64, Error>(0),
    {
        Ok(0)
    }

    /// Receives nothing: zero bytes, from port 0 of the local host.
    pub fn recv_from(&mut self, buf: &mut [u8]) -> (r: Result<(i64, SocketAddr), Error>)
        ensures
            r is Ok,
            r->Ok_0.0 == 0,
            r->Ok_0.1@ == (SocketView { ip: IpView::V4(127, 0, 0, 1), port: 0 }),
            final(buf)@ == old(buf)@,
    {
        Ok((0, SocketAddr::new(IpAddr::localhost(), 0)))
    }

    pub fn local_addr(&self) -> (r: Option<SocketAddr>)
        ensures
            opt_view(r) == self.local(),
    {
        copy_opt_addr(&self.local_addr)
    }

    /// Accepts and ignores a time-to-live.
    pub fn set_ttl(&mut self, ttl: u32) -> (r: Result<(), Error>)
        ensures
            r is Ok,
            final(self).local() == old(self).local(),
    {
        Ok(())
    }

    /// Always 64.
    pub fn ttl(&self) -> (r: u32)
        ensures
            r == 64,
    {
        64
    }

    /// Always `false`.
    pub fn broadcast(&self) -> (r: bool)
        ensures
            !r,
    {
        false
    }

    /// Accepts and ignores the flag.
    pub fn set_broadcast(&mut self, broadcast: bool) -> (r: Result<(), Error>)
        ensures
            r is Ok,
            final(self).local() == old(self).local(),
    {
        Ok(())
    }
}

/// A URI.
#[derive(Debug, Clone)]
pub struct Uri {
    scheme: String,
    host: String,
    port: Option<u16>,
    path: String,
    query: Option<String>,
    fragment: Option<String>,
}

/// Text of an optional part with its leading separator, or nothing.
pub open spec fn opt_part(sep: Seq<char>, p: Option<Seq<char>>) -> Seq<char> {
    match p {
        Some(t) => sep + t,
        None => Seq::empty(),
    }
}

/// Mathematical form of an optional string.
pub open spec fn opt_text(p: Option<String>) -> Option<Seq<char>> {
    match p {
        Some(t) => Some(t@),
        None => None,
    }
}

impl Uri {
    pub closed spec fn scheme_text(&self) -> Seq<char> {
        self.scheme@
    }

    pub closed spec fn host_text(&self) -> Seq<char> {
        self.host@
    }

    pub closed spec fn port_value(&self) -> Option<u16> {
        self.port
    }

    pub closed spec fn path_text(&self) -> Seq<char> {
        self.path@
    }

    pub closed spec fn query_text(&self) -> Option<Seq<char>> {
        opt_text(self.query)
    }

    pub closed spec fn fragment_text(&self) -> Option<Seq<char>> {
        opt_text(self.fragment)
    }

    /// A URI whose host is the whole text, with scheme `http` and path `/`.
    pub fn new(s: String) -> (r: Uri)
        ensures
            r.scheme_text() == "http"@,
            r.host_text() == s@,
            r.port_value() is None,
            r.path_text() == "/"@,
            r.query_text() is None,
            r.fragment_text() is None,
    {
        Uri {
            scheme: owned("http"),
            host: s.clone(),
            port: None,
            path: owned("/"),
            query: None,
            fragment: None,
        }
    }

    pub fn scheme(&self) -> (r: &String)
        ensures
            r@ == self.scheme_text(),
    {
        &self.scheme
    }

    pub fn host(&self) -> (r: &String)
        ensures
            r@ == self.host_text(),
    {
        &self.host
    }

    pub fn port(&self) -> (r: Option<u16>)
        ensures
            r == self.port_value(),
    {
        self.port
    }

    pub fn path(&self) -> (r: &String)
        ensures
            r@ == self.path_text(),
    {
        &self.path
    }

    pub fn query(&self) -> (r: Option<&String>)
        ensures
            match r {
                Some(q) => self.query_text() == Some(q@),
                None => self.query_text() is None,
            },
    {
        self.query.as_ref()
    }

    pub fn fragment(&self) -> (r: Option<&String>)
        ensures
            match r {
                Some(q) => self.fragment_text() == Some(q@),
                None => self.fragment_text() is None,
            },
    {
        self.fragment.as_ref()
    }

    /// `scheme://host[:port]path[?query][#fragment]`.
    pub fn to_string(&self) -> (r: String)
        ensures
            r@ == self.scheme_text() + "://"@ + self.host_text() + (match self.port_value() {
                Some(p) => ":"@ + decimal(p as nat),
                None => Seq::<char>::empty(),
            }) + self.path_text() + opt_part("?"@, self.query_text()) + opt_part(
                "#"@,
                self.fragment_text(),
            ),
    {
        let mut s = self.scheme.clone();
        string_push_str(&mut s, "://");
        string_push_str(&mut s, self.host.as_str());
        let ghost base = s@;
        match self.port {
            Some(p) => {
                string_push_str(&mut s, ":");
                push_decimal(&mut s, p as u64);
            },
            None => {},
        }
        let ghost with_port = s@;
        string_push_str(&mut s, self.path.as_str());
        match &self.query {
            Some(q) => {
                string_push_str(&mut s, "?");
                string_push_str(&mut s, q.as_str());
            },
            None => {},
        }
        let ghost with_query = s@;
        match &self.fragment {
            Some(f) => {
                string_push_str(&mut s, "#");
                string_push_str(&mut s, f.as_str());
            },
            None => {},
        }
        proof {
            assert(s@ =~= self.scheme_text() + "://"@ + self.host_text() + (match self.port_value() {
                Some(p) => ":"@ + decimal(p as nat),
                None => Seq::<char>::empty(),
            }) + self.path_text() + opt_part("?"@, self.query_text()) + opt_part(
                "#"@,
                self.fragment_text(),
            ));
        }
        s
    }
}

} // verus!
