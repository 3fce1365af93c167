use chim_compiler::stdlib::net::http::{self, Request, Response};
use chim_compiler::stdlib::net::{ErrorKind, IpAddr, SocketAddr, TcpListener, TcpStream, UdpSocket, Uri};

#[test]
fn ipv4_text_and_flags() {
    let ip = IpAddr::new_v4(192, 168, 0, 17);
    assert_eq!(ip.to_string(), "192.168.0.17");
    assert!(!ip.is_loopback());
    assert!(!ip.is_private());
    assert!(IpAddr::new_v4(10, 1, 2, 3).is_private());
    assert!(!IpAddr::new_v4(172, 16, 0, 1).is_private());
    assert!(IpAddr::localhost().is_loopback());
    assert_eq!(IpAddr::localhost().to_string(), "127.0.0.1");
}

#[test]
fn ipv6_text() {
    let ip = IpAddr::new_v6("::1".to_string());
    assert!(ip.is_loopback());
    assert_eq!(ip.to_string(), "::1");
    assert!(!IpAddr::new_v6("fe80::1".to_string()).is_loopback());
}

#[test]
fn socket_address_text() {
    let a = SocketAddr::new(IpAddr::new_v4(8, 8, 4, 4), 53);
    assert_eq!(a.to_string(), "8.8.4.4:53");
    assert_eq!(a.port(), 53);
    assert_eq!(a.ip().to_string(), "8.8.4.4");
}

#[test]
fn tcp_stream_lifecycle() {
    let mut s = TcpStream::connect(&"example.org".to_string(), 80).unwrap();
    assert!(s.is_connected());
    assert_eq!(s.peer_addr().unwrap().to_string(), "127.0.0.1:80");
    assert!(s.local_addr().is_none());
    let mut buf = [0u8; 4];
    assert_eq!(s.read(&mut buf).unwrap(), 0);
    assert_eq!(s.write(&[1, 2]).unwrap(), 0);
    s.shutdown().unwrap();
    assert!(!s.is_connected());
}

#[test]
fn listener_accepts_on_its_address() {
    let addr = SocketAddr::new(IpAddr::new_v4(0, 0, 0, 0), 8080);
    let mut l = TcpListener::bind(&addr).unwrap();
    let (stream, at) = l.accept().unwrap();
    assert_eq!(at.to_string(), "0.0.0.0:8080");
    assert_eq!(stream.local_addr().unwrap().to_string(), "0.0.0.0:8080");
    assert_eq!(l.ttl(), 64);
    assert!(!l.non_blocking());
}

#[test]
fn udp_socket_receives_nothing() {
    let addr = SocketAddr::new(IpAddr::localhost(), 9000);
    let mut u = UdpSocket::bind(&addr).unwrap();
    let mut buf = [0u8; 8];
    let (n, from) = u.recv_from(&mut buf).unwrap();
    assert_eq!(n, 0);
    assert_eq!(from.to_string(), "127.0.0.1:0");
    assert!(!u.broadcast());
    assert_eq!(u.local_addr().unwrap().port(), 9000);
}

#[test]
fn uri_text() {
    let u = Uri::new("example.org".to_string());
    assert_eq!(u.to_string(), "http://example.org/");
    assert_eq!(u.scheme(), "http");
    assert_eq!(u.path(), "/");
    assert!(u.port().is_none());
    assert!(u.query().is_none());
}

#[test]
fn request_builder_and_send() {
    let mut r = Request::get("http://x".to_string());
    r.header("A".to_string(), "1".to_string()).body("hi".to_string());
    let resp = r.send().unwrap();
    assert_eq!(resp.status(), 200);
    assert_eq!(resp.status_text(), "OK");
    assert_eq!(resp.text(), "");
    let resp = http::post(&"http://y".to_string()).unwrap();
    assert_eq!(resp.status(), 200);
}

#[test]
fn response_headers() {
    let resp = Response::new(404, "Not Found".to_string(), "gone".to_string());
    assert!(resp.header(&"Content-Type".to_string()).is_none());
    assert!(resp.content_length().is_none());
    assert_eq!(resp.body(), "gone");
    assert!(resp.headers().is_empty());
    let e = chim_compiler::stdlib::net::Error::new(ErrorKind::Timeout, "slow".to_string());
    assert_eq!(e.kind(), ErrorKind::Timeout);
    assert_eq!(e.message(), "slow");
}
