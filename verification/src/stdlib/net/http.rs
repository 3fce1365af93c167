//! Requests and responses of the Chim HTTP client. Sending is simulated:
//! every request is answered `200 OK` with an empty body.
use vstd::prelude::*;
use super::Error;
use crate::text::{owned, str_eq};
use crate::stdlib::conv::{parse_int_opt, parse_int_opt_spec};

verus! {

/// Mathematical form of a list of headers.
pub open spec fn headers_view(h: Seq<(String, String)>) -> Seq<(Seq<char>, Seq<char>)> {
    h.map_values(|p: (String, String)| (p.0@, p.1@))
}

/// Value of the first header named `key`.
pub open spec fn header_lookup(h: Seq<(Seq<char>, Seq<char>)>, key: Seq<char>) -> Option<Seq<char>>
    decreases h.len(),
{
    if h.len() == 0 {
        None
    } else if h[0].0 == key {
        Some(h[0].1)
    } else {
        header_lookup(h.drop_first(), key)
    }
}

/// An HTTP request.
#[derive(Debug, Clone)]
pub struct Request {
    method: String,
    url: String,
    headers: Vec<(String, String)>,
    body: Option<String>,
}

impl Request {
    pub closed spec fn method_text(&self) -> Seq<char> {
        self.method@
    }

    pub closed spec fn url_text(&self) -> Seq<char> {
        self.url@
    }

    pub closed spec fn header_list(&self) -> Seq<(Seq<char>, Seq<char>)> {
        headers_view(self.headers@)
    }

    pub closed spec fn body_text(&self) -> Option<Seq<char>> {
        match self.body {
            Some(b) => Some(b@),
            None => None,
        }
    }

    pub fn new(method: String, url: String) -> (r: Request)
        ensures
            r.method_text() == method@,
            r.url_text() == url@,
            r.header_list() == Seq::<(Seq<char>, Seq<char>)>::empty(),
            r.body_text() is None,
    {
        let r = Request { method, url, headers: Vec::new(), body: None };
        assert(r.header_list() =~= Seq::<(Seq<char>, Seq<char>)>::empty());
        r
    }

    pub fn get(url: String) -> (r: Request)
        ensures
            r.method_text() == "GET"@,
            r.url_text() == url@,
            r.header_list() == Seq::<(Seq<char>, Seq<char>)>::empty(),
            r.body_text() is None,
    {
        Request::new(owned("GET"), url)
    }

    pub fn post(url: String) -> (r: Request)
        ensures
            r.method_text() == "POST"@,
            r.url_text() == url@,
            r.header_list() == Seq::<(Seq<char>, Seq<char>)>::empty(),
            r.body_text() is None,
    {
        Request::new(owned("POST"), url)
    }

    /// Appends a header.
    pub fn header(&mut self, key: String, value: String) -> (r: &mut Request)
        ensures
            r.header_list() == old(self).header_list().push((key@, value@)),
            r.method_text() == old(self).method_text(),
            r.url_text() == old(self).url_text(),
            r.body_text() == old(self).body_text(),
            *final(self) == *final(r),
    {
        let ghost k = key@;
        let ghost v = value@;
        self.headers.push((key, value));
        assert(self.header_list() =~= old(self).header_list().push((k, v)));
        self
    }

    /// Sets the body.
    pub fn body(&mut self, body: String) -> (r: &mut Request)
        ensures
            r.body_text() == Some(body@),
            r.header_list() == old(self).header_list(),
            r.method_text() == old(self).method_text(),
            r.url_text() == old(self).url_text(),
            *final(self) == *final(r),
    {
        self.body = Some(body);
        self
    }

    /// Answered `200 OK` with an empty body.
    pub fn send(&self) -> (r: Result<Response, Error>)
        ensures
            r is Ok,
            r->Ok_0.status_code() == 200,
            r->Ok_0.status_line() == "OK"@,
            r->Ok_0.body_content() == ""@,
            r->Ok_0.header_list() == Seq::<(Seq<char>, Seq<char>)>::empty(),
    {
        Ok(Response::new(200, owned("OK"), owned("")))
    }
}

/// An HTTP response.
#[derive(Debug, Clone)]
pub struct Response {
    status: i64,
    status_text: String,
    headers: Vec<(String, String)>,
    body: String,
}

impl Response {
    pub closed spec fn status_code(&self) -> i64 {
        self.status
    }

    pub closed spec fn status_line(&self) -> Seq<char> {
        self.status_text@
    }

    pub closed spec fn header_list(&self) -> Seq<(Seq<char>, Seq<char>)> {
        headers_view(self.headers@)
    }

    pub closed spec fn body_content(&self) -> Seq<char> {
        self.body@
    }

    pub fn new(status: i64, status_text: String, body: String) -> (r: Response)
        ensures
            r.status_code() == status,
            r.status_line() == status_text@,
            r.header_list() == Seq::<(Seq<char>, Seq<char>)>::empty(),
            r.body_content() == body@,
    {
        let r = Response { status, status_text, headers: Vec::new(), body };
        assert(r.header_list() =~= Seq::<(Seq<char>, Seq<char>)>::empty());
        r
    }

    pub fn status(&self) -> (r: i64)
        ensures
            r == self.status_code(),
    {
        self.status
    }

    pub fn status_text(&self) -> (r: &String)
        ensures
            r@ == self.status_line(),
    {
        &self.status_text
    }

    pub fn headers(&self) -> (r: &Vec<(String, String)>)
        ensures
            headers_view(r@) == self.header_list(),
    {
        &self.headers
    }

    pub fn body(&self) -> (r: &String)
        ensures
            r@ == self.body_content(),
    {
        &self.body
    }

    pub fn text(&self) -> (r: String)
        ensures
            r@ == self.body_content(),
    {
        self.body.clone()
    }

    /// The default value of `T`; the body is not read.
    pub fn json<T: Default>(&self) -> (r: Result<T, Error>)
        ensures
            r is Ok,
    {
        Ok(T::default())
    }

    /// Value of the first header named `key`.
    pub fn header(&self, key: &String) -> (r: Option<String>)
        ensures
            match r {
                Some(v) => header_lookup(self.header_list(), key@) == Some(v@),
                None => header_lookup(self.header_list(), key@) is None,
            },
    {
        let mut i: usize = 0;
        assert(self.header_list().skip(0) =~= self.header_list());
        while i < self.headers.len()
            invariant
                i <= self.headers@.len(),
                header_lookup(self.header_list(), key@) == header_lookup(
                    self.header_list().skip(i as int),
                    key@,
                ),
            decreases self.headers@.len() - i,
        {
            let ghost rest = self.header_list().skip(i as int);
            assert(rest[0] == (self.headers@[i as int].0@, self.headers@[i as int].1@));
            if str_eq(self.headers[i].0.as_str(), key.as_str()) {
                return Some(self.headers[i].1.clone());
            }
            assert(rest.drop_first() =~= self.header_list().skip(i + 1));
            i = i + 1;
        }
        None
    }

    /// The `Content-Type` header.
    pub fn content_type(&self) -> (r: Option<String>)
        ensures
            match r {
                Some(v) => header_lookup(self.header_list(), "Content-Type"@) == Some(v@),
                None => header_lookup(self.header_list(), "Content-Type"@) is None,
            },
    {
        self.header(&owned("Content-Type"))
    }

    /// The `Content-Length` header read as a decimal integer.
    pub fn content_length(&self) -> (r: Option<i64>)
        ensures
            r == (match header_lookup(self.header_list(), "Content-Length"@) {
                Some(v) => match parse_int_opt_spec(v, 10) {
                    Some(n) => Some(n as i64),
                    None => None::<i64>,
                },
                None => None::<i64>,
            }),
    {
        match self.header(&owned("Content-Length")) {
            Some(v) => parse_int_opt(v.as_str(), 10),
            None => None,
        }
    }
}

/// Sends a GET request for `url`.
pub fn get(url: &String) -> (r: Result<Response, Error>)
    ensures
        r is Ok,
        r->Ok_0.status_code() == 200,
        r->Ok_0.status_line() == "OK"@,
        r->Ok_0.body_content() == ""@,
{
    Request::get(url.clone()).send()
}

/// Sends a POST request for `url`.
pub fn post(url: &String) -> (r: Result<Response, Error>)
    ensures
        r is Ok,
        r->Ok_0.status_code() == 200,
        r->Ok_0.status_line() == "OK"@,
        r->Ok_0.body_content() == ""@,
{
    Request::post(url.clone()).send()
}

} // verus!
