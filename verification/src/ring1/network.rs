//! Ring 1 network stack: the card, addresses and TCP socket of the kernel
//! core, with its own name table (unknown names go to the gateway) and an
//! HTTP service that answers from built-in pages.
use vstd::prelude::*;
use vstd::utf8::encode_utf8;
use vstd::string::StringSliceAdditionalSpecFns;
use crate::text::{chars_of, push_text, same_text, string_of};
use crate::network::{url_host, url_path, url_rest, slash_index};
pub use crate::network::{
    pci_config_address, pci_find_network_card, EthernetDriver, Ipv4Address, PciDevice, TcpSocket, TcpState,
};

verus! {

/// The address a host name resolves to; unknown names get the gateway.
pub open spec fn table_address(domain: Seq<char>) -> Seq<u8> {
    if domain == "example.com"@ || domain == "www.example.com"@ {
        seq![93u8, 184, 216, 34]
    } else if domain == "npr.org"@ || domain == "text.npr.org"@ {
        seq![151u8, 101, 1, 67]
    } else if domain == "github.com"@ || domain == "www.github.com"@ {
        seq![140u8, 82, 121, 4]
    } else if domain == "duckduckgo.com"@ || domain == "www.duckduckgo.com"@ || domain == "html.duckduckgo.com"@
        || domain == "duck.com"@ {
        seq![52u8, 142, 124, 215]
    } else {
        seq![10u8, 0, 2, 2]
    }
}

/// Resolves a host name from the built-in table.
pub fn resolve_domain_name(domain: &str) -> (r: Result<Ipv4Address, &'static str>)
    ensures
        r matches Ok(ip) && ip.0@ == table_address(domain@),
{
    if same_text(domain, "example.com") || same_text(domain, "www.example.com") {
        Ok(Ipv4Address([93, 184, 216, 34]))
    } else if same_text(domain, "npr.org") || same_text(domain, "text.npr.org") {
        Ok(Ipv4Address([151, 101, 1, 67]))
    } else if same_text(domain, "github.com") || same_text(domain, "www.github.com") {
        Ok(Ipv4Address([140, 82, 121, 4]))
    } else if same_text(domain, "duckduckgo.com") || same_text(domain, "www.duckduckgo.com") || same_text(
        domain,
        "html.duckduckgo.com",
    ) || same_text(domain, "duck.com") {
        Ok(Ipv4Address([52, 142, 124, 215]))
    } else {
        Ok(Ipv4Address([10, 0, 2, 2]))
    }
}

/// A response of the HTTP service, with its header fields as (name, value).
pub struct HttpResponse {
    pub status_code: u16,
    pub headers: Vec<(String, String)>,
    pub body: String,
}

/// Whether `pat` occurs in `s`.
pub open spec fn contains_text(s: Seq<char>, pat: Seq<char>) -> bool {
    exists|i: int| 0 <= i && i + pat.len() <= s.len() && #[trigger] s.subrange(i, i + pat.len()) == pat
}

/// Whether `pat` occurs in `s`.
fn chars_contain_text(s: &[char], pat: &[char]) -> (r: bool)
    ensures
        r == contains_text(s@, pat@),
{
    let n = s.len();
    let m = pat.len();
    if m > n {
        return false;
    }
    let mut i: usize = 0;
    while i <= n - m
        invariant
            m <= n,
            n == s@.len(),
            m == pat@.len(),
            i <= n - m + 1,
            forall|j: int| 0 <= j < i ==> #[trigger] s@.subrange(j, j + m) != pat@,
        decreases n - m + 1 - i,
    {
        let mut k: usize = 0;
        let mut same = true;
        while same && k < m
            invariant
                i + m <= n,
                n == s@.len(),
                m == pat@.len(),
                k <= m,
                forall|j: int| 0 <= j < k ==> s@[i + j] == pat@[j],
                !same ==> k < m && s@[i + k] != pat@[k as int],
            decreases m - k + (if same { 1int } else { 0int }),
        {
            if s[i + k] == pat[k] {
                k = k + 1;
            } else {
                same = false;
            }
        }
        if same {
            assert(s@.subrange(i as int, i + m) =~= pat@);
            return true;
        }
        assert(s@.subrange(i as int, i + m)[k as int] != pat@[k as int]);
        i = i + 1;
    }
    false
}

/// The built-in page served for a host: the search engine's for names
/// with "duckduckgo" or "duck" in them, the news page for "npr", else the
/// example page.
pub open spec fn served_page(domain: Seq<char>) -> Seq<char> {
    if contains_text(domain, "duckduckgo"@) || contains_text(domain, "duck"@) {
        "<html><head><title>DuckDuckGo Search</title></head><body><h1>DuckDuckGo Search</h1><p>1. <a href=\"https://npr.org\">NPR News</a></p><p>2. <a href=\"https://github.com\">GitHub Software</a></p></body></html>"@
    } else if contains_text(domain, "npr"@) {
        "<html><head><title>NPR Text News</title></head><body><h1>NPR News Feed</h1><p>Latest headlines and world updates.</p></body></html>"@
    } else {
        "<html><head><title>Example Domain</title></head><body><h1>Example Domain</h1><p>This domain is for use in illustrative examples in documents.</p></body></html>"@
    }
}

/// Splits a URL into host and path (see `url_host` and `url_path`).
fn parse_url(url: &str) -> (r: Result<(String, String), &'static str>)
    ensures
        r matches Ok((d, p)) && d@ == url_host(url@) && p@ == url_path(url@),
{
    proof {
        reveal_strlit("http://");
        reveal_strlit("https://");
        reveal_strlit("/");
    }
    let chars = chars_of(url);
    let start: usize = if crate::text::chars_start_with(chars.as_slice(), chars_of("http://").as_slice()) {
        7
    } else if crate::text::chars_start_with(chars.as_slice(), chars_of("https://").as_slice()) {
        8
    } else {
        0
    };
    let s = crate::text::chars_slice(chars.as_slice(), start, chars.len());
    assert(s@ == url_rest(url@));
    let pos = crate::network::find_slash(&s);
    proof {
        crate::network::lemma_slash_index(s@);
    }
    if pos < s.len() {
        let domain = string_of(crate::text::chars_slice(s.as_slice(), 0, pos).as_slice());
        let path = string_of(crate::text::chars_slice(s.as_slice(), pos, s.len()).as_slice());
        Ok((domain, path))
    } else {
        assert(s@.take(pos as int) =~= s@);
        Ok((string_of(s.as_slice()), "/".to_owned()))
    }
}

/// Fetches `url_str` over HTTP/1.1: the host is resolved, a TCP connection
/// to port 80 is opened and the GET request sent; the response is a 200 of
/// type text/html with the host's built-in page.
pub fn http_get(url_str: &str) -> (r: Result<HttpResponse, &'static str>)
    requires
        encode_utf8(url_str@).len() + 1500 <= u32::MAX,
    ensures
        r matches Ok(resp) && {
            &&& resp.status_code == 200
            &&& resp.headers@.len() == 1
            &&& resp.headers@[0].0@ == "Content-Type"@
            &&& resp.headers@[0].1@ == "text/html"@
            &&& resp.body@ == served_page(url_host(url_str@))
        },
{
    let (domain, path) = match parse_url(url_str) {
        Ok(parts) => parts,
        Err(e) => {
            return Err(e);
        },
    };
    let ip = match resolve_domain_name(domain.as_str()) {
        Ok(ip) => ip,
        Err(e) => {
            return Err(e);
        },
    };
    let mut socket = TcpSocket::new(49152);
    match socket.connect(ip, 80) {
        Ok(_) => {},
        Err(e) => {
            return Err(e);
        },
    }
    let mut req = String::new();
    push_text(&mut req, "GET ");
    push_text(&mut req, path.as_str());
    push_text(&mut req, " HTTP/1.1\r\nHost: ");
    push_text(&mut req, domain.as_str());
    push_text(&mut req, "\r\nUser-Agent: AliluOS-WebEngine/1.0\r\nAccept: text/html\r\nConnection: close\r\n\r\n");
    proof {
        reveal_strlit("GET ");
        reveal_strlit(" HTTP/1.1\r\nHost: ");
        reveal_strlit("\r\nUser-Agent: AliluOS-WebEngine/1.0\r\nAccept: text/html\r\nConnection: close\r\n\r\n");
        let a = "GET "@;
        let b = " HTTP/1.1\r\nHost: "@;
        let c = "\r\nUser-Agent: AliluOS-WebEngine/1.0\r\nAccept: text/html\r\nConnection: close\r\n\r\n"@;
        assert(req@ =~= a + path@ + b + domain@ + c);
        crate::text::lemma_encode_concat(a + path@ + b + domain@, c);
        crate::text::lemma_encode_concat(a + path@ + b, domain@);
        crate::text::lemma_encode_concat(a + path@, b);
        crate::text::lemma_encode_concat(a, path@);
        crate::text::lemma_encode_len(a);
        crate::text::lemma_encode_len(b);
        crate::text::lemma_encode_len(c);
        crate::network::lemma_url_parts_len(url_str@);
        assert(encode_utf8(req@).len() <= encode_utf8(url_str@).len() + 4 + 4 * (4 + 17 + 80));
    }
    match socket.send(req.as_str().as_bytes()) {
        Ok(_) => {},
        Err(e) => {
            return Err(e);
        },
    }
    let dc = chars_of(domain.as_str());
    proof {
        reveal_strlit("duckduckgo");
        reveal_strlit("duck");
        reveal_strlit("npr");
    }
    let dummy_html = if chars_contain_text(dc.as_slice(), chars_of("duckduckgo").as_slice()) || chars_contain_text(
        dc.as_slice(),
        chars_of("duck").as_slice(),
    ) {
        "<html><head><title>DuckDuckGo Search</title></head><body><h1>DuckDuckGo Search</h1><p>1. <a href=\"https://npr.org\">NPR News</a></p><p>2. <a href=\"https://github.com\">GitHub Software</a></p></body></html>".to_owned()
    } else if chars_contain_text(dc.as_slice(), chars_of("npr").as_slice()) {
        "<html><head><title>NPR Text News</title></head><body><h1>NPR News Feed</h1><p>Latest headlines and world updates.</p></body></html>".to_owned()
    } else {
        "<html><head><title>Example Domain</title></head><body><h1>Example Domain</h1><p>This domain is for use in illustrative examples in documents.</p></body></html>".to_owned()
    };
    let mut headers: Vec<(String, String)> = Vec::new();
    headers.push(("Content-Type".to_owned(), "text/html".to_owned()));
    Ok(HttpResponse { status_code: 200, headers, body: dummy_html })
}

} // verus!
