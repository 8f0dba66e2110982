//! Networking: finding the network card on the PCI bus, addresses and a
//! TCP socket, name resolution, an HTTP GET client, a text-only HTML parser,
//! the git download commands and a text web browser with history.
use vstd::prelude::*;
use vstd::utf8::encode_utf8;
use vstd::string::StringSliceAdditionalSpecFns;
use crate::console::{decimal, emit, emit_color, emit_line, emit_text, outs_view, ConsoleOp, Out};
use crate::text::{chars_of, push_char, push_text, same_text, string_of};
use crate::vga::{Color, VGA};
use crate::fs::{FileSystem, directory_meta, entry_created, path_text};

verus! {

/// A device found on the PCI bus.
#[derive(Debug, Clone, Copy)]
pub struct PciDevice {
    pub bus: u8,
    pub slot: u8,
    pub function: u8,
    pub vendor_id: u16,
    pub device_id: u16,
    pub bar0: u32,
}

/// The configuration address selecting register `offset` of a PCI function.
pub open spec fn config_address(bus: u8, slot: u8, func: u8, offset: u8) -> u32 {
    ((bus as u32) << 16u32) | ((slot as u32) << 11u32) | ((func as u32) << 8u32) | ((offset as u32) & 0xFCu32)
        | 0x80000000u32
}

/// The word to write to the configuration address port to read register
/// `offset` of function `func` of device `slot` on bus `bus`.
pub fn pci_config_address(bus: u8, slot: u8, func: u8, offset: u8) -> (r: u32)
    ensures
        r == config_address(bus, slot, func, offset),
{
    ((bus as u32) << 16u32) | ((slot as u32) << 11u32) | ((func as u32) << 8u32) | ((offset as u32) & 0xFCu32)
        | 0x80000000u32
}

/// Whether a configuration word carries the given vendor and device ids.
pub open spec fn ids_match(val: u32, vendor_id: u16, device_id: u16) -> bool {
    (val & 0xFFFF) as u16 == vendor_id && ((val >> 16u32) & 0xFFFF) as u16 == device_id
}

/// Whether probing the vendor/device register of (bus, slot) can answer
/// other ids than the given ones.
pub open spec fn probe_misses<F: Fn(u8, u8, u8, u8) -> u32>(read_config: F, bus: u8, slot: u8, vendor_id: u16, device_id: u16) -> bool {
    exists|val: u32| #[trigger] read_config.ensures((bus, slot, 0u8, 0u8), val) && !ids_match(val, vendor_id, device_id)
}

/// Whether some probe of the vendor/device register can answer the given ids.
pub open spec fn may_answer<F: Fn(u8, u8, u8, u8) -> u32>(read_config: F, vendor_id: u16, device_id: u16) -> bool {
    exists|bus: u8, slot: u8, val: u32|
        #[trigger] read_config.ensures((bus, slot, 0u8, 0u8), val) && slot < 32 && ids_match(val, vendor_id, device_id)
}

/// Scans bus 0 to 255, slot 0 to 31, function 0, for the device with the
/// given ids, reading configuration words through `read_config`; the first
/// match is answered with its base address register 0.
pub fn pci_find_network_card<F: Fn(u8, u8, u8, u8) -> u32>(vendor_id: u16, device_id: u16, read_config: &F) -> (r: Option<PciDevice>)
    requires
        forall|bus: u8, slot: u8, func: u8, offset: u8| read_config.requires((bus, slot, func, offset)),
    ensures
        r matches Some(dev) ==> {
            &&& dev.vendor_id == vendor_id
            &&& dev.device_id == device_id
            &&& dev.function == 0
            &&& dev.slot < 32
            &&& exists|val: u32| #[trigger] read_config.ensures((dev.bus, dev.slot, 0u8, 0u8), val) && ids_match(val, vendor_id, device_id)
            &&& read_config.ensures((dev.bus, dev.slot, 0u8, 0x10u8), dev.bar0)
            &&& forall|b: u8, s: u8| s < 32 && (b < dev.bus || (b == dev.bus && s < dev.slot)) ==> #[trigger] probe_misses(
                *read_config,
                b,
                s,
                vendor_id,
                device_id,
            )
        },
        r is None ==> forall|bus: u8, slot: u8| slot < 32 ==> #[trigger] probe_misses(*read_config, bus, slot, vendor_id, device_id),
{
    let mut bus: u16 = 0;
    while bus < 256
        invariant
            bus <= 256,
            forall|b: u8, s: u8, f: u8, o: u8| read_config.requires((b, s, f, o)),
            forall|b: u8, s: u8| b < bus && s < 32 ==> #[trigger] probe_misses(*read_config, b, s, vendor_id, device_id),
        decreases 256 - bus,
    {
        let b = bus as u8;
        let mut slot: u8 = 0;
        while slot < 32
            invariant
                bus < 256,
                b == bus,
                slot <= 32,
                forall|b: u8, s: u8, f: u8, o: u8| read_config.requires((b, s, f, o)),
                forall|b2: u8, s: u8| b2 < bus && s < 32 ==> #[trigger] probe_misses(*read_config, b2, s, vendor_id, device_id),
                forall|s: u8| s < slot ==> #[trigger] probe_misses(*read_config, b, s, vendor_id, device_id),
            decreases 32 - slot,
        {
            let val = read_config(b, slot, 0, 0);
            let v_id = (val & 0xFFFF) as u16;
            let d_id = ((val >> 16u32) & 0xFFFF) as u16;
            if v_id == vendor_id && d_id == device_id {
                let bar0 = read_config(b, slot, 0, 0x10);
                return Some(PciDevice { bus: b, slot, function: 0, vendor_id: v_id, device_id: d_id, bar0 });
            }
            assert(read_config.ensures((b, slot, 0u8, 0u8), val) && !ids_match(val, vendor_id, device_id));
            assert(probe_misses(*read_config, b, slot, vendor_id, device_id));
            slot = slot + 1;
        }
        assert forall|b2: u8, s: u8| b2 < bus + 1 && s < 32 implies #[trigger] probe_misses(*read_config, b2, s, vendor_id, device_id) by {
            if b2 == bus {
                assert(b2 == b);
            }
        }
        bus = bus + 1;
    }
    None
}

/// The network card driver.
pub struct EthernetDriver {
    pub mac_address: [u8; 6],
    pub card_detected: bool,
    pub driver_name: &'static str,
}

impl EthernetDriver {
    /// The driver before probing: QEMU's default MAC address, no card.
    pub fn new() -> (r: Self)
        ensures
            r.mac_address@ == seq![0x52u8, 0x54, 0x00, 0x12, 0x34, 0x56],
            !r.card_detected,
            r.driver_name@ == "Generic/e1000"@,
    {
        EthernetDriver { mac_address: [0x52, 0x54, 0x00, 0x12, 0x34, 0x56], card_detected: false, driver_name: "Generic/e1000" }
    }

    /// Probes for an Intel e1000 (8086:100E), then a VirtIO network card
    /// (1AF4:1000), falling back to QEMU's user network adapter.
    pub fn init<F: Fn(u8, u8, u8, u8) -> u32>(&mut self, read_config: &F)
        requires
            forall|bus: u8, slot: u8, func: u8, offset: u8| read_config.requires((bus, slot, func, offset)),
        ensures
            final(self).card_detected,
            final(self).mac_address == old(self).mac_address,
            final(self).driver_name@ == "Intel e1000 Gigabit NIC"@ ==> may_answer(*read_config, 0x8086, 0x100E),
            final(self).driver_name@ == "VirtIO-Net Translucent NIC"@ ==> may_answer(*read_config, 0x1AF4, 0x1000),
            final(self).driver_name@ == "VirtIO-Net Translucent NIC"@ ==> forall|bus: u8, slot: u8|
                slot < 32 ==> #[trigger] probe_misses(*read_config, bus, slot, 0x8086, 0x100E),
            final(self).driver_name@ == "QEMU Virtual Ethernet Adapter"@ ==> forall|bus: u8, slot: u8|
                slot < 32 ==> #[trigger] probe_misses(*read_config, bus, slot, 0x8086, 0x100E)
                    && probe_misses(*read_config, bus, slot, 0x1AF4, 0x1000),
            final(self).driver_name@ == "Intel e1000 Gigabit NIC"@ || final(self).driver_name@ == "VirtIO-Net Translucent NIC"@
                || final(self).driver_name@ == "QEMU Virtual Ethernet Adapter"@,
    {
        proof {
            reveal_strlit("Intel e1000 Gigabit NIC");
            reveal_strlit("VirtIO-Net Translucent NIC");
            reveal_strlit("QEMU Virtual Ethernet Adapter");
        }
        if let Some(dev) = pci_find_network_card(0x8086, 0x100E, read_config) {
            self.card_detected = true;
            self.driver_name = "Intel e1000 Gigabit NIC";
            let ghost val = choose|val: u32| #[trigger] read_config.ensures((dev.bus, dev.slot, 0u8, 0u8), val) && ids_match(val, 0x8086, 0x100E);
            assert(read_config.ensures((dev.bus, dev.slot, 0u8, 0u8), val));
            assert((*read_config).ensures((dev.bus, dev.slot, 0u8, 0u8), val) && dev.slot < 32 && ids_match(val, 0x8086, 0x100E));
            assert(may_answer(*read_config, 0x8086, 0x100E));
            assert(self.driver_name@ == "Intel e1000 Gigabit NIC"@);
            assert(self.driver_name@ != "VirtIO-Net Translucent NIC"@);
        } else if let Some(dev) = pci_find_network_card(0x1AF4, 0x1000, read_config) {
            self.card_detected = true;
            self.driver_name = "VirtIO-Net Translucent NIC";
            let ghost val = choose|val: u32| #[trigger] read_config.ensures((dev.bus, dev.slot, 0u8, 0u8), val) && ids_match(val, 0x1AF4, 0x1000);
            assert(read_config.ensures((dev.bus, dev.slot, 0u8, 0u8), val));
            assert((*read_config).ensures((dev.bus, dev.slot, 0u8, 0u8), val) && dev.slot < 32 && ids_match(val, 0x1AF4, 0x1000));
            assert(may_answer(*read_config, 0x1AF4, 0x1000));
            proof {
                reveal_strlit("VirtIO-Net Translucent NIC");
                reveal_strlit("Intel e1000 Gigabit NIC");
            }
            assert(self.driver_name@.len() == 26);
            assert("Intel e1000 Gigabit NIC"@.len() == 23);
            assert(self.driver_name@ != "Intel e1000 Gigabit NIC"@);
        } else {
            self.card_detected = true;
            self.driver_name = "QEMU Virtual Ethernet Adapter";
            proof {
                reveal_strlit("QEMU Virtual Ethernet Adapter");
                reveal_strlit("VirtIO-Net Translucent NIC");
                reveal_strlit("Intel e1000 Gigabit NIC");
            }
            assert(self.driver_name@.len() == 29);
            assert(self.driver_name@ != "VirtIO-Net Translucent NIC"@);
            assert(self.driver_name@ != "Intel e1000 Gigabit NIC"@);
        }
    }
}

/// The decimal text of a byte.
pub fn u8_to_str(val: u8) -> (r: String)
    ensures
        r@ == decimal(val as nat),
{
    crate::console::decimal_string(val as u64)
}

/// An IPv4 address.
#[derive(Debug, Clone, Copy, PartialEq, Eq)]
pub struct Ipv4Address(pub [u8; 4]);

/// Dotted text of the four bytes.
pub open spec fn dotted(b: Seq<u8>) -> Seq<char> {
    decimal(b[0] as nat) + seq!['.'] + decimal(b[1] as nat) + seq!['.'] + decimal(b[2] as nat) + seq!['.'] + decimal(
        b[3] as nat,
    )
}

impl Ipv4Address {
    /// 127.0.0.1.
    #[allow(non_snake_case)]
    pub fn LOCALHOST() -> (r: Ipv4Address)
        ensures
            r.0@ == seq![127u8, 0, 0, 1],
    {
        Ipv4Address([127, 0, 0, 1])
    }

    /// QEMU's user network gateway, 10.0.2.2.
    #[allow(non_snake_case)]
    pub fn DEFAULT_GATEWAY() -> (r: Ipv4Address)
        ensures
            r.0@ == seq![10u8, 0, 2, 2],
    {
        Ipv4Address([10, 0, 2, 2])
    }

    /// A public name server, 8.8.8.8.
    #[allow(non_snake_case)]
    pub fn DEFAULT_DNS() -> (r: Ipv4Address)
        ensures
            r.0@ == seq![8u8, 8, 8, 8],
    {
        Ipv4Address([8, 8, 8, 8])
    }

    /// The dotted decimal text of the address.
    pub fn to_string(&self) -> (r: String)
        ensures
            r@ == dotted(self.0@),
    {
        let mut s = String::new();
        let ghost b = self.0@;
        for i in 0..4usize
            invariant
                b == self.0@,
                b.len() == 4,
                i == 0 ==> s@ == Seq::<char>::empty(),
                i == 1 ==> s@ == decimal(b[0] as nat),
                i == 2 ==> s@ == decimal(b[0] as nat) + seq!['.'] + decimal(b[1] as nat),
                i == 3 ==> s@ == decimal(b[0] as nat) + seq!['.'] + decimal(b[1] as nat) + seq!['.'] + decimal(b[2] as nat),
                i == 4 ==> s@ == dotted(b),
        {
            if i > 0 {
                push_char(&mut s, '.');
            }
            let part = u8_to_str(self.0[i]);
            push_text(&mut s, part.as_str());
            assert(i == 0 ==> s@ =~= decimal(b[0] as nat));
        }
        s
    }
}

/// States of a TCP connection.
#[derive(Debug, Clone, Copy, PartialEq, Eq, Structural)]
pub enum TcpState {
    Closed,
    SynSent,
    Established,
    FinWait,
}

/// A TCP socket.
pub struct TcpSocket {
    pub local_port: u16,
    pub remote_ip: Ipv4Address,
    pub remote_port: u16,
    pub state: TcpState,
    pub seq_no: u32,
    pub ack_no: u32,
    pub rx_buffer: Vec<u8>,
}

impl TcpSocket {
    /// A closed socket on `local_port`, sequence number 1000, nothing received.
    pub fn new(local_port: u16) -> (r: Self)
        ensures
            r.local_port == local_port,
            r.remote_ip.0@ == seq![0u8, 0, 0, 0],
            r.remote_port == 0,
            r.state == TcpState::Closed,
            r.seq_no == 1000,
            r.ack_no == 0,
            r.rx_buffer@.len() == 0,
    {
        TcpSocket {
            local_port,
            remote_ip: Ipv4Address([0, 0, 0, 0]),
            remote_port: 0,
            state: TcpState::Closed,
            seq_no: 1000,
            ack_no: 0,
            rx_buffer: Vec::new(),
        }
    }

    /// The three-way handshake: the SYN takes one sequence number, the
    /// peer's SYN-ACK is taken as number 1, and the connection is established.
    pub fn connect(&mut self, remote_ip: Ipv4Address, remote_port: u16) -> (r: Result<(), &'static str>)
        requires
            old(self).seq_no < u32::MAX,
        ensures
            r == Ok::<(), &'static str>(()),
            final(self).remote_ip == remote_ip,
            final(self).remote_port == remote_port,
            final(self).state == TcpState::Established,
            final(self).seq_no == old(self).seq_no + 1,
            final(self).ack_no == 1,
            final(self).local_port == old(self).local_port,
            final(self).rx_buffer@ == old(self).rx_buffer@,
    {
        self.remote_ip = remote_ip;
        self.remote_port = remote_port;
        self.state = TcpState::SynSent;
        self.seq_no = self.seq_no + 1;
        self.ack_no = 1;
        self.state = TcpState::Established;
        Ok(())
    }

    /// Sends `data`: on an established connection its length (taken modulo
    /// 2^32) advances the sequence number.
    pub fn send(&mut self, data: &[u8]) -> (r: Result<(), &'static str>)
        requires
            old(self).state == TcpState::Established ==> old(self).seq_no + (data@.len() as u32) <= u32::MAX,
        ensures
            old(self).state != TcpState::Established ==> r == Err::<(), &'static str>("TCP socket is not connected")
                && *final(self) == *old(self),
            old(self).state == TcpState::Established ==> r == Ok::<(), &'static str>(())
                && *final(self) == (TcpSocket { seq_no: (old(self).seq_no + (data@.len() as u32)) as u32, ..*old(self) }),
    {
        match self.state {
            TcpState::Established => {},
            _ => {
                return Err("TCP socket is not connected");
            },
        }
        #[verifier::truncate]
        let n = data.len() as u32;
        self.seq_no = self.seq_no + n;
        Ok(())
    }
}

/// The address a host name resolves to.
pub open spec fn resolved_address(domain: Seq<char>) -> Seq<u8> {
    if domain == "example.com"@ || domain == "www.example.com"@ {
        seq![93u8, 184, 216, 34]
    } else if domain == "npr.org"@ || domain == "text.npr.org"@ {
        seq![151u8, 101, 1, 67]
    } else if domain == "github.com"@ || domain == "www.github.com"@ {
        seq![140u8, 82, 121, 4]
    } else {
        seq![52u8, 142, 124, 215]
    }
}

/// Resolves a host name from the built-in table; other names get the
/// search engine's address.
pub fn resolve_domain_name(domain: &str) -> (r: Result<Ipv4Address, &'static str>)
    ensures
        r matches Ok(ip) && ip.0@ == resolved_address(domain@),
{
    if same_text(domain, "example.com") || same_text(domain, "www.example.com") {
        Ok(Ipv4Address([93, 184, 216, 34]))
    } else if same_text(domain, "npr.org") || same_text(domain, "text.npr.org") {
        Ok(Ipv4Address([151, 101, 1, 67]))
    } else if same_text(domain, "github.com") || same_text(domain, "www.github.com") {
        Ok(Ipv4Address([140, 82, 121, 4]))
    } else if same_text(domain, "duckduckgo.com") || same_text(domain, "www.duckduckgo.com") || same_text(
        domain,
        "html.duckduckgo.com",
    ) || same_text(domain, "duck.com") {
        Ok(Ipv4Address([52, 142, 124, 215]))
    } else {
        Ok(Ipv4Address([52, 142, 124, 215]))
    }
}

/// A response of the HTTP service.
pub struct HttpResponse {
    pub status_code: u16,
    pub content_type: String,
    pub body: String,
}

/// `url` without a leading "http://" or "https://".
pub open spec fn url_rest(url: Seq<char>) -> Seq<char> {
    if crate::text::starts_with(url, "http://"@) {
        url.skip(7)
    } else if crate::text::starts_with(url, "https://"@) {
        url.skip(8)
    } else {
        url
    }
}

/// Index of the first '/' of `s`, or its length when there is none.
pub open spec fn slash_index(s: Seq<char>) -> int
    decreases s.len(),
{
    if s.len() == 0 {
        0
    } else if s[0] == '/' {
        0
    } else {
        1 + slash_index(s.drop_first())
    }
}

/// Host part of a URL: up to the first '/' after the scheme.
pub open spec fn url_host(url: Seq<char>) -> Seq<char> {
    url_rest(url).take(slash_index(url_rest(url)))
}

/// Path part of a URL: from the first '/' after the scheme, or "/".
pub open spec fn url_path(url: Seq<char>) -> Seq<char> {
    let c = url_rest(url);
    if slash_index(c) < c.len() { c.skip(slash_index(c)) } else { seq!['/'] }
}

/// The page the HTTP service answers with.
pub open spec fn default_page() -> Seq<char> {
    "<html><head><title>DuckDuckGo Text Search</title></head><body><h1>DuckDuckGo Privacy Search</h1><p>Privacy, simplified. Search the web without being tracked.</p><a href=\"http://html.duckduckgo.com/html/?q=aliluos\">Search AliluOS</a></body></html>"@
}

pub(crate) proof fn lemma_slash_index(s: Seq<char>)
    ensures
        0 <= slash_index(s) <= s.len(),
        forall|k: int| 0 <= k < slash_index(s) ==> s[k] != '/',
        slash_index(s) < s.len() ==> s[slash_index(s)] == '/',
    decreases s.len(),
{
    if s.len() > 0 && s[0] != '/' {
        lemma_slash_index(s.drop_first());
        assert forall|k: int| 0 <= k < slash_index(s) implies s[k] != '/' by {
            if k > 0 {
                assert(s[k] == s.drop_first()[k - 1]);
            }
        }
    }
}

/// Host and path of a URL take at most four bytes more than the URL.
pub proof fn lemma_url_parts_len(url: Seq<char>)
    ensures
        encode_utf8(url_host(url)).len() + encode_utf8(url_path(url)).len() <= encode_utf8(url).len() + 4,
{
    reveal_strlit("http://");
    reveal_strlit("https://");
    let cl = url_rest(url);
    let start: int = if crate::text::starts_with(url, "http://"@) {
        7
    } else if crate::text::starts_with(url, "https://"@) {
        8
    } else {
        0
    };
    assert(url =~= url.take(start) + cl);
    crate::text::lemma_encode_concat(url.take(start), cl);
    lemma_slash_index(cl);
    let k = slash_index(cl);
    assert(cl =~= cl.take(k) + cl.skip(k));
    crate::text::lemma_encode_concat(cl.take(k), cl.skip(k));
    crate::text::lemma_encode_len(seq!['/']);
}

/// Index of the first '/' of `s`.
pub(crate) fn find_slash(s: &Vec<char>) -> (r: usize)
    ensures
        r as int == slash_index(s@),
{
    proof {
        lemma_slash_index(s@);
    }
    let mut i: usize = 0;
    while i < s.len() && s[i] != '/'
        invariant
            i <= s@.len(),
            i <= slash_index(s@),
            forall|k: int| 0 <= k < slash_index(s@) ==> s@[k] != '/',
            slash_index(s@) <= s@.len(),
            slash_index(s@) < s@.len() ==> s@[slash_index(s@)] == '/',
        decreases s@.len() - i,
    {
        i = i + 1;
    }
    i
}

/// Fetches `url` over HTTP/1.1: the host is resolved, a TCP connection to
/// port 80 is opened and the GET request sent; the response is a 200 of
/// type text/html whose body is what the connection received, or the
/// built-in search page when nothing was received.
pub fn http_get(url: &str) -> (r: Result<HttpResponse, &'static str>)
    requires
        encode_utf8(url@).len() + 1500 <= u32::MAX,
    ensures
        r matches Ok(resp) && resp.status_code == 200 && resp.content_type@ == "text/html"@ && resp.body@ == default_page(),
{
    proof {
        reveal_strlit("http://");
        reveal_strlit("https://");
    }
    let chars = chars_of(url);
    let http = chars_of("http://");
    let https = chars_of("https://");
    let start: usize = if crate::text::chars_start_with(chars.as_slice(), http.as_slice()) {
        7
    } else if crate::text::chars_start_with(chars.as_slice(), https.as_slice()) {
        8
    } else {
        0
    };
    let cleaned = crate::text::chars_slice(chars.as_slice(), start, chars.len());
    assert(cleaned@ == url_rest(url@));
    let pos = find_slash(&cleaned);
    proof {
        lemma_slash_index(cleaned@);
    }
    let host = string_of(crate::text::chars_slice(cleaned.as_slice(), 0, pos).as_slice());
    let path = if pos < cleaned.len() {
        string_of(crate::text::chars_slice(cleaned.as_slice(), pos, cleaned.len()).as_slice())
    } else {
        "/".to_owned()
    };
    assert(host@ == url_host(url@));
    proof {
        reveal_strlit("/");
        assert(path@ == url_path(url@));
    }
    let ip = match resolve_domain_name(host.as_str()) {
        Ok(ip) => ip,
        Err(e) => {
            return Err(e);
        },
    };
    let mut socket = TcpSocket::new(49152);
    match socket.connect(ip, 80) {
        Ok(_) => {},
        Err(e) => {
            return Err(e);
        },
    }
    let mut request = "GET ".to_owned();
    push_text(&mut request, path.as_str());
    push_text(&mut request, " HTTP/1.1\r\nHost: ");
    push_text(&mut request, host.as_str());
    push_text(&mut request, "\r\nUser-Agent: AliluOS-TextBrowser/1.0\r\nAccept: text/html, text/plain\r\nConnection: close\r\n\r\n");
    proof {
        reveal_strlit("GET ");
        reveal_strlit(" HTTP/1.1\r\nHost: ");
        reveal_strlit("\r\nUser-Agent: AliluOS-TextBrowser/1.0\r\nAccept: text/html, text/plain\r\nConnection: close\r\n\r\n");
        let a = "GET "@;
        let b = " HTTP/1.1\r\nHost: "@;
        let c = "\r\nUser-Agent: AliluOS-TextBrowser/1.0\r\nAccept: text/html, text/plain\r\nConnection: close\r\n\r\n"@;
        assert(request@ == a + path@ + b + host@ + c);
        crate::text::lemma_encode_concat(a + path@ + b + host@, c);
        crate::text::lemma_encode_concat(a + path@ + b, host@);
        crate::text::lemma_encode_concat(a + path@, b);
        crate::text::lemma_encode_concat(a, path@);
        crate::text::lemma_encode_len(a);
        crate::text::lemma_encode_len(b);
        crate::text::lemma_encode_len(c);
        crate::text::lemma_encode_len(seq!['/']);
        let cl = cleaned@;
        let k = slash_index(cl);
        assert(cl =~= cl.take(k) + cl.skip(k));
        crate::text::lemma_encode_concat(cl.take(k), cl.skip(k));
        assert(url@ =~= url@.take(start as int) + cl);
        crate::text::lemma_encode_concat(url@.take(start as int), cl);
        assert(encode_utf8(host@).len() + encode_utf8(path@).len() <= encode_utf8(url@).len() + 4);
        assert(encode_utf8(request@).len() <= encode_utf8(url@).len() + 4 + 4 * (4 + 17 + 97));
    }
    match socket.send(request.as_str().as_bytes()) {
        Ok(_) => {},
        Err(e) => {
            return Err(e);
        },
    }
    let body = if socket.rx_buffer.len() == 0 {
        "<html><head><title>DuckDuckGo Text Search</title></head><body><h1>DuckDuckGo Privacy Search</h1><p>Privacy, simplified. Search the web without being tracked.</p><a href=\"http://html.duckduckgo.com/html/?q=aliluos\">Search AliluOS</a></body></html>".to_owned()
    } else {
        match crate::text::decode_utf8_strict(socket.rx_buffer.clone()) {
            Some(text) => text,
            None => "<html><body><h1>Error</h1><p>Failed to parse network packet payload as UTF-8 text.</p></body></html>".to_owned(),
        }
    };
    Ok(HttpResponse { status_code: 200, content_type: "text/html".to_owned(), body })
}

/// What `str::to_lowercase` yields for a text (the Unicode lowercase mapping).
pub uninterp spec fn lowercase_text(s: Seq<char>) -> Seq<char>;

/// Calls `str::to_lowercase`, the lowercase equivalent of `s` as the
/// Unicode lowercase mapping defines it.
#[verifier::external_body]
fn lowercase(s: &str) -> (r: String)
    ensures
        r@ == lowercase_text(s@),
{
    s.to_lowercase()
}

/// `s` with every occurrence of `pat` (taken left to right, without
/// overlaps) replaced by `rep`.
pub open spec fn replace_all(s: Seq<char>, pat: Seq<char>, rep: Seq<char>) -> Seq<char>
    decreases s.len(),
{
    if s.len() == 0 {
        s
    } else if pat.len() > 0 && crate::text::starts_with(s, pat) {
        rep + replace_all(s.skip(pat.len() as int), pat, rep)
    } else {
        seq![s[0]] + replace_all(s.drop_first(), pat, rep)
    }
}

/// `s` with the entities &amp;, &lt;, &gt; and &quot; decoded, in that order.
pub open spec fn entities_decoded(s: Seq<char>) -> Seq<char> {
    replace_all(
        replace_all(replace_all(replace_all(s, "&amp;"@, "&"@), "&lt;"@, "<"@), "&gt;"@, ">"@),
        "&quot;"@,
        "\""@,
    )
}

/// Replaces every occurrence of `pat` in `s` by `rep`.
fn replace_chars(s: &Vec<char>, pat: &Vec<char>, rep: &Vec<char>) -> (r: Vec<char>)
    requires
        pat@.len() > 0,
    ensures
        r@ == replace_all(s@, pat@, rep@),
{
    let mut out: Vec<char> = Vec::new();
    let mut i: usize = 0;
    assert(s@.skip(0) =~= s@);
    while i < s.len()
        invariant
            pat@.len() > 0,
            i <= s@.len(),
            out@ + replace_all(s@.skip(i as int), pat@, rep@) == replace_all(s@, pat@, rep@),
        decreases s@.len() - i,
    {
        let ghost rest = s@.skip(i as int);
        let fits = pat.len() <= s.len() - i;
        let mut k: usize = 0;
        let mut same = true;
        if fits {
            while same && k < pat.len()
                invariant
                    i <= s@.len(),
                    s@.len() <= usize::MAX,
                    i + pat@.len() <= s@.len(),
                    k <= pat@.len(),
                    forall|j: int| 0 <= j < k ==> s@[i + j] == pat@[j],
                    !same ==> k < pat@.len() && s@[i + k] != pat@[k as int],
                decreases pat@.len() - k + (if same { 1int } else { 0int }),
            {
                assert(i + k < s@.len());
                if s[i + k] == pat[k] {
                    k = k + 1;
                } else {
                    same = false;
                }
            }
        }
        let matched = fits && same && k == pat.len();
        if matched {
            assert(rest.subrange(0, pat@.len() as int) =~= pat@);
            assert(rest.skip(pat@.len() as int) =~= s@.skip(i + pat@.len()));
            let ghost before = out@;
            crate::btree::append_bytes_chars(&mut out, rep.as_slice());
            assert(out@ + replace_all(s@.skip(i + pat@.len()), pat@, rep@) =~= before + replace_all(rest, pat@, rep@));
            i = i + pat.len();
        } else {
            assert(!crate::text::starts_with(rest, pat@)) by {
                if crate::text::starts_with(rest, pat@) {
                    assert(fits);
                    assert(k < pat@.len() && s@[i + k] != pat@[k as int]);
                    assert(rest.subrange(0, pat@.len() as int)[k as int] == s@[i + k]);
                }
            }
            assert(rest.drop_first() =~= s@.skip(i + 1));
            let ghost before = out@;
            out.push(s[i]);
            assert(out@ + replace_all(s@.skip(i + 1), pat@, rep@) =~= before + replace_all(rest, pat@, rep@));
            i = i + 1;
        }
    }
    assert(s@.skip(i as int) =~= Seq::<char>::empty());
    assert(out@ + Seq::<char>::empty() =~= out@);
    out
}

/// Decodes the HTML entities &amp;, &lt;, &gt; and &quot;.
pub fn decode_entities(input: &str) -> (r: String)
    ensures
        r@ == entities_decoded(input@),
{
    proof {
        reveal_strlit("&amp;");
        reveal_strlit("&lt;");
        reveal_strlit("&gt;");
        reveal_strlit("&quot;");
    }
    let s0 = chars_of(input);
    let s1 = replace_chars(&s0, &chars_of("&amp;"), &chars_of("&"));
    let s2 = replace_chars(&s1, &chars_of("&lt;"), &chars_of("<"));
    let s3 = replace_chars(&s2, &chars_of("&gt;"), &chars_of(">"));
    let s4 = replace_chars(&s3, &chars_of("&quot;"), &chars_of("\""));
    string_of(s4.as_slice())
}

/// A link found in a page.
#[derive(Debug, Clone)]
pub struct Hyperlink {
    pub index: usize,
    pub text: String,
    pub target_url: String,
}

/// Abstract link.
pub struct LinkView {
    pub index: usize,
    pub text: Seq<char>,
    pub target_url: Seq<char>,
}

impl Hyperlink {
    pub open spec fn view(&self) -> LinkView {
        LinkView { index: self.index, text: self.text@, target_url: self.target_url@ }
    }
}

/// A page reduced to text lines and the links in it.
pub struct HtmlDocument {
    pub title: String,
    pub lines: Vec<String>,
    pub links: Vec<Hyperlink>,
}

/// The links as plain values.
pub open spec fn links_view(v: Seq<Hyperlink>) -> Seq<LinkView> {
    v.map_values(|l: Hyperlink| l@)
}

/// State of the HTML scan.
pub struct HtmlScan {
    pub lines: Seq<Seq<char>>,
    pub links: Seq<LinkView>,
    pub counter: int,
    pub in_tag: bool,
    pub tag: Seq<char>,
    pub text: Seq<char>,
    pub skip: bool,
    pub link_url: Seq<char>,
    pub in_anchor: bool,
    /// Set once a link target would have to be cut inside a character.
    pub cut_inside_char: bool,
}

/// The scan before the first character.
pub open spec fn scan_start() -> HtmlScan {
    HtmlScan {
        lines: Seq::empty(),
        links: Seq::empty(),
        counter: 1,
        in_tag: false,
        tag: Seq::empty(),
        text: Seq::empty(),
        skip: false,
        link_url: Seq::empty(),
        in_anchor: false,
        cut_inside_char: false,
    }
}

/// The pending text emitted as a line, unless it is blank or inside a
/// skipped element; inside a link it is numbered "[n] " and recorded as link
/// number n (printed modulo 256).
pub open spec fn flushed(st: HtmlScan) -> HtmlScan {
    let t = crate::shell::trim(st.text);
    if t.len() > 0 && !st.skip {
        let d = entities_decoded(t);
        if st.in_anchor {
            HtmlScan {
                lines: st.lines.push(seq!['['] + decimal((st.counter % 256) as nat) + seq![']', ' '] + d),
                links: st.links.push(LinkView { index: st.counter as usize, text: d, target_url: st.link_url }),
                counter: st.counter + 1,
                ..st
            }
        } else {
            HtmlScan { lines: st.lines.push(d), ..st }
        }
    } else {
        st
    }
}

/// Bytes of `href="`.
pub open spec fn href_bytes() -> Seq<u8> {
    seq![104u8, 114, 101, 102, 61, 34]
}

/// First index at or after `from` where `pat` occurs in `hay`.
pub open spec fn find_bytes_from(hay: Seq<u8>, pat: Seq<u8>, from: int) -> Option<int>
    decreases hay.len() + 1 - from,
{
    if from < 0 || from + pat.len() > hay.len() {
        None
    } else if hay.subrange(from, from + pat.len()) == pat {
        Some(from)
    } else {
        find_bytes_from(hay, pat, from + 1)
    }
}

proof fn lemma_find_bytes(hay: Seq<u8>, pat: Seq<u8>, from: int)
    ensures
        find_bytes_from(hay, pat, from) matches Some(p) ==> from <= p && p + pat.len() <= hay.len(),
    decreases hay.len() + 1 - from,
{
    if !(from < 0 || from + pat.len() > hay.len()) && hay.subrange(from, from + pat.len()) != pat {
        lemma_find_bytes(hay, pat, from + 1);
    }
}

/// Index of the first '"' in `s`, if any.
pub open spec fn quote_index(s: Seq<char>) -> Option<int>
    decreases s.len(),
{
    if s.len() == 0 {
        None
    } else if s[0] == '"' {
        Some(0)
    } else {
        match quote_index(s.drop_first()) {
            Some(i) => Some(i + 1),
            None => None,
        }
    }
}

proof fn lemma_quote_index(s: Seq<char>)
    ensures
        quote_index(s) matches Some(i) ==> 0 <= i < s.len(),
    decreases s.len(),
{
    if s.len() > 0 && s[0] != '"' {
        lemma_quote_index(s.drop_first());
    }
}

/// What a tag does to the scan, by its lowercase text.
#[derive(Debug, Clone, Copy, PartialEq, Eq, Structural)]
pub enum TagKind {
    /// `<script`, `<style` or `<head>`: text is skipped from here.
    SkipStart,
    /// `</script`, `</style` or `</head>`: text is shown again.
    SkipEnd,
    /// `<h1`: a "# " line is added.
    Heading,
    /// `<a>` or `<a ...>`: a link starts.
    AnchorStart,
    /// `</a>`: the link ends.
    AnchorEnd,
    /// Any other tag.
    Other,
}

/// Whether the tag text `lower` names the element `name`: exactly `name`,
/// or `name` followed by a space and attributes.
pub open spec fn names_element(lower: Seq<char>, name: Seq<char>) -> bool {
    lower == name || crate::text::starts_with(lower, name.push(' '))
}

/// The kind of the tag whose lowercase text is `lower`: script and style
/// tags are matched by their start, the head element by its exact name (so
/// `header` is an ordinary tag).
pub open spec fn tag_kind(lower: Seq<char>) -> TagKind {
    if crate::text::starts_with(lower, "script"@) || crate::text::starts_with(lower, "style"@)
        || names_element(lower, "head"@) {
        TagKind::SkipStart
    } else if crate::text::starts_with(lower, "/script"@) || crate::text::starts_with(lower, "/style"@)
        || names_element(lower, "/head"@) {
        TagKind::SkipEnd
    } else if crate::text::starts_with(lower, "h1"@) {
        TagKind::Heading
    } else if names_element(lower, "a"@) {
        TagKind::AnchorStart
    } else if lower == "/a"@ {
        TagKind::AnchorEnd
    } else {
        TagKind::Other
    }
}

/// The scan after a '>': script, style and head elements start or stop
/// being skipped, an h1 adds a "# " line, an anchor starts a link (its
/// target taken from after `href="` up to the next '"'), "/a" ends it.
/// The tag is matched in lowercase; the target is cut from the original tag
/// at the byte offset found in the lowercase one.
pub open spec fn tag_closed(st: HtmlScan) -> HtmlScan {
    let lower = lowercase_text(st.tag);
    let base = HtmlScan { in_tag: false, tag: Seq::empty(), ..st };
    match tag_kind(lower) {
        TagKind::SkipStart => HtmlScan { skip: true, ..base },
        TagKind::SkipEnd => HtmlScan { skip: false, ..base },
        TagKind::Heading => HtmlScan { lines: st.lines.push(seq!['#', ' ']), ..base },
        TagKind::AnchorStart => {
            let anchored = HtmlScan { in_anchor: true, ..base };
            match find_bytes_from(encode_utf8(lower), href_bytes(), 0) {
                None => anchored,
                Some(pos) => {
                    let tb = encode_utf8(st.tag);
                    if !vstd::utf8::is_char_boundary(tb, pos + 6) {
                        HtmlScan { cut_inside_char: true, ..anchored }
                    } else {
                        let rest = vstd::utf8::decode_utf8(tb.subrange(pos + 6, tb.len() as int));
                        match quote_index(rest) {
                            Some(e) => HtmlScan { link_url: rest.take(e), ..anchored },
                            None => anchored,
                        }
                    }
                },
            }
        },
        TagKind::AnchorEnd => HtmlScan { in_anchor: false, ..base },
        TagKind::Other => base,
    }
}

/// The scan after one more character.
pub open spec fn html_step(st: HtmlScan, c: char) -> HtmlScan {
    if c == '<' {
        HtmlScan { in_tag: true, text: Seq::empty(), tag: Seq::empty(), ..flushed(st) }
    } else if c == '>' {
        tag_closed(st)
    } else if st.in_tag {
        HtmlScan { tag: st.tag.push(c), ..st }
    } else {
        HtmlScan { text: st.text.push(c), ..st }
    }
}

/// The scan after the characters of `html`, one by one.
pub open spec fn html_scan(html: Seq<char>) -> HtmlScan
    decreases html.len(),
{
    if html.len() == 0 {
        scan_start()
    } else {
        let st = html_scan(html.drop_last());
        if st.cut_inside_char { st } else { html_step(st, html.last()) }
    }
}

/// The lines of the page: those of the scan, then the remaining text.
pub open spec fn html_lines(html: Seq<char>) -> Seq<Seq<char>> {
    let st = html_scan(html);
    let t = crate::shell::trim(st.text);
    if t.len() > 0 && !st.skip { st.lines.push(entities_decoded(t)) } else { st.lines }
}

/// First index where `href="` occurs in `hay`.
fn find_href(hay: &[u8]) -> (r: Option<usize>)
    ensures
        match find_bytes_from(hay@, href_bytes(), 0) {
            Some(p) => r == Some(p as usize),
            None => r is None,
        },
{
    let pat: [u8; 6] = [104u8, 114, 101, 102, 61, 34];
    assert(pat@ =~= href_bytes());
    let n = hay.len();
    let mut i: usize = 0;
    while i < n && n - i >= 6
        invariant
            n == hay@.len(),
            i <= hay@.len(),
            pat@ == href_bytes(),
            find_bytes_from(hay@, href_bytes(), 0) == find_bytes_from(hay@, href_bytes(), i as int),
        decreases hay@.len() - i,
    {
        let mut k: usize = 0;
        let mut same = true;
        while same && k < 6
            invariant
                n == hay@.len(),
                i + 6 <= hay@.len(),
                k <= 6,
                pat@ == href_bytes(),
                forall|j: int| 0 <= j < k ==> hay@[i + j] == pat@[j],
                !same ==> k < 6 && hay@[i + k] != pat@[k as int],
            decreases 6 - k + (if same { 1int } else { 0int }),
        {
            if hay[i + k] == pat[k] {
                k = k + 1;
            } else {
                same = false;
            }
        }
        if same {
            assert(hay@.subrange(i as int, i + 6) =~= href_bytes());
            return Some(i);
        }
        assert(hay@.subrange(i as int, i + 6)[k as int] != href_bytes()[k as int]);
        i = i + 1;
    }
    None
}

/// Index of the first '"' in `s`.
fn find_quote(s: &Vec<char>) -> (r: Option<usize>)
    ensures
        match quote_index(s@) {
            Some(e) => r == Some(e as usize),
            None => r is None,
        },
        r matches Some(e) ==> e < s@.len() && quote_index(s@) == Some(e as int),
{
    let mut i: usize = 0;
    assert(s@.skip(0) =~= s@);
    while i < s.len()
        invariant
            i <= s@.len(),
            quote_index(s@) == match quote_index(s@.skip(i as int)) {
                Some(e) => Some(e + i),
                None => None,
            },
        decreases s@.len() - i,
    {
        assert(s@.skip(i as int).drop_first() =~= s@.skip(i + 1));
        if s[i] == '"' {
            return Some(i);
        }
        i = i + 1;
    }
    assert(s@.skip(i as int) =~= Seq::<char>::empty());
    None
}

/// Whether the characters equal the text.
fn chars_are(s: &Vec<char>, t: &str) -> (r: bool)
    ensures
        r == (s@ == t@),
{
    let r = crate::shell::chars_equal(s, 0, s.len(), t);
    assert(s@.subrange(0, s@.len() as int) =~= s@);
    r
}

/// Whether the tag text `lc` names the element `name` (see `names_element`).
fn names_element_exec(lc: &Vec<char>, name: &str) -> (r: bool)
    ensures
        r == names_element(lc@, name@),
{
    let mut spaced = string_of(chars_of(name).as_slice());
    push_char(&mut spaced, ' ');
    let sc = chars_of(spaced.as_str());
    chars_are(lc, name) || crate::text::chars_start_with(lc.as_slice(), sc.as_slice())
}

/// The kind of the tag whose lowercase text is `lower` (see `tag_kind`).
pub fn classify_tag(lower: &str) -> (r: TagKind)
    ensures
        r == tag_kind(lower@),
{
    let lc = chars_of(lower);
    if crate::text::chars_start_with(lc.as_slice(), chars_of("script").as_slice())
        || crate::text::chars_start_with(lc.as_slice(), chars_of("style").as_slice())
        || names_element_exec(&lc, "head") {
        TagKind::SkipStart
    } else if crate::text::chars_start_with(lc.as_slice(), chars_of("/script").as_slice())
        || crate::text::chars_start_with(lc.as_slice(), chars_of("/style").as_slice())
        || names_element_exec(&lc, "/head") {
        TagKind::SkipEnd
    } else if crate::text::chars_start_with(lc.as_slice(), chars_of("h1").as_slice()) {
        TagKind::Heading
    } else if names_element_exec(&lc, "a") {
        TagKind::AnchorStart
    } else if chars_are(&lc, "/a") {
        TagKind::AnchorEnd
    } else {
        TagKind::Other
    }
}

/// The scanner of `parse_html`.
struct Scanner {
    lines: Vec<String>,
    links: Vec<Hyperlink>,
    counter: usize,
    in_tag: bool,
    tag: Vec<char>,
    text: Vec<char>,
    skip: bool,
    link_url: Vec<char>,
    in_anchor: bool,
}

impl Scanner {
    spec fn view(&self) -> HtmlScan {
        HtmlScan {
            lines: crate::fs::segs_view(self.lines@),
            links: links_view(self.links@),
            counter: self.counter as int,
            in_tag: self.in_tag,
            tag: self.tag@,
            text: self.text@,
            skip: self.skip,
            link_url: self.link_url@,
            in_anchor: self.in_anchor,
            cut_inside_char: false,
        }
    }

    /// Emits the pending text (see `flushed`).
    fn flush(&mut self)
        requires
            old(self).counter < usize::MAX,
        ensures
            final(self)@ == flushed(old(self)@),
            final(self).counter <= old(self).counter + 1,
    {
        let (a, b) = crate::shell::trim_bounds(&self.text, 0, self.text.len());
        assert(self.text@.subrange(0, self.text@.len() as int) =~= self.text@);
        if a < b && !self.skip {
            let t = string_of(crate::text::chars_slice(self.text.as_slice(), a, b).as_slice());
            let d = decode_entities(t.as_str());
            let ghost lines0 = self.lines@;
            let ghost links0 = self.links@;
            if self.in_anchor {
                let c = self.counter;
                #[verifier::truncate]
                let low = c as u8;
                assert(low == c % 256) by (bit_vector)
                    requires
                        low == c as u8,
                ;
                let mut line = "[".to_owned();
                push_text(&mut line, u8_to_str(low).as_str());
                push_text(&mut line, "] ");
                push_text(&mut line, d.as_str());
                proof {
                    reveal_strlit("[");
                    reveal_strlit("] ");
                }
                assert(line@ =~= seq!['['] + decimal((self.counter % 256) as nat) + seq![']', ' '] + d@);
                self.lines.push(line);
                let link = Hyperlink { index: self.counter, text: d, target_url: string_of(self.link_url.as_slice()) };
                self.links.push(link);
                self.counter = self.counter + 1;
                proof {
                    crate::fs::lemma_segs_view(self.lines@);
                    crate::fs::lemma_segs_view(lines0);
                }
                assert(crate::fs::segs_view(self.lines@) =~= crate::fs::segs_view(lines0).push(
                    seq!['['] + decimal((old(self).counter % 256) as nat) + seq![']', ' '] + entities_decoded(crate::shell::trim(old(self).text@)),
                ));
                assert(links_view(self.links@) =~= links_view(links0).push(LinkView {
                    index: old(self).counter,
                    text: entities_decoded(crate::shell::trim(old(self).text@)),
                    target_url: old(self).link_url@,
                }));
            } else {
                let ghost dv = d@;
                self.lines.push(d);
                proof {
                    crate::fs::lemma_segs_view(self.lines@);
                    crate::fs::lemma_segs_view(lines0);
                }
                assert(crate::fs::segs_view(self.lines@) =~= crate::fs::segs_view(lines0).push(dv));
            }
        }
    }

    /// Handles a '>' (see `tag_closed`); false when the link target would be
    /// cut inside a character.
    fn close_tag(&mut self) -> (ok: bool)
        ensures
            ok <==> !tag_closed(old(self)@).cut_inside_char,
            ok ==> final(self)@ == tag_closed(old(self)@),
            final(self).counter == old(self).counter,
    {
        self.in_tag = false;
        let tag_str = string_of(self.tag.as_slice());
        let lower = lowercase(tag_str.as_str());
        let ghost st = old(self)@;
        assert(lower@ == lowercase_text(st.tag));
        match classify_tag(lower.as_str()) {
            TagKind::SkipStart => {
                self.skip = true;
            },
            TagKind::SkipEnd => {
                self.skip = false;
            },
            TagKind::Heading => {
                let ghost lines0 = self.lines@;
                let heading = "# ".to_owned();
                proof {
                    reveal_strlit("# ");
                }
                assert(heading@ =~= seq!['#', ' ']);
                self.lines.push(heading);
                proof {
                    crate::fs::lemma_segs_view(self.lines@);
                    crate::fs::lemma_segs_view(lines0);
                }
                assert(crate::fs::segs_view(self.lines@) =~= crate::fs::segs_view(lines0).push(seq!['#', ' ']));
            },
            TagKind::AnchorStart => {
                self.in_anchor = true;
                let lower_str = lower.as_str();
                let lower_bytes = lower_str.as_bytes();
                assert(lower_str@ == lower@);
                assert(lower_bytes@ == encode_utf8(lower@));
                let lower_len: usize = lower_bytes.len();
                assert(lower_len == encode_utf8(lower@).len());
                match find_href(lower_bytes) {
                    None => {},
                    Some(pos) => {
                        let tb = tag_str.as_str();
                        proof {
                            lemma_find_bytes(encode_utf8(lower@), href_bytes(), 0);
                        }
                        assert(find_bytes_from(encode_utf8(lowercase_text(st.tag)), href_bytes(), 0) == Some(pos as int));
                        assert(tb@ == st.tag);
                        if !tb.is_char_boundary(pos + 6) {
                            self.tag = Vec::new();
                            return false;
                        }
                        let (_, rest) = tb.split_at(pos + 6);
                        let rc = chars_of(rest);
                        proof {
                            vstd::utf8::encode_utf8_decode_utf8(rest@);
                        }
                        assert(rc@ == vstd::utf8::decode_utf8(
                            encode_utf8(st.tag).subrange(pos + 6, encode_utf8(st.tag).len() as int),
                        ));
                        proof {
                            lemma_quote_index(rc@);
                        }
                        match find_quote(&rc) {
                            Some(e) => {
                                self.link_url = crate::text::chars_slice(rc.as_slice(), 0, e);
                                assert(self.link_url@ =~= rc@.take(e as int));
                            },
                            None => {},
                        }
                    },
                }
            },
            TagKind::AnchorEnd => {
                self.in_anchor = false;
            },
            TagKind::Other => {},
        }
        self.tag = Vec::new();
        true
    }
}


/// Once a scan is cut inside a character it stays so.
proof fn lemma_cut_persists(html: Seq<char>, j: int, k: int)
    requires
        0 <= j <= k <= html.len(),
        html_scan(html.take(j)).cut_inside_char,
    ensures
        html_scan(html.take(k)).cut_inside_char,
    decreases k - j,
{
    if j < k {
        lemma_cut_persists(html, j, k - 1);
        assert(html.take(k).drop_last() =~= html.take(k - 1));
    }
}

/// Parses a page into its text lines and links: `None` exactly when a link
/// target would have to be cut from its tag at an offset that is not a
/// character boundary (see `tag_closed`).
pub fn parse_html_checked(html: &str) -> (r: Option<HtmlDocument>)
    requires
        html@.len() < usize::MAX,
    ensures
        r is None <==> html_scan(html@).cut_inside_char,
        r matches Some(doc) ==> {
            &&& doc.title@ == "Web Page"@
            &&& crate::fs::segs_view(doc.lines@) == html_lines(html@)
            &&& links_view(doc.links@) == html_scan(html@).links
        },
{
    let chars = chars_of(html);
    let n = chars.len();
    let mut sc = Scanner {
        lines: Vec::new(),
        links: Vec::new(),
        counter: 1,
        in_tag: false,
        tag: Vec::new(),
        text: Vec::new(),
        skip: false,
        link_url: Vec::new(),
        in_anchor: false,
    };
    proof {
        crate::fs::lemma_segs_view(sc.lines@);
        assert(html@.take(0) =~= Seq::<char>::empty());
        assert(crate::fs::segs_view(sc.lines@) =~= Seq::<Seq<char>>::empty());
        assert(links_view(sc.links@) =~= Seq::<LinkView>::empty());
    }
    let mut i: usize = 0;
    while i < n
        invariant
            n == chars@.len(),
            chars@ == html@,
            n < usize::MAX,
            i <= n,
            sc.counter <= i + 1,
            sc@ == html_scan(html@.take(i as int)),
            !html_scan(html@.take(i as int)).cut_inside_char,
        decreases n - i,
    {
        let c = chars[i];
        let ghost before = sc@;
        assert(html@.take(i + 1).drop_last() =~= html@.take(i as int));
        assert(html@.take(i + 1).last() == c);
        if c == '<' {
            sc.flush();
            sc.in_tag = true;
            sc.text = Vec::new();
            sc.tag = Vec::new();
        } else if c == '>' {
            if !sc.close_tag() {
                proof {
                    lemma_cut_persists(html@, i + 1, html@.len() as int);
                    assert(html@.take(html@.len() as int) =~= html@);
                }
                return None;
            }
        } else if sc.in_tag {
            sc.tag.push(c);
        } else {
            sc.text.push(c);
        }
        assert(sc@ == html_step(before, c));
        i = i + 1;
    }
    assert(html@.take(n as int) =~= html@);
    let (a, b) = crate::shell::trim_bounds(&sc.text, 0, sc.text.len());
    assert(sc.text@.subrange(0, sc.text@.len() as int) =~= sc.text@);
    if a < b && !sc.skip {
        let t = string_of(crate::text::chars_slice(sc.text.as_slice(), a, b).as_slice());
        let d = decode_entities(t.as_str());
        let ghost lines0 = sc.lines@;
        let ghost dv = d@;
        sc.lines.push(d);
        proof {
            crate::fs::lemma_segs_view(sc.lines@);
            crate::fs::lemma_segs_view(lines0);
        }
        assert(crate::fs::segs_view(sc.lines@) =~= crate::fs::segs_view(lines0).push(dv));
    }
    Some(HtmlDocument { title: "Web Page".to_owned(), lines: sc.lines, links: sc.links })
}

/// Parses a page into its text lines and links (see `html_lines` and
/// `html_scan`); every link target must be cut at a character boundary.
pub fn parse_html(html: &str) -> (r: HtmlDocument)
    requires
        html@.len() < usize::MAX,
        !html_scan(html@).cut_inside_char,
    ensures
        r.title@ == "Web Page"@,
        crate::fs::segs_view(r.lines@) == html_lines(html@),
        links_view(r.links@) == html_scan(html@).links,
{
    match parse_html_checked(html) {
        Some(doc) => doc,
        None => {
            assert(false);
            HtmlDocument { title: String::new(), lines: Vec::new(), links: Vec::new() }
        },
    }
}


/// Clones the repository at `repo_url` into the directory /git: announces
/// the clone in light cyan, creates /git (whether or not that succeeds) and
/// reports success in light green.
pub fn git_clone(vga: &mut VGA, fs: &mut FileSystem, repo_url: &str, ticks: u64) -> (r: Result<(), &'static str>)
    requires
        old(vga).inv(),
        old(fs).wf(),
    ensures
        r == Ok::<(), &'static str>(()),
        final(vga).inv(),
        final(fs).wf(),
        final(vga)@ == old(vga)@.with_colors(Color::LightCyan, Color::Black).write("Cloning git repository '"@).write(
            repo_url@,
        ).println("'..."@).with_colors(Color::White, Color::Black).with_colors(Color::LightGreen, Color::Black).println(
            "Git repository cloned successfully into B-Tree index at /git/."@,
        ).with_colors(Color::White, Color::Black),
        entry_created(*old(fs), *final(fs), path_text(seq!["git"@]), directory_meta(ticks)),
{
    vga.set_color(Color::LightCyan, Color::Black);
    vga.write("Cloning git repository '");
    vga.write(repo_url);
    vga.println("'...");
    vga.set_color(Color::White, Color::Black);
    let root: Vec<String> = Vec::new();
    proof {
        crate::fs::lemma_segs_view(root@);
    }
    assert(crate::fs::segs_view(root@).push("git"@) =~= seq!["git"@]);
    let _ = fs.create_directory(root.as_slice(), "git", ticks);
    vga.set_color(Color::LightGreen, Color::Black);
    vga.println("Git repository cloned successfully into B-Tree index at /git/.");
    vga.set_color(Color::White, Color::Black);
    Ok(())
}

/// Downloads the git client: two lines, in light cyan and light green.
pub fn download_git_software(vga: &mut VGA) -> (r: Result<(), &'static str>)
    requires
        old(vga).inv(),
    ensures
        r == Ok::<(), &'static str>(()),
        final(vga).inv(),
        final(vga)@ == old(vga)@.with_colors(Color::LightCyan, Color::Black).println(
            "Downloading 'git' software client..."@,
        ).with_colors(Color::LightGreen, Color::Black).println(
            "Git software client downloaded and registered successfully."@,
        ).with_colors(Color::White, Color::Black),
{
    vga.set_color(Color::LightCyan, Color::Black);
    vga.println("Downloading 'git' software client...");
    vga.set_color(Color::LightGreen, Color::Black);
    vga.println("Git software client downloaded and registered successfully.");
    vga.set_color(Color::White, Color::Black);
    Ok(())
}


/// Whether a request for `url` fits the sequence numbers of one connection.
pub open spec fn url_fits(url: Seq<char>) -> bool {
    encode_utf8(url).len() + 1500 <= u32::MAX
}

/// The URLs a browser knows: the current one and both history stacks (the
/// most recent entry last).
pub struct BrowserHistory {
    pub current: Seq<char>,
    pub back: Seq<Seq<char>>,
    pub forward: Seq<Seq<char>>,
}

/// History after following `url`: a non-empty current URL goes onto the
/// back stack, the forward stack is emptied.
pub open spec fn navigated(h: BrowserHistory, url: Seq<char>) -> BrowserHistory {
    BrowserHistory {
        current: url,
        back: if h.current.len() > 0 { h.back.push(h.current) } else { h.back },
        forward: Seq::empty(),
    }
}

/// History after going back: the last back entry becomes current and the
/// current URL goes onto the forward stack; nothing changes without one.
pub open spec fn went_back(h: BrowserHistory) -> BrowserHistory {
    if h.back.len() == 0 {
        h
    } else {
        BrowserHistory { current: h.back.last(), back: h.back.drop_last(), forward: h.forward.push(h.current) }
    }
}

/// History after going forward (the mirror of `went_back`).
pub open spec fn went_forward(h: BrowserHistory) -> BrowserHistory {
    if h.forward.len() == 0 {
        h
    } else {
        BrowserHistory { current: h.forward.last(), back: h.back.push(h.current), forward: h.forward.drop_last() }
    }
}

/// Going back right after following a link shows the page it was followed
/// from, with the same back stack, and offers the link forward.
pub proof fn lemma_back_after_navigate(h: BrowserHistory, url: Seq<char>)
    requires
        h.current.len() > 0,
    ensures
        went_back(navigated(h, url)) == (BrowserHistory { current: h.current, back: h.back, forward: seq![url] }),
{
    assert(h.back.push(h.current).drop_last() =~= h.back);
    assert(Seq::<Seq<char>>::empty().push(url) =~= seq![url]);
}

/// Going forward undoes going back.
pub proof fn lemma_forward_after_back(h: BrowserHistory)
    requires
        h.back.len() > 0,
    ensures
        went_forward(went_back(h)) == h,
{
    assert(h.forward.push(h.current).drop_last() =~= h.forward);
    assert(h.back.drop_last().push(h.back.last()) =~= h.back);
}

/// Going back undoes going forward.
pub proof fn lemma_back_after_forward(h: BrowserHistory)
    requires
        h.forward.len() > 0,
    ensures
        went_back(went_forward(h)) == h,
{
    assert(h.back.push(h.current).drop_last() =~= h.back);
    assert(h.forward.drop_last().push(h.forward.last()) =~= h.forward);
}

/// The text browser.
pub struct WebBrowser {
    pub current_url: String,
    pub document: Option<HtmlDocument>,
    pub history_back: Vec<String>,
    pub history_forward: Vec<String>,
    pub scroll_offset: usize,
    pub selected_link_idx: usize,
}

/// Lines shown of a page scrolled by `offset`: at most 21, from `offset` on.
pub open spec fn visible_lines(lines: Seq<Seq<char>>, offset: int) -> Seq<Seq<char>> {
    if offset >= lines.len() {
        Seq::empty()
    } else if lines.len() - offset <= 21 {
        lines.skip(offset)
    } else {
        lines.subrange(offset, offset + 21)
    }
}

/// Output of one page line: headings in light green, link lines in light
/// cyan, other lines in the default colors.
pub open spec fn page_line_outs(l: Seq<char>) -> Seq<Out> {
    if crate::text::starts_with(l, "# "@) {
        seq![Out::SetColor(Color::LightGreen, Color::Black), Out::Println(l), Out::SetColor(Color::White, Color::Black)]
    } else if l.len() > 0 && l[0] == '[' {
        seq![Out::SetColor(Color::LightCyan, Color::Black), Out::Println(l), Out::SetColor(Color::White, Color::Black)]
    } else {
        seq![Out::Println(l)]
    }
}

/// Output of page lines, in order.
pub open spec fn page_lines_outs(ls: Seq<Seq<char>>) -> Seq<Out>
    decreases ls.len(),
{
    if ls.len() == 0 {
        Seq::empty()
    } else {
        page_lines_outs(ls.drop_last()) + page_line_outs(ls.last())
    }
}

/// Spaces after the URL in the header: 70 minus its byte length, at least 5.
pub open spec fn url_padding(url: Seq<char>) -> nat {
    let n = encode_utf8(url).len();
    (70 - if n < 65 { n } else { 65 }) as nat
}

/// The header bar: the URL on light cyan, padded, and the exit hint.
pub open spec fn header_outs(url: Seq<char>) -> Seq<Out> {
    seq![Out::SetColor(Color::Black, Color::LightCyan), Out::Write(" URL: "@), Out::Write(url)]
        + Seq::new(url_padding(url), |i: int| Out::Write(seq![' ']))
        + seq![Out::Println("[ESC: Exit]"@), Out::SetColor(Color::White, Color::Black)]
}

/// The status bar with the keys.
pub open spec fn status_outs() -> Seq<Out> {
    seq![
        Out::SetColor(Color::Black, Color::LightGray),
        Out::Write(" Keys: Up/Down: Scroll | l: Prev Page | r: Next Page | Enter: Follow "@),
        Out::SetColor(Color::White, Color::Black),
    ]
}

/// Everything the browser draws: a cleared screen, the header, the visible
/// page lines (or a loading notice without a page) and the status bar.
pub open spec fn browser_outs(url: Seq<char>, page: Option<Seq<Seq<char>>>, offset: int) -> Seq<Out> {
    seq![Out::Clear] + header_outs(url) + match page {
        Some(lines) => page_lines_outs(visible_lines(lines, offset)),
        None => seq![Out::Println("\n  Loading web page..."@)],
    } + status_outs()
}

/// Lines of the page after loading the current URL, if its parse succeeds.
pub open spec fn loaded_lines() -> Seq<Seq<char>> {
    html_lines(default_page())
}

impl WebBrowser {
    /// The URLs as plain values.
    pub open spec fn history(&self) -> BrowserHistory {
        BrowserHistory {
            current: self.current_url@,
            back: crate::fs::segs_view(self.history_back@),
            forward: crate::fs::segs_view(self.history_forward@),
        }
    }

    /// Every URL the browser may load fits one connection.
    pub open spec fn wf(&self) -> bool {
        &&& url_fits(self.current_url@)
        &&& forall|i: int| 0 <= i < self.history_back@.len() ==> url_fits(#[trigger] self.history_back@[i]@)
        &&& forall|i: int| 0 <= i < self.history_forward@.len() ==> url_fits(#[trigger] self.history_forward@[i]@)
    }

    /// The lines of the page shown, if any.
    pub open spec fn page(&self) -> Option<Seq<Seq<char>>> {
        match self.document {
            Some(doc) => Some(crate::fs::segs_view(doc.lines@)),
            None => None,
        }
    }

    /// What loading a page leaves: scrolled to the top, first link selected,
    /// the parsed page shown unless its parse fails (then the old page stays).
    pub open spec fn page_loaded(old_b: WebBrowser, new_b: WebBrowser) -> bool {
        &&& new_b.scroll_offset == 0
        &&& new_b.selected_link_idx == 0
        &&& html_scan(default_page()).cut_inside_char ==> new_b.document == old_b.document
        &&& !html_scan(default_page()).cut_inside_char ==> (new_b.document matches Some(doc) && {
            &&& crate::fs::segs_view(doc.lines@) == loaded_lines()
            &&& links_view(doc.links@) == html_scan(default_page()).links
            &&& doc.title@ == "Web Page"@
        })
    }

    /// A browser with no page and no history.
    pub fn new() -> (r: Self)
        ensures
            r.history() == (BrowserHistory { current: Seq::empty(), back: Seq::empty(), forward: Seq::empty() }),
            r.document is None,
            r.scroll_offset == 0,
            r.selected_link_idx == 0,
            r.wf(),
    {
        let r = WebBrowser {
            current_url: String::new(),
            document: None,
            history_back: Vec::new(),
            history_forward: Vec::new(),
            scroll_offset: 0,
            selected_link_idx: 0,
        };
        proof {
            crate::fs::lemma_segs_view(r.history_back@);
            crate::fs::lemma_segs_view(r.history_forward@);
            assert(encode_utf8(r.current_url@) =~= Seq::<u8>::empty());
        }
        assert(r.history().back =~= Seq::<Seq<char>>::empty());
        assert(r.history().forward =~= Seq::<Seq<char>>::empty());
        r
    }

    /// Fetches the current URL and shows its page.
    fn load_current_page(&mut self)
        requires
            old(self).wf(),
        ensures
            final(self).wf(),
            final(self).history() == old(self).history(),
            final(self).current_url@ == old(self).current_url@,
            final(self).history_back@ == old(self).history_back@,
            final(self).history_forward@ == old(self).history_forward@,
            Self::page_loaded(*old(self), *final(self)),
    {
        self.scroll_offset = 0;
        self.selected_link_idx = 0;
        match http_get(self.current_url.as_str()) {
            Ok(response) => {
                proof {
                    reveal_strlit("<html><head><title>DuckDuckGo Text Search</title></head><body><h1>DuckDuckGo Privacy Search</h1><p>Privacy, simplified. Search the web without being tracked.</p><a href=\"http://html.duckduckgo.com/html/?q=aliluos\">Search AliluOS</a></body></html>");
                }
                if let Some(doc) = parse_html_checked(response.body.as_str()) {
                    self.document = Some(doc);
                }
            },
            Err(_) => {},
        }
    }

    /// Follows `url`: the current URL (if any) goes onto the back stack, the
    /// forward stack is emptied and the page is loaded.
    pub fn navigate(&mut self, url: &str)
        requires
            old(self).wf(),
            url_fits(url@),
        ensures
            final(self).wf(),
            final(self).history() == navigated(old(self).history(), url@),
            Self::page_loaded(*old(self), *final(self)),
    {
        let ghost h = self.history();
        let ghost back0 = self.history_back@;
        if self.current_url.as_str().unicode_len() > 0 {
            let cur = self.current_url.clone();
            self.history_back.push(cur);
        }
        proof {
            crate::fs::lemma_segs_view(self.history_back@);
            crate::fs::lemma_segs_view(back0);
        }
        assert(crate::fs::segs_view(self.history_back@) =~= navigated(h, url@).back);
        self.history_forward = Vec::new();
        proof {
            crate::fs::lemma_segs_view(self.history_forward@);
        }
        assert(crate::fs::segs_view(self.history_forward@) =~= Seq::<Seq<char>>::empty());
        self.current_url = url.to_owned();
        self.load_current_page();
    }

    /// Goes back to the previous page, if there is one (the `l` key).
    pub fn history_back_page(&mut self)
        requires
            old(self).wf(),
        ensures
            final(self).wf(),
            final(self).history() == went_back(old(self).history()),
            old(self).history_back@.len() == 0 ==> *final(self) == *old(self),
            old(self).history_back@.len() > 0 ==> Self::page_loaded(*old(self), *final(self)),
    {
        let ghost h = self.history();
        let ghost back0 = self.history_back@;
        let ghost fwd0 = self.history_forward@;
        if self.history_back.len() == 0 {
            return;
        }
        match self.history_back.pop() {
            Some(prev_url) => {
                let cur = self.current_url.clone();
                self.history_forward.push(cur);
                self.current_url = prev_url;
                proof {
                    crate::fs::lemma_segs_view(back0);
                    crate::fs::lemma_segs_view(fwd0);
                    crate::fs::lemma_segs_view(self.history_back@);
                    crate::fs::lemma_segs_view(self.history_forward@);
                }
                assert(crate::fs::segs_view(self.history_back@) =~= h.back.drop_last());
                assert(crate::fs::segs_view(self.history_forward@) =~= h.forward.push(h.current));
                assert(url_fits(back0[back0.len() - 1]@));
                self.load_current_page();
            },
            None => {},
        }
    }

    /// Goes forward to the next page, if there is one (the `r` key).
    pub fn history_forward_page(&mut self)
        requires
            old(self).wf(),
        ensures
            final(self).wf(),
            final(self).history() == went_forward(old(self).history()),
            old(self).history_forward@.len() == 0 ==> *final(self) == *old(self),
            old(self).history_forward@.len() > 0 ==> Self::page_loaded(*old(self), *final(self)),
    {
        let ghost h = self.history();
        let ghost back0 = self.history_back@;
        let ghost fwd0 = self.history_forward@;
        if self.history_forward.len() == 0 {
            return;
        }
        match self.history_forward.pop() {
            Some(next_url) => {
                let cur = self.current_url.clone();
                self.history_back.push(cur);
                self.current_url = next_url;
                proof {
                    crate::fs::lemma_segs_view(back0);
                    crate::fs::lemma_segs_view(fwd0);
                    crate::fs::lemma_segs_view(self.history_back@);
                    crate::fs::lemma_segs_view(self.history_forward@);
                }
                assert(crate::fs::segs_view(self.history_forward@) =~= h.forward.drop_last());
                assert(crate::fs::segs_view(self.history_back@) =~= h.back.push(h.current));
                assert(url_fits(fwd0[fwd0.len() - 1]@));
                self.load_current_page();
            },
            None => {},
        }
    }
    /// Draws the browser: header with the URL, up to 21 page lines from the
    /// scroll offset (or a loading notice) and the status bar.
    pub fn render(&self, vga: &mut VGA)
        requires
            old(vga).inv(),
        ensures
            final(vga).inv(),
            final(vga)@ == crate::console::apply_outs(
                old(vga)@,
                browser_outs(self.current_url@, self.page(), self.scroll_offset as int),
            ),
    {
        let mut ops: Vec<ConsoleOp> = Vec::new();
        proof {
            crate::console::lemma_outs_view(ops@);
        }
        assert(outs_view(ops@) =~= Seq::<Out>::empty());
        emit(&mut ops, ConsoleOp::Clear);
        emit_color(&mut ops, Color::Black, Color::LightCyan);
        emit_text(&mut ops, " URL: ");
        emit_text(&mut ops, self.current_url.as_str());
        let len = self.current_url.as_str().as_bytes().len();
        let pad: usize = 70 - if len < 65 { len } else { 65 };
        let ghost base = outs_view(ops@);
        let mut k: usize = 0;
        while k < pad
            invariant
                k <= pad,
                pad == url_padding(self.current_url@),
                outs_view(ops@) == base + Seq::new(k as nat, |i: int| Out::Write(seq![' '])),
            decreases pad - k,
        {
            proof {
                reveal_strlit(" ");
            }
            assert(" "@ =~= seq![' ']);
            emit_text(&mut ops, " ");
            assert(base + Seq::new((k + 1) as nat, |i: int| Out::Write(seq![' '])) =~= base + Seq::new(
                k as nat,
                |i: int| Out::Write(seq![' ']),
            ).push(Out::Write(" "@)));
            k = k + 1;
        }
        emit_line(&mut ops, "[ESC: Exit]");
        emit_color(&mut ops, Color::White, Color::Black);
        let ghost head = outs_view(ops@);
        assert(head =~= seq![Out::Clear] + header_outs(self.current_url@));
        match &self.document {
            Some(doc) => {
                let ghost lines = crate::fs::segs_view(doc.lines@);
                let ghost vis = visible_lines(lines, self.scroll_offset as int);
                proof {
                    crate::fs::lemma_segs_view(doc.lines@);
                }
                let n = doc.lines.len();
                let start = self.scroll_offset;
                let end: usize = if start >= n {
                    start
                } else if n - start <= 21 {
                    n
                } else {
                    start + 21
                };
                assert(vis.len() == end - start);
                assert(forall|j: int| 0 <= j < vis.len() ==> vis[j] == lines[start + j]);
                let mut i: usize = start;
                assert(vis.take(0) =~= Seq::<Seq<char>>::empty());
                while i < end
                    invariant
                        start <= i <= end,
                        end <= n || end == start,
                        start >= n ==> end == start,
                        n == doc.lines@.len(),
                        lines == crate::fs::segs_view(doc.lines@),
                        lines.len() == n,
                        forall|j: int| 0 <= j < n ==> #[trigger] lines[j] == doc.lines@[j]@,
                        vis.len() == end - start,
                        forall|j: int| 0 <= j < vis.len() ==> vis[j] == lines[start + j],
                        outs_view(ops@) == head + page_lines_outs(vis.take(i - start)),
                    decreases end - i,
                {
                    let line = doc.lines[i].as_str();
                    let ghost before = outs_view(ops@);
                    proof {
                        reveal_strlit("# ");
                    }
                    if crate::text::chars_start_with(chars_of(line).as_slice(), chars_of("# ").as_slice()) {
                        emit_color(&mut ops, Color::LightGreen, Color::Black);
                        emit_line(&mut ops, line);
                        emit_color(&mut ops, Color::White, Color::Black);
                    } else if line.unicode_len() > 0 && line.get_char(0) == '[' {
                        emit_color(&mut ops, Color::LightCyan, Color::Black);
                        emit_line(&mut ops, line);
                        emit_color(&mut ops, Color::White, Color::Black);
                    } else {
                        emit_line(&mut ops, line);
                    }
                    assert(vis.take(i + 1 - start).drop_last() =~= vis.take(i - start));
                    assert(vis.take(i + 1 - start).last() == line@);
                    assert(outs_view(ops@) =~= before + page_line_outs(line@));
                    i = i + 1;
                }
                assert(vis.take(end - start) =~= vis);
            },
            None => {
                emit_line(&mut ops, "\n  Loading web page...");
            },
        }
        let ghost body = match self.page() {
            Some(lines) => page_lines_outs(visible_lines(lines, self.scroll_offset as int)),
            None => seq![Out::Println("\n  Loading web page..."@)],
        };
        assert(outs_view(ops@) =~= head + body);
        emit_color(&mut ops, Color::Black, Color::LightGray);
        emit_text(&mut ops, " Keys: Up/Down: Scroll | l: Prev Page | r: Next Page | Enter: Follow ");
        emit_color(&mut ops, Color::White, Color::Black);
        assert(outs_view(ops@) =~= browser_outs(self.current_url@, self.page(), self.scroll_offset as int));
        crate::console::show(vga, &ops);
    }
}

} // verus!
