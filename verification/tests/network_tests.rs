use alilu_os::network::{
    classify_tag, decode_entities, download_git_software, git_clone, http_get, parse_html, parse_html_checked,
    pci_config_address, pci_find_network_card, resolve_domain_name, u8_to_str, EthernetDriver, Ipv4Address,
    TagKind, TcpSocket, TcpState, WebBrowser,
};
use alilu_os::fs::FileSystem;
use alilu_os::vga::VGA;

#[test]
fn byte_text_is_decimal() {
    assert_eq!(u8_to_str(0), "0");
    assert_eq!(u8_to_str(7), "7");
    assert_eq!(u8_to_str(42), "42");
    assert_eq!(u8_to_str(255), "255");
}

#[test]
fn address_text_is_dotted() {
    assert_eq!(Ipv4Address([93, 184, 216, 34]).to_string(), "93.184.216.34");
    assert_eq!(Ipv4Address::LOCALHOST().to_string(), "127.0.0.1");
    assert_eq!(Ipv4Address::DEFAULT_GATEWAY().to_string(), "10.0.2.2");
    assert_eq!(Ipv4Address::DEFAULT_DNS().to_string(), "8.8.8.8");
}

#[test]
fn pci_address_word() {
    assert_eq!(pci_config_address(0, 0, 0, 0), 0x8000_0000);
    assert_eq!(pci_config_address(1, 2, 3, 0x13), 0x8001_1310);
}

#[test]
fn pci_scan_finds_first_match() {
    let reader = |bus: u8, slot: u8, _func: u8, offset: u8| -> u32 {
        if bus == 3 && slot == 5 {
            if offset == 0 { 0x100E_8086 } else { 0xFEB0_0000 }
        } else {
            0xFFFF_FFFF
        }
    };
    let dev = pci_find_network_card(0x8086, 0x100E, &reader).unwrap();
    assert_eq!((dev.bus, dev.slot, dev.function), (3, 5, 0));
    assert_eq!((dev.vendor_id, dev.device_id, dev.bar0), (0x8086, 0x100E, 0xFEB0_0000));
    assert!(pci_find_network_card(0x1AF4, 0x1000, &reader).is_none());
}

#[test]
fn nic_driver_names() {
    let none = |_b: u8, _s: u8, _f: u8, _o: u8| -> u32 { 0xFFFF_FFFF };
    let virtio = |b: u8, s: u8, _f: u8, o: u8| -> u32 { if b == 0 && s == 4 && o == 0 { 0x1000_1AF4 } else { 0 } };
    let mut nic = EthernetDriver::new();
    assert!(!nic.card_detected);
    assert_eq!(nic.driver_name, "Generic/e1000");
    assert_eq!(nic.mac_address, [0x52, 0x54, 0x00, 0x12, 0x34, 0x56]);
    nic.init(&none);
    assert!(nic.card_detected);
    assert_eq!(nic.driver_name, "QEMU Virtual Ethernet Adapter");
    let mut nic2 = EthernetDriver::new();
    nic2.init(&virtio);
    assert_eq!(nic2.driver_name, "VirtIO-Net Translucent NIC");
}

#[test]
fn tcp_handshake_and_send() {
    let mut s = TcpSocket::new(49152);
    assert_eq!(s.state, TcpState::Closed);
    assert_eq!(s.send(b"abc"), Err("TCP socket is not connected"));
    assert_eq!(s.seq_no, 1000);
    assert_eq!(s.connect(Ipv4Address([1, 2, 3, 4]), 80), Ok(()));
    assert_eq!(s.state, TcpState::Established);
    assert_eq!(s.seq_no, 1001);
    assert_eq!(s.ack_no, 1);
    assert_eq!(s.send(b"hello"), Ok(()));
    assert_eq!(s.seq_no, 1006);
}

#[test]
fn name_table() {
    assert_eq!(resolve_domain_name("example.com").unwrap().0, [93, 184, 216, 34]);
    assert_eq!(resolve_domain_name("text.npr.org").unwrap().0, [151, 101, 1, 67]);
    assert_eq!(resolve_domain_name("github.com").unwrap().0, [140, 82, 121, 4]);
    assert_eq!(resolve_domain_name("duck.com").unwrap().0, [52, 142, 124, 215]);
    assert_eq!(resolve_domain_name("unknown.test").unwrap().0, [52, 142, 124, 215]);
}

#[test]
fn http_answers_search_page() {
    let r = http_get("http://duckduckgo.com/page").unwrap();
    assert_eq!(r.status_code, 200);
    assert_eq!(r.content_type, "text/html");
    assert!(r.body.starts_with("<html><head><title>DuckDuckGo Text Search</title>"));
    assert!(r.body.contains("href=\"http://html.duckduckgo.com/html/?q=aliluos\""));
}

#[test]
fn entities_are_decoded() {
    assert_eq!(decode_entities("a &lt;b&gt; &amp; &quot;c&quot;"), "a <b> & \"c\"");
    assert_eq!(decode_entities("&amp;lt;"), "<");
    assert_eq!(decode_entities("plain"), "plain");
}

#[test]
fn html_lines_and_links() {
    let doc = parse_html("<html><head><title>T</title></head><body><h1>Hello</h1><p>Some &amp; text</p><a href=\"http://x.org/a\">Link X</a> tail</body></html>");
    assert_eq!(doc.title, "Web Page");
    assert_eq!(doc.lines, vec!["# ", "Hello", "Some & text", "[1] Link X", "tail"]);
    assert_eq!(doc.links.len(), 1);
    assert_eq!(doc.links[0].index, 1);
    assert_eq!(doc.links[0].text, "Link X");
    assert_eq!(doc.links[0].target_url, "http://x.org/a");
}

#[test]
fn html_scripts_are_skipped() {
    let doc = parse_html("<script>var x = 1;</script>after<STYLE>p{}</STYLE> end");
    assert_eq!(doc.lines, vec!["after", "end"]);
    assert!(doc.links.is_empty());
}

#[test]
fn html_links_are_numbered() {
    let doc = parse_html("<a href=\"u1\">one</a><a href=\"u2\">two</a><A HREF=\"U3\">three</A>");
    assert_eq!(doc.lines, vec!["[1] one", "[2] two", "[3] three"]);
    assert_eq!(doc.links[2].target_url, "U3");
    assert_eq!(doc.links[1].index, 2);
}

#[test]
fn html_cut_inside_character_is_refused() {
    // The lowercase form of U+0130 is one byte longer, so the target offset
    // found in the lowercase tag falls inside the 'é' of the original.
    assert!(parse_html_checked("<a \u{130} href=\"\u{e9}\">y</a>").is_none());
    let doc = parse_html_checked("<a \u{130}\u{130} href=\"x\">y</a>").unwrap();
    assert_eq!(doc.links[0].target_url, "");
    assert!(parse_html_checked("<a href=\"x\">y</a>").is_some());
}

#[test]
fn git_commands_report() {
    let mut vga = VGA::new();
    let mut fs = FileSystem::new();
    fs.init();
    assert_eq!(git_clone(&mut vga, &mut fs, "https://github.com/x/y", 5), Ok(()));
    assert!(fs.find_directory(&["git".to_string()]).is_some());
    assert_eq!(download_git_software(&mut vga), Ok(()));
}

#[test]
fn browser_history_back_and_forward() {
    let mut b = WebBrowser::new();
    assert!(b.document.is_none());
    b.navigate("http://a.com");
    assert_eq!(b.current_url, "http://a.com");
    assert!(b.history_back.is_empty());
    assert!(b.document.is_some());
    b.navigate("http://b.com");
    assert_eq!(b.history_back, vec!["http://a.com".to_string()]);
    b.history_back_page();
    assert_eq!(b.current_url, "http://a.com");
    assert_eq!(b.history_forward, vec!["http://b.com".to_string()]);
    b.history_forward_page();
    assert_eq!(b.current_url, "http://b.com");
    assert_eq!(b.history_back, vec!["http://a.com".to_string()]);
    assert!(b.history_forward.is_empty());
    b.history_forward_page();
    assert_eq!(b.current_url, "http://b.com");
}

#[test]
fn browser_renders_page_lines() {
    let mut b = WebBrowser::new();
    b.navigate("http://duck.com");
    let doc = b.document.as_ref().unwrap();
    assert_eq!(doc.lines, vec!["# ", "DuckDuckGo Privacy Search", "Privacy, simplified. Search the web without being tracked.", "[1] Search AliluOS"]);
    let mut vga = VGA::new();
    b.render(&mut vga);
    assert_eq!(vga.glyph_at(0, 0), b' ');
    assert_eq!(vga.glyph_at(0, 1), b'U');
}

#[test]
fn html_header_element_is_shown() {
    let doc = parse_html("<head><title>T</title></head><header>Menu</header><h1>Hi &amp; bye</h1><a href=\"http://x.org\">Go</a>");
    assert_eq!(doc.title, "Web Page");
    assert_eq!(doc.lines, vec!["Menu", "# ", "Hi & bye", "[1] Go"]);
    assert_eq!(doc.links.len(), 1);
    assert_eq!(doc.links[0].target_url, "http://x.org");
}

#[test]
fn tag_kinds() {
    assert!(classify_tag("head") == TagKind::SkipStart);
    assert!(classify_tag("head lang=\"en\"") == TagKind::SkipStart);
    assert!(classify_tag("header") == TagKind::Other);
    assert!(classify_tag("/head") == TagKind::SkipEnd);
    assert!(classify_tag("/header") == TagKind::Other);
    assert!(classify_tag("script type=x") == TagKind::SkipStart);
    assert!(classify_tag("h1") == TagKind::Heading);
    assert!(classify_tag("a href=\"x\"") == TagKind::AnchorStart);
    assert!(classify_tag("abbr") == TagKind::Other);
    assert!(classify_tag("/a") == TagKind::AnchorEnd);
}
