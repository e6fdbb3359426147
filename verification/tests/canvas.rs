use collabdraw::address::{AddressList, IpAddress};
use collabdraw::client::{Client, COLOR_COUNT};
use collabdraw::coord::{below_zero, NEG_INFINITY_BITS, NEG_ZERO_BITS, PEN_UP_BITS};
use collabdraw::history::{History, Line};
use collabdraw::listfile::{entry_line, line_in_file, list_entries};
use collabdraw::text::{chars_equal, chars_of, string_from_utf8};

fn bits(v: f64) -> u64 {
    v.to_bits()
}

#[test]
fn below_zero_agrees_with_float_comparison() {
    let samples = [
        0.0f64,
        -0.0,
        1.0,
        -1.0,
        f64::MIN_POSITIVE,
        -f64::MIN_POSITIVE,
        f64::MAX,
        f64::MIN,
        f64::INFINITY,
        f64::NEG_INFINITY,
        f64::NAN,
        -f64::NAN,
        5e-324,
        -5e-324,
        123.5,
        -123.5,
    ];
    for v in samples.iter() {
        assert_eq!(below_zero(v.to_bits()), *v < 0.0, "value {:?}", v);
    }
}

#[test]
fn coordinate_constants() {
    assert_eq!(PEN_UP_BITS, bits(-1.0));
    assert_eq!(NEG_INFINITY_BITS, bits(f64::NEG_INFINITY));
    assert_eq!(NEG_ZERO_BITS, bits(-0.0));
    assert!(below_zero(PEN_UP_BITS));
}

#[test]
fn address_list_is_a_set() {
    let a = IpAddress::V4(0x7f00_0001);
    let b = IpAddress::V6(1);
    let mut list = AddressList::new();
    assert!(!list.contains(a));
    list.insert(a);
    list.insert(a);
    assert!(list.contains(a));
    assert!(!list.contains(b));
    list.insert(b);
    assert!(list.contains(b));
    list.clear();
    assert!(!list.contains(a));
    let from = AddressList::from_addresses(vec![a, a, b]);
    assert!(from.contains(a) && from.contains(b));
    assert!(!from.contains(IpAddress::V4(1)));
}

fn rows(v: Vec<Vec<char>>) -> Vec<String> {
    v.into_iter().map(|r| r.into_iter().collect()).collect()
}

#[test]
fn list_entries_skip_empty_and_comment_lines() {
    let text = "1.2.3.4\n\n# comment\n   # indented comment\n\u{3000}#wide space\n5.6.7.8\n x#y\n";
    assert_eq!(rows(list_entries(text)), vec!["1.2.3.4", "5.6.7.8", " x#y"]);
    assert_eq!(rows(list_entries("")), Vec::<String>::new());
    assert_eq!(rows(list_entries("a")), vec!["a"]);
    assert_eq!(rows(list_entries("a\r\nb")), vec!["a\r", "b"]);
}

#[test]
fn entry_lines() {
    let c = |s: &str| s.chars().collect::<Vec<char>>();
    assert!(entry_line(&c("x")));
    assert!(!entry_line(&c("")));
    assert!(!entry_line(&c("#x")));
    assert!(!entry_line(&c(" \t#x")));
    assert!(entry_line(&c(" ")));
    assert!(entry_line(&c("x#")));
}

#[test]
fn lines_listed_in_file() {
    let file = "user:pass\n# admin:secret\nother:pw";
    assert!(line_in_file("user:pass", file));
    assert!(line_in_file("other:pw", file));
    assert!(!line_in_file("admin:secret", file));
    assert!(!line_in_file("# admin:secret", file));
    assert!(!line_in_file("", file));
    assert!(!line_in_file("user", file));
}

#[test]
fn appended_entry_listed_only_after_a_newline() {
    assert!(line_in_file("2.2.2.2", &format!("{}{}", "1.1.1.1\n", "2.2.2.2")));
    assert!(line_in_file("2.2.2.2", &format!("{}{}", "", "2.2.2.2")));
    assert!(!line_in_file("2.2.2.2", &format!("{}{}", "1.1.1.1", "2.2.2.2")));
}

#[test]
fn text_helpers() {
    assert_eq!(chars_of("héllo"), vec!['h', 'é', 'l', 'l', 'o']);
    assert!(chars_equal(&['a', 'b'], &['a', 'b']));
    assert!(!chars_equal(&['a', 'b'], &['a']));
    assert!(!chars_equal(&['a', 'b'], &['a', 'c']));
    assert_eq!(string_from_utf8(vec![0x68, 0xc3, 0xa9]), Some("hé".to_string()));
    assert_eq!(string_from_utf8(vec![0xff, 0x00]), None);
}

#[test]
fn history_keeps_latest_lines() {
    let mut h = History::with_capacity(3);
    let l = |i: u64| Line(i, i, i, i, 1);
    assert!(h.to_vec().is_empty());
    h.push(l(1));
    h.push(l(2));
    assert_eq!(h.to_vec(), vec![l(1), l(2)]);
    h.push(l(3));
    h.push(l(4));
    h.push(l(5));
    assert_eq!(h.to_vec(), vec![l(3), l(4), l(5)]);
}

#[test]
fn history_of_one_line() {
    let mut h = History::with_capacity(1);
    h.push(Line(1, 2, 3, 4, 5));
    h.push(Line(6, 7, 8, 9, 10));
    assert_eq!(h.to_vec(), vec![Line(6, 7, 8, 9, 10)]);
}

#[test]
fn new_clients_start_with_pen_lifted() {
    let ip = IpAddress::V4(0x0a00_0001);
    for _ in 0..50 {
        let c = Client::new(7, ip);
        assert!(c.color < COLOR_COUNT);
        assert_eq!(c.connection_id, 7);
        assert_eq!(c.ip, ip);
        assert_eq!(c.oldx, bits(-1.0));
        assert_eq!(c.oldy, bits(-1.0));
    }
    let c = Client::with_color(3, ip, 42);
    assert_eq!(c, Client { connection_id: 3, oldx: PEN_UP_BITS, oldy: PEN_UP_BITS, color: 42, ip });
}
