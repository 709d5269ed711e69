use webcore::counter::HitCount;
use webcore::router::{Method, ParamMap, RouteTable, Segment};
use webcore::router::parse_pairs;

fn lit(s: &str) -> Segment {
    Segment::Literal(s.as_bytes().to_vec())
}

fn cap(s: &str) -> Segment {
    Segment::Capture(s.as_bytes().to_vec())
}

fn parts(path: &[&str]) -> Vec<Vec<u8>> {
    path.iter().map(|p| p.as_bytes().to_vec()).collect()
}

#[test]
fn register_duplicate_is_conflict() {
    let mut t: RouteTable<u32> = RouteTable::new();
    assert!(t.register(Method::Get, vec![lit("hello")], 1).is_ok());
    assert!(t.register(Method::Get, vec![lit("hello")], 2).is_err());
}

#[test]
fn register_duplicate_capture_names_still_conflict() {
    let mut t: RouteTable<u32> = RouteTable::new();
    assert!(t.register(Method::Get, vec![lit("x"), cap("a")], 1).is_ok());
    assert!(t.register(Method::Get, vec![lit("x"), cap("b")], 2).is_err());
}

#[test]
fn register_same_pattern_other_method_is_fine() {
    let mut t: RouteTable<u32> = RouteTable::new();
    assert!(t.register(Method::Get, vec![lit("form")], 1).is_ok());
    assert!(t.register(Method::Post, vec![lit("form")], 2).is_ok());
}

#[test]
fn find_prefers_first_registered_route() {
    let mut t: RouteTable<u32> = RouteTable::new();
    t.register(Method::Get, vec![lit("hello")], 1).unwrap();
    t.register(Method::Get, vec![lit("hello"), cap("name")], 2).unwrap();
    let (h, _) = t.find(Method::Get, &parts(&["hello"])).unwrap();
    assert_eq!(h, 1);
    let (h, p) = t.find(Method::Get, &parts(&["hello", "Ada"])).unwrap();
    assert_eq!(h, 2);
    assert_eq!(p.get(&b"name".to_vec()), Some(&b"Ada".to_vec()));
}

#[test]
fn find_unmatched_path_is_none() {
    let mut t: RouteTable<u32> = RouteTable::new();
    t.register(Method::Get, vec![lit("hello")], 1).unwrap();
    assert!(t.find(Method::Get, &parts(&["nosuch"])).is_none());
    assert!(t.find(Method::Post, &parts(&["hello"])).is_none());
}

#[test]
fn capture_requires_nonempty_segment() {
    let mut t: RouteTable<u32> = RouteTable::new();
    t.register(Method::Get, vec![lit("hello"), cap("name")], 1).unwrap();
    assert!(t.find(Method::Get, &parts(&["hello", ""])).is_none());
}

#[test]
fn query_exposes_first_occurrence_per_key() {
    let q: ParamMap = parse_pairs(&b"a=1&a=2&b=3".to_vec());
    assert_eq!(q.get(&b"a".to_vec()), Some(&b"1".to_vec()));
    assert_eq!(q.get(&b"b".to_vec()), Some(&b"3".to_vec()));
    assert_eq!(q.get(&b"c".to_vec()), None);
}

#[test]
fn bare_key_has_empty_value() {
    let q: ParamMap = parse_pairs(&b"flag&x=1".to_vec());
    assert_eq!(q.get(&b"flag".to_vec()), Some(&b"".to_vec()));
}

#[test]
fn counter_starts_at_zero_and_counts_exactly() {
    let mut c = HitCount::new();
    assert_eq!(c.read(), 0);
    let before = c.read();
    for _ in 0..1000 {
        c.increment();
    }
    assert_eq!(c.read(), before + 1000);
}

#[test]
fn counter_reads_never_decrease() {
    let mut c = HitCount::new();
    let mut last = c.read();
    for i in 0..50 {
        if i % 3 == 0 {
            c.increment();
        }
        let now = c.read();
        assert!(now >= last);
        last = now;
    }
}
