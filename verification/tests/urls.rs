use dlmgr::urlset::UrlSet;
use url::Url;

fn set(urls: &[&str]) -> UrlSet {
    UrlSet::from_urls(urls.iter().map(|u| Url::parse(u).unwrap()).collect())
}

#[test]
fn attempts_go_round_the_servers() {
    let s = set(&["http://a/f", "http://b/f", "http://c/f"]);
    assert_eq!(s.url(0, 0).as_str(), "http://a/f");
    assert_eq!(s.url(0, 1).as_str(), "http://b/f");
    assert_eq!(s.url(0, 2).as_str(), "http://c/f");
    assert_eq!(s.url(0, 3).as_str(), "http://a/f");
    assert_eq!(s.url(1, 0).as_str(), "http://b/f");
    assert_eq!(s.url(5, 1).as_str(), "http://a/f");
}

#[test]
fn attempt_counter_wraps() {
    let s = set(&["http://a/f", "http://b/f", "http://c/f"]);
    // usize::MAX + 2 wraps to 1
    assert_eq!(s.url(2, usize::MAX).as_str(), "http://b/f");
}

#[test]
fn all_lists_each_server_once() {
    let s = set(&["http://a/f", "http://b/f", "http://a/f", "HTTP://A/f"]);
    let all: Vec<String> = s.all().iter().map(|u| u.as_str().to_string()).collect();
    assert_eq!(all, vec!["http://a/f".to_string(), "http://b/f".to_string()]);
}

#[test]
fn parse_one_server() {
    let s = UrlSet::parse("http://127.0.0.1:8080/test.dat").unwrap();
    assert_eq!(s.urls.len(), 1);
    assert_eq!(s.urls[0].as_str(), "http://127.0.0.1:8080/test.dat");
    assert!(UrlSet::parse("not a url").is_err());
}

#[test]
fn single_server_set() {
    let s = UrlSet::from_url(Url::parse("http://x/y").unwrap());
    assert_eq!(s.url(7, 9).as_str(), "http://x/y");
}

#[test]
fn parse_all_keeps_order_and_stops_at_bad_input() {
    let s = UrlSet::parse_all(&["http://a/f".to_string(), "http://b/f".to_string()]).unwrap();
    assert_eq!(s.urls.len(), 2);
    assert_eq!(s.urls[1].as_str(), "http://b/f");
    assert!(UrlSet::parse_all(&["http://a/f".to_string(), "nope".to_string()]).is_err());
    assert_eq!(UrlSet::parse_all(&[]).unwrap().urls.len(), 0);
}

#[test]
fn conversions_into_a_set() {
    let s: UrlSet = "http://127.0.0.1:1/test.dat".to_string().try_into().unwrap();
    assert_eq!(s.urls[0].as_str(), "http://127.0.0.1:1/test.dat");
    let bad: Result<UrlSet, _> = "::".to_string().try_into();
    assert!(bad.is_err());
    let one: UrlSet = Url::parse("http://x/y").unwrap().into();
    assert_eq!(one.urls.len(), 1);
}
