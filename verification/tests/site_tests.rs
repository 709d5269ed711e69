use webcore::counter::HitCount;
use webcore::router::Method;
use webcore::site::{build_site, dispatch, handlebars, hello, wow_helper, Response};

fn get(site: &webcore::site::Site, hits: &mut HitCount, path: &str) -> Response {
    dispatch(site, hits, Method::Get, &path.as_bytes().to_vec(), &Vec::new(), &Vec::new())
}

fn post(site: &webcore::site::Site, hits: &mut HitCount, path: &str, body: &[u8]) -> Response {
    dispatch(site, hits, Method::Post, &path.as_bytes().to_vec(), &Vec::new(), &body.to_vec())
}

fn text_of(r: Response) -> Vec<u8> {
    match r {
        Response::Text(t) => t,
        other => panic!("expected a text response, got {:?}", other),
    }
}

fn contains(hay: &[u8], needle: &[u8]) -> bool {
    hay.windows(needle.len()).any(|w| w == needle)
}

#[test]
fn hello_returns_the_fixed_greeting() {
    assert_eq!(hello(), "Hello, outside world!");
}

#[test]
fn hello_route_answers_with_the_greeting() {
    let site = build_site().unwrap();
    let mut hits = HitCount::new();
    assert_eq!(text_of(get(&site, &mut hits, "/hello")), b"Hello, outside world!".to_vec());
}

#[test]
fn count_starts_at_zero_and_visitors_raise_it() {
    let site = build_site().unwrap();
    let mut hits = HitCount::new();
    assert_eq!(text_of(get(&site, &mut hits, "/count")), b"0".to_vec());
    for _ in 0..3 {
        match get(&site, &mut hits, "/visitors") {
            Response::Html(t) => {
                assert!(contains(&t, b"Your visit has been recorded!"));
            },
            other => panic!("expected an html response, got {:?}", other),
        }
    }
    assert_eq!(text_of(get(&site, &mut hits, "/count")), b"3".to_vec());
}

#[test]
fn visitors_page_embeds_the_new_count() {
    let site = build_site().unwrap();
    let mut hits = HitCount::new();
    match get(&site, &mut hits, "/visitors") {
        Response::Html(t) => assert!(contains(&t, b"Visits: 1")),
        other => panic!("expected an html response, got {:?}", other),
    }
    assert_eq!(hits.read(), 1);
}

#[test]
fn hello_name_page_carries_the_name() {
    let site = build_site().unwrap();
    let mut hits = HitCount::new();
    match get(&site, &mut hits, "/hello/Ada") {
        Response::Page(name, ctx) => {
            assert_eq!(name, b"index".to_vec());
            assert_eq!(ctx.title, b"Hello".to_vec());
            assert_eq!(ctx.name, Some(b"Ada".to_vec()));
            assert_eq!(ctx.items, vec![b"One".to_vec(), b"Two".to_vec(), b"Three".to_vec()]);
            assert_eq!(ctx.parent, b"layout".to_vec());
        },
        other => panic!("expected a template page, got {:?}", other),
    }
}

#[test]
fn about_page_uses_its_template() {
    let site = build_site().unwrap();
    let mut hits = HitCount::new();
    match get(&site, &mut hits, "/about") {
        Response::Page(name, ctx) => {
            assert_eq!(name, b"about".to_vec());
            assert_eq!(ctx.title, b"About".to_vec());
            assert_eq!(ctx.name, None);
            assert_eq!(ctx.items, vec![b"Four".to_vec(), b"Five".to_vec(), b"Six".to_vec()]);
        },
        other => panic!("expected a template page, got {:?}", other),
    }
}

#[test]
fn index_and_form_serve_static_pages() {
    let site = build_site().unwrap();
    let mut hits = HitCount::new();
    match get(&site, &mut hits, "/") {
        Response::File(p) => assert_eq!(p, b"static/index.html".to_vec()),
        other => panic!("expected a file response, got {:?}", other),
    }
    match get(&site, &mut hits, "/form") {
        Response::File(p) => assert_eq!(p, b"static/Form.html".to_vec()),
        other => panic!("expected a file response, got {:?}", other),
    }
}

#[test]
fn static_mount_streams_the_named_file() {
    let site = build_site().unwrap();
    let mut hits = HitCount::new();
    match get(&site, &mut hits, "/static/style.css") {
        Response::File(p) => assert_eq!(p, b"static/style.css".to_vec()),
        other => panic!("expected a file response, got {:?}", other),
    }
}

#[test]
fn unmatched_path_reaches_the_catch_handler() {
    let site = build_site().unwrap();
    let mut hits = HitCount::new();
    match get(&site, &mut hits, "/nope") {
        Response::NotFoundPage(p) => assert_eq!(p, b"/nope".to_vec()),
        other => panic!("expected the catch handler's page, got {:?}", other),
    }
    assert_eq!(hits.read(), 0);
}

#[test]
fn form_post_decodes_and_echoes_the_values() {
    let site = build_site().unwrap();
    let mut hits = HitCount::new();
    let body = b"number=5&type=A&password=x&textarea=hi&select=B";
    let t = text_of(post(&site, &mut hits, "/form", body));
    assert!(contains(&t, b"checkbox=false"));
    assert!(contains(&t, b"number=5"));
    assert!(contains(&t, b"radio=A"));
    assert!(contains(&t, b"password=x"));
    assert!(contains(&t, b"text_area=hi"));
    assert!(contains(&t, b"select=B"));
}

#[test]
fn form_post_reports_invalid_encoding() {
    let site = build_site().unwrap();
    let mut hits = HitCount::new();
    let mut body = b"number=5&type=A&password=x&textarea=hi&select=B".to_vec();
    body.push(0xff);
    let t = text_of(post(&site, &mut hits, "/form", &body));
    assert_eq!(t, b"Form input was invalid UTF-8.".to_vec());
}

#[test]
fn form_post_names_the_offending_field() {
    let site = build_site().unwrap();
    let mut hits = HitCount::new();
    let body = b"number=5&type=D&password=x&textarea=hi&select=B";
    let t = text_of(post(&site, &mut hits, "/form", body));
    assert_eq!(t, b"Invalid form input: radio".to_vec());
}

#[test]
fn handlebars_demo_redirects() {
    match handlebars() {
        Response::Redirect(p) => assert_eq!(p, b"/hello/Caleb_Trachte".to_vec()),
        other => panic!("expected a redirect, got {:?}", other),
    }
}

#[test]
fn wow_helper_wraps_its_parameter() {
    assert_eq!(wow_helper(&b"x".to_vec()), b"<b><i>x</b></i>".to_vec());
}
