use alas_launcher::splash::text_to_splash;
use base64::Engine;

fn decode_splash(url: &str) -> String {
    let prefix = "data:text/html;charset=utf-8;base64,";
    assert!(url.starts_with(prefix), "unexpected scheme: {url}");
    let decoded = base64::engine::general_purpose::STANDARD
        .decode(&url[prefix.len()..])
        .expect("splash URL must carry valid base64");
    String::from_utf8(decoded).expect("splash page must be UTF-8")
}

#[test]
fn splash_page_carries_the_status_text() {
    let url = text_to_splash("Loading, please wait").unwrap();
    let html = decode_splash(&url);
    assert!(html.starts_with("<!doctype html>"));
    assert!(html.contains("<body><pre>Loading, please wait</pre></body>"));
}

#[test]
fn splash_page_escapes_markup() {
    let url = text_to_splash("a < b & c > d\r\n").unwrap();
    let html = decode_splash(&url);
    assert!(html.contains("<body><pre>a &lt; b &amp; c &gt; d\n</pre></body>"));
    assert!(!html.contains("a < b"));
}

#[test]
fn splash_page_of_empty_text() {
    let url = text_to_splash("").unwrap();
    let html = decode_splash(&url);
    assert!(html.contains("<body><pre></pre></body>"));
}
