use host_scanner::http::{http_banner_from_response, http_fields};

// What an HTTP answer yields when its header and title are cut out of the
// text at the offsets found in its lowercase form.
fn expected_fields(text: &str) -> (Option<String>, Option<String>) {
    let mut server = None;
    for line in text.lines() {
        if line.to_lowercase().starts_with("server:") {
            server = Some(line["server:".len()..].trim().to_string());
            break;
        }
    }
    let mut title = None;
    let lower = text.to_lowercase();
    if let (Some(s), Some(e)) = (lower.find("<title>"), lower.find("</title>")) {
        if e > s + 7 {
            title = Some(text[s + 7..e].trim().to_string());
        }
    }
    (server, title)
}

#[test]
fn header_and_title_are_found_case_insensitively() {
    let text = "HTTP/1.1 200 OK\r\nSERVER:  nginx/1.25 \r\nContent-Type: text/html\r\n\r\n<html><head><TITLE> Home Page </Title></head></html>";
    let (server, title) = http_fields(text).unwrap();
    assert_eq!(server.as_deref(), Some("nginx/1.25"));
    assert_eq!(title.as_deref(), Some("Home Page"));
    assert_eq!((server, title), expected_fields(text));
}

#[test]
fn missing_or_empty_fields_are_absent() {
    for text in [
        "HTTP/1.0 200 OK\r\n\r\nbody",
        "<title></title>",
        "</title><title>x",
        "Server:",
        "X-Server: no\nserver: yes\n",
        "",
        "straße <title>Grüße</title>\nServer: é",
    ] {
        let fields = http_fields(text).unwrap();
        assert_eq!(fields, expected_fields(text), "text {:?}", text);
    }
}

#[test]
fn offsets_inside_a_character_are_reported() {
    // 'Ⱥ' takes two bytes and its lowercase three, so the title's offset in
    // the lowercase text falls inside 'é' of the original.
    assert!(http_fields("\u{23a}<title>\u{e9}</title>").is_none());
    assert!(http_banner_from_response("\u{23a}<title>\u{e9}</title>".as_bytes()).is_none());
}

#[test]
fn banners_are_built_from_the_answer() {
    let answer = b"HTTP/1.1 200 OK\r\nServer: Apache\r\n\r\n<title>It works</title>";
    assert_eq!(
        http_banner_from_response(answer),
        Some(Some("HTTP Title: \"It works\" | Server: Apache".to_string()))
    );
    assert_eq!(http_banner_from_response(b"HTTP/1.1 204 No Content\r\n\r\n"), Some(None));
}

#[test]
fn an_ascii_answer_always_gives_a_banner() {
    let answers: [&[u8]; 4] = [
        b"",
        b"Server:",
        b"HTTP/1.0 200 OK\r\nserver: x\r\n\r\n<title></title><title>t</title>",
        b"</title>junk<title>   </title>\nSERVER:\tApache",
    ];
    for answer in answers {
        assert!(http_banner_from_response(answer).is_some());
    }
}
