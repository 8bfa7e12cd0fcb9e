use lanpaste::clipboard::CapturedItem;
use lanpaste::native::{
    bytes_to_utf16_string, captured_from_mac, captured_from_windows, hdrop_bytes,
    html_clipboard_payload, looks_like_url, mac_write_plan, parse_html_format, utf16_bytes_nul,
    windows_write_formats, MacFormats, MacWrite, WinFormat, WindowsFormats,
};
use lanpaste::clipboard::WritePayload;
use lanpaste::types::PasteType;

fn kinds(items: &[CapturedItem]) -> Vec<PasteType> {
    items.iter().map(|i| i.ty).collect()
}

#[test]
fn utf16_text_round_trips() {
    let b = utf16_bytes_nul("Aé😀");
    assert_eq!(b, vec![0x41, 0, 0xE9, 0, 0x3D, 0xD8, 0x00, 0xDE, 0, 0]);
    assert_eq!(bytes_to_utf16_string(&b), "Aé😀");
    // A lone high surrogate becomes U+FFFD; reading stops at the first NUL.
    assert_eq!(bytes_to_utf16_string(&[0x3D, 0xD8, 0x41, 0, 0, 0, 0x42, 0]), "\u{FFFD}A");
    // A trailing odd byte is ignored.
    assert_eq!(bytes_to_utf16_string(&[0x41, 0, 0x42]), "A");
    assert_eq!(bytes_to_utf16_string(&[]), "");
}

#[test]
fn html_format_envelope() {
    let p = html_clipboard_payload("<b>x</b>");
    let expected = "Version:0.9\r\nStartHTML:0000000105\r\nEndHTML:0000000185\r\nStartFragment:0000000141\r\nEndFragment:0000000149\r\n<html>\r\n<body>\r\n<!--StartFragment--><b>x</b><!--EndFragment-->\r\n</body>\r\n</html>\0";
    assert_eq!(p, expected.as_bytes().to_vec());
    assert_eq!(parse_html_format(&p).as_deref(), Some("<b>x</b>"));
    let p = html_clipboard_payload("<p>文字</p>");
    assert_eq!(parse_html_format(&p).as_deref(), Some("<p>文字</p>"));
}

#[test]
fn html_format_without_markers() {
    assert_eq!(parse_html_format(b"junk<html>abc\0\0").as_deref(), Some("<html>abc"));
    assert_eq!(parse_html_format(b"x<HTML>q").as_deref(), Some("<HTML>q"));
    assert_eq!(parse_html_format(b"no markup"), None);
    // Not UTF-8 as a whole: the part before the first NUL is read.
    assert_eq!(parse_html_format(b"<html>ok\0\xff").as_deref(), Some("<html>ok"));
    assert_eq!(parse_html_format(b"\xff\0<html>"), None);
    // An end marker before the start marker falls back to the document.
    assert_eq!(
        parse_html_format(b"<html><!--EndFragment--><!--StartFragment-->").as_deref(),
        Some("<html><!--EndFragment--><!--StartFragment-->")
    );
}

#[test]
fn drop_list_bytes() {
    let b = hdrop_bytes(&["C:\\a".to_string(), "b".to_string()]);
    let mut expected = vec![20u8, 0, 0, 0, 0, 0, 0, 0, 0, 0, 0, 0, 0, 0, 0, 0, 1, 0, 0, 0];
    expected.extend([b'C', 0, b':', 0, b'\\', 0, b'a', 0, 0, 0, b'b', 0, 0, 0, 0, 0]);
    assert_eq!(b, expected);
    assert_eq!(hdrop_bytes(&[]).len(), 22);
}

#[test]
fn url_detection() {
    assert!(looks_like_url("  https://example.com "));
    assert!(looks_like_url("http://x"));
    assert!(!looks_like_url("ftp://x"));
    assert!(!looks_like_url("see https://x"));
}

fn mac() -> MacFormats {
    MacFormats {
        skip_files: false,
        file_paths: vec![],
        html: None,
        rtf: None,
        png: None,
        tiff: None,
        url: None,
        text: None,
    }
}

#[test]
fn mac_copies() {
    assert!(captured_from_mac(&mac()).is_none());
    let mut f = mac();
    f.file_paths = vec!["/a".into(), "/b".into(), "/a".into()];
    f.png = Some(vec![1, 2]);
    f.text = Some("#ABC".into());
    f.url = Some("file:///a".into());
    let c = captured_from_mac(&f).unwrap();
    assert_eq!(kinds(&c.items), vec![PasteType::File, PasteType::File, PasteType::Color, PasteType::Text]);
    assert_eq!(c.items[1].file_path.as_deref(), Some("/b"));
    assert_eq!(c.items[2].color.as_deref(), Some("#abc"));
    assert_eq!(c.items[2].text.as_deref(), Some("#abc"));
    assert_eq!(c.items[3].text.as_deref(), Some("#ABC"));

    let mut f = mac();
    f.html = Some("<b>x</b>".into());
    f.rtf = Some(vec![]);
    f.png = Some(vec![]);
    f.tiff = Some(vec![9]);
    f.url = Some("https://e.x".into());
    let c = captured_from_mac(&f).unwrap();
    // An empty PNG hides the TIFF; empty RTF is dropped.
    assert_eq!(kinds(&c.items), vec![PasteType::Html, PasteType::Url]);

    let mut f = mac();
    f.skip_files = true;
    f.file_paths = vec!["/a".into()];
    f.tiff = Some(vec![9]);
    let c = captured_from_mac(&f).unwrap();
    assert_eq!(kinds(&c.items), vec![PasteType::Image]);
    assert_eq!(c.items[0].image.as_deref(), Some(&[9u8][..]));
}

#[test]
fn windows_copies() {
    let f = WindowsFormats {
        skip_files: false,
        file_paths: vec!["C:\\x.png".into()],
        png: Some(vec![1]),
        html_format: Some(html_clipboard_payload("<i>y</i>")),
        rtf: Some(b"{\\rtf1 y}".to_vec()),
        unicode_text: Some(utf16_bytes_nul(" https://a.b ")),
    };
    let c = captured_from_windows(&f).unwrap();
    assert_eq!(
        kinds(&c.items),
        vec![PasteType::File, PasteType::Html, PasteType::Rtf, PasteType::Url, PasteType::Text]
    );
    assert_eq!(c.items[1].html.as_deref(), Some("<i>y</i>"));
    assert_eq!(c.items[3].url.as_deref(), Some("https://a.b"));
    assert_eq!(c.items[4].text.as_deref(), Some(" https://a.b "));

    let f = WindowsFormats {
        skip_files: true,
        file_paths: vec!["C:\\x.png".into()],
        png: Some(vec![1]),
        html_format: None,
        rtf: None,
        unicode_text: Some(vec![0, 0]),
    };
    let c = captured_from_windows(&f).unwrap();
    assert_eq!(kinds(&c.items), vec![PasteType::Image]);
    let empty = WindowsFormats {
        skip_files: false,
        file_paths: vec![],
        png: None,
        html_format: None,
        rtf: None,
        unicode_text: None,
    };
    assert!(captured_from_windows(&empty).is_none());
}

fn payload() -> WritePayload {
    WritePayload {
        text: None,
        html: Some("<b>h</b>".into()),
        rtf: Some(vec![1]),
        url: Some("https://u".into()),
        image_png: Some(vec![2]),
        file_paths: vec![],
    }
}

#[test]
fn windows_writes() {
    let w = windows_write_formats(&payload());
    let kinds: Vec<WinFormat> = w.iter().map(|e| e.0).collect();
    assert_eq!(kinds, vec![WinFormat::Png, WinFormat::Html, WinFormat::Rtf, WinFormat::UnicodeText]);
    assert_eq!(w[1].1, html_clipboard_payload("<b>h</b>"));
    assert_eq!(w[3].1, utf16_bytes_nul("https://u"));
    let mut p = payload();
    p.file_paths = vec!["C:\\f".into()];
    p.text = Some("t".into());
    let w = windows_write_formats(&p);
    assert_eq!(w[0], (WinFormat::Hdrop, hdrop_bytes(&["C:\\f".to_string()])));
    assert_eq!(w.last().unwrap().1, utf16_bytes_nul("t"));
}

#[test]
fn mac_writes() {
    let w = mac_write_plan(&payload());
    let names: Vec<&str> = w
        .iter()
        .map(|e| match e {
            MacWrite::Files(_) => "files",
            MacWrite::Png(_) => "png",
            MacWrite::Html(_) => "html",
            MacWrite::Rtf(_) => "rtf",
            MacWrite::Url(_) => "url",
            MacWrite::Text(_) => "text",
        })
        .collect();
    assert_eq!(names, vec!["png", "html", "rtf", "url", "text"]);
    match &w[4] {
        MacWrite::Text(t) => assert_eq!(t, "https://u"),
        other => panic!("unexpected {other:?}"),
    }
    let mut p = payload();
    p.text = Some("t".into());
    let w = mac_write_plan(&p);
    assert_eq!(w.len(), 5);
}
