use lanpaste::clipboard::{
    file_url_target, html_title, normalize_captured, parse_color, pasteboard_has_file,
    payload_from_items, truncate_title, CapturedItem, CapturedPasteboard, FileTarget, ItemBlob,
};
use lanpaste::html::{html_has_rich_markup, html_is_plain_wrapper, html_visible_text, normalize_visible};
use lanpaste::image::{looks_like_image_magic, looks_like_image_name};
use lanpaste::rtf::{rtf_has_rich_markup, rtf_visible_text};
use lanpaste::store::StoredItem;
use lanpaste::types::{primary_type, PasteType};

fn item(ty: PasteType) -> CapturedItem {
    CapturedItem {
        ty,
        text: None,
        html: None,
        rtf: None,
        url: None,
        color: None,
        image: None,
        file_path: None,
    }
}

fn cap_text(text: &str) -> CapturedItem {
    CapturedItem {
        text: Some(text.into()),
        ..item(PasteType::Text)
    }
}

fn cap_html(html: &str) -> CapturedItem {
    CapturedItem {
        html: Some(html.into()),
        ..item(PasteType::Html)
    }
}

fn cap_rtf(rtf: &str) -> CapturedItem {
    CapturedItem {
        rtf: Some(rtf.as_bytes().to_vec()),
        ..item(PasteType::Rtf)
    }
}

fn png_bytes(w: u32, h: u32) -> Vec<u8> {
    let mut img = image::RgbImage::new(w, h);
    for (x, y, p) in img.enumerate_pixels_mut() {
        *p = image::Rgb([(x % 256) as u8, (y % 256) as u8, 80]);
    }
    let mut buf = Vec::new();
    image::DynamicImage::ImageRgb8(img)
        .write_to(&mut std::io::Cursor::new(&mut buf), image::ImageFormat::Png)
        .unwrap();
    buf
}

const CHROMIUM_HTML: &str = r#"<meta charset="UTF-8"><span style="caret-color: rgb(0, 0, 0); color: rgb(0, 0, 0); font-style: normal;">管理修改账户信息</span>"#;

const COCOA_RTF: &str = r#"{\rtf1\ansi\ansicpg1252\cocoartf2822
{\fonttbl\f0\fnil\fcharset0 HelveticaNeue;}
{\colortbl;\red255\green255\blue255;\red0\green0\blue0;}
\pard\tx560\pardirnatural\partightenfactor0

\f0\fs28 \cf2 hello world}"#;

const UNICODE_RTF: &str = r#"{\rtf1\ansi\ansicpg936\cocoartf2822
{\fonttbl\f0\fnil\fcharset134 PingFangSC-Regular;}
{\colortbl;\red255\green255\blue255;}
\pard\tx560\pardirnatural\partightenfactor0

\f0\fs28 \cf0 \u31649?\u29702?\u20462?\u25913?\u36134?\u25143?\u20449?\u24687?}"#;

#[test]
fn color_from_text() {
    assert_eq!(parse_color("#abc"), Some("#abc".into()));
    assert_eq!(parse_color("#AABBCC"), Some("#aabbcc".into()));
    assert_eq!(parse_color("  #ff00aa  "), Some("#ff00aa".into()));
    assert_eq!(parse_color("#ggg"), None);
    assert_eq!(parse_color("red"), None);
    assert_eq!(parse_color("#ffff"), None);
}

#[test]
fn primary_type_from_captured() {
    let cap = CapturedPasteboard {
        items: vec![
            CapturedItem {
                ty: PasteType::Text,
                text: Some("hi".into()),
                html: None,
                rtf: None,
                url: None,
                color: None,
                image: None,
                file_path: None,
            },
            CapturedItem {
                ty: PasteType::Html,
                html: Some("<b>hi</b>".into()),
                text: None,
                rtf: None,
                url: None,
                color: None,
                image: None,
                file_path: None,
            },
        ],
    };
    assert_eq!(primary_type(&cap.types()), PasteType::Html);
}

#[test]
fn dedup_hash_stable() {
    let a = CapturedPasteboard {
        items: vec![CapturedItem {
            ty: PasteType::Text,
            text: Some("same".into()),
            html: None,
            rtf: None,
            url: None,
            color: None,
            image: None,
            file_path: None,
        }],
    };
    let b = a.clone();
    assert_eq!(a.content_hash(&[]), b.content_hash(&[]));
}

#[test]
fn file_pasteboard_skips_image_sidecar() {
    let items = vec![CapturedItem {
        ty: PasteType::File,
        text: None,
        html: None,
        rtf: None,
        url: None,
        color: None,
        image: None,
        file_path: Some("/tmp/a.bin".into()),
    }];
    assert!(pasteboard_has_file(&items));
    let empty: Vec<CapturedItem> = Vec::new();
    assert!(!pasteboard_has_file(&empty));
}

#[test]
fn looks_like_image_name_matches_common_exts() {
    assert!(looks_like_image_name("a.PNG"));
    assert!(looks_like_image_name("photo.jpeg"));
    assert!(looks_like_image_name("x.webp"));
    assert!(!looks_like_image_name("notes.txt"));
    assert!(!looks_like_image_name("archive.tar.gz"));
    assert!(looks_like_image_magic(&png_bytes(8, 8)));
    assert!(!looks_like_image_magic(b"hello"));
}

#[test]
fn chromium_wrapper_visible_text() {
    assert_eq!(html_visible_text(CHROMIUM_HTML).trim(), "管理修改账户信息");
    assert!(html_is_plain_wrapper(CHROMIUM_HTML, "管理修改账户信息"));
    assert!(!html_has_rich_markup(CHROMIUM_HTML));
}

#[test]
fn vscode_highlighted_copy_is_text() {
    let html = r#"<meta charset="utf-8"><div style="color: #d4d4d4;font-family: Consolas"><span style="color: #569cd6;">fn</span><span> main() {}</span></div>"#;
    assert!(html_is_plain_wrapper(html, "fn main() {}"));
    let n = normalize_captured(&CapturedPasteboard {
        items: vec![cap_html(html), cap_text("fn main() {}")],
    });
    assert!(n.items.iter().all(|i| i.ty != PasteType::Html));
    assert_eq!(primary_type(&n.types()), PasteType::Text);
}

#[test]
fn cocoa_rtf_visible_text() {
    assert_eq!(
        normalize_visible(&rtf_visible_text(COCOA_RTF.as_bytes())),
        "hello world"
    );
    assert_eq!(
        normalize_visible(&rtf_visible_text(UNICODE_RTF.as_bytes())),
        "管理修改账户信息"
    );
    assert!(!rtf_has_rich_markup(COCOA_RTF.as_bytes()));
}

#[test]
fn rtf_with_picture_stays_rtf() {
    let rtf = r#"{\rtf1\ansi{\fonttbl\f0\fnil Helvetica;}{\pict\pngblip 89504e47}hello}"#;
    assert!(rtf_has_rich_markup(rtf.as_bytes()));
    let n = normalize_captured(&CapturedPasteboard {
        items: vec![cap_rtf(rtf), cap_text("hello")],
    });
    assert!(n.items.iter().any(|i| i.ty == PasteType::Rtf));
    assert_eq!(primary_type(&n.types()), PasteType::Rtf);
}

#[test]
fn chromium_html_only_normalizes_to_text() {
    let n = normalize_captured(&CapturedPasteboard {
        items: vec![cap_html(CHROMIUM_HTML)],
    });
    assert_eq!(n.items.len(), 1);
    assert_eq!(n.items[0].ty, PasteType::Text);
    assert_eq!(n.items[0].text.as_deref().map(str::trim), Some("管理修改账户信息"));
}

#[test]
fn rtf_only_wrapper_normalizes_to_text() {
    let n = normalize_captured(&CapturedPasteboard {
        items: vec![cap_rtf(COCOA_RTF)],
    });
    assert_eq!(n.items.len(), 1);
    assert_eq!(n.items[0].ty, PasteType::Text);
    assert_eq!(
        n.items[0].text.as_deref().map(normalize_visible).as_deref(),
        Some("hello world")
    );
}

#[test]
fn linked_html_is_kept() {
    let html = r#"see <a href="https://example.com">here</a>"#;
    assert!(html_has_rich_markup(html));
    let n = normalize_captured(&CapturedPasteboard {
        items: vec![cap_html(html), cap_text("see here")],
    });
    assert_eq!(n.items.len(), 2);
    assert_eq!(primary_type(&n.types()), PasteType::Html);
    assert_eq!(html_title(html, Some("see here")), "see here");
}

#[test]
fn titles_take_first_line_and_cut() {
    assert_eq!(truncate_title("  hello\nworld ", 80), "hello");
    assert_eq!(truncate_title("abcdef", 3), "abc…");
    assert_eq!(truncate_title("a\r\nb", 80), "a");
    assert_eq!(html_title("<b>bold</b>", None), "bold");
    assert_eq!(html_title("<br>", Some("   ")), "<br>");
}

#[test]
fn content_hash_differs_by_content_and_kind() {
    let a = CapturedPasteboard { items: vec![cap_text("one")] };
    let b = CapturedPasteboard { items: vec![cap_text("two")] };
    let c = CapturedPasteboard {
        items: vec![CapturedItem {
            url: Some("one".into()),
            ..item(PasteType::Url)
        }],
    };
    assert_ne!(a.content_hash(&[]), b.content_hash(&[]));
    assert_ne!(a.content_hash(&[]), c.content_hash(&[]));
    let parts = a.hash_parts(&[]);
    assert_eq!(parts, vec![("text".to_string(), b"one".to_vec())]);
}

#[test]
fn file_hash_part_uses_contents_or_path() {
    let f = CapturedPasteboard {
        items: vec![CapturedItem {
            file_path: Some("/tmp/x.txt".into()),
            ..item(PasteType::File)
        }],
    };
    let by_path = f.hash_parts(&[None]);
    assert_eq!(by_path[0].1, b"/tmp/x.txt".to_vec());
    let by_content = f.hash_parts(&[Some(b"hello".to_vec())]);
    assert_eq!(by_content[0].1.len(), 32);
    assert_ne!(by_content[0].1, by_path[0].1);
}

fn stored(id: &str, ty: &str) -> StoredItem {
    StoredItem {
        id: id.into(),
        pasteboard_id: "p1".into(),
        sort_order: 0,
        item_type: ty.into(),
        text_content: None,
        html_content: None,
        rtf_b64: None,
        url: None,
        color: None,
        blob_hash: None,
        file_name: None,
        file_size: None,
        width: None,
        height: None,
        download_token: None,
    }
}

#[test]
fn payload_keeps_first_text_and_files_only() {
    let mut t1 = stored("a", "text");
    t1.text_content = Some("first".into());
    let mut t2 = stored("b", "text");
    t2.text_content = Some("second".into());
    let mut h = stored("c", "html");
    h.html_content = Some("<b>x</b>".into());
    let none = || ItemBlob {
        image: None,
        file_path: None,
    };
    let p = payload_from_items(&[t1.clone(), t2.clone(), h.clone()], &[none(), none(), none()]);
    assert_eq!(p.text.as_deref(), Some("first"));
    assert_eq!(p.html.as_deref(), Some("<b>x</b>"));
    assert!(!p.is_empty());

    let mut f = stored("d", "file");
    f.blob_hash = Some("hash".into());
    let p = payload_from_items(
        &[t1, f],
        &[
            none(),
            ItemBlob {
                image: None,
                file_path: Some("/blobs/named/hash/a.txt".into()),
            },
        ],
    );
    assert_eq!(p.file_paths, vec!["/blobs/named/hash/a.txt".to_string()]);
    assert!(p.text.is_none());

    let mut r = stored("e", "rtf");
    r.rtf_b64 = Some("e1xydGYxIGhpfQ==".into());
    let p = payload_from_items(&[r], &[]);
    assert_eq!(p.rtf.as_deref(), Some(&b"{\\rtf1 hi}"[..]));
    let empty = payload_from_items(&[], &[]);
    assert!(empty.is_empty());
}

fn url_path(s: &str) -> Option<Option<String>> {
    match file_url_target(s) {
        FileTarget::Url(p) => Some(p),
        FileTarget::Plain(_) => None,
    }
}

#[test]
fn file_urls_decode() {
    assert_eq!(url_path("  file:///Users/a%20b/x.txt \n"), Some(Some("/Users/a b/x.txt".to_string())));
    assert_eq!(url_path("file://localhost/tmp/%E6%96%87"), Some(Some("/tmp/文".to_string())));
    assert_eq!(url_path("file:///tmp/100%"), Some(Some("/tmp/100%".to_string())));
    assert_eq!(url_path("file:///%FF"), Some(None));
    match file_url_target("  /tmp/plain.txt ") {
        FileTarget::Plain(p) => assert_eq!(p, "/tmp/plain.txt"),
        FileTarget::Url(_) => panic!("not a URL"),
    }
}

#[test]
fn payload_text_is_first_that_has_one_and_last_html_url() {
    let none = || ItemBlob {
        image: None,
        file_path: None,
    };
    let empty_text = stored("a", "text");
    let mut col = stored("b", "color");
    col.color = Some("#ff0000".into());
    let mut t = stored("c", "text");
    t.text_content = Some("later".into());
    let mut h1 = stored("d", "html");
    h1.html_content = Some("<i>1</i>".into());
    let mut h2 = stored("e", "html");
    h2.html_content = Some("<i>2</i>".into());
    let mut u1 = stored("f", "url");
    u1.url = Some("https://a".into());
    let mut u2 = stored("g", "url");
    u2.url = Some("https://b".into());
    let items = [empty_text, col, t, h1, u1, h2, u2];
    let p = payload_from_items(&items, &[none(), none(), none(), none(), none(), none(), none()]);
    assert_eq!(p.text.as_deref(), Some("#ff0000"));
    assert_eq!(p.html.as_deref(), Some("<i>2</i>"));
    assert_eq!(p.url.as_deref(), Some("https://b"));
    assert!(p.file_paths.is_empty());

    let mut f1 = stored("h", "file");
    f1.blob_hash = Some("h1".into());
    let f_no_blob = stored("i", "file");
    let mut f2 = stored("j", "file");
    f2.blob_hash = Some("h2".into());
    let blob = |p: &str| ItemBlob {
        image: None,
        file_path: Some(p.into()),
    };
    let p = payload_from_items(&[f1, f_no_blob, f2], &[blob("/x/1"), blob("/x/2"), blob("/x/3")]);
    assert_eq!(p.file_paths, vec!["/x/1".to_string(), "/x/3".to_string()]);
    assert!(p.text.is_none() && p.html.is_none() && p.url.is_none());
}

#[test]
fn normalizing_keeps_other_items_in_order() {
    let items = vec![cap_text("one"), cap_text("two")];
    let n = normalize_captured(&CapturedPasteboard { items: items.clone() });
    assert_eq!(n.items.len(), 2);
    assert_eq!(n.items[0].text.as_deref(), Some("one"));
    assert_eq!(n.items[1].text.as_deref(), Some("two"));
}
