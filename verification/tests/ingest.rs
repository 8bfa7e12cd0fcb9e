use lanpaste::clipboard::{
    normalize_captured, payload_from_items, CapturedItem, CapturedPasteboard, ItemBlob,
};
use lanpaste::image::INLINE_IMAGE_MAX;
use lanpaste::server::is_duplicate_of_latest;
use lanpaste::image::{
    apply_image_thumb, image_blob_name, image_dimensions_any, png_dimensions, sniff_image_mime,
    encode_thumb_data_url, make_image_thumb_data_url, apply_image_thumb_from_file,
    file_thumb_wanted, looks_like_image_name_on,
};
use lanpaste::ingest::{ingest_gate, new_pasteboard_row, plan_ingest, BlobRef};
use lanpaste::protocol::{SyncEntryBody, SyncItem};
use lanpaste::remote::{plan_remote_entry, received_image_bytes, RemoteBlob};
use lanpaste::types::{PasteType, Preview};

fn item(ty: PasteType) -> CapturedItem {
    CapturedItem {
        ty,
        text: None,
        html: None,
        rtf: None,
        url: None,
        color: None,
        image: None,
        file_path: None,
    }
}

fn cap_text(t: &str) -> CapturedItem {
    CapturedItem {
        text: Some(t.into()),
        ..item(PasteType::Text)
    }
}

fn png_bytes(w: u32, h: u32) -> Vec<u8> {
    let img = image::RgbImage::new(w, h);
    let mut buf = Vec::new();
    image::DynamicImage::ImageRgb8(img)
        .write_to(&mut std::io::Cursor::new(&mut buf), image::ImageFormat::Png)
        .unwrap();
    buf
}

const CHROMIUM_HTML: &str = r#"<meta charset="UTF-8"><span style="caret-color: rgb(0, 0, 0); color: rgb(0, 0, 0); font-style: normal;">管理修改账户信息</span>"#;

#[test]
fn chromium_wrapper_plans_as_text() {
    let captured = CapturedPasteboard {
        items: vec![
            CapturedItem {
                html: Some(CHROMIUM_HTML.into()),
                ..item(PasteType::Html)
            },
            cap_text("管理修改账户信息"),
        ],
    };
    let n = normalize_captured(&captured);
    let plan = plan_ingest(&n, &[None], "剪贴板", "图片", false);
    assert_eq!(plan.primary, PasteType::Text);
    assert_eq!(plan.title, "管理修改账户信息");
    assert_eq!(plan.items.len(), 1);
    assert_eq!(plan.items[0].item_type, "text");
    assert_eq!(plan.total_bytes, "管理修改账户信息".len() as u64);
    assert_eq!(plan.preview.text.as_deref(), Some("管理修改账户信息"));
}

#[test]
fn file_plan_keeps_name_despite_text_sidecar() {
    let captured = CapturedPasteboard {
        items: vec![
            CapturedItem {
                file_path: Some("/tmp/新增 文本文档.txt".into()),
                ..item(PasteType::File)
            },
            cap_text(r"C:\Users\me\Desktop\新增 文本文档.txt"),
        ],
    };
    let blobs = vec![
        Some(BlobRef {
            hash: "h1".into(),
            size: 5,
        }),
        None,
    ];
    let plan = plan_ingest(&captured, &blobs, "Clipboard", "Image", false);
    assert_eq!(plan.primary, PasteType::File);
    assert_eq!(plan.title, "新增 文本文档.txt");
    assert_eq!(plan.preview.file_name.as_deref(), Some("新增 文本文档.txt"));
    assert_eq!(plan.preview.file_size, Some(5));
    assert!(plan.preview.text.is_none());
    assert_eq!(plan.items[0].blob_hash.as_deref(), Some("h1"));
    assert_eq!(plan.items[0].download_token.as_ref().map(|t| t.len()), Some(32));
    assert_eq!(plan.items[0].pasteboard_id, plan.id);
    assert_eq!(plan.items[1].sort_order, 1);
    assert!(plan.items[1].download_token.is_none());
    assert_eq!(plan.total_bytes, 5 + r"C:\Users\me\Desktop\新增 文本文档.txt".len() as u64);
}

#[test]
fn image_plan_uses_image_title_and_size() {
    let png = png_bytes(16, 12);
    let captured = CapturedPasteboard {
        items: vec![CapturedItem {
            image: Some(png.clone()),
            ..item(PasteType::Image)
        }],
    };
    let plan = plan_ingest(
        &captured,
        &[Some(BlobRef {
            hash: "ih".into(),
            size: png.len() as u64,
        })],
        "Clipboard",
        "Image", false,
    );
    assert_eq!(plan.title, "Image");
    assert_eq!(plan.items[0].width, Some(16));
    assert_eq!(plan.items[0].height, Some(12));
    assert_eq!(plan.total_bytes, png.len() as u64);
}

#[test]
fn generic_title_when_nothing_names_it() {
    let captured = CapturedPasteboard {
        items: vec![CapturedItem {
            rtf: Some(br"{\rtf1 {\pict 0102}}".to_vec()),
            ..item(PasteType::Rtf)
        }],
    };
    let plan = plan_ingest(&captured, &[], "Clipboard", "Image", false);
    assert_eq!(plan.primary, PasteType::Rtf);
    assert_eq!(plan.title, "RTF");
    let colored = CapturedPasteboard {
        items: vec![CapturedItem {
            color: Some("#ff00aa".into()),
            ..item(PasteType::Color)
        }],
    };
    assert_eq!(plan_ingest(&colored, &[], "Clipboard", "Image", false).title, "#ff00aa");
    let nothing = CapturedPasteboard {
        items: vec![item(PasteType::Url)],
    };
    assert_eq!(plan_ingest(&nothing, &[], "Clipboard", "Image", false).title, "Clipboard");
}

#[test]
fn image_sniffing() {
    let png = png_bytes(8, 8);
    assert_eq!(png_dimensions(&png), Some((8, 8)));
    assert_eq!(png_dimensions(b"short"), None);
    assert_eq!(image_dimensions_any(&png), Some((8, 8)));
    assert_eq!(sniff_image_mime(&png), "image/png");
    assert_eq!(sniff_image_mime(&[0xFF, 0xD8, 0xFF, 0]), "image/jpeg");
    assert_eq!(sniff_image_mime(b"GIF89a..."), "image/gif");
    assert_eq!(sniff_image_mime(b"BM.."), "image/bmp");
    assert_eq!(sniff_image_mime(b"RIFF\0\0\0\0WEBPVP8 "), "image/webp");
    assert_eq!(sniff_image_mime(b"hello"), "image/png");
    assert_eq!(image_blob_name(b"II*\0rest"), "image.tiff");
    assert_eq!(image_blob_name(&[0xFF, 0xD8, 0xFF]), "image.jpg");
    assert_eq!(image_blob_name(b"??"), "image.png");
}

#[test]
fn thumbnails_are_data_urls() {
    let png = png_bytes(16, 16);
    let mut p = Preview::empty();
    apply_image_thumb(&mut p, &png);
    assert_eq!(p.width, Some(16));
    assert_eq!(p.height, Some(16));
    assert!(p.image_thumb.unwrap().starts_with("data:image/"));
    let mut q = Preview::empty();
    q.path = Some("/blob".into());
    apply_image_thumb(&mut q, b"not an image");
    assert_eq!(q.image_thumb.as_deref(), Some("data:image/png;base64,bm90IGFuIGltYWdl"));
}

#[test]
fn received_entry_is_planned() {
    let png = png_bytes(4, 3);
    let body = SyncEntryBody {
        id: "p1".into(),
        copied_at: 5,
        source_device_id: "dev".into(),
        source_device_name: "Dev".into(),
        primary_type: "file".into(),
        title: "a.bin".into(),
        total_bytes: 10,
        content_hash: "abc".into(),
        items: vec![
            SyncItem {
                id: "f".into(),
                item_type: "file".into(),
                file_name: Some("a.bin".into()),
                file_size: Some(10),
                download_token: Some("tok".into()),
                ..Default::default()
            },
            SyncItem {
                id: "t".into(),
                item_type: "text".into(),
                text: Some("path".into()),
                ..Default::default()
            },
            SyncItem {
                id: "i".into(),
                item_type: "image".into(),
                image_b64: Some(base64::Engine::encode(
                    &base64::engine::general_purpose::STANDARD,
                    &png,
                )),
                ..Default::default()
            },
        ],
    };
    let bytes = received_image_bytes(&body.items[2]).unwrap();
    assert_eq!(bytes, png);
    let plan = plan_remote_entry(
        &body,
        &[
            None,
            None,
            Some(RemoteBlob {
                hash: "ih".into(),
                bytes,
            }),
        ],
        Some("10.0.0.5".into()),
        Some(4000),
    );
    assert!(plan.entry.needs_file_download);
    assert_eq!(plan.entry.download_token.as_deref(), Some("tok"));
    assert_eq!(plan.entry.content_hash, "abc");
    assert_eq!(plan.preview.file_name.as_deref(), Some("a.bin"));
    assert!(plan.preview.text.is_none());
    assert_eq!(plan.items[2].blob_hash.as_deref(), Some("ih"));
    assert_eq!(plan.items[2].width, Some(4));
    assert_eq!(plan.items[2].height, Some(3));
    assert_eq!(plan.items[1].sort_order, 1);
    assert_eq!(plan.entry.source_port, Some(4000));
}

fn cap_html(h: &str) -> CapturedItem {
    CapturedItem {
        html: Some(h.into()),
        ..item(PasteType::Html)
    }
}

fn cap_rtf(r: &str) -> CapturedItem {
    CapturedItem {
        rtf: Some(r.as_bytes().to_vec()),
        ..item(PasteType::Rtf)
    }
}

fn no_blobs(n: usize) -> Vec<ItemBlob> {
    (0..n).map(|_| ItemBlob { image: None, file_path: None }).collect()
}

fn noisy_png(w: u32, h: u32) -> Vec<u8> {
    let mut img = image::RgbImage::new(w, h);
    for (x, y, p) in img.enumerate_pixels_mut() {
        let n = x.wrapping_mul(1_103_515_245).wrapping_add(y.wrapping_mul(12_345));
        *p = image::Rgb([(n >> 16) as u8, (n >> 8) as u8, n as u8]);
    }
    let mut buf = Vec::new();
    image::DynamicImage::ImageRgb8(img)
        .write_to(&mut std::io::Cursor::new(&mut buf), image::ImageFormat::Png)
        .unwrap();
    buf
}

const COCOA_RTF: &str = r#"{\rtf1\ansi\ansicpg1252\cocoartf2822
{\fonttbl\f0\fnil\fcharset0 HelveticaNeue;}
{\colortbl;\red255\green255\blue255;\red0\green0\blue0;}
\pard\tx560\pardirnatural\partightenfactor0

\f0\fs28 \cf2 hello world}"#;

const UNICODE_RTF: &str = r#"{\rtf1\ansi\ansicpg936\cocoartf2822
{\fonttbl\f0\fnil\fcharset134 PingFangSC-Regular;}
{\colortbl;\red255\green255\blue255;}
\pard\tx560\pardirnatural\partightenfactor0

\f0\fs28 \cf0 \u31649?\u29702?\u20462?\u25913?\u36134?\u25143?\u20449?\u24687?}"#;

#[test]
fn chromium_wrapper_ingest_as_text() {
    let n = normalize_captured(&CapturedPasteboard {
        items: vec![cap_html(CHROMIUM_HTML), cap_text("管理修改账户信息")],
    });
    let plan = plan_ingest(&n, &[], "剪贴板", "图片", false);
    assert_eq!(plan.primary, PasteType::Text);
    assert_eq!(plan.title, "管理修改账户信息");
    let payload = payload_from_items(&plan.items, &no_blobs(plan.items.len()));
    assert_eq!(payload.text.as_deref(), Some("管理修改账户信息"));
    assert!(payload.html.is_none());
}

#[test]
fn chromium_html_only_becomes_text() {
    let n = normalize_captured(&CapturedPasteboard {
        items: vec![cap_html(CHROMIUM_HTML)],
    });
    let plan = plan_ingest(&n, &[], "剪贴板", "图片", false);
    assert_eq!(plan.primary, PasteType::Text);
    assert_eq!(plan.title, "管理修改账户信息");
}

#[test]
fn linked_html_stays_html_with_text_title() {
    let html = r#"see <a href="https://example.com">here</a>"#;
    let n = normalize_captured(&CapturedPasteboard {
        items: vec![cap_html(html), cap_text("see here")],
    });
    let plan = plan_ingest(&n, &[], "剪贴板", "图片", false);
    assert_eq!(plan.primary, PasteType::Html);
    assert_eq!(plan.title, "see here");
    let payload = payload_from_items(&plan.items, &no_blobs(plan.items.len()));
    assert_eq!(payload.html.as_deref(), Some(html));
    assert_eq!(payload.text.as_deref(), Some("see here"));
}

#[test]
fn rtf_wrapper_with_text_ingest_as_text() {
    let n = normalize_captured(&CapturedPasteboard {
        items: vec![cap_html(CHROMIUM_HTML), cap_rtf(UNICODE_RTF), cap_text("管理修改账户信息")],
    });
    let plan = plan_ingest(&n, &[], "剪贴板", "图片", false);
    assert_eq!(plan.primary, PasteType::Text);
    assert_eq!(plan.title, "管理修改账户信息");
    let payload = payload_from_items(&plan.items, &no_blobs(plan.items.len()));
    assert_eq!(payload.text.as_deref(), Some("管理修改账户信息"));
    assert!(payload.html.is_none());
    assert!(payload.rtf.is_none());
}

#[test]
fn rtf_only_wrapper_becomes_text() {
    let n = normalize_captured(&CapturedPasteboard {
        items: vec![cap_rtf(COCOA_RTF)],
    });
    let plan = plan_ingest(&n, &[], "剪贴板", "图片", false);
    assert_eq!(plan.primary, PasteType::Text);
    assert_eq!(plan.title, "hello world");
}

#[test]
fn ingest_skips_consecutive_duplicate_hash() {
    let captured = CapturedPasteboard {
        items: vec![cap_text("hello echo")],
    };
    let hash = captured.content_hash(&[]);
    assert!(!is_duplicate_of_latest(&None, &hash));
    assert!(is_duplicate_of_latest(&Some(hash.clone()), &captured.content_hash(&[])));
}

#[test]
fn ingest_skips_when_latest_is_remote_with_same_hash() {
    let captured = CapturedPasteboard {
        items: vec![cap_text("sync echo")],
    };
    let remote_hash = captured.content_hash(&[]);
    assert!(is_duplicate_of_latest(&Some(remote_hash), &captured.content_hash(&[])));
    let other = CapturedPasteboard {
        items: vec![cap_text("something else")],
    };
    assert!(!is_duplicate_of_latest(&Some(other.content_hash(&[])), &captured.content_hash(&[])));
}

#[test]
fn file_ingest_keeps_name_despite_text_sidecar() {
    let captured = CapturedPasteboard {
        items: vec![
            CapturedItem {
                file_path: Some("/tmp/新增 文本文档.txt".into()),
                ..item(PasteType::File)
            },
            cap_text(r"C:\Users\me\Desktop\新增 文本文档.txt"),
        ],
    };
    let n = normalize_captured(&captured);
    let blobs = vec![Some(BlobRef { hash: "h".into(), size: 5 }), None];
    let plan = plan_ingest(&n, &blobs, "剪贴板", "图片", false);
    assert_eq!(plan.primary.as_str(), "file");
    assert_eq!(plan.title, "新增 文本文档.txt");
    assert_eq!(plan.preview.file_name.as_deref(), Some("新增 文本文档.txt"));
    assert!(plan.preview.text.is_none());
    let payload = payload_from_items(
        &plan.items,
        &[
            ItemBlob { image: None, file_path: Some("/blobs/named/h/新增 文本文档.txt".into()) },
            ItemBlob { image: None, file_path: None },
        ],
    );
    assert!(payload.file_paths[0].ends_with("新增 文本文档.txt"));
    assert!(payload.text.is_none());
}

#[test]
fn image_ingest_stores_data_url_thumb() {
    let small = png_bytes(16, 16);
    let captured = CapturedPasteboard {
        items: vec![CapturedItem { image: Some(small.clone()), ..item(PasteType::Image) }],
    };
    let plan = plan_ingest(&captured, &[Some(BlobRef { hash: "i".into(), size: small.len() as u64 })], "剪贴板", "图片", false);
    let mut preview = plan.preview.clone();
    preview.path = Some("/blobs/named/i/image.png".into());
    apply_image_thumb(&mut preview, &small);
    let thumb = preview.image_thumb.expect("thumb");
    assert!(thumb.starts_with("data:image/"));
    assert_eq!(preview.width, Some(16));
    assert_eq!(preview.height, Some(16));
    assert!(preview.path.is_some());
}

#[test]
fn large_image_still_gets_compact_thumb() {
    let large = noisy_png(512, 512);
    assert!(large.len() > INLINE_IMAGE_MAX, "fixture too small: {}", large.len());
    let mut preview = Preview::empty();
    apply_image_thumb(&mut preview, &large);
    let thumb = preview.image_thumb.expect("thumb");
    assert!(thumb.starts_with("data:image/"));
    assert!(thumb.len() < INLINE_IMAGE_MAX);
}

#[test]
fn plain_file_ingest_has_no_image_thumb() {
    let captured = CapturedPasteboard {
        items: vec![CapturedItem { file_path: Some("/tmp/notes.txt".into()), ..item(PasteType::File) }],
    };
    let plan = plan_ingest(&captured, &[Some(BlobRef { hash: "n".into(), size: 5 })], "剪贴板", "图片", false);
    assert_eq!(plan.primary, PasteType::File);
    assert!(plan.preview.image_thumb.is_none());
    assert!(plan.preview.width.is_none());
}

#[test]
fn image_file_ingest_keeps_file_type_and_gets_thumb() {
    let png = png_bytes(32, 24);
    let captured = CapturedPasteboard {
        items: vec![
            CapturedItem { file_path: Some("/tmp/截图.png".into()), ..item(PasteType::File) },
            cap_text("/tmp/截图.png"),
        ],
    };
    let n = normalize_captured(&captured);
    let plan = plan_ingest(&n, &[Some(BlobRef { hash: "p".into(), size: png.len() as u64 }), None], "剪贴板", "图片", false);
    assert_eq!(plan.primary, PasteType::File);
    assert_eq!(plan.title, "截图.png");
    assert_eq!(plan.preview.file_name.as_deref(), Some("截图.png"));
    let mut preview = plan.preview.clone();
    apply_image_thumb(&mut preview, &png);
    assert!(preview.image_thumb.expect("thumb").starts_with("data:image/"));
    assert_eq!(preview.width, Some(32));
    assert_eq!(preview.height, Some(24));
    let mut blobs = vec![ItemBlob { image: None, file_path: Some("/blobs/named/p/截图.png".into()) }];
    blobs.extend(no_blobs(plan.items.len() - 1));
    let payload = payload_from_items(&plan.items, &blobs);
    assert!(payload.file_paths[0].ends_with("截图.png"));
    assert!(payload.image_png.is_none());
}

#[test]
fn encode_thumb_data_url_picks_type_by_alpha() {
    let png = Some(vec![1, 2, 3]);
    let jpeg = Some(vec![4, 5, 6]);
    assert_eq!(encode_thumb_data_url(true, png.clone(), jpeg.clone()).as_deref(), Some("data:image/png;base64,AQID"));
    assert_eq!(encode_thumb_data_url(false, png.clone(), jpeg.clone()).as_deref(), Some("data:image/jpeg;base64,BAUG"));
    assert_eq!(encode_thumb_data_url(false, png.clone(), Some(Vec::new())).as_deref(), Some("data:image/jpeg;base64,"));
    assert_eq!(encode_thumb_data_url(true, None, jpeg.clone()), None);
    assert_eq!(encode_thumb_data_url(false, png, None), None);
}

#[test]
fn thumbnail_of_non_image_is_none() {
    assert_eq!(make_image_thumb_data_url(b"not an image"), None);
    assert_eq!(make_image_thumb_data_url(b""), None);
}

fn is_uuid(s: &str) -> bool {
    s.len() == 36
        && s.chars().enumerate().all(|(k, c)| {
            if [8, 13, 18, 23].contains(&k) {
                c == '-'
            } else {
                c.is_ascii_digit() || ('a'..='f').contains(&c)
            }
        })
}

#[test]
fn windows_file_copy_is_named_by_its_last_component() {
    let captured = CapturedPasteboard {
        items: vec![CapturedItem { file_path: Some("C:\\d\\a.txt".into()), ..item(PasteType::File) }],
    };
    let plan = plan_ingest(&captured, &[Some(BlobRef { hash: "h".into(), size: 3 })], "Clipboard", "Image", true);
    assert_eq!(plan.title, "a.txt");
    assert_eq!(plan.items[0].file_name.as_deref(), Some("a.txt"));
    assert!(is_uuid(&plan.id));
    assert!(plan.items.iter().all(|it| is_uuid(&it.id) && it.pasteboard_id == plan.id));
}

#[test]
fn ingest_gate_skips_empty_and_consecutive_duplicates() {
    let captured = CapturedPasteboard { items: vec![cap_text("same")] };
    let first = ingest_gate(&captured, &[None], &None).expect("new entry");
    assert_eq!(first, captured.content_hash(&[None]));
    assert_eq!(first.len(), 64);
    assert_eq!(ingest_gate(&captured, &[None], &Some(first.clone())), None);
    let other = CapturedPasteboard { items: vec![cap_text("other")] };
    assert!(ingest_gate(&other, &[None], &Some(first.clone())).is_some());
    let empty = CapturedPasteboard { items: vec![] };
    assert_eq!(ingest_gate(&empty, &[], &None), None);
}

#[test]
fn new_pasteboard_row_records_plan_and_hash() {
    let captured = CapturedPasteboard { items: vec![cap_text("hello")] };
    let plan = plan_ingest(&captured, &[None], "Clipboard", "Image", false);
    let hash = captured.content_hash(&[None]);
    let row = new_pasteboard_row(&plan, &hash, 42, "dev-1", "Laptop", "{}".into());
    assert_eq!(row.id, plan.id);
    assert_eq!(row.copied_at, 42);
    assert_eq!(row.source_device_id.as_deref(), Some("dev-1"));
    assert_eq!(row.source_device_name, "Laptop");
    assert_eq!(row.primary_type, "text");
    assert_eq!(row.title, "hello");
    assert_eq!(row.content_hash, hash);
    assert_eq!(row.total_bytes, 5);
    assert!(!row.needs_file_download);
    assert_eq!(row.file_download_state, "idle");
    assert_eq!(row.preview_json, "{}");
}

#[test]
fn file_thumbnail_uses_decoded_image_or_path() {
    let png = png_bytes(30, 20);
    let mut p = Preview::empty();
    p.path = Some("/blobs/x.png".into());
    apply_image_thumb_from_file(&mut p, png.len() as u64, &png, true);
    assert_eq!(p.width, Some(30));
    assert_eq!(p.height, Some(20));
    assert!(p.image_thumb.as_deref().unwrap().starts_with("data:image/jpeg;base64,"));

    let mut q = Preview::empty();
    q.path = Some("/blobs/y.png".into());
    apply_image_thumb_from_file(&mut q, 5, b"junk!", true);
    assert_eq!(q.image_thumb.as_deref(), Some("/blobs/y.png"));
    assert_eq!(q.width, None);

    let mut r = Preview::empty();
    r.path = Some("/blobs/z.bin".into());
    apply_image_thumb_from_file(&mut r, 5, b"junk!", false);
    assert_eq!(r.image_thumb, None);

    let mut e = Preview::empty();
    e.path = Some("/blobs/e.png".into());
    apply_image_thumb_from_file(&mut e, 0, b"", true);
    assert_eq!(e.image_thumb, None);
    assert!(!file_thumb_wanted(0));
    assert!(file_thumb_wanted(1));
    assert!(!file_thumb_wanted(40 * 1024 * 1024 + 1));
}

#[test]
fn image_names_follow_each_platforms_path_rules() {
    assert!(looks_like_image_name_on("C:\\pics\\a.PNG", true));
    assert!(looks_like_image_name_on("a.b\\c.png", false));
    assert!(!looks_like_image_name_on("x.png\\readme", true));
    assert!(!looks_like_image_name_on("x.png\\readme", false));
}
