use lanpaste::i18n::{
    locale_for_system, normalize_pref, resolve, resolve_with, same_keys, t, LocaleId,
};

#[test]
fn resolve_pref() {
    assert_eq!(resolve("en-US"), LocaleId::EnUs);
    assert_eq!(resolve("zh-CN"), LocaleId::ZhCn);
    assert_eq!(normalize_pref("de-DE"), "system");
}

#[test]
fn system_locale_rules() {
    assert_eq!(locale_for_system(Some("zh-Hans-CN")), LocaleId::ZhCn);
    assert_eq!(locale_for_system(Some("ZH_tw")), LocaleId::ZhCn);
    assert_eq!(locale_for_system(Some("en-GB")), LocaleId::EnUs);
    assert_eq!(locale_for_system(None), LocaleId::EnUs);
    assert_eq!(resolve_with("system", Some("zh-CN")), LocaleId::ZhCn);
    assert_eq!(resolve_with("en-US", Some("zh-CN")), LocaleId::EnUs);
    assert_eq!(normalize_pref("zh-CN"), "zh-CN");
    assert_eq!(normalize_pref("system"), "system");
    assert_eq!(LocaleId::ZhCn.as_str(), "zh-CN");
}

fn cat(pairs: &[(&str, &str)]) -> Vec<(String, String)> {
    pairs.iter().map(|(k, v)| (k.to_string(), v.to_string())).collect()
}

#[test]
fn messages_fall_back_to_english_then_key() {
    let zh = cat(&[("type.image", "图片")]);
    let en = cat(&[("type.image", "Image"), ("tray.quit", "Quit")]);
    assert_eq!(t(&zh, &en, "type.image"), "图片");
    assert_eq!(t(&zh, &en, "tray.quit"), "Quit");
    assert_eq!(t(&zh, &en, "nope"), "nope");
    assert!(!same_keys(&zh, &en));
    assert!(same_keys(&en, &cat(&[("tray.quit", "退出"), ("type.image", "图片")])));
}
