//! The interface language: which locale a preference stands for, and
//! looking up a message in the catalogues.

use vstd::prelude::*;
use crate::text::{lower_chars, lower_seq, matches_at, matches_at_exec, str_chars, str_eq};

verus! {

/// A language the interface is translated into.
#[derive(Clone, Copy, Debug, PartialEq, Eq, Structural)]
pub enum LocaleId {
    EnUs,
    ZhCn,
}

impl LocaleId {
    pub open spec fn tag(self) -> Seq<char> {
        match self {
            LocaleId::EnUs => "en-US"@,
            LocaleId::ZhCn => "zh-CN"@,
        }
    }

    /// The BCP 47 tag of the locale.
    pub fn as_str(self) -> (r: &'static str)
        ensures
            r@ == self.tag(),
    {
        match self {
            LocaleId::EnUs => "en-US",
            LocaleId::ZhCn => "zh-CN",
        }
    }
}

/// A stored language preference: one of the two locales or `system`.
pub open spec fn pref_of(value: Seq<char>) -> Seq<char> {
    if value == "en-US"@ || value == "zh-CN"@ || value == "system"@ {
        value
    } else {
        "system"@
    }
}

/// Keep a known preference; anything else means following the system.
pub fn normalize_pref(value: &str) -> (r: String)
    ensures
        r@ == pref_of(value@),
{
    if str_eq(value, "en-US") || str_eq(value, "zh-CN") || str_eq(value, "system") {
        value.to_string()
    } else {
        "system".to_string()
    }
}

/// The locale for the system's language tag: Chinese for any `zh` tag (any
/// case), else English.
pub open spec fn locale_of_system(tag: Option<Seq<char>>) -> LocaleId {
    match tag {
        Some(s) => if matches_at(lower_seq(s), 0, "zh"@) {
            LocaleId::ZhCn
        } else {
            LocaleId::EnUs
        },
        None => LocaleId::EnUs,
    }
}

pub fn locale_for_system(tag: Option<&str>) -> (r: LocaleId)
    ensures
        r == locale_of_system(
            match tag {
                Some(s) => Some(s@),
                None => None,
            },
        ),
{
    match tag {
        Some(s) => {
            let v = str_chars(s);
            let l = lower_chars(&v);
            let zh = str_chars("zh");
            if matches_at_exec(&l, 0, &zh) {
                LocaleId::ZhCn
            } else {
                LocaleId::EnUs
            }
        },
        None => LocaleId::EnUs,
    }
}

/// `sys_locale::get_locale`: the system's language tag, if it can be read.
/// It depends on the machine; nothing is stated of it.
#[verifier::external_body]
fn system_locale() -> (r: Option<String>)
{
    sys_locale::get_locale()
}

/// The locale of the system the app runs on.
pub fn detect_system() -> (r: LocaleId)
    ensures
        exists|tag: Option<Seq<char>>| r == locale_of_system(tag),
{
    let tag = system_locale();
    match &tag {
        Some(s) => {
            let r = locale_for_system(Some(s.as_str()));
            assert(r == locale_of_system(Some(s@)));
            r
        },
        None => {
            let r = locale_for_system(None);
            assert(r == locale_of_system(None));
            r
        },
    }
}

/// The locale for a preference given the system's language tag.
pub open spec fn resolved_locale(pref: Seq<char>, system: Option<Seq<char>>) -> LocaleId {
    if pref == "en-US"@ {
        LocaleId::EnUs
    } else if pref == "zh-CN"@ {
        LocaleId::ZhCn
    } else {
        locale_of_system(system)
    }
}

pub fn resolve_with(pref: &str, system: Option<&str>) -> (r: LocaleId)
    ensures
        r == resolved_locale(
            pref@,
            match system {
                Some(s) => Some(s@),
                None => None,
            },
        ),
{
    if str_eq(pref, "en-US") {
        LocaleId::EnUs
    } else if str_eq(pref, "zh-CN") {
        LocaleId::ZhCn
    } else {
        locale_for_system(system)
    }
}

/// The locale for a preference on this system.
pub fn resolve(pref: &str) -> (r: LocaleId)
    ensures
        exists|system: Option<Seq<char>>| r == resolved_locale(pref@, system),
        pref@ == "en-US"@ ==> r == LocaleId::EnUs,
        pref@ == "zh-CN"@ ==> r == LocaleId::ZhCn,
{
    proof {
        reveal_strlit("en-US");
        reveal_strlit("zh-CN");
        assert("en-US"@ != "zh-CN"@) by {
            assert("en-US"@[0] != "zh-CN"@[0]);
        }
    }
    if str_eq(pref, "en-US") {
        assert(LocaleId::EnUs == resolved_locale(pref@, None));
        LocaleId::EnUs
    } else if str_eq(pref, "zh-CN") {
        assert(LocaleId::ZhCn == resolved_locale(pref@, None));
        LocaleId::ZhCn
    } else {
        let r = detect_system();
        let ghost tag = choose|tag: Option<Seq<char>>| r == locale_of_system(tag);
        assert(r == resolved_locale(pref@, tag));
        r
    }
}

/// The message stored under `key` in a catalogue (its first entry with that
/// key).
pub open spec fn lookup(catalog: Seq<(String, String)>, key: Seq<char>) -> Option<Seq<char>>
    decreases catalog.len(),
{
    if catalog.len() == 0 {
        None
    } else if catalog[0].0@ == key {
        Some(catalog[0].1@)
    } else {
        lookup(catalog.drop_first(), key)
    }
}

fn lookup_exec(catalog: &[(String, String)], key: &str) -> (r: Option<String>)
    ensures
        match r {
            Some(m) => lookup(catalog@, key@) == Some(m@),
            None => lookup(catalog@, key@) is None,
        },
{
    let n = catalog.len();
    let mut i: usize = 0;
    assert(catalog@.subrange(0, n as int) =~= catalog@);
    while i < n
        invariant
            n == catalog@.len(),
            i <= n,
            lookup(catalog@, key@) == lookup(catalog@.subrange(i as int, n as int), key@),
        decreases n - i,
    {
        let ghost rest = catalog@.subrange(i as int, n as int);
        assert(rest[0] == catalog@[i as int]);
        assert(rest.drop_first() =~= catalog@.subrange(i + 1, n as int));
        if str_eq(catalog[i].0.as_str(), key) {
            return Some(catalog[i].1.clone());
        }
        i = i + 1;
    }
    None
}

/// The text of `key` in the current catalogue, else in the English one,
/// else the key itself.
pub fn t(catalog: &[(String, String)], english: &[(String, String)], key: &str) -> (r: String)
    ensures
        r@ == match lookup(catalog@, key@) {
            Some(m) => m,
            None => match lookup(english@, key@) {
                Some(m) => m,
                None => key@,
            },
        },
{
    match lookup_exec(catalog, key) {
        Some(m) => m,
        None => match lookup_exec(english, key) {
            Some(m) => m,
            None => key.to_string(),
        },
    }
}

/// Whether every key of `a` is a key of `b`.
pub open spec fn keys_within(a: Seq<(String, String)>, b: Seq<(String, String)>) -> bool {
    forall|i: int| 0 <= i < a.len() ==> lookup(b, #[trigger] a[i].0@) is Some
}

/// Whether the two catalogues carry the same keys.
pub fn same_keys(a: &[(String, String)], b: &[(String, String)]) -> (r: bool)
    ensures
        r == (keys_within(a@, b@) && keys_within(b@, a@)),
{
    let x = all_keys_in(a, b);
    let y = all_keys_in(b, a);
    x && y
}

fn all_keys_in(a: &[(String, String)], b: &[(String, String)]) -> (r: bool)
    ensures
        r == keys_within(a@, b@),
{
    let n = a.len();
    let mut i: usize = 0;
    while i < n
        invariant
            n == a@.len(),
            i <= n,
            forall|j: int| 0 <= j < i ==> lookup(b@, #[trigger] a@[j].0@) is Some,
        decreases n - i,
    {
        if lookup_exec(b, a[i].0.as_str()).is_none() {
            assert(lookup(b@, a@[i as int].0@) is None);
            return false;
        }
        i = i + 1;
    }
    true
}

} // verus!
