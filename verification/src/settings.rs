//! Application settings and their storage as key/value pairs.
use vstd::prelude::*;
use crate::text::{
    chars_eq, chars_of, decimal_i32, law_parse_i32_of_decimal, parse_i32, parse_i32_spec,
    signed_decimal, string_of,
};

verus! {

/// The application's settings.
#[derive(Debug, Clone)]
pub struct AppSettings {
    pub theme: String,
    pub sidebar_collapsed: bool,
    pub download_path: String,
    pub concurrent_downloads: i32,
    pub proxy_enabled: bool,
    pub proxy_host: String,
    pub proxy_port: i32,
}

/// The mathematical value of [`AppSettings`].
pub struct SettingsView {
    pub theme: Seq<char>,
    pub sidebar_collapsed: bool,
    pub download_path: Seq<char>,
    pub concurrent_downloads: i32,
    pub proxy_enabled: bool,
    pub proxy_host: Seq<char>,
    pub proxy_port: i32,
}

impl View for AppSettings {
    type V = SettingsView;

    open spec fn view(&self) -> SettingsView {
        SettingsView {
            theme: self.theme@,
            sidebar_collapsed: self.sidebar_collapsed,
            download_path: self.download_path@,
            concurrent_downloads: self.concurrent_downloads,
            proxy_enabled: self.proxy_enabled,
            proxy_host: self.proxy_host@,
            proxy_port: self.proxy_port,
        }
    }
}

/// The default settings: dark theme, sidebar open, no download folder, 3
/// concurrent downloads, proxy enabled at 127.0.0.1:7897.
pub open spec fn default_settings() -> SettingsView {
    SettingsView {
        theme: "dark"@,
        sidebar_collapsed: false,
        download_path: Seq::empty(),
        concurrent_downloads: 3,
        proxy_enabled: true,
        proxy_host: "127.0.0.1"@,
        proxy_port: 7897,
    }
}

impl Default for AppSettings {
    /// The default settings (see [`default_settings`]).
    fn default() -> (res: Self)
        ensures
            res@ == default_settings(),
    {
        AppSettings {
            theme: String::from_str("dark"),
            sidebar_collapsed: false,
            download_path: String::new(),
            concurrent_downloads: 3,
            proxy_enabled: true,
            proxy_host: String::from_str("127.0.0.1"),
            proxy_port: 7897,
        }
    }
}

/// `value` parsed as an `i32`, or `default`.
pub open spec fn i32_or(value: Seq<char>, default: i32) -> i32 {
    match parse_i32_spec(value) {
        Some(v) => v,
        None => default,
    }
}

/// The settings after reading one stored pair; unknown keys change nothing.
/// A flag is on exactly when stored as `true`; a number that does not parse
/// reads as its default.
pub open spec fn apply_setting(s: SettingsView, key: Seq<char>, value: Seq<char>) -> SettingsView {
    if key == "theme"@ {
        SettingsView { theme: value, ..s }
    } else if key == "sidebar_collapsed"@ {
        SettingsView { sidebar_collapsed: value == "true"@, ..s }
    } else if key == "download_path"@ {
        SettingsView { download_path: value, ..s }
    } else if key == "concurrent_downloads"@ {
        SettingsView { concurrent_downloads: i32_or(value, 3), ..s }
    } else if key == "proxy_enabled"@ {
        SettingsView { proxy_enabled: value == "true"@, ..s }
    } else if key == "proxy_host"@ {
        SettingsView { proxy_host: value, ..s }
    } else if key == "proxy_port"@ {
        SettingsView { proxy_port: i32_or(value, 7897), ..s }
    } else {
        s
    }
}

/// The settings read from stored pairs, in order, starting from `s`.
pub open spec fn apply_settings(s: SettingsView, pairs: Seq<(Seq<char>, Seq<char>)>) -> SettingsView
    decreases pairs.len(),
{
    if pairs.len() == 0 {
        s
    } else {
        apply_setting(apply_settings(s, pairs.drop_last()), pairs.last().0, pairs.last().1)
    }
}

/// The text of a flag (`bool`'s `to_string`).
pub open spec fn flag_text(b: bool) -> Seq<char> {
    if b {
        "true"@
    } else {
        "false"@
    }
}

/// The pairs under which settings are stored.
pub open spec fn setting_pairs(s: SettingsView) -> Seq<(Seq<char>, Seq<char>)> {
    seq![
        ("theme"@, s.theme),
        ("sidebar_collapsed"@, flag_text(s.sidebar_collapsed)),
        ("download_path"@, s.download_path),
        ("concurrent_downloads"@, signed_decimal(s.concurrent_downloads as int)),
        ("proxy_enabled"@, flag_text(s.proxy_enabled)),
        ("proxy_host"@, s.proxy_host),
        ("proxy_port"@, signed_decimal(s.proxy_port as int)),
    ]
}

/// The views of stored pairs.
pub open spec fn pairs_view(v: Seq<(String, String)>) -> Seq<(Seq<char>, Seq<char>)> {
    v.map_values(|p: (String, String)| (p.0@, p.1@))
}

impl AppSettings {
    /// Reads one stored pair into the settings.
    pub fn apply(&mut self, key: &str, value: &str)
        ensures
            final(self)@ == apply_setting(old(self)@, key@, value@),
    {
        let k = chars_of(key);
        let v = chars_of(value);
        let is_true = chars_eq(&v, &chars_of("true"));
        if chars_eq(&k, &chars_of("theme")) {
            self.theme = string_of(&v);
        } else if chars_eq(&k, &chars_of("sidebar_collapsed")) {
            self.sidebar_collapsed = is_true;
        } else if chars_eq(&k, &chars_of("download_path")) {
            self.download_path = string_of(&v);
        } else if chars_eq(&k, &chars_of("concurrent_downloads")) {
            self.concurrent_downloads = match parse_i32(&v) {
                Some(n) => n,
                None => 3,
            };
        } else if chars_eq(&k, &chars_of("proxy_enabled")) {
            self.proxy_enabled = is_true;
        } else if chars_eq(&k, &chars_of("proxy_host")) {
            self.proxy_host = string_of(&v);
        } else if chars_eq(&k, &chars_of("proxy_port")) {
            self.proxy_port = match parse_i32(&v) {
                Some(n) => n,
                None => 7897,
            };
        }
    }

    /// The settings stored as `pairs`: the defaults, then each pair in order.
    pub fn from_pairs(pairs: &Vec<(String, String)>) -> (res: Self)
        ensures
            res@ == apply_settings(default_settings(), pairs_view(pairs@)),
    {
        let ghost pv = pairs_view(pairs@);
        let mut s = AppSettings::default();
        let mut j: usize = 0;
        while j < pairs.len()
            invariant
                j <= pairs.len(),
                pv == pairs_view(pairs@),
                s@ == apply_settings(default_settings(), pv.take(j as int)),
            decreases pairs.len() - j,
        {
            assert(pv.take(j + 1).drop_last() =~= pv.take(j as int));
            assert(pv[j as int] == (pairs@[j as int].0@, pairs@[j as int].1@));
            s.apply(pairs[j].0.as_str(), pairs[j].1.as_str());
            j += 1;
        }
        assert(pv.take(j as int) =~= pv);
        s
    }

    /// The pairs under which the settings are stored.
    pub fn to_pairs(&self) -> (res: Vec<(String, String)>)
        ensures
            pairs_view(res@) == setting_pairs(self@),
    {
        let mut res: Vec<(String, String)> = Vec::new();
        res.push((String::from_str("theme"), crate::text::copy_string(&self.theme)));
        res.push(
            (
                String::from_str("sidebar_collapsed"),
                String::from_str(
                    if self.sidebar_collapsed {
                        "true"
                    } else {
                        "false"
                    },
                ),
            ),
        );
        res.push((String::from_str("download_path"), crate::text::copy_string(&self.download_path)));
        res.push(
            (
                String::from_str("concurrent_downloads"),
                string_of(&decimal_i32(self.concurrent_downloads)),
            ),
        );
        res.push(
            (
                String::from_str("proxy_enabled"),
                String::from_str(
                    if self.proxy_enabled {
                        "true"
                    } else {
                        "false"
                    },
                ),
            ),
        );
        res.push((String::from_str("proxy_host"), crate::text::copy_string(&self.proxy_host)));
        res.push((String::from_str("proxy_port"), string_of(&decimal_i32(self.proxy_port))));
        assert(pairs_view(res@) =~= setting_pairs(self@));
        res
    }
}

/// The value stored last under `key` in `pairs`, if any.
pub open spec fn last_value(pairs: Seq<(Seq<char>, Seq<char>)>, key: Seq<char>) -> Option<
    Seq<char>,
>
    decreases pairs.len(),
{
    if pairs.len() == 0 {
        None
    } else if pairs.last().0 == key {
        Some(pairs.last().1)
    } else {
        last_value(pairs.drop_last(), key)
    }
}

/// The settings `s` with each setting read from the value stored last under
/// its key, where there is one.
pub open spec fn settings_from_last(s: SettingsView, pairs: Seq<(Seq<char>, Seq<char>)>) -> SettingsView {
    SettingsView {
        theme: match last_value(pairs, "theme"@) {
            Some(v) => v,
            None => s.theme,
        },
        sidebar_collapsed: match last_value(pairs, "sidebar_collapsed"@) {
            Some(v) => v == "true"@,
            None => s.sidebar_collapsed,
        },
        download_path: match last_value(pairs, "download_path"@) {
            Some(v) => v,
            None => s.download_path,
        },
        concurrent_downloads: match last_value(pairs, "concurrent_downloads"@) {
            Some(v) => i32_or(v, 3),
            None => s.concurrent_downloads,
        },
        proxy_enabled: match last_value(pairs, "proxy_enabled"@) {
            Some(v) => v == "true"@,
            None => s.proxy_enabled,
        },
        proxy_host: match last_value(pairs, "proxy_host"@) {
            Some(v) => v,
            None => s.proxy_host,
        },
        proxy_port: match last_value(pairs, "proxy_port"@) {
            Some(v) => i32_or(v, 7897),
            None => s.proxy_port,
        },
    }
}

/// The seven setting keys differ from one another, and the two flag texts
/// differ.
proof fn lemma_setting_keys_distinct()
    ensures
        "false"@ != "true"@,
        "sidebar_collapsed"@ != "theme"@,
        "download_path"@ != "theme"@ && "download_path"@ != "sidebar_collapsed"@,
        "concurrent_downloads"@ != "theme"@ && "concurrent_downloads"@ != "sidebar_collapsed"@
            && "concurrent_downloads"@ != "download_path"@,
        "proxy_enabled"@ != "theme"@ && "proxy_enabled"@ != "sidebar_collapsed"@
            && "proxy_enabled"@ != "download_path"@ && "proxy_enabled"@ != "concurrent_downloads"@,
        "proxy_host"@ != "theme"@ && "proxy_host"@ != "sidebar_collapsed"@ && "proxy_host"@
            != "download_path"@ && "proxy_host"@ != "concurrent_downloads"@ && "proxy_host"@
            != "proxy_enabled"@,
        "proxy_port"@ != "theme"@ && "proxy_port"@ != "sidebar_collapsed"@ && "proxy_port"@
            != "download_path"@ && "proxy_port"@ != "concurrent_downloads"@ && "proxy_port"@
            != "proxy_enabled"@ && "proxy_port"@ != "proxy_host"@,
{
    reveal_strlit("theme");
    reveal_strlit("sidebar_collapsed");
    reveal_strlit("download_path");
    reveal_strlit("concurrent_downloads");
    reveal_strlit("proxy_enabled");
    reveal_strlit("proxy_host");
    reveal_strlit("proxy_port");
    reveal_strlit("true");
    reveal_strlit("false");
    assert("false"@ != "true"@) by {
        assert("false"@.len() != "true"@.len());
    }
    assert("sidebar_collapsed"@ != "theme"@) by {
        assert("sidebar_collapsed"@[0] != "theme"@[0]);
    }
    assert("download_path"@ != "theme"@ && "download_path"@ != "sidebar_collapsed"@) by {
        assert("download_path"@[0] != "theme"@[0]);
        assert("download_path"@[0] != "sidebar_collapsed"@[0]);
    }
    assert("concurrent_downloads"@ != "theme"@ && "concurrent_downloads"@ != "sidebar_collapsed"@
        && "concurrent_downloads"@ != "download_path"@) by {
        assert("concurrent_downloads"@[0] != "theme"@[0]);
        assert("concurrent_downloads"@[0] != "sidebar_collapsed"@[0]);
        assert("concurrent_downloads"@[0] != "download_path"@[0]);
    }
    assert("proxy_enabled"@ != "theme"@ && "proxy_enabled"@ != "sidebar_collapsed"@
        && "proxy_enabled"@ != "download_path"@ && "proxy_enabled"@ != "concurrent_downloads"@) by {
        assert("proxy_enabled"@[0] != "theme"@[0]);
        assert("proxy_enabled"@[0] != "sidebar_collapsed"@[0]);
        assert("proxy_enabled"@[0] != "download_path"@[0]);
        assert("proxy_enabled"@[0] != "concurrent_downloads"@[0]);
    }
    assert("proxy_host"@ != "theme"@ && "proxy_host"@ != "sidebar_collapsed"@ && "proxy_host"@
        != "download_path"@ && "proxy_host"@ != "concurrent_downloads"@ && "proxy_host"@
        != "proxy_enabled"@) by {
        assert("proxy_host"@[0] != "theme"@[0]);
        assert("proxy_host"@[0] != "sidebar_collapsed"@[0]);
        assert("proxy_host"@[0] != "download_path"@[0]);
        assert("proxy_host"@[0] != "concurrent_downloads"@[0]);
        assert("proxy_host"@.len() != "proxy_enabled"@.len());
    }
    assert("proxy_port"@ != "theme"@ && "proxy_port"@ != "sidebar_collapsed"@ && "proxy_port"@
        != "download_path"@ && "proxy_port"@ != "concurrent_downloads"@ && "proxy_port"@
        != "proxy_enabled"@ && "proxy_port"@ != "proxy_host"@) by {
        assert("proxy_port"@[0] != "theme"@[0]);
        assert("proxy_port"@[0] != "sidebar_collapsed"@[0]);
        assert("proxy_port"@[0] != "download_path"@[0]);
        assert("proxy_port"@[0] != "concurrent_downloads"@[0]);
        assert("proxy_port"@.len() != "proxy_enabled"@.len());
        assert("proxy_port"@[6] != "proxy_host"@[6]);
    }
}

/// Reading stored pairs gives, for each setting, the value stored last under
/// its key; a setting with no pair keeps its value.
pub proof fn lemma_apply_settings_last(s: SettingsView, pairs: Seq<(Seq<char>, Seq<char>)>)
    ensures
        apply_settings(s, pairs) == settings_from_last(s, pairs),
    decreases pairs.len(),
{
    lemma_setting_keys_distinct();
    if pairs.len() > 0 {
        lemma_apply_settings_last(s, pairs.drop_last());
    }
}

/// With no key twice, the value stored last under the key of a stored pair
/// is that pair's value.
pub proof fn lemma_last_value_of_stored(pairs: Seq<(Seq<char>, Seq<char>)>, i: int)
    requires
        0 <= i < pairs.len(),
        forall|j: int| i < j < pairs.len() ==> pairs[j].0 != pairs[i].0,
    ensures
        last_value(pairs, pairs[i].0) == Some(pairs[i].1),
    decreases pairs.len(),
{
    if i < pairs.len() - 1 {
        assert(pairs.last() == pairs[pairs.len() - 1]);
        lemma_last_value_of_stored(pairs.drop_last(), i);
    }
}

/// Stored settings read back in any order, with no key twice and any number
/// of pairs under other keys, are the settings that were stored, whatever
/// was stored before.
pub proof fn law_settings_read_in_any_order(
    before: SettingsView,
    s: SettingsView,
    pairs: Seq<(Seq<char>, Seq<char>)>,
)
    requires
        forall|i: int, j: int| 0 <= i < j < pairs.len() ==> pairs[i].0 != pairs[j].0,
        forall|k: int| 0 <= k < 7 ==> pairs.contains(#[trigger] setting_pairs(s)[k]),
    ensures
        apply_settings(before, pairs) == s,
{
    lemma_apply_settings_last(before, pairs);
    lemma_setting_keys_distinct();
    law_parse_i32_of_decimal(s.concurrent_downloads);
    law_parse_i32_of_decimal(s.proxy_port);
    let sp = setting_pairs(s);
    assert forall|k: int| 0 <= k < 7 implies last_value(pairs, sp[k].0) == Some(sp[k].1) by {
        assert(pairs.contains(sp[k]));
        let i = choose|i: int| 0 <= i < pairs.len() && pairs[i] == sp[k];
        lemma_last_value_of_stored(pairs, i);
    }
    assert(last_value(pairs, "theme"@) == Some(s.theme)) by { assert(sp[0].0 == "theme"@); }
    assert(last_value(pairs, "sidebar_collapsed"@) == Some(flag_text(s.sidebar_collapsed))) by {
        assert(sp[1].0 == "sidebar_collapsed"@);
    }
    assert(last_value(pairs, "download_path"@) == Some(s.download_path)) by {
        assert(sp[2].0 == "download_path"@);
    }
    assert(last_value(pairs, "concurrent_downloads"@) == Some(
        signed_decimal(s.concurrent_downloads as int),
    )) by {
        assert(sp[3].0 == "concurrent_downloads"@);
    }
    assert(last_value(pairs, "proxy_enabled"@) == Some(flag_text(s.proxy_enabled))) by {
        assert(sp[4].0 == "proxy_enabled"@);
    }
    assert(last_value(pairs, "proxy_host"@) == Some(s.proxy_host)) by {
        assert(sp[5].0 == "proxy_host"@);
    }
    assert(last_value(pairs, "proxy_port"@) == Some(signed_decimal(s.proxy_port as int))) by {
        assert(sp[6].0 == "proxy_port"@);
    }
}

/// Stored settings read back in the order they were stored are the settings
/// that were stored, whatever was stored before.
pub proof fn law_settings_round_trip(before: SettingsView, s: SettingsView)
    ensures
        apply_settings(before, setting_pairs(s)) == s,
{
    lemma_setting_keys_distinct();
    let sp = setting_pairs(s);
    assert forall|k: int| 0 <= k < 7 implies sp.contains(#[trigger] setting_pairs(s)[k]) by {
        assert(sp[k] == setting_pairs(s)[k]);
    }
    law_settings_read_in_any_order(before, s, sp);
}

} // verus!
