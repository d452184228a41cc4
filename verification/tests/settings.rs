use gelbooru::settings::AppSettings;

#[test]
fn defaults() {
    let s = AppSettings::default();
    assert_eq!(s.theme, "dark");
    assert!(!s.sidebar_collapsed);
    assert_eq!(s.download_path, "");
    assert_eq!(s.concurrent_downloads, 3);
    assert!(s.proxy_enabled);
    assert_eq!(s.proxy_host, "127.0.0.1");
    assert_eq!(s.proxy_port, 7897);
}

fn pair(k: &str, v: &str) -> (String, String) {
    (k.to_string(), v.to_string())
}

#[test]
fn stored_pairs_are_read() {
    let s = AppSettings::from_pairs(&vec![
        pair("theme", "light"),
        pair("sidebar_collapsed", "true"),
        pair("concurrent_downloads", "x"),
        pair("proxy_port", "8080"),
        pair("proxy_enabled", "yes"),
        pair("unknown", "1"),
    ]);
    assert_eq!(s.theme, "light");
    assert!(s.sidebar_collapsed);
    assert_eq!(s.concurrent_downloads, 3);
    assert_eq!(s.proxy_port, 8080);
    assert!(!s.proxy_enabled);
}

#[test]
fn saved_settings_read_back() {
    let s = AppSettings {
        theme: "light".to_string(),
        sidebar_collapsed: true,
        download_path: "/tmp/dl".to_string(),
        concurrent_downloads: -5,
        proxy_enabled: false,
        proxy_host: "10.0.0.1".to_string(),
        proxy_port: 65535,
    };
    let pairs = s.to_pairs();
    assert!(pairs.contains(&pair("concurrent_downloads", "-5")));
    assert!(pairs.contains(&pair("sidebar_collapsed", "true")));
    let back = AppSettings::from_pairs(&pairs);
    assert_eq!(back.theme, s.theme);
    assert_eq!(back.sidebar_collapsed, s.sidebar_collapsed);
    assert_eq!(back.download_path, s.download_path);
    assert_eq!(back.concurrent_downloads, s.concurrent_downloads);
    assert_eq!(back.proxy_enabled, s.proxy_enabled);
    assert_eq!(back.proxy_host, s.proxy_host);
    assert_eq!(back.proxy_port, s.proxy_port);
}

#[test]
fn saved_settings_read_back_in_any_order() {
    let s = AppSettings {
        theme: "light".to_string(),
        sidebar_collapsed: true,
        download_path: "/tmp/dl".to_string(),
        concurrent_downloads: 7,
        proxy_enabled: false,
        proxy_host: "10.0.0.1".to_string(),
        proxy_port: 8080,
    };
    let mut pairs = s.to_pairs();
    pairs.reverse();
    pairs.insert(3, pair("window_width", "1200"));
    pairs.push(pair("last_tab", "gallery"));
    let back = AppSettings::from_pairs(&pairs);
    assert_eq!(back.theme, s.theme);
    assert_eq!(back.sidebar_collapsed, s.sidebar_collapsed);
    assert_eq!(back.download_path, s.download_path);
    assert_eq!(back.concurrent_downloads, s.concurrent_downloads);
    assert_eq!(back.proxy_enabled, s.proxy_enabled);
    assert_eq!(back.proxy_host, s.proxy_host);
    assert_eq!(back.proxy_port, s.proxy_port);
}
