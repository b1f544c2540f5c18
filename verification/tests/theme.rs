use sanae::config::ThemeConfig;
use sanae::theme::{hex, Theme};

#[test]
fn hex_colors_read_like_from_str_radix() {
    assert_eq!(hex("#5fd7a7"), Some((0x5f, 0xd7, 0xa7)));
    assert_eq!(hex("  ##87AFFF "), Some((0x87, 0xaf, 0xff)));
    assert_eq!(hex("+abcde"), Some((0x0a, 0xbc, 0xde)));
    assert_eq!(hex("#12345"), None);
    assert_eq!(hex("#12345g"), None);
    assert_eq!(hex("#1234567"), None);
    assert_eq!(hex("é1234"), None);
}

#[test]
fn unreadable_colors_fall_back() {
    let t = Theme::from_config(&ThemeConfig { accent: "red".into(), accent2: "#000000".into(), nerd_font: true });
    assert_eq!(t.accent, (0x5f, 0xd7, 0xa7));
    assert_eq!(t.accent2, (0, 0, 0));
    assert_eq!(t.installed(), " ");
    let plain = Theme::from_config(&ThemeConfig::default());
    assert_eq!(plain.accent2, (0x87, 0xaf, 0xff));
    assert_eq!((plain.installed(), plain.queued_install(), plain.queued_remove(), plain.update()), ("✔", "+", "−", "↑"));
}
