use std::io::Write;

use sanae::sources::appstream::{catalog_text, parse};

#[test]
fn parses_desktop_apps_and_skips_translations_and_addons() {
    let xml = r#"<?xml version="1.0"?>
<components version="0.14" origin="archlinux-arch-extra">
  <component type="desktop-application">
    <id>org.mozilla.firefox</id>
    <pkgname>firefox</pkgname>
    <name>Firefox</name>
    <name xml:lang="es">Firefox en español</name>
    <summary>Web Browser</summary>
    <summary xml:lang="es">Navegador web</summary>
    <project_license>MPL-2.0</project_license>
    <url type="homepage">https://www.mozilla.org/firefox/</url>
    <url type="bugtracker">https://bugzilla.mozilla.org/</url>
    <categories><category>Network</category><category>WebBrowser</category></categories>
    <keywords><keyword>browser</keyword><keyword xml:lang="es">navegador</keyword></keywords>
    <screenshots><screenshot type="default"><image type="source">https://x/1.png</image><image type="thumbnail">https://x/t.png</image></screenshot></screenshots>
  </component>
  <component type="addon">
    <id>some.addon</id><pkgname>addon</pkgname><name>Addon</name>
  </component>
</components>"#;
    let apps = parse(xml);
    assert_eq!(apps.len(), 1);
    let ff = &apps[0];
    assert_eq!(ff.pkgname, "firefox");
    assert_eq!(ff.name, "Firefox");
    assert_eq!(ff.summary, "Web Browser");
    assert_eq!(ff.categories, vec!["Network", "WebBrowser"]);
    assert_eq!(ff.keywords, vec!["browser"]);
    assert_eq!(ff.license.as_deref(), Some("MPL-2.0"));
    assert_eq!(ff.homepage.as_deref(), Some("https://www.mozilla.org/firefox/"));
    assert_eq!(ff.screenshots, vec!["https://x/1.png"]);
    assert_eq!(ff.shelf(), "Internet");
}

#[test]
fn apps_without_a_package_name_are_dropped_and_shelves_fall_back() {
    let xml = r#"<components>
  <component type="desktop"><id>a</id><name>No package</name></component>
  <component type="desktop"><pkgname>gimp</pkgname><name>GIMP</name><name>Second</name>
    <categories><category>Unknown</category><category>RasterGraphics</category></categories></component>
  <component type="desktop"><pkgname>odd</pkgname><name>Odd</name><categories><category>Nothing</category></categories></component>
</components>"#;
    let apps = parse(xml);
    assert_eq!(apps.len(), 2);
    assert_eq!(apps[0].pkgname, "gimp");
    assert_eq!(apps[0].name, "GIMP");
    assert_eq!(apps[0].shelf(), "Graphics");
    assert_eq!(apps[1].shelf(), "Other");
    assert!(parse("not xml <<<").is_empty());
}

#[test]
fn catalog_files_are_decompressed_or_read_as_text() {
    let xml = "<components><component type=\"desktop-application\"></component></components>";
    let mut enc = flate2::write::GzEncoder::new(Vec::new(), flate2::Compression::default());
    enc.write_all(xml.as_bytes()).unwrap();
    let gz = enc.finish().unwrap();
    assert_eq!(catalog_text("extra.xml.gz", &gz).as_deref(), Some(xml));
    assert_eq!(catalog_text("extra.xml.gz", b"not gzip at all"), None);
    assert_eq!(catalog_text("extra.xml", xml.as_bytes()).as_deref(), Some(xml));
    assert_eq!(catalog_text("odd.xml", b"ab\xffc").as_deref(), Some("ab\u{FFFD}c"));
}
