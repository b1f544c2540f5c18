use sanae::i18n::{guess, langs, table_source, I18n};

#[test]
fn tables_parse_and_fall_back() {
    let mut i = I18n::new();
    i.set("ja", "");
    assert_eq!(i.t("Store"), "ストア");
    i.set("ru", "");
    assert_eq!(i.t("Settings"), "Настройки");
    i.set("es", "");
    assert_eq!(i.t("Store"), "Tienda");
    assert_eq!(i.t("this string does not exist"), "this string does not exist");
    assert_eq!(i.tf(" {} results ", &[3.to_string()]), " 3 resultados ");
    i.set("en", "");
    assert_eq!(i.t("Store"), "Store");
}

#[test]
fn every_table_line_has_a_tab() {
    for (code, _) in langs().into_iter().skip(1) {
        let text = table_source(code);
        for (n, l) in text.lines().enumerate() {
            if l.is_empty() || l.starts_with('#') {
                continue;
            }
            assert!(l.contains('\t'), "i18n/{code}.txt line {}: no tab: {l}", n + 1);
        }
    }
}

#[test]
fn auto_follows_the_environment() {
    assert_eq!(guess("de_DE.UTF-8"), "de");
    assert_eq!(guess("pt_BR.UTF-8"), "pt");
    assert_eq!(guess("en_US.UTF-8"), "en");
    assert_eq!(guess(""), "en");
    let mut i = I18n::new();
    i.set("auto", "ja_JP.UTF-8");
    assert_eq!(i.current(), "ja");
    i.set("", "ru_RU.UTF-8");
    assert_eq!(i.current(), "ru");
}

#[test]
fn unknown_language_falls_back_to_english() {
    let mut i = I18n::new();
    i.set("xx", "ja_JP.UTF-8");
    assert_eq!(i.current(), "en");
    assert_eq!(i.t("Store"), "Store");
    assert_eq!(i.tf("{} of {}", &["1".to_string(), "2".to_string()]), "1 of 2");
}

#[test]
fn templates_fill_slots_in_order() {
    let i = I18n::new();
    assert_eq!(i.tf("{} {}", &["{}".to_string(), "x".to_string()]), "x {}");
    assert_eq!(i.tf("none", &["a".to_string()]), "none");
    assert_eq!(sanae::i18n::parse("# c\nk\tv\r\r\nk\tw\nbare\nz\t\n").len(), 2);
}

#[test]
fn english_after_another_language_translates_nothing() {
    let mut i = sanae::i18n::I18n::new();
    i.set("es", "");
    assert_eq!(i.t("Store"), "Tienda");
    i.set("en", "");
    assert_eq!(i.t("Store"), "Store");
}

#[test]
fn spanish_tabs_and_shelves() {
    let mut i = sanae::i18n::I18n::new();
    i.set("es", "");
    assert_eq!(i.t("Search"), "Buscar");
    assert_eq!(i.t("Updates"), "Actualizaciones");
    assert_eq!(i.t("Featured"), "Destacados");
    assert_eq!(i.t("Education"), "Educación");
    assert_eq!(i.t("Internet"), "Internet");
}
