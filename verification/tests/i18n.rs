use ysh::i18n::locales;

use ysh::i18n::{Arg, I18nEngine};
use ysh::i18n::I18nAdminError;
use ysh::i18n::numeric_or_text;

fn engine() -> I18nEngine {
    I18nEngine::new()
}

fn catalog_value(cat: &[(String, String)], key: &str) -> Option<String> {
    cat.iter().find(|(k, _)| k == key).map(|(_, v)| v.clone())
}

#[test]
fn negotiates_accept_language() {
    assert_eq!(locales::negotiate("en-US,en;q=0.9,es;q=0.8", "es"), "en");
    assert_eq!(locales::negotiate("ar;q=0.9,en;q=0.5", "es"), "ar");
    assert_eq!(locales::negotiate("fr-FR;q=0.8", "es"), "fr");
    // Unsupported / empty falls back to default.
    assert_eq!(locales::negotiate("de-DE", "es"), "es");
    assert_eq!(locales::negotiate("", "es"), "es");
}

#[test]
fn translates_known_key() {
    let e = engine();
    assert_eq!(e.translate("es", "nav-wallet", &[]), "Cartera");
    assert_eq!(e.translate("pt", "auth-login", &[]), "Entrar");
    assert_eq!(e.translate("ar", "nav-notifications", &[]), "الإشعارات");
    assert_eq!(e.translate("fr", "common-cancel", &[]), "Annuler");
}

#[test]
fn falls_back_when_key_missing() {
    let e = engine();
    let value = e.translate("pt", "nav-stream", &[]);
    assert!(!value.is_empty());
    // A totally unknown key returns itself.
    assert_eq!(e.translate("en", "no-such-key", &[]), "no-such-key");
}

#[test]
fn applies_plural_rules() {
    let e = engine();
    let one = e.translate("en", "notification-count", &[("n", Arg::Number(1))]);
    let many = e.translate("en", "notification-count", &[("n", Arg::Number(5))]);
    assert!(one.contains("notification"));
    assert!(!one.contains("notifications"));
    assert!(many.contains("notifications"));

    // Arabic has a distinct "two" plural form.
    let two_ar = e.translate("ar", "notification-count", &[("n", Arg::Number(2))]);
    assert!(
        two_ar.contains("إشعاران"),
        "arabic dual form not selected: {two_ar}"
    );
}

#[test]
fn full_catalog_includes_target_locale() {
    let e = engine();
    let es = e.full_catalog("es");
    assert!(es.iter().any(|(k, _)| k == "nav-wallet"));
    assert_eq!(catalog_value(&es, "nav-wallet").unwrap(), "Cartera");
    let ar = e.full_catalog("ar");
    assert_eq!(catalog_value(&ar, "auth-login").unwrap(), "تسجيل الدخول");
}

#[test]
fn override_takes_precedence() {
    let mut e = engine();
    let key = "nav-wallet";
    let fk = format!("es::{key}");
    e.set_override(fk, "Mi Cartera".to_string());
    assert_eq!(e.translate("es", key, &[]), "Mi Cartera");
    assert_eq!(catalog_value(&e.full_catalog("es"), key).unwrap(), "Mi Cartera");
    // Other locale unaffected.
    assert_eq!(e.translate("en", key, &[]), "Wallet");
}

#[test]
fn rtl_metadata() {
    assert!(locales::is_rtl("ar"));
    assert!(!locales::is_rtl("en"));
    assert!(!locales::is_rtl("es"));
    let meta = locales::meta_for("ar").unwrap();
    assert_eq!(meta.dir, "rtl");
}

#[test]
fn number_currency_date_formatting() {
    assert_eq!(ysh::i18n::format::number("en", 1234567), "1,234,567");
    assert_eq!(ysh::i18n::format::number("es", 1234567), "1.234.567");
    assert_eq!(ysh::i18n::format::currency("en", 1250), "1,250 $");
    assert_eq!(ysh::i18n::format::currency("ar", 1250), "ر.س 1٬250");
    let d = ysh::i18n::format::date("en", 0);
    assert!(d.contains("January"));
    let d = ysh::i18n::format::date("es", 0);
    assert!(d.contains("enero"));
}

#[test]
fn number_groups_negative_and_small_values() {
    assert_eq!(ysh::i18n::format::number("en", -1234), "-1,234");
    assert_eq!(ysh::i18n::format::number("en", 999), "999");
    assert_eq!(ysh::i18n::format::number("xx", 1000), "1,000");
    assert_eq!(ysh::i18n::format::number("en", i64::MIN), "-9,223,372,036,854,775,808");
    assert_eq!(ysh::i18n::format::number("en", i64::MAX), "9,223,372,036,854,775,807");
}

#[test]
fn dates_in_each_language() {
    assert_eq!(ysh::i18n::format::date("en", 0), "January 1, 1970");
    assert_eq!(ysh::i18n::format::date("es", 0), "1 de enero de 1970");
    assert_eq!(ysh::i18n::format::date("fr", 86400 * 31), "1 février 1970");
    assert_eq!(ysh::i18n::format::date("en", 951782400), "February 29, 2000");
    assert_eq!(ysh::i18n::format::date("en", -1), "December 31, 1969");
}

#[test]
fn civil_dates_from_unix_seconds() {
    assert_eq!(ysh::i18n::format::civil_from_unix(0), (1970, 1, 1));
    assert_eq!(ysh::i18n::format::civil_from_unix(1_700_000_000), (2023, 11, 14));
    assert_eq!(ysh::i18n::format::civil_from_unix(-86400), (1969, 12, 31));
    assert_eq!(ysh::i18n::format::civil_from_unix(951_782_400), (2000, 2, 29));
    assert_eq!(ysh::i18n::format::civil_from_unix(951_782_400 + 86_399), (2000, 2, 29));
    assert_eq!(ysh::i18n::format::civil_from_unix(951_782_400 + 86_400), (2000, 3, 1));
    assert_eq!(ysh::i18n::format::civil_from_unix(946_684_799), (1999, 12, 31));
    assert_eq!(ysh::i18n::format::civil_from_unix(946_684_800), (2000, 1, 1));
}

#[test]
fn override_of_unknown_key_is_kept() {
    let mut e = engine();
    e.set_override("es::nav-wallet".to_string(), "Uno".to_string());
    e.set_override("es::nav-wallet".to_string(), "Dos".to_string());
    assert_eq!(e.translate("es", "nav-wallet", &[]), "Dos");
    assert_eq!(e.overrides.len(), 1);
}

#[test]
fn unsupported_locale_falls_back_along_the_chain() {
    let e = engine();
    assert_eq!(e.translate("de", "nav-wallet", &[]), "Wallet");
    assert!(e.base_source("de").is_none());
    assert!(e.base_source("es").unwrap().contains("nav-wallet = Cartera"));
}

#[test]
fn supported_meta_lists_five_locales() {
    let metas = locales::supported_meta();
    let codes: Vec<String> = metas.iter().map(|m| m.code.clone()).collect();
    assert_eq!(codes, vec!["es", "en", "pt", "ar", "fr"]);
    assert!(locales::meta_for("de").is_none());
}

#[test]
fn admin_overrides_set_and_delete() {
    let mut e = engine();
    assert_eq!(e.admin_upsert("de", "nav-wallet", "Geldbörse"), Err(I18nAdminError::UnsupportedLocale));
    assert_eq!(e.admin_upsert("es", "", "x"), Err(I18nAdminError::KeyRequired));
    assert!(e.overrides.is_empty());
    assert_eq!(e.admin_upsert("es", "nav-wallet", "Billetera"), Ok(()));
    assert_eq!(e.translate("es", "nav-wallet", &[]), "Billetera");
    assert_eq!(e.overrides, vec![("es::nav-wallet".to_string(), "Billetera".to_string())]);
    assert!(e.admin_delete("es", "nav-wallet"));
    assert!(!e.admin_delete("es", "nav-wallet"));
    assert!(e.overrides.is_empty());
    assert_eq!(e.translate("es", "nav-wallet", &[]), "Cartera");
}

#[test]
fn request_arguments_become_numbers_or_text() {
    assert!(matches!(numeric_or_text("5"), Arg::Number(5)));
    assert!(matches!(numeric_or_text("-12"), Arg::Number(-12)));
    assert!(matches!(numeric_or_text("five"), Arg::Text(ref t) if t == "five"));
    let e = engine();
    let two = e.translate("en", "notification-count", &[("n", numeric_or_text("2"))]);
    assert!(two.contains("notifications"));
}

#[test]
fn negotiation_results_settle_on_supported_codes() {
    assert_eq!(locales::settle_negotiated(Some("es".to_string()), "en"), "es");
    assert_eq!(locales::settle_negotiated(Some("de".to_string()), "en"), "en");
    assert_eq!(locales::settle_negotiated(None, "fr"), "fr");
}
