//! The bundled Fluent (FTL) message catalog of the five supported locales.

use vstd::prelude::*;

verus! {

pub const ES_FTL: &'static str = "nav-home = Inicio
nav-wallet = Cartera
nav-stream = En vivo
nav-notifications = Notificaciones
nav-profile = Perfil
auth-login = Iniciar sesión
auth-register = Registrarse
common-cancel = Cancelar
common-save = Guardar
notification-count = { $n ->
    [one] { $n } notificación
   *[other] { $n } notificaciones
}
";

pub const EN_FTL: &'static str = "nav-home = Home
nav-wallet = Wallet
nav-stream = Live
nav-notifications = Notifications
nav-profile = Profile
auth-login = Log in
auth-register = Sign up
common-cancel = Cancel
common-save = Save
notification-count = { $n ->
    [one] { $n } notification
   *[other] { $n } notifications
}
";

pub const PT_FTL: &'static str = "nav-home = Início
nav-wallet = Carteira
nav-stream = Ao vivo
nav-notifications = Notificações
nav-profile = Perfil
auth-login = Entrar
auth-register = Cadastrar
common-cancel = Cancelar
common-save = Salvar
notification-count = { $n ->
    [one] { $n } notificação
   *[other] { $n } notificações
}
";

pub const AR_FTL: &'static str = "nav-home = الرئيسية
nav-wallet = المحفظة
nav-stream = بث مباشر
nav-notifications = الإشعارات
nav-profile = الملف الشخصي
auth-login = تسجيل الدخول
auth-register = إنشاء حساب
common-cancel = إلغاء
common-save = حفظ
notification-count = { $n ->
    [zero] لا إشعارات
    [one] إشعار واحد
    [two] إشعاران
    [few] { $n } إشعارات
    [many] { $n } إشعارًا
   *[other] { $n } إشعار
}
";

pub const FR_FTL: &'static str = "nav-home = Accueil
nav-wallet = Portefeuille
nav-stream = En direct
nav-notifications = Notifications
nav-profile = Profil
auth-login = Connexion
auth-register = S'inscrire
common-cancel = Annuler
common-save = Enregistrer
notification-count = { $n ->
    [one] { $n } notification
   *[other] { $n } notifications
}
";

/// The FTL source of a locale code, if it is supported.
pub open spec fn source_of(code: Seq<char>) -> Option<Seq<char>> {
    if code == "es"@ { Some(ES_FTL@) } else if code == "en"@ { Some(EN_FTL@) }
    else if code == "pt"@ { Some(PT_FTL@) } else if code == "ar"@ { Some(AR_FTL@) }
    else if code == "fr"@ { Some(FR_FTL@) } else { None }
}

/// The locales tried in turn when a key is missing in the requested one.
pub open spec fn fallback_chain() -> Seq<Seq<char>> {
    seq!["en"@, "es"@, "pt"@, "fr"@, "ar"@]
}

/// Every message key of the catalog.
pub open spec fn all_keys_spec() -> Seq<Seq<char>> {
    seq!["nav-home"@, "nav-wallet"@, "nav-stream"@, "nav-notifications"@, "nav-profile"@,
        "auth-login"@, "auth-register"@, "common-cancel"@, "common-save"@, "notification-count"@]
}

/// Returns the base FTL source for a supported locale (or `None`).
pub fn source_for(locale: &str) -> (r: Option<&'static str>)
    ensures
        r matches Some(s) ==> source_of(locale@) == Some(s@),
        r is None ==> source_of(locale@) is None,
{
    if crate::text::str_eq(locale, "es") { Some(ES_FTL) }
    else if crate::text::str_eq(locale, "en") { Some(EN_FTL) }
    else if crate::text::str_eq(locale, "pt") { Some(PT_FTL) }
    else if crate::text::str_eq(locale, "ar") { Some(AR_FTL) }
    else if crate::text::str_eq(locale, "fr") { Some(FR_FTL) }
    else { None }
}

/// The fallback chain as exec values.
pub fn fallback_chain_exec() -> (r: Vec<&'static str>)
    ensures
        r@.map_values(|s: &str| s@) == fallback_chain(),
{
    let v: Vec<&'static str> = vec!["en", "es", "pt", "fr", "ar"];
    assert(v@.map_values(|s: &str| s@) =~= fallback_chain());
    v
}

/// The supported locale codes as exec values, in table order.
pub fn supported_exec() -> (r: Vec<&'static str>)
    ensures
        r@.map_values(|s: &str| s@) == crate::i18n::locales::supported_codes(),
{
    let v: Vec<&'static str> = vec!["es", "en", "pt", "ar", "fr"];
    assert(v@.map_values(|s: &str| s@) =~= crate::i18n::locales::supported_codes());
    v
}

/// Every message key of the catalog, as exec values.
pub fn all_keys() -> (r: Vec<&'static str>)
    ensures
        r@.map_values(|s: &str| s@) == all_keys_spec(),
{
    let v: Vec<&'static str> = vec!["nav-home", "nav-wallet", "nav-stream", "nav-notifications",
        "nav-profile", "auth-login", "auth-register", "common-cancel", "common-save",
        "notification-count"];
    assert(v@.map_values(|s: &str| s@) =~= all_keys_spec());
    v
}

} // verus!
