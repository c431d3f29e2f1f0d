use atelierbuch::auth::{
    anmelden, hash_uebernehmen, erstkonto_sicherstellen, konto_anlegen, passwort_aendern, Anmeldedaten,
    AuthFehler, NeuesKonto, START_PASSWORT_LAENGE,
};

fn zeile(id: i64, k: &NeuesKonto) -> Anmeldedaten {
    Anmeldedaten {
        id,
        benutzername: k.benutzername.clone(),
        anzeigename: k.anzeigename.clone(),
        rolle: k.rolle.clone(),
        passwort_hash: k.passwort_hash.clone(),
    }
}

#[test]
fn angelegtes_konto_meldet_sich_an() {
    let k = konto_anlegen("mama", "Rosmarie Straub", "Faden-42", "inhaber").unwrap();
    assert_eq!(k.benutzername, "mama");
    assert_eq!(k.anzeigename, "Rosmarie Straub");
    assert_eq!(k.rolle, "inhaber");
    assert_ne!(k.passwort_hash, "Faden-42");
    assert!(k.passwort_hash.starts_with("$argon2id$v=19$m=19456,t=2,p=1$"));
    let rest = &k.passwort_hash["$argon2id$v=19$m=19456,t=2,p=1$".len()..];
    assert_eq!(rest.find('$'), Some(22));
    assert!(rest[..22].chars().all(|c| c.is_ascii_alphanumeric() || c == '+' || c == '/'));
    assert!("AQgw".contains(rest.chars().nth(21).unwrap()));

    let b = anmelden(Some(zeile(2, &k)), "Faden-42").unwrap();
    assert_eq!(b.id, 2);
    assert_eq!(b.benutzername, "mama");
    assert_eq!(b.anzeigename, "Rosmarie Straub");
    assert_eq!(b.rolle, "inhaber");

    assert!(matches!(anmelden(Some(zeile(2, &k)), "faden-42"), Err(AuthFehler::UngueltigeAnmeldung)));
}

#[test]
fn unbekannter_benutzer_oder_kaputter_hash() {
    assert!(matches!(anmelden(None, "egal"), Err(AuthFehler::UngueltigeAnmeldung)));
    let z = Anmeldedaten {
        id: 1,
        benutzername: "papa".to_string(),
        anzeigename: "Beat".to_string(),
        rolle: "inhaber".to_string(),
        passwort_hash: "geheim".to_string(),
    };
    assert!(matches!(anmelden(Some(z), "geheim"), Err(AuthFehler::UngueltigeAnmeldung)));
}

#[test]
fn geaendertes_passwort_gilt() {
    let k = konto_anlegen("papa", "Beat", "alt", "inhaber").unwrap();
    let w = passwort_aendern(7, "neu").unwrap();
    assert_eq!(w.benutzer_id, 7);
    let mut z = zeile(7, &k);
    z.passwort_hash = w.passwort_hash.clone();
    assert!(anmelden(Some(z), "neu").is_ok());
    let mut z_alt = zeile(7, &k);
    z_alt.passwort_hash = w.passwort_hash;
    assert!(matches!(anmelden(Some(z_alt), "alt"), Err(AuthFehler::UngueltigeAnmeldung)));
}

#[test]
fn erstkonto_nur_ohne_benutzer() {
    assert!(matches!(erstkonto_sicherstellen(1), Ok(None)));
    assert!(matches!(erstkonto_sicherstellen(2), Ok(None)));

    let e = erstkonto_sicherstellen(0).unwrap().unwrap();
    assert_eq!(e.benutzername, "papa");
    assert_eq!(e.konto.benutzername, "papa");
    assert_eq!(e.konto.anzeigename, "Rosmarie / Beat Straub");
    assert_eq!(e.konto.rolle, "inhaber");
    assert_eq!(e.start_passwort.chars().count(), START_PASSWORT_LAENGE);
    assert!(e.start_passwort.chars().all(|c| "ABCDEFGHJKLMNPQRSTUVWXYZ23456789".contains(c)));
    let b = anmelden(Some(zeile(1, &e.konto)), &e.start_passwort).unwrap();
    assert_eq!(b.benutzername, "papa");
}

#[test]
fn salz_ist_zufaellig() {
    let a = konto_anlegen("x", "x", "gleich", "inhaber").unwrap();
    let b = konto_anlegen("x", "x", "gleich", "inhaber").unwrap();
    assert_ne!(a.passwort_hash, b.passwort_hash);
}

#[test]
fn hashfehler_wird_hashing() {
    assert!(matches!(
        hash_uebernehmen(Err(argon2::password_hash::Error::Password)),
        Err(AuthFehler::Hashing)
    ));
    assert!(matches!(
        hash_uebernehmen(Err(argon2::password_hash::Error::SaltInvalid(
            argon2::password_hash::errors::InvalidValue::TooShort
        ))),
        Err(AuthFehler::Hashing)
    ));
    assert_eq!(hash_uebernehmen(Ok("$argon2id$x".to_string())).unwrap(), "$argon2id$x");
}

#[test]
fn leeres_passwort_wird_gehasht() {
    let k = konto_anlegen("leer", "Leer", "", "inhaber").unwrap();
    assert!(anmelden(Some(zeile(3, &k)), "").is_ok());
    assert!(matches!(anmelden(Some(zeile(3, &k)), " "), Err(AuthFehler::UngueltigeAnmeldung)));
}
