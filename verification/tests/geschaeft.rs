use atelierbuch::geschaeft::{
    posten_pruefen, suchanfrage, zaehler_auswerten, GeschaeftFehler, ERSTE_KUNDENNUMMER,
    ERSTE_RECHNUNGSNUMMER,
};
use atelierbuch::zahl::dezimal;

#[test]
fn zaehler_liest_den_wert() {
    assert_eq!(zaehler_auswerten("102", ERSTE_KUNDENNUMMER), 102);
    assert_eq!(zaehler_auswerten("1260", ERSTE_RECHNUNGSNUMMER), 1260);
    assert_eq!(zaehler_auswerten("abc", ERSTE_KUNDENNUMMER), 101);
    assert_eq!(zaehler_auswerten("", ERSTE_RECHNUNGSNUMMER), 1259);
    assert_eq!(zaehler_auswerten("12.0", 5), 5);
}

#[test]
fn neuer_zaehler_beginnt_beim_start() {
    for start in [ERSTE_KUNDENNUMMER, ERSTE_RECHNUNGSNUMMER] {
        assert_eq!(zaehler_auswerten(&dezimal(start), start), start);
    }
    assert_eq!(zaehler_auswerten(&dezimal(4711), 101), 4711);
}

#[test]
fn suchanfrage_trimmt_und_baut_muster() {
    let a = suchanfrage("  Müller ", true);
    assert_eq!(a.text, "Müller");
    assert_eq!(a.muster, "%Müller%");
    assert_eq!(a.archiv, 1);

    let b = suchanfrage("", false);
    assert_eq!(b.text, "");
    assert_eq!(b.muster, "%%");
    assert_eq!(b.archiv, 0);

    let c = suchanfrage(" \t\n ", false);
    assert_eq!(c.text, "");
    assert_eq!(c.muster, "%%");

    for s in ["\u{3000}Pfäffikon\u{a0}", "\u{2028}055 410\u{85}", "a b", "\u{200b}x", "  ", "x"] {
        let a = suchanfrage(s, false);
        assert_eq!(a.text, s.trim(), "{s:?}");
        assert_eq!(a.muster, format!("%{}%", s.trim()));
    }
}

#[test]
fn auftrag_braucht_posten() {
    assert!(matches!(posten_pruefen(0), Err(GeschaeftFehler::KeinePosten)));
    assert!(posten_pruefen(1).is_ok());
    assert!(posten_pruefen(3).is_ok());
}
