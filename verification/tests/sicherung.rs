use atelierbuch::sicherung::{
    auftraege_csv, csv_datei_bytes, csv_feld, kunden_csv, zu_loeschende_sicherungen,
    AuftragsZeile, KundenZeile, BEHALTENE_SICHERUNGEN,
};

#[test]
fn csv_feld_schuetzt_trennzeichen() {
    assert_eq!(csv_feld("Meier"), "Meier");
    assert_eq!(csv_feld(""), "");
    assert_eq!(csv_feld("Meier, Hans"), "\"Meier, Hans\"");
    assert_eq!(csv_feld("Sag \"Hallo\""), "\"Sag \"\"Hallo\"\"\"");
    assert_eq!(csv_feld("a\nb"), "\"a\nb\"");
    assert_eq!(csv_feld("\""), "\"\"\"\"");
    assert_eq!(csv_feld("Zürich; Bern"), "Zürich; Bern");
}

fn feld_lesen(f: &str) -> String {
    if f.len() >= 2 && f.starts_with('"') && f.ends_with('"') {
        f[1..f.len() - 1].replace("\"\"", "\"")
    } else {
        f.to_string()
    }
}

#[test]
fn csv_feld_wird_zurueckgelesen() {
    for t in ["Meier", "", "a,b", "\"", "\"\"", "x\"y\"z", "Zeile 1\nZeile 2", "\"Anf\", Ende"] {
        assert_eq!(feld_lesen(&csv_feld(t)), t, "{t:?}");
    }
}

fn kunde(nummer: i64, name: &str, archiviert: bool) -> KundenZeile {
    KundenZeile {
        nummer,
        name: name.to_string(),
        vorname: "Anna".to_string(),
        ort: "Pfäffikon SZ".to_string(),
        telefon: "055 410 00 00".to_string(),
        kartensatz: "1.5".to_string(),
        jahresumsatz: "120.00".to_string(),
        archiviert,
    }
}

#[test]
fn kundenliste() {
    let leer = kunden_csv(&Vec::new());
    assert_eq!(leer, "Nummer,Name,Vorname,Ort,Telefon,Kartensatz,Jahresumsatz,Archiviert\n");
    let mut ohne_karte = kunde(102, "Keller", true);
    ohne_karte.kartensatz = String::new();
    let csv = kunden_csv(&vec![kunde(101, "Müller, Ruth", false), ohne_karte]);
    assert_eq!(
        csv,
        "Nummer,Name,Vorname,Ort,Telefon,Kartensatz,Jahresumsatz,Archiviert\n\
         101,\"Müller, Ruth\",Anna,Pfäffikon SZ,055 410 00 00,1.5,120.00,nein\n\
         102,Keller,Anna,Pfäffikon SZ,055 410 00 00,,120.00,ja\n"
    );
}

#[test]
fn auftragsliste() {
    let zeilen = vec![
        AuftragsZeile {
            rechnungsnummer: 1259,
            datum: "2025-03-01".to_string(),
            kundennummer: 101,
            name: "Huber".to_string(),
            vorname: "Eva \"Evi\"".to_string(),
            zahlart: "Twint".to_string(),
            betrag: "45.50".to_string(),
        },
        AuftragsZeile {
            rechnungsnummer: 1260,
            datum: "2025-03-02".to_string(),
            kundennummer: -3,
            name: "Graf".to_string(),
            vorname: String::new(),
            zahlart: "Bar".to_string(),
            betrag: "0.00".to_string(),
        },
    ];
    assert_eq!(
        auftraege_csv(&zeilen),
        "Rechnungsnr,Datum,Kundennr,Name,Vorname,Zahlart,Betrag\n\
         1259,2025-03-01,101,Huber,\"Eva \"\"Evi\"\"\",Twint,45.50\n\
         1260,2025-03-02,-3,Graf,,Bar,0.00\n"
    );
    assert_eq!(auftraege_csv(&Vec::new()), "Rechnungsnr,Datum,Kundennr,Name,Vorname,Zahlart,Betrag\n");
}

#[test]
fn datei_beginnt_mit_bom() {
    let bytes = csv_datei_bytes("Müller,1\n");
    let mut erwartet = vec![0xEF, 0xBB, 0xBF];
    erwartet.extend_from_slice("Müller,1\n".as_bytes());
    assert_eq!(bytes, erwartet);
    assert_eq!(csv_datei_bytes(""), vec![0xEF, 0xBB, 0xBF]);
}

fn ordnername(i: usize) -> String {
    format!("2025-{:02}-{:02}_08-{:02}", 1 + i / 28 % 12, 1 + i % 28, i % 60)
}

#[test]
fn wenige_sicherungen_bleiben() {
    let namen: Vec<String> = (0..3).map(ordnername).collect();
    assert!(zu_loeschende_sicherungen(&namen).is_empty());
    let sechzig: Vec<String> = (0..BEHALTENE_SICHERUNGEN).map(ordnername).collect();
    assert!(zu_loeschende_sicherungen(&sechzig).is_empty());
    assert!(zu_loeschende_sicherungen(&Vec::new()).is_empty());
}

#[test]
fn aelteste_sicherungen_werden_geloescht() {
    let mut namen: Vec<String> = (0..63).map(ordnername).collect();
    let mut erwartet = namen.clone();
    erwartet.sort();
    erwartet.truncate(3);
    namen.reverse();
    namen.swap(5, 40);
    let weg = zu_loeschende_sicherungen(&namen);
    assert_eq!(weg, erwartet);

    let einundsechzig: Vec<String> = (0..61).rev().map(ordnername).collect();
    assert_eq!(zu_loeschende_sicherungen(&einundsechzig), vec![ordnername(0)]);
}

#[test]
fn sortierung_wie_str() {
    let namen: Vec<String> = ["b", "a", "ab", "", "Z", "ä", "a", "ba", "B"]
        .iter()
        .map(|s| s.to_string())
        .chain((0..60).map(|i| format!("zz{i:02}")))
        .collect();
    let mut erwartet = namen.clone();
    erwartet.sort();
    erwartet.truncate(namen.len() - 60);
    assert_eq!(zu_loeschende_sicherungen(&namen), erwartet);
}

use atelierbuch::sicherung::{sicherungs_name, Zeitpunkt};

fn name_wie_chrono(jahr: i32, monat: u32, tag: u32, stunde: u32, minute: u32) {
    let z = Zeitpunkt { jahr, monat, tag, stunde, minute };
    let erwartet = chrono::NaiveDate::from_ymd_opt(jahr, monat, tag)
        .unwrap()
        .and_hms_opt(stunde, minute, 0)
        .unwrap()
        .format("%Y-%m-%d_%H-%M")
        .to_string();
    assert_eq!(sicherungs_name(&z), erwartet);
}

#[test]
fn ordnername_wie_uhrzeit_format() {
    assert_eq!(
        sicherungs_name(&Zeitpunkt { jahr: 2025, monat: 3, tag: 7, stunde: 8, minute: 5 }),
        "2025-03-07_08-05"
    );
    name_wie_chrono(2025, 12, 31, 23, 59);
    name_wie_chrono(999, 1, 1, 0, 0);
    name_wie_chrono(5, 6, 15, 12, 30);
    name_wie_chrono(0, 2, 29, 1, 1);
    name_wie_chrono(10000, 1, 1, 0, 0);
    name_wie_chrono(123456, 7, 4, 9, 9);
    name_wie_chrono(-5, 5, 5, 5, 5);
    name_wie_chrono(-12345, 10, 10, 10, 10);
}

#[test]
fn ordnernamen_sortieren_nach_zeit() {
    let zeiten = [
        (2024, 12, 31, 23, 59),
        (2025, 1, 1, 0, 0),
        (2025, 1, 1, 0, 1),
        (2025, 1, 1, 10, 0),
        (2025, 1, 2, 9, 59),
        (2025, 10, 1, 0, 0),
    ];
    let namen: Vec<String> = zeiten
        .iter()
        .map(|&(jahr, monat, tag, stunde, minute)| {
            sicherungs_name(&Zeitpunkt { jahr, monat, tag, stunde, minute })
        })
        .collect();
    for i in 1..namen.len() {
        assert!(namen[i - 1] < namen[i]);
    }
}
