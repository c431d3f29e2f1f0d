//! Customers and orders: the rules around the running numbers, the search
//! and the order check.

use vstd::prelude::*;
use crate::text::{getrimmt, trimmen, zeichen_anhaengen};
use crate::zahl::{dezimal_text, lemma_dezimal_gelesen, zahl_gelesen, zahl_lesen};

verus! {

/// The error type of the database driver, carried through by the
/// library's own errors.
#[verifier::external_type_specification]
#[verifier::external_body]
pub struct ExDatenbankFehler(rusqlite::Error);

/// Why a customer or order operation failed.
#[derive(Debug)]
pub enum GeschaeftFehler {
    Datenbank(rusqlite::Error),
    KundeNichtGefunden,
    KeinePosten,
}

/// The fields of a customer to be created.
pub struct NeuerKunde {
    pub name: String,
    pub vorname: String,
    pub telefon: String,
    pub ort: String,
    pub adresse: String,
    pub email: String,
}

/// First customer number.
pub const ERSTE_KUNDENNUMMER: i64 = 101;

/// First invoice number.
pub const ERSTE_RECHNUNGSNUMMER: i64 = 1259;

/// The number a counter's stored text stands for: the text read as an
/// integer, or `start` where it does not read as one.
pub open spec fn zaehlerstand(wert: Seq<char>, start: i64) -> i64 {
    match zahl_gelesen(wert) {
        Some(n) => n,
        None => start,
    }
}

/// Reads the stored text of a counter after it was advanced: the integer it
/// holds, or `start` where it holds none.
pub fn zaehler_auswerten(wert: &str, start: i64) -> (n: i64)
    ensures
        n == zaehlerstand(wert@, start),
{
    match zahl_lesen(wert) {
        Some(n) => n,
        None => start,
    }
}

/// A counter reads back the number last stored in it as text; in
/// particular a new counter, stored as the text of `start`, gives `start`.
pub proof fn lemma_zaehler_liest_gespeicherten_wert(n: i64, start: i64)
    ensures
        zaehlerstand(dezimal_text(n as int), start) == n,
{
    lemma_dezimal_gelesen(n);
}

/// The parameters of a customer search.
pub struct Suchanfrage {
    /// The search text without surrounding whitespace; empty matches all.
    pub text: String,
    /// The `LIKE` pattern: the trimmed text between two `%`.
    pub muster: String,
    /// 1 where archived customers are shown too, else 0.
    pub archiv: i64,
}

/// The parameters for searching `suchtext` in name, first name, place and
/// telephone, with or without the archive.
pub fn suchanfrage(suchtext: &str, archiv_zeigen: bool) -> (anfrage: Suchanfrage)
    ensures
        anfrage.text@ == getrimmt(suchtext@),
        anfrage.muster@ == seq!['%'] + getrimmt(suchtext@) + seq!['%'],
        anfrage.archiv == if archiv_zeigen {
            1i64
        } else {
            0i64
        },
{
    let text = trimmen(suchtext);
    let mut muster = String::new();
    zeichen_anhaengen(&mut muster, '%');
    muster.append(text.as_str());
    zeichen_anhaengen(&mut muster, '%');
    let archiv: i64 = if archiv_zeigen {
        1
    } else {
        0
    };
    assert(muster@ =~= seq!['%'] + getrimmt(suchtext@) + seq!['%']);
    Suchanfrage { text, muster, archiv }
}

/// An order needs at least one item.
pub fn posten_pruefen(anzahl_posten: usize) -> (res: Result<(), GeschaeftFehler>)
    ensures
        res is Ok <==> anzahl_posten > 0,
        res matches Err(e) ==> e is KeinePosten,
{
    if anzahl_posten == 0 {
        Err(GeschaeftFehler::KeinePosten)
    } else {
        Ok(())
    }
}

} // verus!
