//! The backup: what goes into the two CSV files (customers and orders), how
//! a field is protected for spreadsheet programs, and which old backup
//! folders are cleared away.

use vstd::prelude::*;
use crate::text::zeichen_anhaengen;
use crate::zahl::{
    dezimal, dezimal_text, lemma_dezimal_gelesen, lemma_ziffer, lemma_ziffern, nur_ziffern, zahl_gelesen,
    ziffer_fuer, ziffer_zeichen, ziffern, ziffern_wert,
};
use crate::ordnung::{ansichten, lex_kleiner, lex_kleiner_gleich, namensordnung, namen_sortieren, lemma_namensordnung_total};
use vstd::string::StringSliceAdditionalSpecFns;

verus! {

/// A character that forces a CSV field into quotes.
pub open spec fn ist_trennzeichen(c: char) -> bool {
    c == ',' || c == '"' || c == '\n'
}

/// Whether `t` holds a comma, a quote or a line break.
pub open spec fn braucht_anfuehrung(t: Seq<char>) -> bool {
    exists|i: int| 0 <= i < t.len() && ist_trennzeichen(#[trigger] t[i])
}

/// `t` with every quote doubled.
pub open spec fn anfuehrung_verdoppelt(t: Seq<char>) -> Seq<char>
    decreases t.len(),
{
    if t.len() == 0 {
        Seq::<char>::empty()
    } else {
        (if t[0] == '"' {
            seq!['"', '"']
        } else {
            seq![t[0]]
        }) + anfuehrung_verdoppelt(t.drop_first())
    }
}

/// A CSV field holding `t`: `t` itself, or, where it holds a comma, a quote
/// or a line break, `t` with doubled quotes between two quotes.
pub open spec fn csv_feld_text(t: Seq<char>) -> Seq<char> {
    if braucht_anfuehrung(t) {
        seq!['"'] + anfuehrung_verdoppelt(t) + seq!['"']
    } else {
        t
    }
}

/// Undoes the doubling of quotes, as a CSV reader does inside a quoted field.
pub open spec fn verdopplung_aufgehoben(s: Seq<char>) -> Seq<char>
    decreases s.len(),
{
    if s.len() == 0 {
        Seq::<char>::empty()
    } else if s.len() >= 2 && s[0] == '"' && s[1] == '"' {
        seq!['"'] + verdopplung_aufgehoben(s.skip(2))
    } else {
        seq![s[0]] + verdopplung_aufgehoben(s.drop_first())
    }
}

/// The text a CSV reader takes from the single field `f`.
pub open spec fn csv_feld_gelesen(f: Seq<char>) -> Seq<char> {
    if f.len() >= 2 && f[0] == '"' && f.last() == '"' {
        verdopplung_aufgehoben(f.subrange(1, f.len() - 1))
    } else {
        f
    }
}

/// Writes `text` as one CSV field: quoted, with doubled quotes, as soon as
/// it holds a comma, a quote or a line break, else unchanged.
pub fn csv_feld(text: &str) -> (feld: String)
    ensures
        feld@ == csv_feld_text(text@),
{
    let n = text.unicode_len();
    let mut braucht = false;
    let mut i: usize = 0;
    while i < n
        invariant
            i <= n,
            n == text@.len(),
            braucht == exists|j: int| 0 <= j < i && ist_trennzeichen(#[trigger] text@[j]),
        decreases n - i,
    {
        let c = text.get_char(i);
        if c == ',' || c == '"' || c == '\n' {
            braucht = true;
        }
        i = i + 1;
    }
    if !braucht {
        return String::from_str(text);
    }
    let mut feld = String::new();
    zeichen_anhaengen(&mut feld, '"');
    let mut k: usize = 0;
    assert(text@.skip(0) =~= text@);
    while k < n
        invariant
            k <= n,
            n == text@.len(),
            seq!['"'] + anfuehrung_verdoppelt(text@) == feld@ + anfuehrung_verdoppelt(
                text@.skip(k as int),
            ),
        decreases n - k,
    {
        let c = text.get_char(k);
        assert(text@.skip(k as int).drop_first() =~= text@.skip(k + 1));
        if c == '"' {
            zeichen_anhaengen(&mut feld, '"');
            zeichen_anhaengen(&mut feld, '"');
        } else {
            zeichen_anhaengen(&mut feld, c);
        }
        k = k + 1;
    }
    assert(anfuehrung_verdoppelt(text@.skip(n as int)) =~= Seq::<char>::empty());
    zeichen_anhaengen(&mut feld, '"');
    feld
}

proof fn lemma_verdopplung_aufgehoben(t: Seq<char>)
    ensures
        verdopplung_aufgehoben(anfuehrung_verdoppelt(t)) == t,
    decreases t.len(),
{
    if t.len() > 0 {
        let v = anfuehrung_verdoppelt(t);
        let rest = anfuehrung_verdoppelt(t.drop_first());
        lemma_verdopplung_aufgehoben(t.drop_first());
        if t[0] == '"' {
            assert(v.skip(2) =~= rest);
        } else {
            assert(v.drop_first() =~= rest);
        }
        assert(verdopplung_aufgehoben(v) =~= t);
    } else {
        assert(anfuehrung_verdoppelt(t) =~= Seq::<char>::empty());
    }
}

/// A CSV reader gets back from a written field exactly the text that went
/// in, whatever commas, quotes or line breaks it holds.
pub proof fn lemma_csv_feld_gelesen(t: Seq<char>)
    ensures
        csv_feld_gelesen(csv_feld_text(t)) == t,
{
    let f = csv_feld_text(t);
    if braucht_anfuehrung(t) {
        lemma_verdopplung_aufgehoben(t);
        assert(f.subrange(1, f.len() - 1) =~= anfuehrung_verdoppelt(t));
    } else {
        if t.len() >= 2 && t[0] == '"' {
            assert(ist_trennzeichen(t[0]));
        }
    }
}


/// `s` holds no comma, quote or line break.
pub open spec fn ohne_csv_sonderzeichen(s: Seq<char>) -> bool {
    forall|i: int| 0 <= i < s.len() ==> #[trigger] s[i] != ',' && s[i] != '"' && s[i] != '\n'
}

/// A CSV reader on one line, from the state (`in_anfuehrung`, `feld`):
/// fields end at a comma outside quotes, a quote opens or closes a quoted
/// part, and inside quotes a doubled quote stands for one quote.
pub open spec fn csv_lesen(s: Seq<char>, in_anfuehrung: bool, feld: Seq<char>) -> Seq<Seq<char>>
    decreases s.len(),
{
    if s.len() == 0 {
        seq![feld]
    } else {
        let c = s[0];
        let r = s.drop_first();
        if in_anfuehrung {
            if c == '"' {
                if r.len() > 0 && r[0] == '"' {
                    csv_lesen(r.drop_first(), true, feld.push('"'))
                } else {
                    csv_lesen(r, false, feld)
                }
            } else {
                csv_lesen(r, true, feld.push(c))
            }
        } else if c == ',' {
            seq![feld] + csv_lesen(r, false, Seq::<char>::empty())
        } else if c == '"' {
            csv_lesen(r, true, feld)
        } else {
            csv_lesen(r, false, feld.push(c))
        }
    }
}

/// The fields a CSV reader takes from the line `zeile` (without its line
/// break).
pub open spec fn csv_zeile_gelesen(zeile: Seq<char>) -> Seq<Seq<char>> {
    csv_lesen(zeile, false, Seq::<char>::empty())
}

proof fn lemma_roh_gelesen(t: Seq<char>, rest: Seq<char>, acc: Seq<char>)
    requires
        ohne_csv_sonderzeichen(t),
    ensures
        csv_lesen(t + rest, false, acc) == csv_lesen(rest, false, acc + t),
    decreases t.len(),
{
    if t.len() == 0 {
        assert(t + rest =~= rest);
        assert(acc + t =~= acc);
    } else {
        assert(t[0] != ',' && t[0] != '"' && t[0] != '\n');
        assert((t + rest)[0] == t[0]);
        assert((t + rest).drop_first() =~= t.drop_first() + rest);
        assert(ohne_csv_sonderzeichen(t.drop_first())) by {
            assert forall|i: int| 0 <= i < t.drop_first().len() implies #[trigger] t.drop_first()[i]
                != ',' && t.drop_first()[i] != '"' && t.drop_first()[i] != '\n' by {
                assert(t.drop_first()[i] == t[i + 1]);
            }
        }
        lemma_roh_gelesen(t.drop_first(), rest, acc.push(t[0]));
        assert(acc.push(t[0]) + t.drop_first() =~= acc + t);
    }
}

proof fn lemma_verdoppelt_gelesen(t: Seq<char>, rest: Seq<char>, acc: Seq<char>)
    requires
        rest.len() == 0 || rest[0] != '"',
    ensures
        csv_lesen(anfuehrung_verdoppelt(t) + seq!['"'] + rest, true, acc) == csv_lesen(
            rest,
            false,
            acc + t,
        ),
    decreases t.len(),
{
    let s = anfuehrung_verdoppelt(t) + seq!['"'] + rest;
    if t.len() == 0 {
        assert(anfuehrung_verdoppelt(t) =~= Seq::<char>::empty());
        assert(s[0] == '"');
        assert(s.drop_first() =~= rest);
        assert(acc + t =~= acc);
    } else {
        let weiter = anfuehrung_verdoppelt(t.drop_first()) + seq!['"'] + rest;
        lemma_verdoppelt_gelesen(t.drop_first(), rest, acc.push(t[0]));
        if t[0] == '"' {
            assert(s =~= seq!['"', '"'] + weiter);
            assert(s.drop_first().drop_first() =~= weiter);
        } else {
            assert(s =~= seq![t[0]] + weiter);
            assert(s.drop_first() =~= weiter);
        }
        assert(acc.push(t[0]) + t.drop_first() =~= acc + t);
    }
}

proof fn lemma_feld_gelesen(t: Seq<char>, rest: Seq<char>, acc: Seq<char>)
    requires
        rest.len() == 0 || rest[0] != '"',
    ensures
        csv_lesen(csv_feld_text(t) + rest, false, acc) == csv_lesen(rest, false, acc + t),
{
    if braucht_anfuehrung(t) {
        let f = csv_feld_text(t) + rest;
        assert(f[0] == '"');
        assert(f.drop_first() =~= anfuehrung_verdoppelt(t) + seq!['"'] + rest);
        lemma_verdoppelt_gelesen(t, rest, acc);
    } else {
        assert(ohne_csv_sonderzeichen(t)) by {
            assert forall|i: int| 0 <= i < t.len() implies #[trigger] t[i] != ',' && t[i] != '"'
                && t[i] != '\n' by {
                if !(t[i] != ',' && t[i] != '"' && t[i] != '\n') {
                    assert(ist_trennzeichen(t[i]));
                }
            }
        }
        lemma_roh_gelesen(t, rest, acc);
    }
}

proof fn lemma_komma(t: Seq<char>, rest: Seq<char>)
    ensures
        csv_lesen(seq![','] + rest, false, t) == seq![t] + csv_zeile_gelesen(rest),
{
    assert((seq![','] + rest).drop_first() =~= rest);
}

proof fn lemma_geschuetztes_feld(t: Seq<char>, rest: Seq<char>)
    ensures
        csv_zeile_gelesen(csv_feld_text(t) + (seq![','] + rest)) == seq![t] + csv_zeile_gelesen(
            rest,
        ),
{
    lemma_feld_gelesen(t, seq![','] + rest, Seq::<char>::empty());
    assert(Seq::<char>::empty() + t =~= t);
    lemma_komma(t, rest);
}

proof fn lemma_rohes_feld(t: Seq<char>, rest: Seq<char>)
    requires
        ohne_csv_sonderzeichen(t),
    ensures
        csv_zeile_gelesen(t + (seq![','] + rest)) == seq![t] + csv_zeile_gelesen(rest),
{
    lemma_roh_gelesen(t, seq![','] + rest, Seq::<char>::empty());
    assert(Seq::<char>::empty() + t =~= t);
    lemma_komma(t, rest);
}

proof fn lemma_rohes_letztes_feld(t: Seq<char>)
    requires
        ohne_csv_sonderzeichen(t),
    ensures
        csv_zeile_gelesen(t) == seq![t],
{
    lemma_roh_gelesen(t, Seq::<char>::empty(), Seq::<char>::empty());
    assert(t + Seq::<char>::empty() =~= t);
    assert(Seq::<char>::empty() + t =~= t);
}

proof fn lemma_zahl_ohne_sonderzeichen(n: i64)
    ensures
        ohne_csv_sonderzeichen(dezimal_text(n as int)),
        zahl_gelesen(dezimal_text(n as int)) == Some(n),
{
    lemma_dezimal_gelesen(n);
    let m: nat = if n < 0 {
        (-n) as nat
    } else {
        n as nat
    };
    lemma_ziffern(m);
    let s = dezimal_text(n as int);
    assert forall|i: int| 0 <= i < s.len() implies #[trigger] s[i] != ',' && s[i] != '"' && s[i]
        != '\n' by {
        if n < 0 && i > 0 {
            assert(s[i] == ziffern(m)[i - 1]);
        }
    }
}

/// A field written by [`csv_feld`] is protected: it is the text unchanged
/// where that holds no comma, quote or line break, else it is quoted; an
/// unquoted field never holds one of them; and a CSV reader takes from it
/// exactly one field, the text.
pub proof fn lemma_csv_feld_geschuetzt(t: Seq<char>)
    ensures
        (forall|i: int| 0 <= i < t.len() ==> #[trigger] t[i] != ',' && t[i] != '"' && t[i] != '\n')
            ==> csv_feld_text(t) == t,
        (exists|i: int| 0 <= i < t.len() && (#[trigger] t[i] == ',' || t[i] == '"' || t[i] == '\n'))
            ==> ({
            let f = csv_feld_text(t);
            f.len() >= 2 && f[0] == '"' && f.last() == '"'
        }),
        csv_feld_text(t).len() == 0 || csv_feld_text(t)[0] != '"' ==> ohne_csv_sonderzeichen(
            csv_feld_text(t),
        ),
        csv_zeile_gelesen(csv_feld_text(t)) == seq![t],
{
    if exists|i: int| 0 <= i < t.len() && (#[trigger] t[i] == ',' || t[i] == '"' || t[i] == '\n') {
        let i = choose|i: int| 0 <= i < t.len() && (#[trigger] t[i] == ',' || t[i] == '"' || t[i]
            == '\n');
        assert(ist_trennzeichen(t[i]));
    }
    if !braucht_anfuehrung(t) {
        assert forall|i: int| 0 <= i < t.len() implies #[trigger] t[i] != ',' && t[i] != '"' && t[i]
            != '\n' by {
            if !(t[i] != ',' && t[i] != '"' && t[i] != '\n') {
                assert(ist_trennzeichen(t[i]));
            }
        }
    }
    lemma_feld_gelesen(t, Seq::<char>::empty(), Seq::<char>::empty());
    assert(csv_feld_text(t) + Seq::<char>::empty() =~= csv_feld_text(t));
    assert(Seq::<char>::empty() + t =~= t);
}

/// One customer as the customer list of the backup shows it. Card rate and
/// yearly turnover come already written as text.
pub struct KundenZeile {
    pub nummer: i64,
    pub name: String,
    pub vorname: String,
    pub ort: String,
    pub telefon: String,
    pub kartensatz: String,
    pub jahresumsatz: String,
    pub archiviert: bool,
}

/// One order as the order list of the backup shows it. The amount comes
/// already written as text.
pub struct AuftragsZeile {
    pub rechnungsnummer: i64,
    pub datum: String,
    pub kundennummer: i64,
    pub name: String,
    pub vorname: String,
    pub zahlart: String,
    pub betrag: String,
}

/// First line of the customer list.
pub open spec fn kunden_kopf() -> Seq<char> {
    "Nummer,Name,Vorname,Ort,Telefon,Kartensatz,Jahresumsatz,Archiviert\n"@
}

/// First line of the order list.
pub open spec fn auftraege_kopf() -> Seq<char> {
    "Rechnungsnr,Datum,Kundennr,Name,Vorname,Zahlart,Betrag\n"@
}

/// `ja` or `nein`.
pub open spec fn ja_nein(b: bool) -> Seq<char> {
    if b {
        seq!['j', 'a']
    } else {
        seq!['n', 'e', 'i', 'n']
    }
}

/// The line of the customer list for `z`.
pub open spec fn kunden_zeile_text(z: KundenZeile) -> Seq<char> {
    dezimal_text(z.nummer as int) + seq![','] + csv_feld_text(z.name@) + seq![','] + csv_feld_text(
        z.vorname@,
    ) + seq![','] + csv_feld_text(z.ort@) + seq![','] + csv_feld_text(z.telefon@) + seq![',']
        + z.kartensatz@ + seq![','] + z.jahresumsatz@ + seq![','] + ja_nein(z.archiviert) + seq![
        '\n',
    ]
}

/// The line of the order list for `z`.
pub open spec fn auftrags_zeile_text(z: AuftragsZeile) -> Seq<char> {
    dezimal_text(z.rechnungsnummer as int) + seq![','] + z.datum@ + seq![','] + dezimal_text(
        z.kundennummer as int,
    ) + seq![','] + csv_feld_text(z.name@) + seq![','] + csv_feld_text(z.vorname@) + seq![',']
        + z.zahlart@ + seq![','] + z.betrag@ + seq!['\n']
}

/// The lines of the customer list for `zeilen`, in their order.
pub open spec fn kunden_zeilen_text(zeilen: Seq<KundenZeile>) -> Seq<char>
    decreases zeilen.len(),
{
    if zeilen.len() == 0 {
        Seq::<char>::empty()
    } else {
        kunden_zeilen_text(zeilen.drop_last()) + kunden_zeile_text(zeilen.last())
    }
}

/// The lines of the order list for `zeilen`, in their order.
pub open spec fn auftrags_zeilen_text(zeilen: Seq<AuftragsZeile>) -> Seq<char>
    decreases zeilen.len(),
{
    if zeilen.len() == 0 {
        Seq::<char>::empty()
    } else {
        auftrags_zeilen_text(zeilen.drop_last()) + auftrags_zeile_text(zeilen.last())
    }
}

fn anhaengen(ziel: &mut String, teil: &String)
    ensures
        final(ziel)@ == old(ziel)@ + teil@,
{
    ziel.append(teil.as_str());
}

fn kunden_zeile(z: &KundenZeile) -> (zeile: String)
    ensures
        zeile@ == kunden_zeile_text(*z),
{
    let mut zeile = dezimal(z.nummer);
    zeichen_anhaengen(&mut zeile, ',');
    anhaengen(&mut zeile, &csv_feld(z.name.as_str()));
    zeichen_anhaengen(&mut zeile, ',');
    anhaengen(&mut zeile, &csv_feld(z.vorname.as_str()));
    zeichen_anhaengen(&mut zeile, ',');
    anhaengen(&mut zeile, &csv_feld(z.ort.as_str()));
    zeichen_anhaengen(&mut zeile, ',');
    anhaengen(&mut zeile, &csv_feld(z.telefon.as_str()));
    zeichen_anhaengen(&mut zeile, ',');
    anhaengen(&mut zeile, &z.kartensatz);
    zeichen_anhaengen(&mut zeile, ',');
    anhaengen(&mut zeile, &z.jahresumsatz);
    zeichen_anhaengen(&mut zeile, ',');
    if z.archiviert {
        zeichen_anhaengen(&mut zeile, 'j');
        zeichen_anhaengen(&mut zeile, 'a');
    } else {
        zeichen_anhaengen(&mut zeile, 'n');
        zeichen_anhaengen(&mut zeile, 'e');
        zeichen_anhaengen(&mut zeile, 'i');
        zeichen_anhaengen(&mut zeile, 'n');
    }
    zeichen_anhaengen(&mut zeile, '\n');
    assert(zeile@ =~= kunden_zeile_text(*z));
    zeile
}

fn auftrags_zeile(z: &AuftragsZeile) -> (zeile: String)
    ensures
        zeile@ == auftrags_zeile_text(*z),
{
    let mut zeile = dezimal(z.rechnungsnummer);
    zeichen_anhaengen(&mut zeile, ',');
    anhaengen(&mut zeile, &z.datum);
    zeichen_anhaengen(&mut zeile, ',');
    anhaengen(&mut zeile, &dezimal(z.kundennummer));
    zeichen_anhaengen(&mut zeile, ',');
    anhaengen(&mut zeile, &csv_feld(z.name.as_str()));
    zeichen_anhaengen(&mut zeile, ',');
    anhaengen(&mut zeile, &csv_feld(z.vorname.as_str()));
    zeichen_anhaengen(&mut zeile, ',');
    anhaengen(&mut zeile, &z.zahlart);
    zeichen_anhaengen(&mut zeile, ',');
    anhaengen(&mut zeile, &z.betrag);
    zeichen_anhaengen(&mut zeile, '\n');
    assert(zeile@ =~= auftrags_zeile_text(*z));
    zeile
}

/// The customer list of the backup: the header line, then one line per
/// customer in the given order.
pub fn kunden_csv(zeilen: &Vec<KundenZeile>) -> (csv: String)
    ensures
        csv@ == kunden_kopf() + kunden_zeilen_text(zeilen@),
{
    let mut csv = String::from_str("Nummer,Name,Vorname,Ort,Telefon,Kartensatz,Jahresumsatz,Archiviert\n");
    let mut i: usize = 0;
    while i < zeilen.len()
        invariant
            i <= zeilen.len(),
            csv@ == kunden_kopf() + kunden_zeilen_text(zeilen@.take(i as int)),
        decreases zeilen.len() - i,
    {
        let zeile = kunden_zeile(&zeilen[i]);
        anhaengen(&mut csv, &zeile);
        assert(zeilen@.take(i + 1).drop_last() =~= zeilen@.take(i as int));
        assert(csv@ =~= kunden_kopf() + kunden_zeilen_text(zeilen@.take(i + 1)));
        i = i + 1;
    }
    assert(zeilen@.take(i as int) =~= zeilen@);
    csv
}

/// The order list of the backup: the header line, then one line per order
/// in the given order.
pub fn auftraege_csv(zeilen: &Vec<AuftragsZeile>) -> (csv: String)
    ensures
        csv@ == auftraege_kopf() + auftrags_zeilen_text(zeilen@),
{
    let mut csv = String::from_str("Rechnungsnr,Datum,Kundennr,Name,Vorname,Zahlart,Betrag\n");
    let mut i: usize = 0;
    while i < zeilen.len()
        invariant
            i <= zeilen.len(),
            csv@ == auftraege_kopf() + auftrags_zeilen_text(zeilen@.take(i as int)),
        decreases zeilen.len() - i,
    {
        let zeile = auftrags_zeile(&zeilen[i]);
        anhaengen(&mut csv, &zeile);
        assert(zeilen@.take(i + 1).drop_last() =~= zeilen@.take(i as int));
        assert(csv@ =~= auftraege_kopf() + auftrags_zeilen_text(zeilen@.take(i + 1)));
        i = i + 1;
    }
    assert(zeilen@.take(i as int) =~= zeilen@);
    csv
}


/// `feld`, a comma, then `rest`.
pub open spec fn mit_komma(feld: Seq<char>, rest: Seq<char>) -> Seq<char> {
    feld + (seq![','] + rest)
}

proof fn lemma_acht_felder(
    f0: Seq<char>,
    f1: Seq<char>,
    f2: Seq<char>,
    f3: Seq<char>,
    f4: Seq<char>,
    f5: Seq<char>,
    f6: Seq<char>,
    f7: Seq<char>,
)
    ensures
        f0 + seq![','] + f1 + seq![','] + f2 + seq![','] + f3 + seq![','] + f4 + seq![','] + f5
            + seq![','] + f6 + seq![','] + f7 == mit_komma(
            f0,
            mit_komma(f1, mit_komma(f2, mit_komma(f3, mit_komma(f4, mit_komma(f5, mit_komma(f6, f7)))))),
        ),
{
    let c = seq![','];
    let r6 = mit_komma(f6, f7);
    let r5 = mit_komma(f5, r6);
    let r4 = mit_komma(f4, r5);
    let r3 = mit_komma(f3, r4);
    let r2 = mit_komma(f2, r3);
    let r1 = mit_komma(f1, r2);
    assert(f0 + c + f1 + c + f2 + c + f3 + c + f4 + c + f5 + c + f6 + c + f7 =~= mit_komma(f0, r1));
}

proof fn lemma_kundenzeile_zerlegt(z: KundenZeile)
    ensures
        kunden_zeile_text(z).len() > 0,
        kunden_zeile_text(z).last() == '\n',
        kunden_zeile_text(z).drop_last() == mit_komma(
            dezimal_text(z.nummer as int),
            mit_komma(
                csv_feld_text(z.name@),
                mit_komma(
                    csv_feld_text(z.vorname@),
                    mit_komma(
                        csv_feld_text(z.ort@),
                        mit_komma(
                            csv_feld_text(z.telefon@),
                            mit_komma(
                                z.kartensatz@,
                                mit_komma(z.jahresumsatz@, ja_nein(z.archiviert)),
                            ),
                        ),
                    ),
                ),
            ),
        ),
{
    let links = dezimal_text(z.nummer as int) + seq![','] + csv_feld_text(z.name@) + seq![',']
        + csv_feld_text(z.vorname@) + seq![','] + csv_feld_text(z.ort@) + seq![','] + csv_feld_text(
        z.telefon@,
    ) + seq![','] + z.kartensatz@ + seq![','] + z.jahresumsatz@ + seq![','] + ja_nein(
        z.archiviert,
    );
    assert(kunden_zeile_text(z) == links + seq!['\n']);
    assert((links + seq!['\n']).drop_last() =~= links);
    lemma_acht_felder(
        dezimal_text(z.nummer as int),
        csv_feld_text(z.name@),
        csv_feld_text(z.vorname@),
        csv_feld_text(z.ort@),
        csv_feld_text(z.telefon@),
        z.kartensatz@,
        z.jahresumsatz@,
        ja_nein(z.archiviert),
    );
}

/// Every line of the customer list is one CSV record of eight fields: a
/// CSV reader gets back the number, name, first name, place, telephone,
/// card rate, yearly turnover and `ja`/`nein`, whatever commas, quotes or
/// line breaks the four texts hold (card rate and turnover, written by the
/// program as plain numbers, hold none).
pub proof fn lemma_kundenzeile_gelesen(z: KundenZeile)
    requires
        ohne_csv_sonderzeichen(z.kartensatz@),
        ohne_csv_sonderzeichen(z.jahresumsatz@),
    ensures
        kunden_zeile_text(z).len() > 0,
        kunden_zeile_text(z).last() == '\n',
        ({
            let felder = csv_zeile_gelesen(kunden_zeile_text(z).drop_last());
            &&& felder.len() == 8
            &&& zahl_gelesen(felder[0]) == Some(z.nummer)
            &&& felder[1] == z.name@
            &&& felder[2] == z.vorname@
            &&& felder[3] == z.ort@
            &&& felder[4] == z.telefon@
            &&& felder[5] == z.kartensatz@
            &&& felder[6] == z.jahresumsatz@
            &&& felder[7] == if z.archiviert {
                seq!['j', 'a']
            } else {
                seq!['n', 'e', 'i', 'n']
            }
        }),
{
    let n = dezimal_text(z.nummer as int);
    let j = ja_nein(z.archiviert);
    let s7 = j;
    let s6 = z.jahresumsatz@ + (seq![','] + s7);
    let s5 = z.kartensatz@ + (seq![','] + s6);
    let s4 = csv_feld_text(z.telefon@) + (seq![','] + s5);
    let s3 = csv_feld_text(z.ort@) + (seq![','] + s4);
    let s2 = csv_feld_text(z.vorname@) + (seq![','] + s3);
    let s1 = csv_feld_text(z.name@) + (seq![','] + s2);
    let s0 = n + (seq![','] + s1);
    lemma_kundenzeile_zerlegt(z);
    lemma_zahl_ohne_sonderzeichen(z.nummer);
    assert(ohne_csv_sonderzeichen(j));
    lemma_rohes_letztes_feld(j);
    lemma_rohes_feld(z.jahresumsatz@, s7);
    lemma_rohes_feld(z.kartensatz@, s6);
    lemma_geschuetztes_feld(z.telefon@, s5);
    lemma_geschuetztes_feld(z.ort@, s4);
    lemma_geschuetztes_feld(z.vorname@, s3);
    lemma_geschuetztes_feld(z.name@, s2);
    lemma_rohes_feld(n, s1);
    assert(csv_zeile_gelesen(s5) =~= seq![z.kartensatz@, z.jahresumsatz@, j]);
    assert(csv_zeile_gelesen(s3) =~= seq![z.ort@, z.telefon@, z.kartensatz@, z.jahresumsatz@, j]);
    assert(csv_zeile_gelesen(s0) =~= seq![
        n,
        z.name@,
        z.vorname@,
        z.ort@,
        z.telefon@,
        z.kartensatz@,
        z.jahresumsatz@,
        j,
    ]);
}

/// Every line of the order list is one CSV record of seven fields: a CSV
/// reader gets back the invoice number, date, customer number, name, first
/// name, payment type and amount, whatever commas, quotes or line breaks
/// name and first name hold (date, payment type and amount, written by the
/// program, hold none).
pub proof fn lemma_auftragszeile_gelesen(z: AuftragsZeile)
    requires
        ohne_csv_sonderzeichen(z.datum@),
        ohne_csv_sonderzeichen(z.zahlart@),
        ohne_csv_sonderzeichen(z.betrag@),
    ensures
        auftrags_zeile_text(z).len() > 0,
        auftrags_zeile_text(z).last() == '\n',
        ({
            let felder = csv_zeile_gelesen(auftrags_zeile_text(z).drop_last());
            &&& felder.len() == 7
            &&& zahl_gelesen(felder[0]) == Some(z.rechnungsnummer)
            &&& felder[1] == z.datum@
            &&& zahl_gelesen(felder[2]) == Some(z.kundennummer)
            &&& felder[3] == z.name@
            &&& felder[4] == z.vorname@
            &&& felder[5] == z.zahlart@
            &&& felder[6] == z.betrag@
        }),
{
    let r = dezimal_text(z.rechnungsnummer as int);
    let k = dezimal_text(z.kundennummer as int);
    let s6 = z.betrag@;
    let s5 = z.zahlart@ + (seq![','] + s6);
    let s4 = csv_feld_text(z.vorname@) + (seq![','] + s5);
    let s3 = csv_feld_text(z.name@) + (seq![','] + s4);
    let s2 = k + (seq![','] + s3);
    let s1 = z.datum@ + (seq![','] + s2);
    let s0 = r + (seq![','] + s1);
    assert(auftrags_zeile_text(z).drop_last() =~= s0);
    lemma_zahl_ohne_sonderzeichen(z.rechnungsnummer);
    lemma_zahl_ohne_sonderzeichen(z.kundennummer);
    lemma_rohes_letztes_feld(s6);
    lemma_rohes_feld(z.zahlart@, s6);
    lemma_geschuetztes_feld(z.vorname@, s5);
    lemma_geschuetztes_feld(z.name@, s4);
    lemma_rohes_feld(k, s3);
    lemma_rohes_feld(z.datum@, s2);
    lemma_rohes_feld(r, s1);
    assert(csv_zeile_gelesen(s0) =~= seq![
        r,
        z.datum@,
        k,
        z.name@,
        z.vorname@,
        z.zahlart@,
        z.betrag@,
    ]);
}

/// The byte order mark that spreadsheet programs take as the sign of UTF-8.
pub open spec fn bom() -> Seq<u8> {
    seq![0xEFu8, 0xBBu8, 0xBFu8]
}

/// The bytes of a CSV file holding `inhalt`: the byte order mark, so that
/// umlauts show correctly in a spreadsheet program, then `inhalt` in UTF-8.
pub fn csv_datei_bytes(inhalt: &str) -> (bytes: Vec<u8>)
    ensures
        bytes@ == bom() + inhalt.spec_bytes(),
{
    let mut bytes: Vec<u8> = Vec::new();
    bytes.push(0xEFu8);
    bytes.push(0xBBu8);
    bytes.push(0xBFu8);
    let mut rest = inhalt.as_bytes_vec();
    bytes.append(&mut rest);
    assert(bytes@ =~= bom() + inhalt.spec_bytes());
    bytes
}

/// How many backup folders are kept.
pub const BEHALTENE_SICHERUNGEN: usize = 60;

/// How many of `n` backup folders are cleared away.
pub open spec fn anzahl_zu_loeschen(n: nat) -> nat {
    if n > BEHALTENE_SICHERUNGEN {
        (n - BEHALTENE_SICHERUNGEN) as nat
    } else {
        0
    }
}

/// The backup folders to clear away: with the names sorted, all but the
/// last [`BEHALTENE_SICHERUNGEN`], in ascending order.
pub fn zu_loeschende_sicherungen(namen: &Vec<String>) -> (weg: Vec<String>)
    ensures
        ansichten(weg@) == ansichten(namen@).sort_by(namensordnung()).take(
            anzahl_zu_loeschen(namen@.len()) as int,
        ),
{
    let mut sortiert = namen_sortieren(namen);
    proof {
        lemma_namensordnung_total();
        ansichten(namen@).lemma_sort_by_ensures(namensordnung());
        ansichten(namen@).to_multiset_ensures();
        ansichten(namen@).sort_by(namensordnung()).to_multiset_ensures();
    }
    let ghost ganz = sortiert@;
    assert(ganz.len() == namen@.len()) by {
        assert(ansichten(ganz).len() == ganz.len());
        assert(ansichten(namen@).len() == namen@.len());
    }
    let k: usize = if sortiert.len() > BEHALTENE_SICHERUNGEN {
        sortiert.len() - BEHALTENE_SICHERUNGEN
    } else {
        0
    };
    sortiert.truncate(k);
    assert(ansichten(sortiert@) =~= ansichten(ganz).take(k as int));
    sortiert
}

/// Clearing away old backups keeps the `min(n, 60)` folders with the
/// greatest names and removes the others, each of which sorts before every
/// kept one; nothing is lost or duplicated in the split.
pub proof fn lemma_sicherungen_aufraeumen(namen: Seq<Seq<char>>)
    ensures
        ({
            let sortiert = namen.sort_by(namensordnung());
            let k = anzahl_zu_loeschen(namen.len()) as int;
            let weg = sortiert.take(k);
            let bleibt = sortiert.skip(k);
            &&& bleibt.len() == if namen.len() > BEHALTENE_SICHERUNGEN {
                BEHALTENE_SICHERUNGEN as nat
            } else {
                namen.len()
            }
            &&& (weg + bleibt).to_multiset() == namen.to_multiset()
            &&& forall|a: int, b: int|
                0 <= a < weg.len() && 0 <= b < bleibt.len() ==> lex_kleiner_gleich(
                    #[trigger] weg[a],
                    #[trigger] bleibt[b],
                )
        }),
{
    let sortiert = namen.sort_by(namensordnung());
    lemma_namensordnung_total();
    namen.lemma_sort_by_ensures(namensordnung());
    namen.to_multiset_ensures();
    sortiert.to_multiset_ensures();
    let k = anzahl_zu_loeschen(namen.len()) as int;
    assert(sortiert.take(k) + sortiert.skip(k) =~= sortiert);
    assert forall|a: int, b: int|
        0 <= a < sortiert.take(k).len() && 0 <= b < sortiert.skip(k).len() implies lex_kleiner_gleich(
        #[trigger] sortiert.take(k)[a],
        #[trigger] sortiert.skip(k)[b],
    ) by {
        assert(namensordnung()(sortiert[a], sortiert[b + k]));
    }
}

/// The local time of a backup, to the minute.
pub struct Zeitpunkt {
    pub jahr: i32,
    pub monat: u32,
    pub tag: u32,
    pub stunde: u32,
    pub minute: u32,
}

/// The fields hold a time of day on a calendar day.
pub open spec fn ist_zeitpunkt(z: Zeitpunkt) -> bool {
    &&& 1 <= z.monat <= 12
    &&& 1 <= z.tag <= 31
    &&& z.stunde <= 23
    &&& z.minute <= 59
}

/// `a` lies before `b`: by year, then month, day, hour and minute.
pub open spec fn zeit_frueher(a: Zeitpunkt, b: Zeitpunkt) -> bool {
    ||| a.jahr < b.jahr
    ||| a.jahr == b.jahr && a.monat < b.monat
    ||| a.jahr == b.jahr && a.monat == b.monat && a.tag < b.tag
    ||| a.jahr == b.jahr && a.monat == b.monat && a.tag == b.tag && a.stunde < b.stunde
    ||| a.jahr == b.jahr && a.monat == b.monat && a.tag == b.tag && a.stunde == b.stunde
        && a.minute < b.minute
}

/// `v` (below 100) in two digits, with a leading zero.
pub open spec fn zwei_ziffern(v: int) -> Seq<char> {
    seq![ziffer_zeichen(v / 10), ziffer_zeichen(v % 10)]
}

/// `v` in at least four digits, with leading zeros.
pub open spec fn mindestens_vier_ziffern(v: nat) -> Seq<char> {
    if v < 10000 {
        zwei_ziffern((v / 100) as int) + zwei_ziffern((v % 100) as int)
    } else {
        ziffern(v)
    }
}

/// The year as `%Y` writes it: four digits for 0 to 9999, else with a sign
/// before at least four digits.
pub open spec fn jahr_text(y: int) -> Seq<char> {
    if 0 <= y <= 9999 {
        mindestens_vier_ziffern(y as nat)
    } else if y > 9999 {
        seq!['+'] + ziffern(y as nat)
    } else {
        seq!['-'] + mindestens_vier_ziffern((-y) as nat)
    }
}

/// The name of the backup folder for `z`, the format `%Y-%m-%d_%H-%M`.
pub open spec fn sicherungs_name_text(z: Zeitpunkt) -> Seq<char> {
    jahr_text(z.jahr as int) + (seq!['-'] + (zwei_ziffern(z.monat as int) + (seq!['-'] + (
    zwei_ziffern(z.tag as int) + (seq!['_'] + (zwei_ziffern(z.stunde as int) + (seq!['-']
        + zwei_ziffern(z.minute as int))))))))
}

fn zwei_anhaengen(s: &mut String, v: u32)
    requires
        v < 100,
    ensures
        final(s)@ == old(s)@ + zwei_ziffern(v as int),
{
    zeichen_anhaengen(s, ziffer_fuer((v / 10) as u64));
    zeichen_anhaengen(s, ziffer_fuer((v % 10) as u64));
    assert(s@ =~= old(s)@ + zwei_ziffern(v as int));
}

fn mindestens_vier_anhaengen(s: &mut String, v: u64)
    requires
        v <= 0x8000_0000,
    ensures
        final(s)@ == old(s)@ + mindestens_vier_ziffern(v as nat),
{
    if v < 10000 {
        zwei_anhaengen(s, (v / 100) as u32);
        zwei_anhaengen(s, (v % 100) as u32);
        assert(s@ =~= old(s)@ + mindestens_vier_ziffern(v as nat));
    } else {
        let d = dezimal(v as i64);
        s.append(d.as_str());
    }
}

/// The name of the backup folder made at `z`, as
/// `format("%Y-%m-%d_%H-%M")` writes the time.
pub fn sicherungs_name(z: &Zeitpunkt) -> (name: String)
    requires
        ist_zeitpunkt(*z),
    ensures
        name@ == sicherungs_name_text(*z),
{
    let mut s = String::new();
    if z.jahr < 0 {
        zeichen_anhaengen(&mut s, '-');
        mindestens_vier_anhaengen(&mut s, (-(z.jahr as i64)) as u64);
    } else if z.jahr <= 9999 {
        mindestens_vier_anhaengen(&mut s, z.jahr as u64);
    } else {
        zeichen_anhaengen(&mut s, '+');
        let d = dezimal(z.jahr as i64);
        s.append(d.as_str());
    }
    assert(s@ =~= jahr_text(z.jahr as int));
    zeichen_anhaengen(&mut s, '-');
    zwei_anhaengen(&mut s, z.monat);
    zeichen_anhaengen(&mut s, '-');
    zwei_anhaengen(&mut s, z.tag);
    zeichen_anhaengen(&mut s, '_');
    zwei_anhaengen(&mut s, z.stunde);
    zeichen_anhaengen(&mut s, '-');
    zwei_anhaengen(&mut s, z.minute);
    assert(s@ =~= sicherungs_name_text(*z));
    s
}

proof fn lemma_lex_verkettet(x: Seq<char>, y: Seq<char>, s: Seq<char>, t: Seq<char>)
    requires
        x.len() == y.len(),
    ensures
        lex_kleiner(x + s, y + t) == if x == y {
            lex_kleiner(s, t)
        } else {
            lex_kleiner(x, y)
        },
    decreases x.len(),
{
    if x.len() == 0 {
        assert(x + s =~= s);
        assert(y + t =~= t);
        assert(x =~= y);
    } else {
        assert((x + s)[0] == x[0]);
        assert((y + t)[0] == y[0]);
        if x[0] == y[0] {
            assert((x + s).drop_first() =~= x.drop_first() + s);
            assert((y + t).drop_first() =~= y.drop_first() + t);
            lemma_lex_verkettet(x.drop_first(), y.drop_first(), s, t);
            assert(x =~= seq![x[0]] + x.drop_first());
            assert(y =~= seq![y[0]] + y.drop_first());
        } else {
            assert(x != y);
        }
    }
}

proof fn lemma_zwei_ziffern(a: int, b: int)
    requires
        0 <= a < 100,
        0 <= b < 100,
    ensures
        zwei_ziffern(a) == zwei_ziffern(b) <==> a == b,
        lex_kleiner(zwei_ziffern(a), zwei_ziffern(b)) <==> a < b,
{
    lemma_ziffer(a / 10);
    lemma_ziffer(a % 10);
    lemma_ziffer(b / 10);
    lemma_ziffer(b % 10);
    let x = zwei_ziffern(a);
    let y = zwei_ziffern(b);
    assert(a == (a / 10) * 10 + a % 10);
    assert(b == (b / 10) * 10 + b % 10);
    assert(x.drop_first() =~= seq![ziffer_zeichen(a % 10)]);
    assert(y.drop_first() =~= seq![ziffer_zeichen(b % 10)]);
    assert(x.drop_first().drop_first() =~= Seq::<char>::empty());
    assert(y.drop_first().drop_first() =~= Seq::<char>::empty());
    if x == y {
        assert(x[0] == y[0] && x[1] == y[1]);
    }
    if a == b {
        assert(x =~= y);
    }
    assert(a < b <==> (a / 10 < b / 10 || (a / 10 == b / 10 && a % 10 < b % 10)));
    assert(x[0] as u32 == a / 10 + 48);
    assert(y[0] as u32 == b / 10 + 48);
    assert(x[1] as u32 == a % 10 + 48);
    assert(y[1] as u32 == b % 10 + 48);
    if a / 10 != b / 10 {
        assert(x[0] != y[0]);
        assert(lex_kleiner(x, y) == (x[0] < y[0]));
    } else {
        assert(x[0] == y[0]);
        assert(lex_kleiner(x, y) == lex_kleiner(x.drop_first(), y.drop_first()));
        let x1 = x.drop_first();
        let y1 = y.drop_first();
        assert(x1[0] == x[1] && y1[0] == y[1]);
        if a % 10 != b % 10 {
            assert(lex_kleiner(x1, y1) == (x1[0] < y1[0]));
        } else {
            assert(lex_kleiner(x1, y1) == lex_kleiner(x1.drop_first(), y1.drop_first()));
            assert(!lex_kleiner(Seq::<char>::empty(), Seq::<char>::empty()));
        }
    }
}

proof fn lemma_vier_ziffern(a: int, b: int)
    requires
        0 <= a <= 9999,
        0 <= b <= 9999,
    ensures
        mindestens_vier_ziffern(a as nat) == mindestens_vier_ziffern(b as nat) <==> a == b,
        lex_kleiner(mindestens_vier_ziffern(a as nat), mindestens_vier_ziffern(b as nat)) <==> a < b,
{
    let (ha, la, hb, lb) = (a / 100, a % 100, b / 100, b % 100);
    lemma_zwei_ziffern(ha, hb);
    lemma_zwei_ziffern(la, lb);
    lemma_lex_verkettet(zwei_ziffern(ha), zwei_ziffern(hb), zwei_ziffern(la), zwei_ziffern(lb));
    assert(a == ha * 100 + la);
    assert(b == hb * 100 + lb);
    let x = zwei_ziffern(ha) + zwei_ziffern(la);
    let y = zwei_ziffern(hb) + zwei_ziffern(lb);
    if x == y {
        assert(x.subrange(0, 2) =~= zwei_ziffern(ha));
        assert(y.subrange(0, 2) =~= zwei_ziffern(hb));
        assert(x.subrange(2, 4) =~= zwei_ziffern(la));
        assert(y.subrange(2, 4) =~= zwei_ziffern(lb));
    }
}

/// For years 0 to 9999 the names of backup folders sort exactly as their
/// times: the earlier backup has the smaller name, so clearing away the
/// smallest names clears away the oldest backups.
pub proof fn lemma_sicherungsnamen_nach_zeit(a: Zeitpunkt, b: Zeitpunkt)
    requires
        ist_zeitpunkt(a),
        ist_zeitpunkt(b),
        0 <= a.jahr <= 9999,
        0 <= b.jahr <= 9999,
    ensures
        lex_kleiner(sicherungs_name_text(a), sicherungs_name_text(b)) <==> zeit_frueher(a, b),
        sicherungs_name_text(a) == sicherungs_name_text(b) <==> (a.jahr == b.jahr && a.monat
            == b.monat && a.tag == b.tag && a.stunde == b.stunde && a.minute == b.minute),
{
    let mi_a = zwei_ziffern(a.minute as int);
    let mi_b = zwei_ziffern(b.minute as int);
    let r7a = seq!['-'] + mi_a;
    let r7b = seq!['-'] + mi_b;
    let r6a = zwei_ziffern(a.stunde as int) + r7a;
    let r6b = zwei_ziffern(b.stunde as int) + r7b;
    let r5a = seq!['_'] + r6a;
    let r5b = seq!['_'] + r6b;
    let r4a = zwei_ziffern(a.tag as int) + r5a;
    let r4b = zwei_ziffern(b.tag as int) + r5b;
    let r3a = seq!['-'] + r4a;
    let r3b = seq!['-'] + r4b;
    let r2a = zwei_ziffern(a.monat as int) + r3a;
    let r2b = zwei_ziffern(b.monat as int) + r3b;
    let r1a = seq!['-'] + r2a;
    let r1b = seq!['-'] + r2b;
    let ja = jahr_text(a.jahr as int);
    let jb = jahr_text(b.jahr as int);
    lemma_zwei_ziffern(a.minute as int, b.minute as int);
    lemma_zwei_ziffern(a.stunde as int, b.stunde as int);
    lemma_zwei_ziffern(a.tag as int, b.tag as int);
    lemma_zwei_ziffern(a.monat as int, b.monat as int);
    lemma_vier_ziffern(a.jahr as int, b.jahr as int);
    lemma_lex_verkettet(seq!['-'], seq!['-'], mi_a, mi_b);
    lemma_lex_verkettet(zwei_ziffern(a.stunde as int), zwei_ziffern(b.stunde as int), r7a, r7b);
    lemma_lex_verkettet(seq!['_'], seq!['_'], r6a, r6b);
    lemma_lex_verkettet(zwei_ziffern(a.tag as int), zwei_ziffern(b.tag as int), r5a, r5b);
    lemma_lex_verkettet(seq!['-'], seq!['-'], r4a, r4b);
    lemma_lex_verkettet(zwei_ziffern(a.monat as int), zwei_ziffern(b.monat as int), r3a, r3b);
    lemma_lex_verkettet(seq!['-'], seq!['-'], r2a, r2b);
    lemma_lex_verkettet(ja, jb, r1a, r1b);
    lemma_verkettung_gleich(seq!['-'], seq!['-'], mi_a, mi_b);
    lemma_verkettung_gleich(zwei_ziffern(a.stunde as int), zwei_ziffern(b.stunde as int), r7a, r7b);
    lemma_verkettung_gleich(seq!['_'], seq!['_'], r6a, r6b);
    lemma_verkettung_gleich(zwei_ziffern(a.tag as int), zwei_ziffern(b.tag as int), r5a, r5b);
    lemma_verkettung_gleich(seq!['-'], seq!['-'], r4a, r4b);
    lemma_verkettung_gleich(zwei_ziffern(a.monat as int), zwei_ziffern(b.monat as int), r3a, r3b);
    lemma_verkettung_gleich(seq!['-'], seq!['-'], r2a, r2b);
    lemma_verkettung_gleich(ja, jb, r1a, r1b);
}

proof fn lemma_verkettung_gleich(x: Seq<char>, y: Seq<char>, s: Seq<char>, t: Seq<char>)
    requires
        x.len() == y.len(),
    ensures
        (x + s == y + t) <==> (x == y && s == t),
{
    if x + s == y + t {
        assert(x =~= (x + s).subrange(0, x.len() as int));
        assert(y =~= (y + t).subrange(0, y.len() as int));
        assert(s =~= (x + s).subrange(x.len() as int, (x + s).len() as int));
        assert(t =~= (y + t).subrange(y.len() as int, (y + t).len() as int));
    }
}

/// Two digits written for `v` below 100 are decimal digits that read back
/// as `v`.
pub proof fn lemma_zwei_ziffern_gelesen(v: int)
    requires
        0 <= v < 100,
    ensures
        zwei_ziffern(v).len() == 2,
        nur_ziffern(zwei_ziffern(v)),
        ziffern_wert(zwei_ziffern(v)) == v,
{
    let x = zwei_ziffern(v);
    lemma_ziffer(v / 10);
    lemma_ziffer(v % 10);
    assert(v == (v / 10) * 10 + v % 10);
    assert(x.drop_last() =~= seq![ziffer_zeichen(v / 10)]);
    assert(x.drop_last().drop_last() =~= Seq::<char>::empty());
    assert(ziffern_wert(Seq::<char>::empty()) == 0);
    assert(ziffern_wert(x.drop_last()) == v / 10);
    assert forall|i: int| 0 <= i < x.len() implies crate::zahl::ist_ziffer(#[trigger] x[i]) by {}
}

proof fn lemma_wert_verkettet(x: Seq<char>, y: Seq<char>)
    requires
        y.len() == 2,
    ensures
        ziffern_wert(x + y) == ziffern_wert(x) * 100 + ziffern_wert(y),
{
    assert((x + y).drop_last() =~= x + seq![y[0]]);
    assert((x + seq![y[0]]).drop_last() =~= x);
    assert(y.drop_last() =~= seq![y[0]]);
    assert(seq![y[0]].drop_last() =~= Seq::<char>::empty());
    assert(ziffern_wert(Seq::<char>::empty()) == 0);
    let w0 = crate::zahl::ziffer_wert(y[0]);
    let w1 = crate::zahl::ziffer_wert(y[1]);
    assert((x + y).last() == y[1]);
    assert((x + seq![y[0]]).last() == y[0]);
    assert(ziffern_wert(seq![y[0]]) == w0);
    assert(ziffern_wert(y) == w0 * 10 + w1);
    assert(ziffern_wert(x + seq![y[0]]) == ziffern_wert(x) * 10 + w0);
    assert(ziffern_wert(x + y) == ziffern_wert(x + seq![y[0]]) * 10 + w1);
}

/// For years 0 to 9999 the name of a backup folder reads back as its time:
/// sixteen characters, the year in four digits, then `-`, month, `-`, day,
/// `_`, hour, `-`, minute, each in two digits.
pub proof fn lemma_sicherungsname_gelesen(z: Zeitpunkt)
    requires
        ist_zeitpunkt(z),
        0 <= z.jahr <= 9999,
    ensures
        ({
            let n = sicherungs_name_text(z);
            &&& n.len() == 16
            &&& n[4] == '-' && n[7] == '-' && n[10] == '_' && n[13] == '-'
            &&& nur_ziffern(n.subrange(0, 4)) && ziffern_wert(n.subrange(0, 4)) == z.jahr
            &&& nur_ziffern(n.subrange(5, 7)) && ziffern_wert(n.subrange(5, 7)) == z.monat
            &&& nur_ziffern(n.subrange(8, 10)) && ziffern_wert(n.subrange(8, 10)) == z.tag
            &&& nur_ziffern(n.subrange(11, 13)) && ziffern_wert(n.subrange(11, 13)) == z.stunde
            &&& nur_ziffern(n.subrange(14, 16)) && ziffern_wert(n.subrange(14, 16)) == z.minute
        }),
{
    let y = z.jahr as int;
    let n = sicherungs_name_text(z);
    let hoch = zwei_ziffern(y / 100);
    let tief = zwei_ziffern(y % 100);
    lemma_zwei_ziffern_gelesen(y / 100);
    lemma_zwei_ziffern_gelesen(y % 100);
    lemma_zwei_ziffern_gelesen(z.monat as int);
    lemma_zwei_ziffern_gelesen(z.tag as int);
    lemma_zwei_ziffern_gelesen(z.stunde as int);
    lemma_zwei_ziffern_gelesen(z.minute as int);
    lemma_wert_verkettet(hoch, tief);
    assert(y == (y / 100) * 100 + y % 100);
    assert(n.subrange(0, 4) =~= hoch + tief);
    assert(nur_ziffern(hoch + tief)) by {
        assert forall|i: int| 0 <= i < 4 implies crate::zahl::ist_ziffer(#[trigger] (hoch + tief)[i]) by {
            if i < 2 {
                assert((hoch + tief)[i] == hoch[i]);
            } else {
                assert((hoch + tief)[i] == tief[i - 2]);
            }
        }
    }
    assert(n.subrange(5, 7) =~= zwei_ziffern(z.monat as int));
    assert(n.subrange(8, 10) =~= zwei_ziffern(z.tag as int));
    assert(n.subrange(11, 13) =~= zwei_ziffern(z.stunde as int));
    assert(n.subrange(14, 16) =~= zwei_ziffern(z.minute as int));
}

} // verus!
