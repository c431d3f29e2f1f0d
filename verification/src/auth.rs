//! Login for the two accounts on the PC. Passwords are kept only as Argon2
//! hashes.

use vstd::prelude::*;
use argon2::password_hash::{rand_core::OsRng, PasswordHash, PasswordHasher, PasswordVerifier, Salt, SaltString};
use argon2::Argon2;
use rand::Rng;
use crate::text::zeichen_anhaengen;
use vstd::utf8::encode_utf8;

verus! {

/// The error type of the password hashing crate.
#[verifier::external_type_specification]
#[verifier::external_body]
pub struct ExPasswortHashFehler(argon2::password_hash::Error);

/// The thread-local random generator of `rand`.
#[verifier::external_type_specification]
#[verifier::external_body]
pub struct ExZufallsquelle(rand::rngs::ThreadRng);

/// The Argon2 hash, in PHC string form, that `Argon2::default()` computes
/// from a password and a B64 salt.
pub uninterp spec fn argon2_hash(passwort: Seq<char>, salz: Seq<char>) -> Seq<char>;

/// Whether `Argon2::default().verify_password` accepts a password against a
/// hash in PHC string form.
pub uninterp spec fn argon2_passt(passwort: Seq<char>, hash: Seq<char>) -> bool;

/// A character of the B64 alphabet (standard Base64: `A`-`Z`, `a`-`z`,
/// `0`-`9`, `+`, `/`).
pub open spec fn ist_b64_zeichen(c: char) -> bool {
    ||| 'A' <= c <= 'Z'
    ||| 'a' <= c <= 'z'
    ||| '0' <= c <= '9'
    ||| c == '+'
    ||| c == '/'
}

/// `s` is the B64 text of 16 bytes, unpadded: 22 characters of the
/// alphabet, the last one carrying only two bits (`A`, `Q`, `g` or `w`).
pub open spec fn ist_salz_text(s: Seq<char>) -> bool {
    &&& s.len() == 22
    &&& forall|i: int| 0 <= i < s.len() ==> ist_b64_zeichen(#[trigger] s[i])
    &&& (s[21] == 'A' || s[21] == 'Q' || s[21] == 'g' || s[21] == 'w')
}

/// Argon2 takes passwords of at most `0xFFFF_FFFF` bytes.
pub open spec fn passwort_laenge_erlaubt(passwort: Seq<char>) -> bool {
    encode_utf8(passwort).len() <= 0xFFFF_FFFF
}

/// How every hash of `Argon2::default()` begins: algorithm, version and
/// parameters of the PHC string.
pub open spec fn phc_kopf() -> Seq<char> {
    "$argon2id$v=19$m=19456,t=2,p=1$"@
}

/// `SaltString::generate` with the operating system's random source.
/// Claimed: the salt is the unpadded B64 text of 16 bytes, which is how
/// `generate` makes it (16 random bytes through `encode_b64`).
#[verifier::external_body]
fn zufalls_salz() -> (salz: String)
    ensures
        ist_salz_text(salz@),
{
    SaltString::generate(&mut OsRng).as_str().to_string()
}

/// `Argon2::default().hash_password` on `passwort` with the B64 salt
/// `salz` (read by `Salt::from_b64`), written as a PHC string. Claimed:
/// for a salt that is the B64 text of 16 bytes, it fails exactly for a
/// password longer than `0xFFFF_FFFF` bytes (the only input check left);
/// an `Ok` holds the hash named `argon2_hash(passwort, salz)`, begins with
/// [`phc_kopf`], the salt and `$`, and `verify_password` accepts
/// `passwort` against it, the round trip the crate documents.
#[verifier::external_body]
fn argon2_hashen(passwort: &str, salz: &str) -> (res: Result<String, argon2::password_hash::Error>)
    ensures
        ist_salz_text(salz@) ==> (res is Ok <==> passwort_laenge_erlaubt(passwort@)),
        res matches Ok(h) ==> h@ == argon2_hash(passwort@, salz@),
        res matches Ok(h) ==> (phc_kopf() + salz@ + seq!['$']).is_prefix_of(h@),
        res matches Ok(h) ==> argon2_passt(passwort@, h@),
{
    match Salt::from_b64(salz) {
        Ok(s) => match Argon2::default().hash_password(passwort.as_bytes(), s) {
            Ok(h) => Ok(h.to_string()),
            Err(e) => Err(e),
        },
        Err(e) => Err(e),
    }
}

/// `PasswordHash::new` on `hash`, then `Argon2::default().verify_password`
/// with `passwort`. Claimed: `Ok` exactly where `argon2_passt` holds; a
/// text that does not begin with `$` is no PHC string and is refused; a
/// password longer than Argon2 takes is refused (`verify_password`
/// recomputes the hash, and Argon2 answers `PwdTooLong`); and
/// on a hash that Argon2 made from some password under a B64 salt of 16
/// bytes, `verify_password` recomputes the hash of `passwort` under that
/// salt and accepts exactly where it equals the stored one.
#[verifier::external_body]
fn argon2_pruefen(passwort: &str, hash: &str) -> (res: Result<(), argon2::password_hash::Error>)
    ensures
        res is Ok <==> argon2_passt(passwort@, hash@),
        !(hash@.len() > 0 && hash@[0] == '$') ==> res is Err,
        !passwort_laenge_erlaubt(passwort@) ==> res is Err,
        passwort_laenge_erlaubt(passwort@) ==> forall|x: Seq<char>, s: Seq<char>|
            #![trigger argon2_hash(x, s)]
            hash@ == argon2_hash(x, s) && ist_salz_text(s) && passwort_laenge_erlaubt(x) ==> (
            res is Ok <==> argon2_hash(passwort@, s) == hash@),
{
    match PasswordHash::new(hash) {
        Ok(geparst) => Argon2::default().verify_password(passwort.as_bytes(), &geparst),
        Err(e) => Err(e),
    }
}

/// `rand::thread_rng()`. Nothing is claimed of it.
#[verifier::external_body]
fn zufallsquelle() -> rand::rngs::ThreadRng {
    rand::thread_rng()
}

/// `Rng::gen_range(0..grenze)`, which panics on an empty range. Claimed:
/// the result lies below `grenze`.
#[verifier::external_body]
fn zufallsindex(rng: &mut rand::rngs::ThreadRng, grenze: usize) -> (i: usize)
    requires
        0 < grenze,
    ensures
        i < grenze,
{
    rng.gen_range(0..grenze)
}

/// A registered user, as the login hands it on.
pub struct Benutzer {
    pub id: i64,
    pub benutzername: String,
    pub anzeigename: String,
    pub rolle: String,
}

/// Why a login or an account operation failed.
#[derive(Debug)]
pub enum AuthFehler {
    UngueltigeAnmeldung,
    Datenbank(rusqlite::Error),
    Hashing,
}

/// The stored row of the user who tries to log in.
pub struct Anmeldedaten {
    pub id: i64,
    pub benutzername: String,
    pub anzeigename: String,
    pub rolle: String,
    pub passwort_hash: String,
}

/// The row to store for a new account.
pub struct NeuesKonto {
    pub benutzername: String,
    pub anzeigename: String,
    pub passwort_hash: String,
    pub rolle: String,
}

/// The new hash to store for a user's changed password.
pub struct NeuesPasswort {
    pub benutzer_id: i64,
    pub passwort_hash: String,
}

/// The account created at the very first start, with its start password.
pub struct Erstkonto {
    pub benutzername: String,
    pub start_passwort: String,
    pub konto: NeuesKonto,
}

/// Characters of a start password: capitals and digits without the easily
/// confused `I`, `O`, `0` and `1`.
pub open spec fn passwort_alphabet() -> Seq<char> {
    "ABCDEFGHJKLMNPQRSTUVWXYZ23456789"@
}

/// Length of a start password.
pub const START_PASSWORT_LAENGE: usize = 10;

/// Whether `p` has the form of a start password.
pub open spec fn ist_start_passwort(p: Seq<char>) -> bool {
    &&& p.len() == START_PASSWORT_LAENGE
    &&& forall|i: int| 0 <= i < p.len() ==> passwort_alphabet().contains(#[trigger] p[i])
}

/// `k` is the row for an account with these fields whose stored hash
/// accepts `passwort`.
pub open spec fn konto_fuer(
    k: NeuesKonto,
    benutzername: Seq<char>,
    anzeigename: Seq<char>,
    passwort: Seq<char>,
    rolle: Seq<char>,
) -> bool {
    &&& k.benutzername@ == benutzername
    &&& k.anzeigename@ == anzeigename
    &&& k.rolle@ == rolle
    &&& ist_passwort_hash(k.passwort_hash@, passwort)
}

/// `hash` is what is stored for `passwort`: its Argon2 hash under a B64
/// salt of 16 bytes, a PHC string beginning with [`phc_kopf`] and the salt,
/// not the password's text, and it accepts `passwort`.
pub open spec fn ist_passwort_hash(hash: Seq<char>, passwort: Seq<char>) -> bool {
    &&& passwort_laenge_erlaubt(passwort)
    &&& exists|salz: Seq<char>|
        #![trigger argon2_hash(passwort, salz)]
        ist_salz_text(salz) && hash == argon2_hash(passwort, salz) && (phc_kopf() + salz + seq![
            '$',
        ]).is_prefix_of(hash)
    &&& argon2_passt(passwort, hash)
}

/// Whether a login with `passwort` succeeds on the row `treffer` found for
/// the user name (`None` where no user has it).
pub open spec fn anmeldung_gelingt(treffer: Option<Anmeldedaten>, passwort: Seq<char>) -> bool {
    treffer matches Some(z) && argon2_passt(passwort, z.passwort_hash@)
}

/// `ok` is a login outcome the library gives for `passwort` on `treffer`:
/// success exactly where [`anmeldung_gelingt`]; never for a password longer
/// than Argon2 takes; and where the stored hash
/// is Argon2's for some password under a B64 salt of 16 bytes, success
/// exactly where `passwort` has that same hash under that salt.
pub open spec fn anmeldung_ergebnis(treffer: Option<Anmeldedaten>, passwort: Seq<char>, ok: bool) -> bool {
    &&& ok == anmeldung_gelingt(treffer, passwort)
    &&& !passwort_laenge_erlaubt(passwort) ==> !ok
    &&& (treffer matches Some(z) && passwort_laenge_erlaubt(passwort)) ==> forall|
        x: Seq<char>,
        s: Seq<char>,
    |
        #![trigger argon2_hash(x, s)]
        treffer->0.passwort_hash@ == argon2_hash(x, s) && ist_salz_text(s)
            && passwort_laenge_erlaubt(x) ==> (ok <==> argon2_hash(passwort, s)
            == treffer->0.passwort_hash@)
}

/// `b` is the user that the row `z` describes.
pub open spec fn benutzer_aus(b: Benutzer, z: Anmeldedaten) -> bool {
    &&& b.id == z.id
    &&& b.benutzername@ == z.benutzername@
    &&& b.anzeigename@ == z.anzeigename@
    &&& b.rolle@ == z.rolle@
}

/// What becomes of the outcome of hashing: the hash, or `Hashing` in place
/// of the hashing crate's error.
pub fn hash_uebernehmen(ergebnis: Result<String, argon2::password_hash::Error>) -> (res: Result<
    String,
    AuthFehler,
>)
    ensures
        res is Ok <==> ergebnis is Ok,
        res matches Ok(h) ==> ergebnis matches Ok(h0) && h == h0,
        res matches Err(e) ==> e is Hashing,
{
    match ergebnis {
        Ok(h) => Ok(h),
        Err(_) => Err(AuthFehler::Hashing),
    }
}

fn passwort_hashen(passwort: &str) -> (res: Result<String, AuthFehler>)
    ensures
        res is Ok <==> passwort_laenge_erlaubt(passwort@),
        res matches Ok(h) ==> ist_passwort_hash(h@, passwort@),
        res matches Err(e) ==> e is Hashing,
{
    let salz = zufalls_salz();
    hash_uebernehmen(argon2_hashen(passwort, salz.as_str()))
}

fn passwort_pruefen(passwort: &str, hash: &str) -> (ok: bool)
    ensures
        ok == argon2_passt(passwort@, hash@),
        !(hash@.len() > 0 && hash@[0] == '$') ==> !ok,
        !passwort_laenge_erlaubt(passwort@) ==> !ok,
        passwort_laenge_erlaubt(passwort@) ==> forall|x: Seq<char>, s: Seq<char>|
            #![trigger argon2_hash(x, s)]
            hash@ == argon2_hash(x, s) && ist_salz_text(s) && passwort_laenge_erlaubt(x) ==> (ok
                <==> argon2_hash(passwort@, s) == hash@),
{
    argon2_pruefen(passwort, hash).is_ok()
}

/// A random start password: ten characters drawn from
/// [`passwort_alphabet`].
fn zufalls_passwort() -> (p: String)
    ensures
        ist_start_passwort(p@),
{
    let zeichen = "ABCDEFGHJKLMNPQRSTUVWXYZ23456789";
    proof {
        reveal_strlit("ABCDEFGHJKLMNPQRSTUVWXYZ23456789");
    }
    let anzahl = zeichen.unicode_len();
    let mut rng = zufallsquelle();
    let mut p = String::new();
    let mut i: usize = 0;
    while i < START_PASSWORT_LAENGE
        invariant
            i <= START_PASSWORT_LAENGE,
            p@.len() == i,
            anzahl == zeichen@.len(),
            anzahl > 0,
            zeichen@ == passwort_alphabet(),
            forall|j: int| 0 <= j < i ==> passwort_alphabet().contains(#[trigger] p@[j]),
        decreases START_PASSWORT_LAENGE - i,
    {
        let k = zufallsindex(&mut rng, anzahl);
        let c = zeichen.get_char(k);
        assert(passwort_alphabet()[k as int] == c);
        zeichen_anhaengen(&mut p, c);
        i = i + 1;
    }
    p
}

/// The row for a new account: the given names and role and the hash of
/// `passwort`. Fails, with `Hashing`, exactly for a password longer than
/// Argon2 takes.
pub fn konto_anlegen(benutzername: &str, anzeigename: &str, passwort: &str, rolle: &str) -> (res:
    Result<NeuesKonto, AuthFehler>)
    ensures
        res is Ok <==> passwort_laenge_erlaubt(passwort@),
        res matches Ok(k) ==> konto_fuer(k, benutzername@, anzeigename@, passwort@, rolle@),
        res matches Err(e) ==> e is Hashing,
{
    let passwort_hash = passwort_hashen(passwort)?;
    Ok(
        NeuesKonto {
            benutzername: String::from_str(benutzername),
            anzeigename: String::from_str(anzeigename),
            passwort_hash,
            rolle: String::from_str(rolle),
        },
    )
}

/// The login decision on the row found for the user name: the user where
/// the row exists and its hash accepts `passwort`, else
/// `UngueltigeAnmeldung`.
pub fn anmelden(treffer: Option<Anmeldedaten>, passwort: &str) -> (res: Result<Benutzer, AuthFehler>)
    ensures
        anmeldung_ergebnis(treffer, passwort@, res is Ok),
        res matches Ok(b) ==> (treffer matches Some(z) && benutzer_aus(b, z)),
        res matches Err(e) ==> e is UngueltigeAnmeldung,
{
    match treffer {
        Some(z) => {
            if passwort_pruefen(passwort, z.passwort_hash.as_str()) {
                Ok(
                    Benutzer {
                        id: z.id,
                        benutzername: z.benutzername,
                        anzeigename: z.anzeigename,
                        rolle: z.rolle,
                    },
                )
            } else {
                Err(AuthFehler::UngueltigeAnmeldung)
            }
        },
        None => Err(AuthFehler::UngueltigeAnmeldung),
    }
}

/// The new hash to store for user `benutzer_id` so that `neues_passwort`
/// logs in. Fails, with `Hashing`, exactly for a password longer than
/// Argon2 takes.
pub fn passwort_aendern(benutzer_id: i64, neues_passwort: &str) -> (res: Result<
    NeuesPasswort,
    AuthFehler,
>)
    ensures
        res is Ok <==> passwort_laenge_erlaubt(neues_passwort@),
        res matches Ok(w) ==> w.benutzer_id == benutzer_id && ist_passwort_hash(
            w.passwort_hash@,
            neues_passwort@,
        ),
        res matches Err(e) ==> e is Hashing,
{
    let passwort_hash = passwort_hashen(neues_passwort)?;
    Ok(NeuesPasswort { benutzer_id, passwort_hash })
}

/// Name of the account created at the first start.
pub open spec fn erster_benutzername() -> Seq<char> {
    "papa"@
}

/// Display name of the account created at the first start.
pub open spec fn erster_anzeigename() -> Seq<char> {
    "Rosmarie / Beat Straub"@
}

/// Role of every account.
pub open spec fn inhaber_rolle() -> Seq<char> {
    "inhaber"@
}

/// At the very first start, while no user exists (`anzahl_benutzer` is 0),
/// the account `papa` with a random start password; once users exist,
/// nothing.
pub fn erstkonto_sicherstellen(anzahl_benutzer: i64) -> (res: Result<Option<Erstkonto>, AuthFehler>)
    ensures
        anzahl_benutzer > 0 ==> res matches Ok(None),
        anzahl_benutzer <= 0 ==> res matches Ok(Some(_)),
        res matches Ok(Some(e)) ==> {
            &&& e.benutzername@ == erster_benutzername()
            &&& ist_start_passwort(e.start_passwort@)
            &&& konto_fuer(
                e.konto,
                erster_benutzername(),
                erster_anzeigename(),
                e.start_passwort@,
                inhaber_rolle(),
            )
        },
{
    if anzahl_benutzer > 0 {
        return Ok(None);
    }
    let start_passwort = zufalls_passwort();
    proof {
        lemma_utf8_laenge(start_passwort@);
    }
    let konto = konto_anlegen("papa", "Rosmarie / Beat Straub", start_passwort.as_str(), "inhaber")?;
    Ok(Some(Erstkonto { benutzername: String::from_str("papa"), start_passwort, konto }))
}

proof fn lemma_utf8_laenge(s: Seq<char>)
    ensures
        encode_utf8(s).len() <= 4 * s.len(),
    decreases s.len(),
{
    if s.len() > 0 {
        lemma_utf8_laenge(s.drop_first());
    }
}

/// Whoever sets a password when an account is created logs in with it:
/// the login on the stored row of that account succeeds and gives the
/// account's names and role.
pub proof fn lemma_neues_konto_meldet_an(
    k: NeuesKonto,
    id: i64,
    benutzername: Seq<char>,
    anzeigename: Seq<char>,
    passwort: Seq<char>,
    rolle: Seq<char>,
)
    requires
        konto_fuer(k, benutzername, anzeigename, passwort, rolle),
    ensures
        anmeldung_gelingt(
            Some(
                Anmeldedaten {
                    id,
                    benutzername: k.benutzername,
                    anzeigename: k.anzeigename,
                    rolle: k.rolle,
                    passwort_hash: k.passwort_hash,
                },
            ),
            passwort,
        ),
{
}

/// Whoever changes a password logs in with the new one: the stored row,
/// its hash replaced by the new one, accepts it.
pub proof fn lemma_neues_passwort_meldet_an(w: NeuesPasswort, z: Anmeldedaten, passwort: Seq<char>)
    requires
        w.benutzer_id == z.id,
        ist_passwort_hash(w.passwort_hash@, passwort),
    ensures
        anmeldung_gelingt(
            Some(
                Anmeldedaten {
                    id: z.id,
                    benutzername: z.benutzername,
                    anzeigename: z.anzeigename,
                    rolle: z.rolle,
                    passwort_hash: w.passwort_hash,
                },
            ),
            passwort,
        ),
{
}


/// After an account is created with `passwort`, another password `anderes`
/// logs in only where Argon2 gives it the very same hash under the
/// account's salt, that is, only by a collision of Argon2.
pub proof fn lemma_anderes_passwort_nur_bei_kollision(
    k: NeuesKonto,
    id: i64,
    benutzername: Seq<char>,
    anzeigename: Seq<char>,
    passwort: Seq<char>,
    rolle: Seq<char>,
    anderes: Seq<char>,
)
    requires
        konto_fuer(k, benutzername, anzeigename, passwort, rolle),
        anmeldung_ergebnis(
            Some(
                (Anmeldedaten {
                    id,
                    benutzername: k.benutzername,
                    anzeigename: k.anzeigename,
                    rolle: k.rolle,
                    passwort_hash: k.passwort_hash,
                }),
            ),
            anderes,
            true,
        ),
    ensures
        exists|salz: Seq<char>|
            ist_salz_text(salz) && #[trigger] argon2_hash(anderes, salz) == argon2_hash(
                passwort,
                salz,
            ),
{
    assert(passwort_laenge_erlaubt(anderes));
    let salz = choose|salz: Seq<char>|
        #![trigger argon2_hash(passwort, salz)]
        ist_salz_text(salz) && k.passwort_hash@ == argon2_hash(passwort, salz) && (phc_kopf() + salz
            + seq!['$']).is_prefix_of(k.passwort_hash@);
    assert(argon2_hash(anderes, salz) == argon2_hash(passwort, salz));
}

/// After a password change to `neues`, any other password, the old one
/// included, logs in only where Argon2 gives it the very same hash under
/// the new salt, that is, only by a collision of Argon2.
pub proof fn lemma_altes_passwort_nur_bei_kollision(
    w: NeuesPasswort,
    z: Anmeldedaten,
    neues: Seq<char>,
    anderes: Seq<char>,
)
    requires
        w.benutzer_id == z.id,
        ist_passwort_hash(w.passwort_hash@, neues),
        anmeldung_ergebnis(
            Some(
                (Anmeldedaten {
                    id: z.id,
                    benutzername: z.benutzername,
                    anzeigename: z.anzeigename,
                    rolle: z.rolle,
                    passwort_hash: w.passwort_hash,
                }),
            ),
            anderes,
            true,
        ),
    ensures
        exists|salz: Seq<char>|
            ist_salz_text(salz) && #[trigger] argon2_hash(anderes, salz) == argon2_hash(neues, salz),
{
    assert(passwort_laenge_erlaubt(anderes));
    let salz = choose|salz: Seq<char>|
        #![trigger argon2_hash(neues, salz)]
        ist_salz_text(salz) && w.passwort_hash@ == argon2_hash(neues, salz) && (phc_kopf() + salz
            + seq!['$']).is_prefix_of(w.passwort_hash@);
    assert(argon2_hash(anderes, salz) == argon2_hash(neues, salz));
}

} // verus!
