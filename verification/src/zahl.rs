//! Decimal text of `i64` values, written and read as `Display` and
//! `str::parse` do. The running counters are kept as such text.

use vstd::prelude::*;
use crate::text::zeichen_anhaengen;

verus! {

/// Largest magnitude an `i64` can have (that of `i64::MIN`).
pub open spec fn groesster_betrag() -> int {
    0x8000_0000_0000_0000
}

/// The character of decimal digit `d`.
pub open spec fn ziffer_zeichen(d: int) -> char {
    (d + 48) as char
}

/// Whether `c` is one of `'0'` to `'9'`.
pub open spec fn ist_ziffer(c: char) -> bool {
    '0' <= c <= '9'
}

/// The value of digit character `c`.
pub open spec fn ziffer_wert(c: char) -> int {
    (c as u32) - 48
}

/// Decimal digits of `m`, most significant first, without leading zeros.
pub open spec fn ziffern(m: nat) -> Seq<char>
    decreases m,
{
    if m < 10 {
        seq![ziffer_zeichen(m as int)]
    } else {
        ziffern(m / 10).push(ziffer_zeichen((m % 10) as int))
    }
}

/// The text `Display` gives for the integer `n`.
pub open spec fn dezimal_text(n: int) -> Seq<char> {
    if n < 0 {
        seq!['-'] + ziffern((-n) as nat)
    } else {
        ziffern(n as nat)
    }
}

/// Value of a string of digits.
pub open spec fn ziffern_wert(s: Seq<char>) -> int
    decreases s.len(),
{
    if s.len() == 0 {
        0
    } else {
        ziffern_wert(s.drop_last()) * 10 + ziffer_wert(s.last())
    }
}

/// Whether every character of `s` is a digit.
pub open spec fn nur_ziffern(s: Seq<char>) -> bool {
    forall|i: int| 0 <= i < s.len() ==> ist_ziffer(#[trigger] s[i])
}

/// Integer written in `s` in the syntax `str::parse::<i64>` accepts (an
/// optional `+` or `-` followed by one or more digits), regardless of range.
pub open spec fn zahl_text_wert(s: Seq<char>) -> Option<int> {
    if s.len() > 0 && (s[0] == '+' || s[0] == '-') {
        let rest = s.drop_first();
        if rest.len() > 0 && nur_ziffern(rest) {
            Some(
                if s[0] == '-' {
                    -ziffern_wert(rest)
                } else {
                    ziffern_wert(rest)
                },
            )
        } else {
            None
        }
    } else if s.len() > 0 && nur_ziffern(s) {
        Some(ziffern_wert(s))
    } else {
        None
    }
}

/// What `str::parse::<i64>` gives for `s`, as an `Option`.
pub open spec fn zahl_gelesen(s: Seq<char>) -> Option<i64> {
    match zahl_text_wert(s) {
        Some(v) => if i64::MIN <= v <= i64::MAX {
            Some(v as i64)
        } else {
            None
        },
        None => None,
    }
}

pub(crate) fn ziffer_fuer(d: u64) -> (c: char)
    requires
        d < 10,
    ensures
        c == ziffer_zeichen(d as int),
        ist_ziffer(c),
        ziffer_wert(c) == d,
{
    ((d as u8) + 48u8) as char
}

/// Decimal text of `n`, as `n.to_string()` writes it.
pub fn dezimal(n: i64) -> (s: String)
    ensures
        s@ == dezimal_text(n as int),
{
    let negativ = n < 0;
    let betrag: u64 = if n < 0 {
        (-(n as i128)) as u64
    } else {
        n as u64
    };
    let mut m: u64 = betrag;
    let mut rueckwaerts: Vec<char> = Vec::new();
    loop
        invariant_except_break
            ziffern(betrag as nat) == ziffern(m as nat) + rueckwaerts@,
        ensures
            ziffern(betrag as nat) == rueckwaerts@,
        decreases m,
    {
        let c = ziffer_fuer(m % 10);
        rueckwaerts.insert(0, c);
        if m < 10 {
            assert(ziffern(betrag as nat) =~= rueckwaerts@);
            break ;
        }
        assert(ziffern(betrag as nat) =~= ziffern((m / 10) as nat) + rueckwaerts@);
        m = m / 10;
    }
    let mut s = String::new();
    if negativ {
        zeichen_anhaengen(&mut s, '-');
    }
    let ghost anfang = s@;
    let mut i: usize = 0;
    while i < rueckwaerts.len()
        invariant
            i <= rueckwaerts.len(),
            s@ == anfang + rueckwaerts@.take(i as int),
        decreases rueckwaerts.len() - i,
    {
        zeichen_anhaengen(&mut s, rueckwaerts[i]);
        assert(rueckwaerts@.take(i + 1) =~= rueckwaerts@.take(i as int).push(rueckwaerts@[i as int]));
        i = i + 1;
    }
    assert(rueckwaerts@.take(i as int) =~= rueckwaerts@);
    s
}


fn ist_ziffer_exec(c: char) -> (b: bool)
    ensures
        b == ist_ziffer(c),
{
    '0' <= c && c <= '9'
}

/// Reads `s` as `str::parse::<i64>` does: `None` exactly where the parse
/// fails (no digits, a stray character, or a value outside `i64`).
pub fn zahl_lesen(s: &str) -> (r: Option<i64>)
    ensures
        r == zahl_gelesen(s@),
{
    let n = s.unicode_len();
    if n == 0 {
        return None;
    }
    let erstes = s.get_char(0);
    let negativ = erstes == '-';
    let beginn: usize = if erstes == '+' || erstes == '-' {
        1
    } else {
        0
    };
    if beginn == n {
        return None;
    }
    let ghost ziffernteil = s@.subrange(beginn as int, n as int);
    let mut wert: u128 = 0;
    let mut zu_gross = false;
    let mut i: usize = beginn;
    assert(s@.subrange(beginn as int, beginn as int) =~= Seq::<char>::empty());
    while i < n
        invariant
            beginn <= i <= n,
            n == s@.len(),
            beginn < n,
            beginn <= 1,
            beginn == 1 <==> (s@[0] == '+' || s@[0] == '-'),
            negativ == (s@[0] == '-'),
            ziffernteil == s@.subrange(beginn as int, n as int),
            forall|j: int| beginn <= j < i ==> ist_ziffer(#[trigger] s@[j]),
            !zu_gross ==> wert == ziffern_wert(s@.subrange(beginn as int, i as int)) && wert
                <= groesster_betrag(),
            zu_gross ==> ziffern_wert(s@.subrange(beginn as int, i as int)) > groesster_betrag(),
        decreases n - i,
    {
        let c = s.get_char(i);
        if !ist_ziffer_exec(c) {
            proof {
                if beginn == 1 {
                    assert(s@.drop_first()[i - 1] == c);
                    assert(!nur_ziffern(s@.drop_first()));
                } else {
                    assert(s@[i as int] == c);
                    assert(!nur_ziffern(s@));
                }
            }
            return None;
        }
        let d = (c as u32 - 48) as u128;
        assert(s@.subrange(beginn as int, i + 1).drop_last() =~= s@.subrange(
            beginn as int,
            i as int,
        ));
        if !zu_gross {
            let neu = wert * 10 + d;
            if neu > 0x8000_0000_0000_0000 {
                zu_gross = true;
            } else {
                wert = neu;
            }
        }
        i = i + 1;
    }
    assert(s@.subrange(beginn as int, i as int) =~= ziffernteil);
    assert(beginn == 1 ==> s@.drop_first() =~= ziffernteil);
    assert(beginn == 0 ==> s@ =~= ziffernteil);
    if zu_gross {
        return None;
    }
    let v: i128 = if negativ {
        -(wert as i128)
    } else {
        wert as i128
    };
    if v > 0x7fff_ffff_ffff_ffff {
        None
    } else {
        Some(v as i64)
    }
}


pub(crate) proof fn lemma_ziffer(d: int)
    requires
        0 <= d < 10,
    ensures
        ist_ziffer(ziffer_zeichen(d)),
        ziffer_wert(ziffer_zeichen(d)) == d,
{
}

pub(crate) proof fn lemma_ziffern(m: nat)
    ensures
        ziffern(m).len() > 0,
        nur_ziffern(ziffern(m)),
        ziffern_wert(ziffern(m)) == m,
    decreases m,
{
    let s = ziffern(m);
    if m < 10 {
        lemma_ziffer(m as int);
        assert(s.drop_last() =~= Seq::<char>::empty());
        assert(ziffern_wert(Seq::<char>::empty()) == 0);
        assert(s.last() == ziffer_zeichen(m as int));
    } else {
        lemma_ziffer((m % 10) as int);
        assert(m == (m / 10) * 10 + m % 10);
        lemma_ziffern(m / 10);
        assert(s.drop_last() =~= ziffern(m / 10));
        assert(s.last() == ziffer_zeichen((m % 10) as int));
        assert forall|i: int| 0 <= i < s.len() implies ist_ziffer(#[trigger] s[i]) by {
            if i < s.len() - 1 {
                assert(s[i] == ziffern(m / 10)[i]);
            }
        }
    }
}

/// Reading back what [`dezimal`] wrote gives the same number: a counter
/// stored as text keeps its value.
pub proof fn lemma_dezimal_gelesen(n: i64)
    ensures
        zahl_gelesen(dezimal_text(n as int)) == Some(n),
{
    let s = dezimal_text(n as int);
    if n < 0 {
        lemma_ziffern((-n) as nat);
        assert(s.drop_first() =~= ziffern((-n) as nat));
    } else {
        lemma_ziffern(n as nat);
        assert(ist_ziffer(s[0]));
    }
}

} // verus!
