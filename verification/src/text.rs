//! Character-level string helpers shared by the other modules.

use vstd::prelude::*;

verus! {

/// `String::push` from std, which vstd leaves unspecified.
#[verifier::external_body]
pub(crate) fn zeichen_anhaengen(s: &mut String, c: char)
    ensures
        final(s)@ == old(s)@.push(c),
{
    s.push(c);
}

/// Unicode `White_Space` property, the definition `char::is_whitespace` and
/// `str::trim` use.
pub open spec fn ist_leerraum(c: char) -> bool {
    let n = c as u32;
    ||| 0x9 <= n <= 0xD
    ||| n == 0x20
    ||| n == 0x85
    ||| n == 0xA0
    ||| n == 0x1680
    ||| 0x2000 <= n <= 0x200A
    ||| n == 0x2028
    ||| n == 0x2029
    ||| n == 0x202F
    ||| n == 0x205F
    ||| n == 0x3000
}

/// Executable form of [`ist_leerraum`].
pub fn leerraum(c: char) -> (b: bool)
    ensures
        b == ist_leerraum(c),
{
    let n = c as u32;
    (0x9 <= n && n <= 0xD) || n == 0x20 || n == 0x85 || n == 0xA0 || n == 0x1680 || (0x2000
        <= n && n <= 0x200A) || n == 0x2028 || n == 0x2029 || n == 0x202F || n == 0x205F || n
        == 0x3000
}


/// `s` without its leading whitespace.
pub open spec fn ohne_fuehrenden_leerraum(s: Seq<char>) -> Seq<char>
    decreases s.len(),
{
    if s.len() > 0 && ist_leerraum(s[0]) {
        ohne_fuehrenden_leerraum(s.drop_first())
    } else {
        s
    }
}

/// `s` without its trailing whitespace.
pub open spec fn ohne_folgenden_leerraum(s: Seq<char>) -> Seq<char>
    decreases s.len(),
{
    if s.len() > 0 && ist_leerraum(s.last()) {
        ohne_folgenden_leerraum(s.drop_last())
    } else {
        s
    }
}

/// What `str::trim` returns: `s` without leading and trailing whitespace.
pub open spec fn getrimmt(s: Seq<char>) -> Seq<char> {
    ohne_folgenden_leerraum(ohne_fuehrenden_leerraum(s))
}

/// Removes leading and trailing whitespace, as `str::trim` does.
pub fn trimmen(s: &str) -> (t: String)
    ensures
        t@ == getrimmt(s@),
{
    let n = s.unicode_len();
    let mut a: usize = 0;
    assert(s@.skip(0) =~= s@);
    while a < n && leerraum(s.get_char(a))
        invariant
            a <= n,
            n == s@.len(),
            ohne_fuehrenden_leerraum(s@) == ohne_fuehrenden_leerraum(s@.skip(a as int)),
        decreases n - a,
    {
        assert(s@.skip(a as int).drop_first() =~= s@.skip(a + 1));
        a = a + 1;
    }
    assert(ohne_fuehrenden_leerraum(s@.skip(a as int)) == s@.skip(a as int));
    assert(s@.skip(a as int) =~= s@.subrange(a as int, n as int));
    let mut b: usize = n;
    while b > a && leerraum(s.get_char(b - 1))
        invariant
            a <= b <= n,
            n == s@.len(),
            getrimmt(s@) == ohne_folgenden_leerraum(s@.subrange(a as int, b as int)),
        decreases b,
    {
        assert(s@.subrange(a as int, b as int).drop_last() =~= s@.subrange(a as int, b - 1));
        b = b - 1;
    }
    assert(ohne_folgenden_leerraum(s@.subrange(a as int, b as int)) == s@.subrange(
        a as int,
        b as int,
    ));
    let teil = s.substring_char(a, b);
    String::from_str(teil)
}

proof fn lemma_fuehrender_leerraum(s: Seq<char>) -> (a: int)
    ensures
        0 <= a <= s.len(),
        ohne_fuehrenden_leerraum(s) == s.skip(a),
        forall|i: int| 0 <= i < a ==> ist_leerraum(#[trigger] s[i]),
        a == s.len() || !ist_leerraum(s[a]),
    decreases s.len(),
{
    if s.len() > 0 && ist_leerraum(s[0]) {
        let a1 = lemma_fuehrender_leerraum(s.drop_first());
        assert(s.drop_first().skip(a1) =~= s.skip(a1 + 1));
        assert forall|i: int| 0 <= i < a1 + 1 implies ist_leerraum(#[trigger] s[i]) by {
            if i > 0 {
                assert(s[i] == s.drop_first()[i - 1]);
            }
        }
        if a1 + 1 < s.len() {
            assert(s[a1 + 1] == s.drop_first()[a1]);
        }
        a1 + 1
    } else {
        assert(s.skip(0) =~= s);
        0
    }
}

proof fn lemma_folgender_leerraum(s: Seq<char>) -> (b: int)
    ensures
        0 <= b <= s.len(),
        ohne_folgenden_leerraum(s) == s.take(b),
        forall|i: int| b <= i < s.len() ==> ist_leerraum(#[trigger] s[i]),
        b == 0 || !ist_leerraum(s[b - 1]),
    decreases s.len(),
{
    if s.len() > 0 && ist_leerraum(s.last()) {
        let b1 = lemma_folgender_leerraum(s.drop_last());
        assert(s.drop_last().take(b1) =~= s.take(b1));
        assert forall|i: int| b1 <= i < s.len() implies ist_leerraum(#[trigger] s[i]) by {
            if i < s.len() - 1 {
                assert(s[i] == s.drop_last()[i]);
            }
        }
        if b1 > 0 {
            assert(s[b1 - 1] == s.drop_last()[b1 - 1]);
        }
        b1
    } else {
        assert(s.take(s.len() as int) =~= s);
        s.len() as int
    }
}

/// Trimming removes exactly the whitespace at both ends: the result is a
/// contiguous part of `s`, everything before and after it is whitespace,
/// and it neither begins nor ends with whitespace.
pub proof fn lemma_getrimmt(s: Seq<char>)
    ensures
        getrimmt(s).len() == 0 || (!ist_leerraum(getrimmt(s)[0]) && !ist_leerraum(
            getrimmt(s).last(),
        )),
        exists|a: int, b: int|
            0 <= a <= b <= s.len() && getrimmt(s) == s.subrange(a, b) && (forall|i: int|
                0 <= i < a ==> ist_leerraum(#[trigger] s[i])) && (forall|i: int|
                b <= i < s.len() ==> ist_leerraum(#[trigger] s[i])),
{
    let a = lemma_fuehrender_leerraum(s);
    let u = s.skip(a);
    let b = lemma_folgender_leerraum(u);
    let t = getrimmt(s);
    assert(t == u.take(b));
    assert(t =~= s.subrange(a, a + b));
    assert forall|i: int| a + b <= i < s.len() implies ist_leerraum(#[trigger] s[i]) by {
        assert(s[i] == u[i - a]);
    }
    if t.len() > 0 {
        assert(t[0] == s[a]);
        assert(t.last() == u[b - 1]);
    }
    assert(0 <= a <= a + b <= s.len() && getrimmt(s) == s.subrange(a, a + b) && (forall|i: int|
        0 <= i < a ==> ist_leerraum(#[trigger] s[i])) && (forall|i: int|
        a + b <= i < s.len() ==> ist_leerraum(#[trigger] s[i])));
}

} // verus!
