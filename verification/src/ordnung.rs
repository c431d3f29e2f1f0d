//! The order of names: character by character, as `str` and `OsStr` compare
//! them, and a sort by that order.

use vstd::prelude::*;
use vstd::relations::{sorted_by, total_ordering};
use vstd::seq_lib::group_to_multiset_ensures;

verus! {

/// `a` comes strictly before `b`: at the first differing position `a` has
/// the smaller character, or `a` is a proper prefix of `b`.
pub open spec fn lex_kleiner(a: Seq<char>, b: Seq<char>) -> bool
    decreases a.len(),
{
    if b.len() == 0 {
        false
    } else if a.len() == 0 {
        true
    } else if a[0] != b[0] {
        a[0] < b[0]
    } else {
        lex_kleiner(a.drop_first(), b.drop_first())
    }
}

/// `a` comes before `b` or equals it.
pub open spec fn lex_kleiner_gleich(a: Seq<char>, b: Seq<char>) -> bool {
    a == b || lex_kleiner(a, b)
}

/// The order of names as a relation.
pub open spec fn namensordnung() -> spec_fn(Seq<char>, Seq<char>) -> bool {
    |a: Seq<char>, b: Seq<char>| lex_kleiner_gleich(a, b)
}

/// The texts of a list of strings.
pub open spec fn ansichten(v: Seq<String>) -> Seq<Seq<char>> {
    v.map_values(|s: String| s@)
}

proof fn lemma_asymmetrisch(a: Seq<char>, b: Seq<char>)
    requires
        lex_kleiner(a, b),
    ensures
        !lex_kleiner(b, a),
    decreases a.len(),
{
    if a.len() > 0 && b.len() > 0 && a[0] == b[0] {
        lemma_asymmetrisch(a.drop_first(), b.drop_first());
    }
}

proof fn lemma_transitiv(a: Seq<char>, b: Seq<char>, c: Seq<char>)
    requires
        lex_kleiner(a, b),
        lex_kleiner(b, c),
    ensures
        lex_kleiner(a, c),
    decreases a.len(),
{
    if a.len() > 0 && a[0] == b[0] && b[0] == c[0] {
        lemma_transitiv(a.drop_first(), b.drop_first(), c.drop_first());
    }
}

proof fn lemma_total(a: Seq<char>, b: Seq<char>)
    requires
        a != b,
    ensures
        lex_kleiner(a, b) || lex_kleiner(b, a),
    decreases a.len(),
{
    if a.len() == 0 && b.len() == 0 {
        assert(a =~= b);
    }
    if a.len() > 0 && b.len() > 0 && a[0] == b[0] {
        assert(a =~= seq![a[0]] + a.drop_first());
        assert(b =~= seq![b[0]] + b.drop_first());
        lemma_total(a.drop_first(), b.drop_first());
    }
}

/// The order of names is a total order.
pub proof fn lemma_namensordnung_total()
    ensures
        total_ordering(namensordnung()),
{
    let r = namensordnung();
    assert forall|a: Seq<char>| #[trigger] r(a, a) by {}
    assert forall|a: Seq<char>, b: Seq<char>| #[trigger] r(a, b) && #[trigger] r(b, a) implies a
        == b by {
        if a != b {
            lemma_asymmetrisch(a, b);
        }
    }
    assert forall|a: Seq<char>, b: Seq<char>, c: Seq<char>| #[trigger] r(a, b) && #[trigger] r(
        b,
        c,
    ) implies r(a, c) by {
        if a != b && b != c {
            lemma_transitiv(a, b, c);
        }
    }
    assert forall|a: Seq<char>, b: Seq<char>| #[trigger] r(a, b) || #[trigger] r(b, a) by {
        if a != b {
            lemma_total(a, b);
        }
    }
}

proof fn lemma_sortiert_eindeutig(s1: Seq<Seq<char>>, s2: Seq<Seq<char>>)
    requires
        sorted_by(s1, namensordnung()),
        sorted_by(s2, namensordnung()),
        s1.to_multiset() == s2.to_multiset(),
    ensures
        s1 == s2,
    decreases s1.len(),
{
    broadcast use group_to_multiset_ensures;

    lemma_namensordnung_total();
    let r = namensordnung();
    assert(s1.len() == s1.to_multiset().len());
    if s1.len() == 0 {
        assert(s1 =~= s2);
    } else {
        assert(s1.contains(s1[0]));
        assert(s2.to_multiset().count(s1[0]) > 0);
        let j = choose|j: int| 0 <= j < s2.len() && s2[j] == s1[0];
        if j > 0 {
            assert(r(s2[0], s2[j]));
        }
        assert(r(s2[0], s1[0]));
        assert(s2.contains(s2[0]));
        assert(s1.to_multiset().count(s2[0]) > 0);
        let k = choose|k: int| 0 <= k < s1.len() && s1[k] == s2[0];
        if k > 0 {
            assert(r(s1[0], s1[k]));
        }
        assert(r(s1[0], s2[0]));
        assert(s1[0] == s2[0]);
        assert(s1.remove(0) =~= s1.drop_first());
        assert(s2.remove(0) =~= s2.drop_first());
        assert(s1.drop_first().to_multiset() =~= s2.drop_first().to_multiset());
        assert(sorted_by(s1.drop_first(), r)) by {
            assert forall|a: int, b: int| 0 <= a < b < s1.drop_first().len() implies #[trigger] r(
                s1.drop_first()[a],
                s1.drop_first()[b],
            ) by {
                assert(r(s1[a + 1], s1[b + 1]));
            }
        }
        assert(sorted_by(s2.drop_first(), r)) by {
            assert forall|a: int, b: int| 0 <= a < b < s2.drop_first().len() implies #[trigger] r(
                s2.drop_first()[a],
                s2.drop_first()[b],
            ) by {
                assert(r(s2[a + 1], s2[b + 1]));
            }
        }
        lemma_sortiert_eindeutig(s1.drop_first(), s2.drop_first());
        assert forall|i: int| 0 <= i < s1.len() implies s1[i] == s2[i] by {
            if i > 0 {
                assert(s1[i] == s1.drop_first()[i - 1]);
                assert(s2[i] == s2.drop_first()[i - 1]);
            }
        }
        assert(s1 =~= s2);
    }
}

/// Whether `a` comes strictly before `b` in the order of names.
pub fn kommt_vor(a: &str, b: &str) -> (r: bool)
    ensures
        r == lex_kleiner(a@, b@),
{
    let na = a.unicode_len();
    let nb = b.unicode_len();
    let mut i: usize = 0;
    assert(a@.skip(0) =~= a@);
    assert(b@.skip(0) =~= b@);
    loop
        invariant
            na == a@.len(),
            nb == b@.len(),
            i <= na,
            i <= nb,
            lex_kleiner(a@, b@) == lex_kleiner(a@.skip(i as int), b@.skip(i as int)),
        decreases na - i,
    {
        if i == nb {
            return false;
        }
        if i == na {
            return true;
        }
        let ca = a.get_char(i);
        let cb = b.get_char(i);
        if ca != cb {
            return ca < cb;
        }
        assert(a@.skip(i as int).drop_first() =~= a@.skip(i + 1));
        assert(b@.skip(i as int).drop_first() =~= b@.skip(i + 1));
        i = i + 1;
    }
}

/// The names sorted by the order of names, as `sort` on them does.
pub fn namen_sortieren(namen: &Vec<String>) -> (sortiert: Vec<String>)
    ensures
        ansichten(sortiert@) == ansichten(namen@).sort_by(namensordnung()),
{
    broadcast use group_to_multiset_ensures;

    proof {
        lemma_namensordnung_total();
    }
    let ghost r = namensordnung();
    let mut sortiert: Vec<String> = Vec::new();
    let mut i: usize = 0;
    assert(ansichten(sortiert@) =~= ansichten(namen@.take(0)));
    while i < namen.len()
        invariant
            i <= namen.len(),
            r == namensordnung(),
            total_ordering(r),
            sorted_by(ansichten(sortiert@), r),
            ansichten(sortiert@).to_multiset() == ansichten(namen@.take(i as int)).to_multiset(),
        decreases namen.len() - i,
    {
        let x = namen[i].clone();
        let ghost alt = ansichten(sortiert@);
        let mut p: usize = 0;
        loop
            invariant
                p <= sortiert.len(),
                alt == ansichten(sortiert@),
                forall|j: int| 0 <= j < p ==> lex_kleiner_gleich(#[trigger] alt[j], x@),
            ensures
                p <= sortiert.len(),
                forall|j: int| 0 <= j < p ==> lex_kleiner_gleich(#[trigger] alt[j], x@),
                p == sortiert.len() || lex_kleiner(x@, alt[p as int]),
            decreases sortiert.len() - p,
        {
            if p == sortiert.len() {
                break ;
            }
            if kommt_vor(x.as_str(), sortiert[p].as_str()) {
                break ;
            }
            proof {
                if alt[p as int] != x@ {
                    lemma_total(alt[p as int], x@);
                }
            }
            p = p + 1;
        }
        sortiert.insert(p, x);
        proof {
            let neu = ansichten(sortiert@);
            assert(neu =~= alt.insert(p as int, x@));
            assert forall|a: int, b: int| 0 <= a < b < neu.len() implies #[trigger] r(
                neu[a],
                neu[b],
            ) by {
                if b < p {
                    assert(r(alt[a], alt[b]));
                } else if b == p {
                    assert(lex_kleiner_gleich(alt[a], x@));
                } else if a < p {
                    assert(r(alt[a], alt[b - 1]));
                } else if a == p {
                    assert(lex_kleiner(x@, alt[p as int]));
                    if p < b - 1 {
                        assert(r(alt[p as int], alt[b - 1]));
                    }
                    assert(r(x@, alt[p as int]));
                } else {
                    assert(r(alt[a - 1], alt[b - 1]));
                }
            }
            assert(neu.remove(p as int) =~= alt);
            assert(neu[p as int] == x@);
            neu.to_multiset_ensures();
            assert(neu.remove(p as int).to_multiset() =~= neu.to_multiset().remove(neu[p as int]));
            assert(neu.to_multiset().remove(x@) =~= alt.to_multiset());
            assert(neu.contains(x@));
            assert(neu.to_multiset().count(x@) > 0);
            assert(neu.to_multiset() =~= alt.to_multiset().insert(x@));
            let vorher = ansichten(namen@.take(i as int));
            assert(ansichten(namen@.take(i + 1)) =~= vorher.push(x@));
            vorher.to_multiset_ensures();
            assert(vorher.push(x@).to_multiset() =~= vorher.to_multiset().insert(x@));
        }
        i = i + 1;
    }
    proof {
        assert(namen@.take(i as int) =~= namen@);
        ansichten(namen@).lemma_sort_by_ensures(r);
        lemma_sortiert_eindeutig(ansichten(sortiert@), ansichten(namen@).sort_by(r));
    }
    sortiert
}

} // verus!
