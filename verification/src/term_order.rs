//! The order in which lists of terms are sorted.
use crate::expression::terms_view;
use crate::term::{term_text, AtomEnum, AtomView, AtomicTerm, TermView};
use vstd::prelude::*;

verus! {

/// Whether the text `a` comes strictly before `b`, character by character,
/// a proper prefix first.
pub open spec fn text_before(a: Seq<char>, b: Seq<char>) -> bool
    decreases a.len(),
{
    if a.len() == 0 {
        b.len() > 0
    } else if b.len() == 0 {
        false
    } else if a[0] != b[0] {
        a[0] < b[0]
    } else {
        text_before(a.drop_first(), b.drop_first())
    }
}

/// What terms are ordered by: first atoms, then variables, then composite
/// terms; among atoms first integers, then strings, then booleans, then
/// rationals; integers by value, strings and rationals by their text,
/// `false` before `true`; variables and composite terms by how they print.
pub open spec fn term_key(t: TermView) -> (int, int, int, Seq<char>) {
    match t {
        TermView::Atom(AtomView::Int(n)) => (0, 0, n, Seq::empty()),
        TermView::Atom(AtomView::Str(s)) => (0, 1, 0, s),
        TermView::Atom(AtomView::Bool(b)) => (0, 2, if b { 1 } else { 0 }, Seq::empty()),
        TermView::Atom(AtomView::Float(x)) => (0, 3, 0, x),
        TermView::Variable(_, _) => (1, 0, 0, term_text(t)),
        TermView::Composite(_, _) => (2, 0, 0, term_text(t)),
    }
}

/// Whether the key `x` comes strictly before `y`, part by part.
pub open spec fn key_before(x: (int, int, int, Seq<char>), y: (int, int, int, Seq<char>)) -> bool {
    x.0 < y.0 || (x.0 == y.0 && (x.1 < y.1 || (x.1 == y.1 && (x.2 < y.2 || (x.2 == y.2 && text_before(x.3, y.3))))))
}

/// Whether the term `a` comes strictly before `b` in the order of terms.
pub open spec fn term_before(a: TermView, b: TermView) -> bool {
    key_before(term_key(a), term_key(b))
}

/// Whether the terms are in order: none comes before an earlier one.
pub open spec fn terms_sorted(s: Seq<TermView>) -> bool {
    forall|i: int, j: int| 0 <= i < j < s.len() ==> !term_before(#[trigger] s[j], #[trigger] s[i])
}

/// Whether no term occurs twice.
pub open spec fn terms_distinct(s: Seq<TermView>) -> bool {
    forall|i: int, j: int| 0 <= i < j < s.len() ==> #[trigger] s[i] != #[trigger] s[j]
}

/// No text comes before itself.
pub proof fn lemma_text_before_irreflexive(a: Seq<char>)
    ensures
        !text_before(a, a),
    decreases a.len(),
{
    if a.len() > 0 {
        lemma_text_before_irreflexive(a.drop_first());
    }
}

/// The order of texts is transitive.
pub proof fn lemma_text_before_transitive(a: Seq<char>, b: Seq<char>, c: Seq<char>)
    requires
        text_before(a, b),
        text_before(b, c),
    ensures
        text_before(a, c),
    decreases a.len(),
{
    if a.len() > 0 && b.len() > 0 && c.len() > 0 && a[0] == b[0] && b[0] == c[0] {
        lemma_text_before_transitive(a.drop_first(), b.drop_first(), c.drop_first());
    }
}

/// Of two different texts, one comes before the other.
pub proof fn lemma_text_before_total(a: Seq<char>, b: Seq<char>)
    requires
        a != b,
    ensures
        text_before(a, b) || text_before(b, a),
    decreases a.len(),
{
    if a.len() > 0 && b.len() > 0 && a[0] == b[0] {
        if a.drop_first() == b.drop_first() {
            assert(a =~= seq![a[0]] + a.drop_first());
            assert(b =~= seq![b[0]] + b.drop_first());
        }
        lemma_text_before_total(a.drop_first(), b.drop_first());
    } else if a.len() == 0 && b.len() == 0 {
        assert(a =~= b);
    }
}

/// No term comes before itself, and the order of terms is transitive.
pub proof fn lemma_term_before_order(a: TermView, b: TermView, c: TermView)
    ensures
        !term_before(a, a),
        term_before(a, b) && term_before(b, c) ==> term_before(a, c),
        term_before(a, b) ==> !term_before(b, a),
{
    lemma_text_before_irreflexive(term_key(a).3);
    if term_before(a, b) && term_before(b, c) {
        if term_key(a).0 == term_key(c).0 && term_key(a).1 == term_key(c).1 && term_key(a).2 == term_key(c).2 {
            lemma_text_before_transitive(term_key(a).3, term_key(b).3, term_key(c).3);
        }
    }
    if term_before(a, b) && term_before(b, a) {
        lemma_text_before_transitive(term_key(a).3, term_key(b).3, term_key(a).3);
    }
}

/// Two terms with different keys are ordered one way or the other.
pub proof fn lemma_term_before_total(a: TermView, b: TermView)
    requires
        term_key(a) != term_key(b),
    ensures
        term_before(a, b) || term_before(b, a),
{
    if term_key(a).0 == term_key(b).0 && term_key(a).1 == term_key(b).1 && term_key(a).2 == term_key(b).2 {
        lemma_text_before_total(term_key(a).3, term_key(b).3);
    }
}

fn text_chars(s: &String) -> (r: Vec<char>)
    ensures
        r@ == s@,
{
    let t = s.as_str();
    let n = t.unicode_len();
    let mut chars: Vec<char> = Vec::new();
    let mut i: usize = 0;
    while i < n
        invariant
            i <= n,
            n == t@.len(),
            t@ == s@,
            chars@ == t@.subrange(0, i as int),
        decreases n - i,
    {
        chars.push(t.get_char(i));
        i += 1;
    }
    assert(chars@ =~= s@);
    chars
}

fn text_before_exec(a: &String, b: &String) -> (r: bool)
    ensures
        r == text_before(a@, b@),
{
    let x = text_chars(a);
    let y = text_chars(b);
    let mut i: usize = 0;
    assert(x@.skip(0) =~= x@);
    assert(y@.skip(0) =~= y@);
    while i < x.len() && i < y.len()
        invariant
            i <= x@.len(),
            i <= y@.len(),
            text_before(a@, b@) == text_before(x@.skip(i as int), y@.skip(i as int)),
            x@ == a@,
            y@ == b@,
        decreases x@.len() - i,
    {
        if x[i] != y[i] {
            return x[i] < y[i];
        }
        assert(x@.skip(i as int).drop_first() =~= x@.skip(i + 1));
        assert(y@.skip(i as int).drop_first() =~= y@.skip(i + 1));
        i += 1;
    }
    i == x.len() && i < y.len()
}

/// The rank of a term's kind, and of an atom's kind among atoms.
fn kind_ranks(t: &AtomicTerm) -> (r: (u8, u8))
    ensures
        r.0 == term_key(t@).0,
        r.1 == term_key(t@).1,
{
    match t {
        AtomicTerm::Atom(a) => match &a.val {
            AtomEnum::Int(_) => (0, 0),
            AtomEnum::Str(_) => (0, 1),
            AtomEnum::Bool(_) => (0, 2),
            AtomEnum::Float(_) => (0, 3),
        },
        AtomicTerm::Variable(_) => (1, 0),
        AtomicTerm::Composite(_) => (2, 0),
    }
}

/// The text part of a term's key.
fn key_text(t: &AtomicTerm) -> (r: String)
    ensures
        r@ == term_key(t@).3,
{
    match t {
        AtomicTerm::Atom(a) => match &a.val {
            AtomEnum::Str(s) => s.clone(),
            AtomEnum::Float(x) => x.clone(),
            _ => String::new(),
        },
        _ => t.to_string(),
    }
}

/// Whether the term `a` comes strictly before `b` in the order of terms.
pub fn term_before_exec(a: &AtomicTerm, b: &AtomicTerm) -> (r: bool)
    ensures
        r == term_before(a@, b@),
{
    let (ra, sa) = kind_ranks(a);
    let (rb, sb) = kind_ranks(b);
    if ra != rb {
        return ra < rb;
    }
    if sa != sb {
        return sa < sb;
    }
    match (a, b) {
        (AtomicTerm::Atom(x), AtomicTerm::Atom(y)) => match (&x.val, &y.val) {
            (AtomEnum::Int(m), AtomEnum::Int(n)) => {
                proof {
                    lemma_text_before_irreflexive(Seq::<char>::empty());
                }
                return m.less_than(n);
            },
            (AtomEnum::Bool(p), AtomEnum::Bool(q)) => {
                proof {
                    lemma_text_before_irreflexive(Seq::<char>::empty());
                }
                return !*p && *q;
            },
            _ => {},
        },
        _ => {},
    }
    text_before_exec(&key_text(a), &key_text(b))
}

/// The terms of `v`, each once, in the order of terms; of terms that the
/// order does not tell apart, the one met first comes first.
pub fn sorted_distinct(v: &Vec<AtomicTerm>) -> (r: Vec<AtomicTerm>)
    ensures
        terms_sorted(terms_view(r@)),
        terms_distinct(terms_view(r@)),
        forall|x: TermView| terms_view(r@).contains(x) <==> terms_view(v@).contains(x),
{
    let ghost vv = terms_view(v@);
    let mut r: Vec<AtomicTerm> = Vec::new();
    let mut i: usize = 0;
    while i < v.len()
        invariant
            i <= v@.len(),
            vv == terms_view(v@),
            terms_sorted(terms_view(r@)),
            terms_distinct(terms_view(r@)),
            forall|x: TermView| terms_view(r@).contains(x) <==> vv.subrange(0, i as int).contains(x),
        decreases v@.len() - i,
    {
        let ghost rv = terms_view(r@);
        let ghost x = v@[i as int]@;
        proof {
            assert(vv[i as int] == x);
            assert forall|y: TermView| vv.subrange(0, i + 1).contains(y) <==> vv.subrange(0, i as int).contains(y) || y == x by {
                assert(vv.subrange(0, i + 1) =~= vv.subrange(0, i as int).push(x));
                vstd::seq_lib::lemma_seq_contains_after_push(vv.subrange(0, i as int), x, y);
            }
        }
        if !crate::matching::contains_term(&r, &v[i]) {
            let mut p: usize = 0;
            while p < r.len() && !term_before_exec(&v[i], &r[p])
                invariant
                    p <= r@.len(),
                    rv == terms_view(r@),
                    x == v@[i as int]@,
                    i < v@.len(),
                    forall|k: int| 0 <= k < p ==> !term_before(x, #[trigger] rv[k]),
                decreases r@.len() - p,
            {
                p += 1;
            }
            r.insert(p, v[i].duplicate());
            proof {
                let nr = terms_view(r@);
                assert(nr =~= rv.insert(p as int, x));
                assert forall|a: int, b: int| 0 <= a < b < nr.len() implies !term_before(#[trigger] nr[b], #[trigger] nr[a]) by {
                    if a < p && b == p {
                        assert(nr[a] == rv[a] && nr[b] == x);
                    } else if a == p && b > p {
                        assert(nr[b] == rv[b - 1] && nr[a] == x);
                        assert(term_before(x, rv[p as int]));
                        lemma_term_before_order(rv[b - 1], x, rv[p as int]);
                        lemma_term_before_order(rv[p as int], rv[p as int], rv[p as int]);
                    } else if a < p && b > p {
                        assert(nr[a] == rv[a] && nr[b] == rv[b - 1]);
                    } else if a < p && b < p {
                        assert(nr[a] == rv[a] && nr[b] == rv[b]);
                    } else {
                        assert(nr[a] == rv[a - 1] && nr[b] == rv[b - 1]);
                    }
                }
                assert forall|a: int, b: int| 0 <= a < b < nr.len() implies #[trigger] nr[a] != #[trigger] nr[b] by {
                    if a == p {
                        assert(rv.contains(nr[b]));
                    } else if b == p {
                        assert(rv.contains(nr[a]));
                    } else if a < p && b > p {
                        assert(nr[a] == rv[a] && nr[b] == rv[b - 1]);
                    } else if a < p && b < p {
                        assert(nr[a] == rv[a] && nr[b] == rv[b]);
                    } else {
                        assert(nr[a] == rv[a - 1] && nr[b] == rv[b - 1]);
                    }
                }
                assert forall|y: TermView| nr.contains(y) <==> rv.contains(y) || y == x by {
                    if rv.contains(y) {
                        let k = choose|k: int| 0 <= k < rv.len() && rv[k] == y;
                        if k < p {
                            assert(nr[k] == y);
                        } else {
                            assert(nr[k + 1] == y);
                        }
                    }
                    if nr.contains(y) && y != x {
                        let k = choose|k: int| 0 <= k < nr.len() && nr[k] == y;
                        if k < p {
                            assert(rv[k] == y);
                        } else {
                            assert(rv[k - 1] == y);
                        }
                    }
                    assert(nr[p as int] == x);
                }
            }
        }
        i += 1;
    }
    assert(vv.subrange(0, vv.len() as int) =~= vv);
    r
}

} // verus!
