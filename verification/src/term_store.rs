use crate::expression::terms_view;
use crate::integer::Integer;
use crate::term::{renamed_term, term_text, AtomicComposite, AtomicTerm, TermView};
use crate::text::concat3;
use crate::type_system::RawType;
use vstd::prelude::*;

verus! {

broadcast use vstd::seq_lib::group_seq_properties;

/// Pairs of ids and terms as values.
pub open spec fn ids_view(v: Seq<(Integer, AtomicTerm)>) -> Seq<(int, TermView)> {
    v.map_values(|p: (Integer, AtomicTerm)| (p.0@, p.1@))
}

/// Pairs of alias names and terms as values.
pub open spec fn aliases_view(v: Seq<(String, AtomicTerm)>) -> Seq<(Seq<char>, TermView)> {
    v.map_values(|p: (String, AtomicTerm)| (p.0@, p.1@))
}

/// No key and no value occurs twice among the pairs.
pub open spec fn one_to_one<K, V>(s: Seq<(K, V)>) -> bool {
    forall|i: int, j: int| 0 <= i < j < s.len() ==> (#[trigger] s[i]).0 != (#[trigger] s[j]).0 && s[i].1 != s[j].1
}

/// Whether a pair has the key `k` or the value `v`, where these are given.
pub open spec fn dropped<K, V>(p: (K, V), k: Option<K>, v: Option<V>) -> bool {
    (k matches Some(x) && p.0 == x) || (v matches Some(y) && p.1 == y)
}

/// The pairs of `s`, in order, but those with the key `k` or the value `v`.
pub open spec fn pairs_kept<K, V>(s: Seq<(K, V)>, k: Option<K>, v: Option<V>) -> Seq<(K, V)>
    decreases s.len(),
{
    if s.len() == 0 {
        Seq::empty()
    } else {
        let p = pairs_kept(s.drop_last(), k, v);
        if dropped(s.last(), k, v) {
            p
        } else {
            p.push(s.last())
        }
    }
}

/// The pairs after `(k, v)` is put in: every pair with the key `k` or the value
/// `v` leaves, and the new pair comes last.
pub open spec fn pair_put<K, V>(s: Seq<(K, V)>, k: K, v: V) -> Seq<(K, V)> {
    pairs_kept(s, Some(k), Some(v)).push((k, v))
}

/// The value that the last pair with key `k` holds.
pub open spec fn value_of<K, V>(s: Seq<(K, V)>, k: K) -> Option<V>
    decreases s.len(),
{
    if s.len() == 0 {
        None
    } else if s.last().0 == k {
        Some(s.last().1)
    } else {
        value_of(s.drop_last(), k)
    }
}

/// The key of the last pair with value `v`.
pub open spec fn key_of<K, V>(s: Seq<(K, V)>, v: V) -> Option<K>
    decreases s.len(),
{
    if s.len() == 0 {
        None
    } else if s.last().1 == v {
        Some(s.last().0)
    } else {
        key_of(s.drop_last(), v)
    }
}

/// The values of the pairs, in order.
pub open spec fn values_of<K, V>(s: Seq<(K, V)>) -> Seq<V> {
    s.map_values(|p: (K, V)| p.1)
}

/// What is kept of a list of pairs is among the pairs, and what is kept of a
/// one-to-one list is one-to-one.
pub proof fn lemma_pairs_kept<K, V>(s: Seq<(K, V)>, k: Option<K>, v: Option<V>)
    ensures
        forall|x: (K, V)| #[trigger] pairs_kept(s, k, v).contains(x) <==> s.contains(x) && !dropped(x, k, v),
        one_to_one(s) ==> one_to_one(pairs_kept(s, k, v)),
    decreases s.len(),
{
    if s.len() > 0 {
        let d = s.drop_last();
        let p = pairs_kept(d, k, v);
        lemma_pairs_kept(d, k, v);
        assert(s =~= d.push(s.last()));
        assert forall|x: (K, V)| #[trigger] pairs_kept(s, k, v).contains(x) <==> s.contains(x) && !dropped(x, k, v) by {
            assert(s.contains(x) <==> d.contains(x) || x == s.last());
        }
        if one_to_one(s) {
            assert(one_to_one(d)) by {
                assert forall|i: int, j: int| 0 <= i < j < d.len() implies (#[trigger] d[i]).0 != (#[trigger] d[j]).0
                    && d[i].1 != d[j].1 by {
                    assert(d[i] == s[i] && d[j] == s[j]);
                }
            }
            if !dropped(s.last(), k, v) {
                let r = p.push(s.last());
                assert forall|i: int, j: int| 0 <= i < j < r.len() implies (#[trigger] r[i]).0 != (#[trigger] r[j]).0
                    && r[i].1 != r[j].1 by {
                    if j == r.len() - 1 {
                        assert(p.contains(r[i]));
                        let m = choose|m: int| 0 <= m < d.len() && d[m] == r[i];
                        assert(s[m] == d[m]);
                        assert(s[s.len() - 1] == s.last());
                    } else {
                        assert(r[i] == p[i] && r[j] == p[j]);
                    }
                }
            }
        }
    }
}

/// Putting a pair into a one-to-one list keeps it one-to-one, and the pair is
/// then in it.
pub proof fn lemma_pair_put<K, V>(s: Seq<(K, V)>, k: K, v: V)
    requires
        one_to_one(s),
    ensures
        one_to_one(pair_put(s, k, v)),
        pair_put(s, k, v).contains((k, v)),
{
    let p = pairs_kept(s, Some(k), Some(v));
    lemma_pairs_kept(s, Some(k), Some(v));
    let r = p.push((k, v));
    assert forall|i: int, j: int| 0 <= i < j < r.len() implies (#[trigger] r[i]).0 != (#[trigger] r[j]).0
        && r[i].1 != r[j].1 by {
        if j == r.len() - 1 {
            assert(p.contains(r[i]));
        } else {
            assert(r[i] == p[i] && r[j] == p[j]);
        }
    }
    assert(r[r.len() - 1] == (k, v));
}

/// An optional id as a value.
pub open spec fn id_opt(k: Option<&Integer>) -> Option<int> {
    match k {
        Some(x) => Some(x@),
        None => None,
    }
}

/// An optional name as a value.
pub open spec fn name_opt(k: Option<&String>) -> Option<Seq<char>> {
    match k {
        Some(x) => Some(x@),
        None => None,
    }
}

/// An optional term as a value.
pub open spec fn term_opt(v: Option<&AtomicTerm>) -> Option<TermView> {
    match v {
        Some(x) => Some(x@),
        None => None,
    }
}

fn ids_kept(s: &Vec<(Integer, AtomicTerm)>, k: Option<&Integer>, v: Option<&AtomicTerm>) -> (r: Vec<(Integer, AtomicTerm)>)
    ensures
        ids_view(r@) == pairs_kept(ids_view(s@), id_opt(k), term_opt(v)),
{
    let ghost sv = ids_view(s@);
    let mut r: Vec<(Integer, AtomicTerm)> = Vec::new();
    let mut i: usize = 0;
    assert(ids_view(r@) =~= pairs_kept(sv.subrange(0, 0), id_opt(k), term_opt(v)));
    while i < s.len()
        invariant
            i <= s@.len(),
            sv == ids_view(s@),
            ids_view(r@) == pairs_kept(sv.subrange(0, i as int), id_opt(k), term_opt(v)),
        decreases s@.len() - i,
    {
        proof {
            assert(sv.subrange(0, i + 1).drop_last() =~= sv.subrange(0, i as int));
            assert(sv.subrange(0, i + 1).last() == sv[i as int]);
        }
        let p = &s[i];
        let by_key = match k {
            Some(x) => p.0.equals(x),
            None => false,
        };
        let by_value = match v {
            Some(y) => p.1.equals(y),
            None => false,
        };
        if !by_key && !by_value {
            let ghost before = ids_view(r@);
            r.push((p.0.duplicate(), p.1.duplicate()));
            assert(ids_view(r@) =~= before.push(sv[i as int]));
        }
        i += 1;
    }
    assert(sv.subrange(0, sv.len() as int) =~= sv);
    r
}

fn aliases_kept(s: &Vec<(String, AtomicTerm)>, k: Option<&String>, v: Option<&AtomicTerm>) -> (r: Vec<(String, AtomicTerm)>)
    ensures
        aliases_view(r@) == pairs_kept(aliases_view(s@), name_opt(k), term_opt(v)),
{
    let ghost sv = aliases_view(s@);
    let mut r: Vec<(String, AtomicTerm)> = Vec::new();
    let mut i: usize = 0;
    assert(aliases_view(r@) =~= pairs_kept(sv.subrange(0, 0), name_opt(k), term_opt(v)));
    while i < s.len()
        invariant
            i <= s@.len(),
            sv == aliases_view(s@),
            aliases_view(r@) == pairs_kept(sv.subrange(0, i as int), name_opt(k), term_opt(v)),
        decreases s@.len() - i,
    {
        proof {
            assert(sv.subrange(0, i + 1).drop_last() =~= sv.subrange(0, i as int));
            assert(sv.subrange(0, i + 1).last() == sv[i as int]);
        }
        let p = &s[i];
        let by_key = match k {
            Some(x) => p.0 == *x,
            None => false,
        };
        let by_value = match v {
            Some(y) => p.1.equals(y),
            None => false,
        };
        if !by_key && !by_value {
            let ghost before = aliases_view(r@);
            r.push((p.0.clone(), p.1.duplicate()));
            assert(aliases_view(r@) =~= before.push(sv[i as int]));
        }
        i += 1;
    }
    assert(sv.subrange(0, sv.len() as int) =~= sv);
    r
}

/// The position of the last pair with the id `id`.
fn position_of_id(s: &Vec<(Integer, AtomicTerm)>, id: &Integer) -> (r: Option<usize>)
    ensures
        match r {
            Some(i) => i < s@.len() && value_of(ids_view(s@), id@) == Some(s@[i as int].1@),
            None => value_of(ids_view(s@), id@) is None,
        },
{
    let ghost sv = ids_view(s@);
    let mut i: usize = s.len();
    assert(sv.subrange(0, i as int) =~= sv);
    while i > 0
        invariant
            i <= s@.len(),
            sv == ids_view(s@),
            value_of(sv, id@) == value_of(sv.subrange(0, i as int), id@),
        decreases i,
    {
        proof {
            assert(sv.subrange(0, i as int).drop_last() =~= sv.subrange(0, i - 1));
            assert(sv.subrange(0, i as int).last() == sv[i - 1]);
        }
        if s[i - 1].0.equals(id) {
            return Some(i - 1);
        }
        i -= 1;
    }
    assert(sv.subrange(0, 0) =~= Seq::<(int, TermView)>::empty());
    None
}

/// The position of the last pair with the term `t`.
fn position_of_term(s: &Vec<(Integer, AtomicTerm)>, t: &AtomicTerm) -> (r: Option<usize>)
    ensures
        match r {
            Some(i) => i < s@.len() && key_of(ids_view(s@), t@) == Some(s@[i as int].0@),
            None => key_of(ids_view(s@), t@) is None,
        },
{
    let ghost sv = ids_view(s@);
    let mut i: usize = s.len();
    assert(sv.subrange(0, i as int) =~= sv);
    while i > 0
        invariant
            i <= s@.len(),
            sv == ids_view(s@),
            key_of(sv, t@) == key_of(sv.subrange(0, i as int), t@),
        decreases i,
    {
        proof {
            assert(sv.subrange(0, i as int).drop_last() =~= sv.subrange(0, i - 1));
            assert(sv.subrange(0, i as int).last() == sv[i - 1]);
        }
        if s[i - 1].1.equals(t) {
            return Some(i - 1);
        }
        i -= 1;
    }
    assert(sv.subrange(0, 0) =~= Seq::<(int, TermView)>::empty());
    None
}

/// The position of the last pair with the name `name`.
fn position_of_alias(s: &Vec<(String, AtomicTerm)>, name: &String) -> (r: Option<usize>)
    ensures
        match r {
            Some(i) => i < s@.len() && value_of(aliases_view(s@), name@) == Some(s@[i as int].1@),
            None => value_of(aliases_view(s@), name@) is None,
        },
{
    let ghost sv = aliases_view(s@);
    let mut i: usize = s.len();
    assert(sv.subrange(0, i as int) =~= sv);
    while i > 0
        invariant
            i <= s@.len(),
            sv == aliases_view(s@),
            value_of(sv, name@) == value_of(sv.subrange(0, i as int), name@),
        decreases i,
    {
        proof {
            assert(sv.subrange(0, i as int).drop_last() =~= sv.subrange(0, i - 1));
            assert(sv.subrange(0, i as int).last() == sv[i - 1]);
        }
        if s[i - 1].0 == *name {
            return Some(i - 1);
        }
        i -= 1;
    }
    assert(sv.subrange(0, 0) =~= Seq::<(Seq<char>, TermView)>::empty());
    None
}

/// Where nothing is to go, every pair is kept.
proof fn lemma_pairs_kept_all<K, V>(s: Seq<(K, V)>)
    ensures
        pairs_kept(s, None, None) == s,
    decreases s.len(),
{
    if s.len() > 0 {
        lemma_pairs_kept_all(s.drop_last());
        assert(s =~= s.drop_last().push(s.last()));
    }
}

/// A key is found exactly where some value has it.
proof fn lemma_key_of<K, V>(s: Seq<(K, V)>, v: V)
    ensures
        key_of(s, v) is Some <==> values_of(s).contains(v),
    decreases s.len(),
{
    if s.len() > 0 {
        let d = s.drop_last();
        lemma_key_of(d, v);
        assert(values_of(s) =~= values_of(d).push(s.last().1));
    }
}

/// `t` with every variable that names an alias replaced by the alias's term,
/// itself expanded in turn; after `fuel` aliases in a row the variable met
/// next is left as it is.
pub open spec fn alias_expanded(t: TermView, al: Seq<(Seq<char>, TermView)>, fuel: nat) -> TermView
    decreases fuel, t,
{
    match t {
        TermView::Variable(_, _) => match value_of(al, term_text(t)) {
            Some(a) => if fuel == 0 {
                t
            } else {
                alias_expanded(a, al, (fuel - 1) as nat)
            },
            None => t,
        },
        TermView::Composite(sort, args) => TermView::Composite(
            sort,
            Seq::new(args.len(), |i: int| if 0 <= i < args.len() { alias_expanded(args[i], al, fuel) } else { t }),
        ),
        _ => t,
    }
}

/// Whether expanding `t` never goes through more than `fuel` aliases in a
/// row. With as much fuel as there are aliases, this fails only where some
/// alias is reached again from its own term, where expanding would not end.
pub open spec fn expansion_ends(t: TermView, al: Seq<(Seq<char>, TermView)>, fuel: nat) -> bool
    decreases fuel, t,
{
    match t {
        TermView::Variable(_, _) => match value_of(al, term_text(t)) {
            Some(a) => fuel > 0 && expansion_ends(a, al, (fuel - 1) as nat),
            None => true,
        },
        TermView::Composite(_, args) => forall|i: int| 0 <= i < args.len() ==> expansion_ends(#[trigger] args[i], al, fuel),
        _ => true,
    }
}

/// The term with its aliases expanded, as `alias_expanded` says.
fn expand_aliases(t: &AtomicTerm, al: &Vec<(String, AtomicTerm)>, fuel: usize) -> (r: AtomicTerm)
    ensures
        r@ == alias_expanded(t@, aliases_view(al@), fuel as nat),
    decreases fuel, t,
{
    match t {
        AtomicTerm::Variable(_) => {
            let name = t.to_string();
            match position_of_alias(al, &name) {
                Some(i) => {
                    if fuel == 0 {
                        t.duplicate()
                    } else {
                        expand_aliases(&al[i].1, al, fuel - 1)
                    }
                },
                None => t.duplicate(),
            }
        },
        AtomicTerm::Composite(c) => {
            let mut args: Vec<AtomicTerm> = Vec::new();
            let mut i: usize = 0;
            while i < c.arguments.len()
                invariant
                    i <= c.arguments@.len(),
                    args@.len() == i,
                    *t == AtomicTerm::Composite(*c),
                    forall|j: int| 0 <= j < i ==> (#[trigger] args@[j])@ == alias_expanded(c.arguments@[j]@, aliases_view(al@), fuel as nat),
                decreases c.arguments@.len() - i,
            {
                proof {
                    assert(decreases_to!(*t => (*t)->Composite_0));
                    assert(decreases_to!((*t)->Composite_0 => (*t)->Composite_0.arguments));
                    vstd::std_specs::vec::axiom_vec_index_decreases(c.arguments, i as int);
                }
                args.push(expand_aliases(&c.arguments[i], al, fuel));
                i += 1;
            }
            let r = AtomicTerm::Composite(AtomicComposite { sort: c.sort.duplicate(), arguments: args });
            assert(r@->Composite_1 =~= alias_expanded(t@, aliases_view(al@), fuel as nat)->Composite_1);
            r
        },
        _ => t.duplicate(),
    }
}

/// Terms put under ids counted up from zero, in order, each term once.
pub open spec fn ids_added(ts: Seq<TermView>) -> Seq<(int, TermView)>
    decreases ts.len(),
{
    if ts.len() == 0 {
        Seq::empty()
    } else {
        let p = ids_added(ts.drop_last());
        if values_of(p).contains(ts.last()) {
            p
        } else {
            p.push((p.len() as int, ts.last()))
        }
    }
}

/// The pairs put in one after another, each as `pair_put` does.
pub open spec fn pairs_put_all<K, V>(s: Seq<(K, V)>) -> Seq<(K, V)>
    decreases s.len(),
{
    if s.len() == 0 {
        Seq::empty()
    } else {
        pair_put(pairs_put_all(s.drop_last()), s.last().0, s.last().1)
    }
}

/// The pairs put in one after another, each with its term's aliases
/// expanded.
pub open spec fn pairs_expanded<K>(s: Seq<(K, TermView)>, al: Seq<(Seq<char>, TermView)>, fuel: nat) -> Seq<(K, TermView)>
    decreases s.len(),
{
    if s.len() == 0 {
        Seq::empty()
    } else {
        pair_put(pairs_expanded(s.drop_last(), al, fuel), s.last().0, alias_expanded(s.last().1, al, fuel))
    }
}

proof fn lemma_ids_added(ts: Seq<TermView>)
    ensures
        one_to_one(ids_added(ts)),
        forall|i: int| 0 <= i < ids_added(ts).len() ==> (#[trigger] ids_added(ts)[i]).0 == i,
        forall|i: int| 0 <= i < ids_added(ts).len() ==> ts.contains((#[trigger] ids_added(ts)[i]).1),
    decreases ts.len(),
{
    if ts.len() > 0 {
        let p = ids_added(ts.drop_last());
        lemma_ids_added(ts.drop_last());
        assert(ts =~= ts.drop_last().push(ts.last()));
        assert forall|i: int| 0 <= i < p.len() implies ts.contains((#[trigger] p[i]).1) by {
            assert(ts.drop_last().contains(p[i].1));
        }
        if !values_of(p).contains(ts.last()) {
            let r = p.push((p.len() as int, ts.last()));
            assert forall|i: int, j: int| 0 <= i < j < r.len() implies (#[trigger] r[i]).0 != (#[trigger] r[j]).0
                && r[i].1 != r[j].1 by {
                if j == r.len() - 1 {
                    assert(values_of(p)[i] == p[i].1);
                    assert(r[i] == p[i]);
                } else {
                    assert(r[i] == p[i] && r[j] == p[j]);
                }
            }
            assert forall|i: int| 0 <= i < r.len() implies (#[trigger] r[i]).0 == i by {
                if i < p.len() {
                    assert(r[i] == p[i]);
                }
            }
        }
    }
}

proof fn lemma_pairs_put_all<K, V>(s: Seq<(K, V)>)
    ensures
        one_to_one(pairs_put_all(s)),
    decreases s.len(),
{
    if s.len() > 0 {
        lemma_pairs_put_all(s.drop_last());
        lemma_pair_put(pairs_put_all(s.drop_last()), s.last().0, s.last().1);
    }
}

proof fn lemma_pairs_expanded<K>(s: Seq<(K, TermView)>, al: Seq<(Seq<char>, TermView)>, fuel: nat)
    ensures
        one_to_one(pairs_expanded(s, al, fuel)),
        forall|i: int| 0 <= i < pairs_expanded(s, al, fuel).len() ==>
            exists|j: int| 0 <= j < s.len() && s[j].0 == (#[trigger] pairs_expanded(s, al, fuel)[i]).0,
    decreases s.len(),
{
    if s.len() > 0 {
        let d = s.drop_last();
        let p = pairs_expanded(d, al, fuel);
        let e = alias_expanded(s.last().1, al, fuel);
        lemma_pairs_expanded(d, al, fuel);
        lemma_pair_put(p, s.last().0, e);
        lemma_pairs_kept(p, Some(s.last().0), Some(e));
        let kept = pairs_kept(p, Some(s.last().0), Some(e));
        let r = kept.push((s.last().0, e));
        assert forall|i: int| 0 <= i < r.len() implies exists|j: int| 0 <= j < s.len() && s[j].0 == (#[trigger] r[i]).0 by {
            if i == r.len() - 1 {
                assert(s[s.len() - 1].0 == r[i].0);
            } else {
                assert(kept.contains(r[i]));
                let m = choose|m: int| 0 <= m < p.len() && p[m] == r[i];
                assert(p[m] == pairs_expanded(d, al, fuel)[m]);
                let j = choose|j: int| 0 <= j < d.len() && d[j].0 == (#[trigger] pairs_expanded(d, al, fuel)[m]).0;
                assert(s[j] == d[j]);
            }
        }
    }
}

/// Whether the expansion of every term, and of every alias's term, ends, with
/// the aliases put in one after another.
pub open spec fn expansions_end(ts: Seq<TermView>, am: Seq<(Seq<char>, TermView)>) -> bool {
    let al = pairs_put_all(am);
    &&& forall|i: int| 0 <= i < ts.len() ==> expansion_ends(#[trigger] ts[i], al, al.len())
    &&& forall|i: int| 0 <= i < al.len() ==> expansion_ends((#[trigger] al[i]).1, al, al.len())
}

/// The terms under their ids, with the aliases expanded.
pub open spec fn expanded_ids(ts: Seq<TermView>, am: Seq<(Seq<char>, TermView)>) -> Seq<(int, TermView)> {
    let al = pairs_put_all(am);
    pairs_expanded(ids_added(ts), al, al.len())
}

/// The aliases, each with the aliases in its term expanded.
pub open spec fn expanded_aliases(am: Seq<(Seq<char>, TermView)>) -> Seq<(Seq<char>, TermView)> {
    let al = pairs_put_all(am);
    pairs_expanded(al, al, al.len())
}

/// Aliases moved into a scope: `name` becomes `scope.name` and its term is
/// renamed into the scope.
pub open spec fn aliases_renamed(am: Seq<(Seq<char>, TermView)>, scope: Seq<char>) -> Seq<(Seq<char>, TermView)> {
    am.map_values(|p: (Seq<char>, TermView)| (scope + "."@ + p.0, renamed_term(p.1, scope)))
}

/// A store of terms: each term under an id of its own, counted up from zero,
/// and some terms under alias names. No id, term or name occurs twice.
pub struct UUIdTermStore {
    id_pairs: Vec<(Integer, AtomicTerm)>,
    alias_pairs: Vec<(String, AtomicTerm)>,
    counter: Integer,
}

impl UUIdTermStore {
    /// The terms with their ids, in the order they came in.
    pub closed spec fn ids(&self) -> Seq<(int, TermView)> {
        ids_view(self.id_pairs@)
    }

    /// The alias names with their terms.
    pub closed spec fn aliases(&self) -> Seq<(Seq<char>, TermView)> {
        aliases_view(self.alias_pairs@)
    }

    /// The id that the next new term gets.
    pub closed spec fn next_id(&self) -> int {
        self.counter@
    }

    /// Ids and terms match one to one, as do names and terms, and every id
    /// is below the next one.
    pub open spec fn well_formed(&self) -> bool {
        &&& one_to_one(self.ids())
        &&& one_to_one(self.aliases())
        &&& 0 <= self.next_id()
        &&& forall|i: int| 0 <= i < self.ids().len() ==> 0 <= (#[trigger] self.ids()[i]).0 < self.next_id()
    }

    /// A store of the terms, each under its own id counted up from zero, and
    /// of the aliases, a later one under a name or for a term taking the place
    /// of an earlier one; then in every term, and in the term of every alias,
    /// each variable that names an alias is replaced by that alias's term,
    /// expanded in turn. Where that makes two terms equal, or two aliases name
    /// one term, the later pair stays. Inputs on which the expansion would not
    /// end, because an alias is reached again from its own term, are not
    /// accepted.
    pub fn new(terms: Vec<AtomicTerm>, alias_map: Vec<(String, AtomicTerm)>) -> (r: UUIdTermStore)
        requires
            expansions_end(terms_view(terms@), aliases_view(alias_map@)),
        ensures
            r.well_formed(),
            r.ids() == expanded_ids(terms_view(terms@), aliases_view(alias_map@)),
            r.aliases() == expanded_aliases(aliases_view(alias_map@)),
            r.next_id() == ids_added(terms_view(terms@)).len(),
    {
        let mut store = UUIdTermStore { id_pairs: Vec::new(), alias_pairs: Vec::new(), counter: Integer::zero() };
        let ghost tv = terms_view(terms@);
        assert(store.ids() =~= ids_added(tv.subrange(0, 0)));
        let mut i: usize = 0;
        while i < terms.len()
            invariant
                i <= terms@.len(),
                tv == terms_view(terms@),
                store.well_formed(),
                store.ids() == ids_added(tv.subrange(0, i as int)),
                store.next_id() == store.ids().len(),
            decreases terms@.len() - i,
        {
            proof {
                assert(tv.subrange(0, i + 1).drop_last() =~= tv.subrange(0, i as int));
                assert(tv.subrange(0, i + 1).last() == terms@[i as int]@);
            }
            store.add_term(terms[i].duplicate());
            i += 1;
        }
        assert(tv.subrange(0, tv.len() as int) =~= tv);
        let ghost ids0 = store.ids();
        proof {
            lemma_ids_added(tv);
        }
        let ghost av = aliases_view(alias_map@);
        let mut al: Vec<(String, AtomicTerm)> = Vec::new();
        let mut k: usize = 0;
        assert(aliases_view(al@) =~= pairs_put_all(av.subrange(0, 0)));
        while k < alias_map.len()
            invariant
                k <= alias_map@.len(),
                av == aliases_view(alias_map@),
                aliases_view(al@) == pairs_put_all(av.subrange(0, k as int)),
            decreases alias_map@.len() - k,
        {
            proof {
                assert(av.subrange(0, k + 1).drop_last() =~= av.subrange(0, k as int));
                assert(av.subrange(0, k + 1).last() == av[k as int]);
            }
            let p = &alias_map[k];
            let mut kept = aliases_kept(&al, Some(&p.0), Some(&p.1));
            let ghost before = aliases_view(kept@);
            kept.push((p.0.clone(), p.1.duplicate()));
            assert(aliases_view(kept@) =~= before.push(av[k as int]));
            al = kept;
            k += 1;
        }
        assert(av.subrange(0, av.len() as int) =~= av);
        proof {
            lemma_pairs_put_all(av);
            assert forall|i: int| 0 <= i < ids0.len() implies expansion_ends((#[trigger] ids0[i]).1, aliases_view(al@), aliases_view(al@).len()) by {
                let j = choose|j: int| 0 <= j < tv.len() && tv[j] == ids0[i].1;
            }
        }
        store.alias_pairs = al;
        store.replace_alias();
        store
    }

    /// Replaces, in every term and in the term of every alias, each variable
    /// that names an alias by that alias's term, expanded in turn; where that
    /// makes two terms equal, or two aliases name one term, the later pair
    /// stays. A store in which an alias is reached again from its own term,
    /// where the expansion would not end, is not accepted.
    pub fn replace_alias(&mut self)
        requires
            old(self).well_formed(),
            forall|i: int| 0 <= i < old(self).ids().len() ==> expansion_ends(
                (#[trigger] old(self).ids()[i]).1,
                old(self).aliases(),
                old(self).aliases().len(),
            ),
            forall|i: int| 0 <= i < old(self).aliases().len() ==> expansion_ends(
                (#[trigger] old(self).aliases()[i]).1,
                old(self).aliases(),
                old(self).aliases().len(),
            ),
        ensures
            final(self).well_formed(),
            final(self).ids() == pairs_expanded(old(self).ids(), old(self).aliases(), old(self).aliases().len()),
            final(self).aliases() == pairs_expanded(old(self).aliases(), old(self).aliases(), old(self).aliases().len()),
            final(self).next_id() == old(self).next_id(),
    {
        let ghost ids0 = self.ids();
        let ghost a0 = self.aliases();
        let fuel = self.alias_pairs.len();
        let mut ids: Vec<(Integer, AtomicTerm)> = Vec::new();
        let mut j: usize = 0;
        assert(ids_view(ids@) =~= pairs_expanded(ids0.subrange(0, 0), a0, fuel as nat));
        while j < self.id_pairs.len()
            invariant
                j <= self.id_pairs@.len(),
                ids0 == ids_view(self.id_pairs@),
                a0 == aliases_view(self.alias_pairs@),
                fuel == self.alias_pairs@.len(),
                ids_view(ids@) == pairs_expanded(ids0.subrange(0, j as int), a0, fuel as nat),
            decreases self.id_pairs@.len() - j,
        {
            proof {
                assert(ids0.subrange(0, j + 1).drop_last() =~= ids0.subrange(0, j as int));
                assert(ids0.subrange(0, j + 1).last() == ids0[j as int]);
            }
            let p = &self.id_pairs[j];
            let e = expand_aliases(&p.1, &self.alias_pairs, fuel);
            let mut kept = ids_kept(&ids, Some(&p.0), Some(&e));
            let ghost before = ids_view(kept@);
            kept.push((p.0.duplicate(), e));
            assert(ids_view(kept@) =~= before.push((ids0[j as int].0, alias_expanded(ids0[j as int].1, a0, fuel as nat))));
            ids = kept;
            j += 1;
        }
        assert(ids0.subrange(0, ids0.len() as int) =~= ids0);
        let mut als: Vec<(String, AtomicTerm)> = Vec::new();
        let mut m: usize = 0;
        assert(aliases_view(als@) =~= pairs_expanded(a0.subrange(0, 0), a0, fuel as nat));
        while m < self.alias_pairs.len()
            invariant
                m <= self.alias_pairs@.len(),
                a0 == aliases_view(self.alias_pairs@),
                fuel == self.alias_pairs@.len(),
                aliases_view(als@) == pairs_expanded(a0.subrange(0, m as int), a0, fuel as nat),
            decreases self.alias_pairs@.len() - m,
        {
            proof {
                assert(a0.subrange(0, m + 1).drop_last() =~= a0.subrange(0, m as int));
                assert(a0.subrange(0, m + 1).last() == a0[m as int]);
            }
            let p = &self.alias_pairs[m];
            let e = expand_aliases(&p.1, &self.alias_pairs, fuel);
            let mut kept = aliases_kept(&als, Some(&p.0), Some(&e));
            let ghost before = aliases_view(kept@);
            kept.push((p.0.clone(), e));
            assert(aliases_view(kept@) =~= before.push((a0[m as int].0, alias_expanded(a0[m as int].1, a0, fuel as nat))));
            als = kept;
            m += 1;
        }
        assert(a0.subrange(0, a0.len() as int) =~= a0);
        proof {
            lemma_pairs_expanded(ids0, a0, fuel as nat);
            lemma_pairs_expanded(a0, a0, fuel as nat);
        }
        self.id_pairs = ids;
        self.alias_pairs = als;
        proof {
            assert forall|i: int| 0 <= i < self.ids().len() implies 0 <= (#[trigger] self.ids()[i]).0 < self.next_id() by {
                let j = choose|j: int| 0 <= j < ids0.len() && ids0[j].0 == self.ids()[i].0;
            }
        }
    }

    /// A store in the scope `scope`: the terms as they are, and each alias
    /// `name` as `scope.name` with its term renamed into the scope, put
    /// together as `new` does. The types in `type_map` play no part.
    pub fn rename(&self, scope: String, type_map: &Vec<(String, RawType)>) -> (r: UUIdTermStore)
        requires
            self.well_formed(),
            expansions_end(values_of(self.ids()), aliases_renamed(self.aliases(), scope@)),
        ensures
            r.well_formed(),
            r.ids() == expanded_ids(values_of(self.ids()), aliases_renamed(self.aliases(), scope@)),
            r.aliases() == expanded_aliases(aliases_renamed(self.aliases(), scope@)),
            r.next_id() == ids_added(values_of(self.ids())).len(),
    {
        let terms = self.terms();
        let mut renamed: Vec<(String, AtomicTerm)> = Vec::new();
        let mut i: usize = 0;
        while i < self.alias_pairs.len()
            invariant
                i <= self.alias_pairs@.len(),
                aliases_view(renamed@) == aliases_renamed(self.aliases(), scope@).subrange(0, i as int),
            decreases self.alias_pairs@.len() - i,
        {
            let p = &self.alias_pairs[i];
            let name = concat3(scope.as_str(), ".", p.0.as_str());
            let t = p.1.rename(scope.clone());
            let ghost before = aliases_view(renamed@);
            renamed.push((name, t));
            proof {
                assert(self.aliases()[i as int] == (self.alias_pairs@[i as int].0@, self.alias_pairs@[i as int].1@));
                assert(aliases_view(renamed@) =~= before.push((scope@ + "."@ + p.0@, renamed_term(p.1@, scope@))));
                assert(aliases_renamed(self.aliases(), scope@)[i as int] == (scope@ + "."@ + p.0@, renamed_term(p.1@, scope@)));
                assert(aliases_view(renamed@) =~= aliases_renamed(self.aliases(), scope@).subrange(0, i + 1));
            }
            i += 1;
        }
        assert(aliases_renamed(self.aliases(), scope@).subrange(0, i as int) =~= aliases_renamed(self.aliases(), scope@));
        UUIdTermStore::new(terms, renamed)
    }

    /// All terms of the store, in the order they came in.
    pub fn terms(&self) -> (r: Vec<AtomicTerm>)
        ensures
            terms_view(r@) == values_of(self.ids()),
    {
        let mut r: Vec<AtomicTerm> = Vec::new();
        let mut i: usize = 0;
        while i < self.id_pairs.len()
            invariant
                i <= self.id_pairs@.len(),
                terms_view(r@) == values_of(self.ids()).subrange(0, i as int),
            decreases self.id_pairs@.len() - i,
        {
            let ghost before = terms_view(r@);
            r.push(self.id_pairs[i].1.duplicate());
            assert(values_of(self.ids())[i as int] == self.id_pairs@[i as int].1@);
            assert(terms_view(r@) =~= before.push(self.id_pairs@[i as int].1@));
            assert(terms_view(r@) =~= values_of(self.ids()).subrange(0, i + 1));
            i += 1;
        }
        assert(values_of(self.ids()).subrange(0, i as int) =~= values_of(self.ids()));
        r
    }

    /// The alias names with their terms.
    pub fn alias_map(&self) -> (r: Vec<(String, AtomicTerm)>)
        ensures
            aliases_view(r@) == self.aliases(),
    {
        proof {
            lemma_pairs_kept_all(self.aliases());
        }
        aliases_kept(&self.alias_pairs, None, None)
    }

    /// Whether the term is in the store.
    pub fn contains_term(&self, term: &AtomicTerm) -> (r: bool)
        ensures
            r == values_of(self.ids()).contains(term@),
    {
        proof {
            lemma_key_of(self.ids(), term@);
        }
        position_of_term(&self.id_pairs, term).is_some()
    }

    /// Adds a term under the next id, unless it is in the store already, and
    /// gives back the term as the store holds it.
    pub fn add_term(&mut self, term: AtomicTerm) -> (r: AtomicTerm)
        requires
            old(self).well_formed(),
        ensures
            final(self).well_formed(),
            r@ == term@,
            values_of(final(self).ids()).contains(term@),
            final(self).aliases() == old(self).aliases(),
            if values_of(old(self).ids()).contains(term@) {
                final(self).ids() == old(self).ids() && final(self).next_id() == old(self).next_id()
            } else {
                final(self).ids() == old(self).ids().push((old(self).next_id(), term@))
                    && final(self).next_id() == old(self).next_id() + 1
            },
    {
        proof {
            lemma_key_of(self.ids(), term@);
        }
        match position_of_term(&self.id_pairs, &term) {
            Some(_) => term,
            None => {
                let ghost old_ids = self.ids();
                let id = self.counter.duplicate();
                let one = Integer::new(1);
                self.counter = self.counter.add(&one);
                let r = term.duplicate();
                self.id_pairs.push((id, term));
                proof {
                    assert(self.ids() =~= old_ids.push((id@, r@)));
                    assert(values_of(self.ids()) =~= values_of(old_ids).push(r@));
                    assert forall|i: int| 0 <= i < old_ids.len() implies old_ids[i].1 != r@ by {
                        assert(values_of(old_ids)[i] == old_ids[i].1);
                    }
                }
                r
            },
        }
    }

    /// Removes a term, and the alias that names it; gives back the term where
    /// it was in the store.
    pub fn remove_term(&mut self, term: &AtomicTerm) -> (r: Option<AtomicTerm>)
        requires
            old(self).well_formed(),
        ensures
            final(self).well_formed(),
            final(self).ids() == pairs_kept(old(self).ids(), None, Some(term@)),
            final(self).aliases() == pairs_kept(old(self).aliases(), None, Some(term@)),
            final(self).next_id() == old(self).next_id(),
            !values_of(final(self).ids()).contains(term@),
            match r {
                Some(t) => t@ == term@ && values_of(old(self).ids()).contains(term@),
                None => !values_of(old(self).ids()).contains(term@),
            },
    {
        proof {
            lemma_key_of(self.ids(), term@);
        }
        let ghost old_ids = self.ids();
        proof {
            lemma_pairs_kept(self.aliases(), None, Some(term@));
        }
        let found = position_of_term(&self.id_pairs, term);
        self.alias_pairs = aliases_kept(&self.alias_pairs, None, Some(term));
        self.id_pairs = ids_kept(&self.id_pairs, None, Some(term));
        proof {
            lemma_pairs_kept(old_ids, None, Some(term@));
            assert forall|i: int| 0 <= i < self.ids().len() implies 0 <= (#[trigger] self.ids()[i]).0 < self.next_id() by {
                assert(self.ids().contains(self.ids()[i]));
                let j = choose|j: int| 0 <= j < old_ids.len() && old_ids[j] == self.ids()[i];
            }
            if values_of(self.ids()).contains(term@) {
                let i = choose|i: int| 0 <= i < values_of(self.ids()).len() && values_of(self.ids())[i] == term@;
                assert(self.ids().contains(self.ids()[i]));
            }
        }
        match found {
            Some(_) => Some(term.duplicate()),
            None => None,
        }
    }

    /// The term with the id `id`.
    pub fn get_term_by_id(&self, id: &Integer) -> (r: Option<&AtomicTerm>)
        ensures
            match r {
                Some(t) => value_of(self.ids(), id@) == Some(t@),
                None => value_of(self.ids(), id@) is None,
            },
    {
        match position_of_id(&self.id_pairs, id) {
            Some(i) => Some(&self.id_pairs[i].1),
            None => None,
        }
    }

    /// The term under the alias `name`, which must be in the store.
    pub fn get_term_by_alias(&self, name: &String) -> (r: &AtomicTerm)
        requires
            value_of(self.aliases(), name@) is Some,
        ensures
            value_of(self.aliases(), name@) == Some(r@),
    {
        match position_of_alias(&self.alias_pairs, name) {
            Some(i) => &self.alias_pairs[i].1,
            None => {
                assert(false);
                &self.alias_pairs[0].1
            },
        }
    }

    /// The id of the term.
    pub fn get_id_by_term(&self, term: &AtomicTerm) -> (r: Option<Integer>)
        ensures
            match r {
                Some(i) => key_of(self.ids(), term@) == Some(i@),
                None => key_of(self.ids(), term@) is None,
            },
    {
        match position_of_term(&self.id_pairs, term) {
            Some(i) => Some(self.id_pairs[i].0.duplicate()),
            None => None,
        }
    }

    /// Removes the term with the id `id` and gives back the pair.
    pub fn remove_term_by_id(&mut self, id: &Integer) -> (r: Option<(Integer, AtomicTerm)>)
        requires
            old(self).well_formed(),
        ensures
            final(self).well_formed(),
            final(self).ids() == pairs_kept(old(self).ids(), Some(id@), None),
            final(self).aliases() == old(self).aliases(),
            final(self).next_id() == old(self).next_id(),
            match r {
                Some(p) => p.0@ == id@ && value_of(old(self).ids(), id@) == Some(p.1@),
                None => value_of(old(self).ids(), id@) is None,
            },
    {
        let ghost old_ids = self.ids();
        let found = match position_of_id(&self.id_pairs, id) {
            Some(i) => Some((id.duplicate(), self.id_pairs[i].1.duplicate())),
            None => None,
        };
        self.id_pairs = ids_kept(&self.id_pairs, Some(id), None);
        proof {
            lemma_pairs_kept(old_ids, Some(id@), None);
            assert forall|i: int| 0 <= i < self.ids().len() implies 0 <= (#[trigger] self.ids()[i]).0 < self.next_id() by {
                assert(self.ids().contains(self.ids()[i]));
                let j = choose|j: int| 0 <= j < old_ids.len() && old_ids[j] == self.ids()[i];
            }
        }
        found
    }
}

/// The id a store gives for a term leads back to that term: in a one-to-one
/// list of ids and terms, the term under the id found for `t` is `t`.
pub proof fn lemma_term_by_its_id(store: UUIdTermStore, t: TermView)
    requires
        store.well_formed(),
        key_of(store.ids(), t) is Some,
    ensures
        value_of(store.ids(), key_of(store.ids(), t)->0) == Some(t),
{
    lemma_key_value(store.ids(), t);
}

proof fn lemma_key_value<K, V>(s: Seq<(K, V)>, v: V)
    requires
        one_to_one(s),
        key_of(s, v) is Some,
    ensures
        value_of(s, key_of(s, v)->0) == Some(v),
        exists|i: int| 0 <= i < s.len() && s[i] == (key_of(s, v)->0, v),
    decreases s.len(),
{
    let d = s.drop_last();
    if s.last().1 != v {
        assert(one_to_one(d)) by {
            assert forall|i: int, j: int| 0 <= i < j < d.len() implies (#[trigger] d[i]).0 != (#[trigger] d[j]).0
                && d[i].1 != d[j].1 by {
                assert(d[i] == s[i] && d[j] == s[j]);
            }
        }
        lemma_key_value(d, v);
        let i = choose|i: int| 0 <= i < d.len() && d[i] == (key_of(d, v)->0, v);
        assert(s[i] == d[i]);
        assert(s[s.len() - 1] == s.last());
    } else {
        assert(s[s.len() - 1] == s.last());
    }
}

/// The term a store holds under an id leads back to that id: in a one-to-one
/// list of ids and terms, the id found for the term under `id` is `id`.
pub proof fn lemma_id_by_its_term(store: UUIdTermStore, id: int)
    requires
        store.well_formed(),
        value_of(store.ids(), id) is Some,
    ensures
        key_of(store.ids(), value_of(store.ids(), id)->0) == Some(id),
{
    lemma_value_key(store.ids(), id);
}

proof fn lemma_value_key<K, V>(s: Seq<(K, V)>, k: K)
    requires
        one_to_one(s),
        value_of(s, k) is Some,
    ensures
        key_of(s, value_of(s, k)->0) == Some(k),
        exists|i: int| 0 <= i < s.len() && s[i] == (k, value_of(s, k)->0),
    decreases s.len(),
{
    let d = s.drop_last();
    assert(s[s.len() - 1] == s.last());
    if s.last().0 != k {
        assert(one_to_one(d)) by {
            assert forall|i: int, j: int| 0 <= i < j < d.len() implies (#[trigger] d[i]).0 != (#[trigger] d[j]).0
                && d[i].1 != d[j].1 by {
                assert(d[i] == s[i] && d[j] == s[j]);
            }
        }
        lemma_value_key(d, k);
        let i = choose|i: int| 0 <= i < d.len() && d[i] == (k, value_of(d, k)->0);
        assert(s[i] == d[i]);
    }
}

} // verus!
