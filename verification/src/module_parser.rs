//! The Formula grammar of modules: the sentences of a module, domains with
//! the domains they include, models, transformations and whole programs.
use crate::domain::{pairs_view, rule_asts_view, DomainAst, DomainAstView};
use crate::expr_parser::has_char;
use crate::expression::{terms_view, ConstraintView};
use crate::parser::{alias_end, has_tag, spec_tagged_typename, multispace0, spec_composite, space0, spec_id, spec_skip, spec_term, strings_view, Input};
use crate::rule_parser::{alias_from_names, dotted, spec_conformance, spec_rule, spec_typedef, RuleAst};
use crate::term::{AtomicTerm, TermView};
use crate::type_def::{defs_view, AliasTypeDefAst, RawTypeDefAst, TypeDefView};
use crate::type_system::option_text_view;
use vstd::prelude::*;

verus! {

/// A sentence of a module: a type definition, a rule or a term.
pub enum ModuleSentenceAst {
    Type(RawTypeDefAst),
    Rule(RuleAst),
    Term(AtomicTerm),
}

/// The mathematical value of a sentence.
pub enum SentenceView {
    Type(TypeDefView),
    Rule((Seq<TermView>, Seq<ConstraintView>)),
    Term(TermView),
}

impl View for ModuleSentenceAst {
    type V = SentenceView;

    open spec fn view(&self) -> SentenceView {
        match self {
            ModuleSentenceAst::Type(t) => SentenceView::Type(t@),
            ModuleSentenceAst::Rule(r) => SentenceView::Rule(r@),
            ModuleSentenceAst::Term(t) => SentenceView::Term(t@),
        }
    }
}

/// A comma with spaces around it; gives where what follows starts.
pub open spec fn comma_sep(s: Seq<char>, i: int) -> Option<int> {
    let a = space0(s, i);
    if has_char(s, a, ',') {
        Some(space0(s, a + 1))
    } else {
        None
    }
}

/// An included domain: `scope :: Domain`, or the name of a domain alone.
pub open spec fn spec_subdomain(s: Seq<char>, i: int) -> Option<((Option<Seq<char>>, Seq<char>), int)> {
    match spec_id(s, i) {
        Some(e) => {
            let a = space0(s, e);
            let scoped = if has_tag(s, a, "::"@) {
                let b = space0(s, a + 2);
                match spec_id(s, b) {
                    Some(f) => Some(((Some(s.subrange(i, e)), s.subrange(b, f)), f)),
                    None => None,
                }
            } else {
                None
            };
            match scoped {
                Some(r) => Some(r),
                None => Some(((None, s.subrange(i, e)), e)),
            }
        },
        None => None,
    }
}

/// Further included domains, each after a comma.
pub open spec fn more_subdomains(s: Seq<char>, i: int) -> (Seq<(Option<Seq<char>>, Seq<char>)>, int)
    decreases s.len() - i,
{
    match comma_sep(s, i) {
        Some(a) => match spec_subdomain(s, a) {
            Some((x, e)) => if i < e <= s.len() {
                let more = more_subdomains(s, e);
                (seq![x] + more.0, more.1)
            } else {
                (Seq::empty(), i)
            },
            None => (Seq::empty(), i),
        },
        None => (Seq::empty(), i),
    }
}

/// Included domains separated by commas, possibly none.
pub open spec fn subdomain_list(s: Seq<char>, i: int) -> (Seq<(Option<Seq<char>>, Seq<char>)>, int) {
    match spec_subdomain(s, i) {
        Some((x, e)) => if i < e <= s.len() {
            let more = more_subdomains(s, e);
            (seq![x] + more.0, more.1)
        } else {
            (Seq::empty(), i)
        },
        None => (Seq::empty(), i),
    }
}

/// `includes` or `extends` with spaces around it; gives the word and where
/// what follows starts.
pub open spec fn inherit_keyword(s: Seq<char>, i: int) -> Option<(Seq<char>, int)> {
    let a = space0(s, i);
    if has_tag(s, a, "includes"@) {
        Some(("includes"@, space0(s, a + 8)))
    } else if has_tag(s, a, "extends"@) {
        Some(("extends"@, space0(s, a + 7)))
    } else {
        None
    }
}

/// An optional inheritance: the keyword and the included domains.
pub open spec fn inheritance(s: Seq<char>, i: int) -> (Option<(Seq<char>, Seq<(Option<Seq<char>>, Seq<char>)>)>, int) {
    match inherit_keyword(s, i) {
        Some((kw, a)) => {
            let (subs, e) = subdomain_list(s, a);
            (Some((kw, subs)), e)
        },
        None => (None, i),
    }
}

/// A sentence of a module: a rule, a conformance rule, a type definition, or
/// a term followed by a dot.
pub open spec fn spec_module_sentence(s: Seq<char>, i: int) -> Option<(SentenceView, int)> {
    match spec_rule(s, i) {
        Some((r, e)) => Some((SentenceView::Rule(r), e)),
        None => match spec_conformance(s, i) {
            Some((r, e)) => Some((SentenceView::Rule(r), e)),
            None => match spec_typedef(s, i) {
                Some((t, e)) => Some((SentenceView::Type(t), e)),
                None => match spec_term(s, i) {
                    Some((t, e)) => {
                        let a = spec_skip(s, e);
                        if has_char(s, a, '.') {
                            Some((SentenceView::Term(t), a + 1))
                        } else {
                            None
                        }
                    },
                    None => None,
                },
            },
        },
    }
}

/// Further sentences, each after comments and white space. The separator must
/// not be empty: where it is, the whole list fails (`None`).
pub open spec fn more_sentences(s: Seq<char>, i: int) -> Option<(Seq<SentenceView>, int)>
    decreases s.len() - i,
{
    let a = spec_skip(s, i);
    if a == i {
        None
    } else {
        match spec_module_sentence(s, a) {
            Some((x, e)) => if i < e <= s.len() {
                match more_sentences(s, e) {
                    Some((xs, f)) => Some((seq![x] + xs, f)),
                    None => None,
                }
            } else {
                None
            },
            None => Some((Seq::empty(), i)),
        }
    }
}

/// Sentences separated by comments and white space, possibly none; `None`
/// where two sentences stand with nothing between them.
pub open spec fn sentence_list(s: Seq<char>, i: int) -> Option<(Seq<SentenceView>, int)> {
    match spec_module_sentence(s, i) {
        Some((x, e)) => if i < e <= s.len() {
            match more_sentences(s, e) {
                Some((xs, f)) => Some((seq![x] + xs, f)),
                None => None,
            }
        } else {
            None
        },
        None => Some((Seq::empty(), i)),
    }
}

/// The type definitions among sentences, in order.
pub open spec fn sentence_types(xs: Seq<SentenceView>) -> Seq<TypeDefView>
    decreases xs.len(),
{
    if xs.len() == 0 {
        Seq::empty()
    } else {
        let p = sentence_types(xs.drop_last());
        match xs.last() {
            SentenceView::Type(t) => p.push(t),
            _ => p,
        }
    }
}

/// The rules among sentences, in order.
pub open spec fn sentence_rules(xs: Seq<SentenceView>) -> Seq<(Seq<TermView>, Seq<ConstraintView>)>
    decreases xs.len(),
{
    if xs.len() == 0 {
        Seq::empty()
    } else {
        let p = sentence_rules(xs.drop_last());
        match xs.last() {
            SentenceView::Rule(r) => p.push(r),
            _ => p,
        }
    }
}

/// The terms among sentences, in order.
pub open spec fn sentence_terms(xs: Seq<SentenceView>) -> Seq<TermView>
    decreases xs.len(),
{
    if xs.len() == 0 {
        Seq::empty()
    } else {
        let p = sentence_terms(xs.drop_last());
        match xs.last() {
            SentenceView::Term(t) => p.push(t),
            _ => p,
        }
    }
}

/// The first position from `k` on where `m` has the key `key`, or the length
/// of `m` where there is none.
pub open spec fn key_position(m: Seq<(Seq<char>, Seq<char>)>, key: Seq<char>, k: int) -> int
    decreases m.len() - k,
{
    if k < 0 || k >= m.len() {
        m.len() as int
    } else if m[k].0 == key {
        k
    } else {
        key_position(m, key, k + 1)
    }
}

/// `m` with `key` mapped to `value`: its entry replaced where it has one,
/// else a new entry at the end.
pub open spec fn put_entry(m: Seq<(Seq<char>, Seq<char>)>, key: Seq<char>, value: Seq<char>) -> Seq<(Seq<char>, Seq<char>)> {
    let k = key_position(m, key, 0);
    if k < m.len() {
        m.update(k, (key, value))
    } else {
        m.push((key, value))
    }
}

/// The included domains that have no scope, in order.
pub open spec fn plain_subdomains(subs: Seq<(Option<Seq<char>>, Seq<char>)>) -> Seq<Seq<char>>
    decreases subs.len(),
{
    if subs.len() == 0 {
        Seq::empty()
    } else {
        let p = plain_subdomains(subs.drop_last());
        match subs.last().0 {
            None => p.push(subs.last().1),
            Some(_) => p,
        }
    }
}

/// The included domains that have a scope, each scope mapped to the last
/// domain given under it.
pub open spec fn scoped_subdomains(subs: Seq<(Option<Seq<char>>, Seq<char>)>) -> Seq<(Seq<char>, Seq<char>)>
    decreases subs.len(),
{
    if subs.len() == 0 {
        Seq::empty()
    } else {
        let p = scoped_subdomains(subs.drop_last());
        match subs.last().0 {
            Some(scope) => put_entry(p, scope, subs.last().1),
            None => p,
        }
    }
}

/// The kind of inheritance: the keyword, or `None` where there is none.
pub open spec fn inherit_word(inh: Option<(Seq<char>, Seq<(Option<Seq<char>>, Seq<char>)>)>) -> Seq<char> {
    match inh {
        Some((kw, _)) => kw,
        None => "None"@,
    }
}

/// The included domains of an optional inheritance.
pub open spec fn inherited(inh: Option<(Seq<char>, Seq<(Option<Seq<char>>, Seq<char>)>)>) -> Seq<(Option<Seq<char>>, Seq<char>)> {
    match inh {
        Some((_, subs)) => subs,
        None => Seq::empty(),
    }
}

/// The domain that a name, an inheritance and sentences define; terms among the
/// sentences are left out.
pub open spec fn domain_of(
    name: Seq<char>,
    inh: Option<(Seq<char>, Seq<(Option<Seq<char>>, Seq<char>)>)>,
    xs: Seq<SentenceView>,
) -> DomainAstView {
    DomainAstView {
        name,
        types: sentence_types(xs),
        rules: sentence_rules(xs),
        inherit_type: inherit_word(inh),
        subdomains: plain_subdomains(inherited(inh)),
        renamed_subdomains: scoped_subdomains(inherited(inh)),
    }
}

/// A domain: `domain`, its name, an optional inheritance, and its sentences
/// between braces.
#[verifier::opaque]
pub open spec fn spec_domain(s: Seq<char>, i: int) -> Option<(DomainAstView, int)> {
    if has_tag(s, i, "domain"@) {
        let a = multispace0(s, i + 6);
        match spec_id(s, a) {
            Some(e) => {
                let b = multispace0(s, e);
                let (inh, c) = inheritance(s, b);
                let g = spec_skip(s, c);
                if has_char(s, g, '{') {
                    match sentence_list(s, spec_skip(s, g + 1)) {
                        Some((xs, j)) => {
                            let k = spec_skip(s, j);
                            if has_char(s, k, '}') {
                                Some((domain_of(s.subrange(a, e), inh, xs), k + 1))
                            } else {
                                None
                            }
                        },
                        None => None,
                    }
                } else {
                    None
                }
            },
            None => None,
        }
    } else {
        None
    }
}

/// `m` with `key` mapped to `value`, as `put_entry` says.
fn put_entry_exec(m: &mut Vec<(String, String)>, key: String, value: String)
    ensures
        pairs_view(final(m)@) == put_entry(pairs_view(old(m)@), key@, value@),
{
    let ghost pv = pairs_view(m@);
    let mut k: usize = 0;
    while k < m.len() && !(m[k].0 == key)
        invariant
            k <= m@.len(),
            pv == pairs_view(m@),
            m@ == old(m)@,
            key_position(pv, key@, 0) == key_position(pv, key@, k as int),
        decreases m@.len() - k,
    {
        k += 1;
    }
    if k < m.len() {
        m.set(k, (key, value));
        proof {
            assert(pairs_view(m@) =~= pv.update(k as int, (key@, value@)));
        }
    } else {
        m.push((key, value));
        proof {
            assert(pairs_view(m@) =~= pv.push((key@, value@)));
        }
    }
}

/// Put a sentence among the type definitions, rules or terms read so far.
fn push_sentence(
    x: ModuleSentenceAst,
    types: &mut Vec<RawTypeDefAst>,
    rules: &mut Vec<RuleAst>,
    terms: &mut Vec<AtomicTerm>,
    Ghost(done): Ghost<Seq<SentenceView>>,
)
    requires
        defs_view(old(types)@) == sentence_types(done),
        rule_asts_view(old(rules)@) == sentence_rules(done),
        terms_view(old(terms)@) == sentence_terms(done),
    ensures
        defs_view(final(types)@) == sentence_types(done.push(x@)),
        rule_asts_view(final(rules)@) == sentence_rules(done.push(x@)),
        terms_view(final(terms)@) == sentence_terms(done.push(x@)),
{
    assert(done.push(x@).drop_last() =~= done);
    match x {
        ModuleSentenceAst::Type(t) => {
            types.push(t);
            assert(defs_view(types@) =~= defs_view(old(types)@).push(t@));
        },
        ModuleSentenceAst::Rule(r) => {
            rules.push(r);
            assert(rule_asts_view(rules@) =~= rule_asts_view(old(rules)@).push(r@));
        },
        ModuleSentenceAst::Term(t) => {
            terms.push(t);
            assert(terms_view(terms@) =~= terms_view(old(terms)@).push(t@));
        },
    }
}

/// Put an included domain among the plain and the scoped ones read so far.
fn push_subdomain(
    x: (Option<String>, String),
    plain: &mut Vec<String>,
    scoped: &mut Vec<(String, String)>,
    Ghost(done): Ghost<Seq<(Option<Seq<char>>, Seq<char>)>>,
)
    requires
        strings_view(old(plain)@) == plain_subdomains(done),
        pairs_view(old(scoped)@) == scoped_subdomains(done),
    ensures
        strings_view(final(plain)@) == plain_subdomains(done.push((option_text_view(x.0), x.1@))),
        pairs_view(final(scoped)@) == scoped_subdomains(done.push((option_text_view(x.0), x.1@))),
{
    let ghost v = (option_text_view(x.0), x.1@);
    assert(done.push(v).drop_last() =~= done);
    match x.0 {
        Some(scope) => {
            put_entry_exec(scoped, scope, x.1);
        },
        None => {
            plain.push(x.1);
            assert(strings_view(plain@) =~= strings_view(old(plain)@).push(v.1));
        },
    }
}

impl<'a> Input<'a> {
    fn read_comma_sep(&self, i: usize) -> (r: Option<usize>)
        requires
            i <= self.view_chars().len(),
        ensures
            match r {
                Some(e) => comma_sep(self.view_chars(), i as int) == Some(e as int) && i < e <= self.view_chars().len(),
                None => comma_sep(self.view_chars(), i as int) is None,
            },
    {
        let n = self.len();
        let a = self.scan_class(i, 0);
        if self.read_char(a, ',') {
            Some(self.scan_class(a + 1, 0))
        } else {
            None
        }
    }

    /// Read an included domain at `i`.
    pub fn read_subdomain(&self, i: usize) -> (r: Option<((Option<String>, String), usize)>)
        requires
            self.wf(),
            i <= self.view_chars().len(),
        ensures
            match r {
                Some((x, e)) => spec_subdomain(self.view_chars(), i as int) == Some(((option_text_view(x.0), x.1@), e as int))
                    && i < e <= self.view_chars().len(),
                None => spec_subdomain(self.view_chars(), i as int) is None,
            },
    {
        proof {
            reveal_strlit("::");
        }
        let n = self.len();
        let e = match self.read_id(i) {
            Some(e) => e,
            None => {
                return None;
            },
        };
        let a = self.scan_class(e, 0);
        if self.has_tag(a, "::") {
            let b = self.scan_class(a + 2, 0);
            match self.read_id(b) {
                Some(f) => {
                    return Some(((Some(self.slice(i, e)), self.slice(b, f)), f));
                },
                None => {},
            }
        }
        Some(((None, self.slice(i, e)), e))
    }

    /// Read an optional inheritance at `i`: the keyword (`None` where there is
    /// none), the included domains without a scope, and those with one.
    pub fn read_inheritance(&self, i: usize) -> (r: (String, Vec<String>, Vec<(String, String)>, usize))
        requires
            self.wf(),
            i <= self.view_chars().len(),
        ensures
            ({
                let (inh, e) = inheritance(self.view_chars(), i as int);
                &&& r.0@ == inherit_word(inh)
                &&& strings_view(r.1@) == plain_subdomains(inherited(inh))
                &&& pairs_view(r.2@) == scoped_subdomains(inherited(inh))
                &&& r.3 == e
            }),
            i <= r.3 <= self.view_chars().len(),
    {
        proof {
            reveal_strlit("includes");
            reveal_strlit("extends");
            reveal_strlit("None");
        }
        let n = self.len();
        let mut plain: Vec<String> = Vec::new();
        let mut scoped: Vec<(String, String)> = Vec::new();
        let a = self.scan_class(i, 0);
        let (kw, start) = if self.has_tag(a, "includes") {
            (String::from_str("includes"), self.scan_class(a + 8, 0))
        } else if self.has_tag(a, "extends") {
            (String::from_str("extends"), self.scan_class(a + 7, 0))
        } else {
            assert(strings_view(plain@) =~= Seq::<Seq<char>>::empty());
            assert(pairs_view(scoped@) =~= Seq::<(Seq<char>, Seq<char>)>::empty());
            return (String::from_str("None"), plain, scoped, i);
        };
        let ghost s = self.view_chars();
        let ghost done: Seq<(Option<Seq<char>>, Seq<char>)> = Seq::empty();
        assert(strings_view(plain@) =~= plain_subdomains(done));
        assert(pairs_view(scoped@) =~= scoped_subdomains(done));
        match self.read_subdomain(start) {
            None => {
                return (kw, plain, scoped, start);
            },
            Some((x, e)) => {
                let ghost xv = (option_text_view(x.0), x.1@);
                push_subdomain(x, &mut plain, &mut scoped, Ghost(done));
                proof {
                    done = done.push(xv);
                    assert(seq![xv] =~= done);
                }
                let mut pos = e;
                loop
                    invariant
                        self.wf(),
                        s == self.view_chars(),
                        n == s.len(),
                        i <= start < pos <= n,
                        kw@ == inherit_word(inheritance(s, i as int).0),
                        inheritance(s, i as int).0 matches Some((_, subs)) && subs == done + more_subdomains(s, pos as int).0,
                        inheritance(s, i as int).1 == more_subdomains(s, pos as int).1,
                        strings_view(plain@) == plain_subdomains(done),
                        pairs_view(scoped@) == scoped_subdomains(done),
                    decreases n - pos,
                {
                    let next = match self.read_comma_sep(pos) {
                        Some(c) => self.read_subdomain(c),
                        None => None,
                    };
                    match next {
                        Some((x2, e2)) => {
                            if !(pos < e2) {
                                assert(done + Seq::empty() =~= done);
                                return (kw, plain, scoped, pos);
                            }
                            let ghost xv2 = (option_text_view(x2.0), x2.1@);
                            push_subdomain(x2, &mut plain, &mut scoped, Ghost(done));
                            proof {
                                assert(done + (seq![xv2] + more_subdomains(s, e2 as int).0) =~= done.push(xv2) + more_subdomains(s, e2 as int).0);
                                done = done.push(xv2);
                            }
                            pos = e2;
                        },
                        None => {
                            assert(done + Seq::empty() =~= done);
                            return (kw, plain, scoped, pos);
                        },
                    }
                }
            },
        }
    }

    /// Read a sentence of a module at `i`.
    #[verifier::rlimit(40)]
    pub fn read_module_sentence(&self, i: usize) -> (r: Option<(ModuleSentenceAst, usize)>)
        requires
            self.wf(),
            i <= self.view_chars().len(),
        ensures
            match r {
                Some((x, e)) => spec_module_sentence(self.view_chars(), i as int) == Some((x@, e as int)) && e <= self.view_chars().len(),
                None => spec_module_sentence(self.view_chars(), i as int) is None,
            },
    {
        let n = self.len();
        if let Some((r, e)) = self.read_rule(i) {
            return Some((ModuleSentenceAst::Rule(r), e));
        }
        if let Some((r, e)) = self.read_conformance(i) {
            return Some((ModuleSentenceAst::Rule(r), e));
        }
        if let Some((t, e)) = self.read_typedef(i) {
            return Some((ModuleSentenceAst::Type(t), e));
        }
        match self.read_term(i) {
            Some((t, e)) => {
                let a = self.read_skip(e);
                if self.read_char(a, '.') {
                    Some((ModuleSentenceAst::Term(t), a + 1))
                } else {
                    None
                }
            },
            None => None,
        }
    }

    /// Read sentences at `i`, split into type definitions, rules and terms.
    pub fn read_sentences(&self, i: usize) -> (r: Option<(Vec<RawTypeDefAst>, Vec<RuleAst>, Vec<AtomicTerm>, usize)>)
        requires
            self.wf(),
            i <= self.view_chars().len(),
        ensures
            match r {
                Some((ts, rs, tms, e)) => sentence_list(self.view_chars(), i as int) matches Some((xs, f))
                    && defs_view(ts@) == sentence_types(xs)
                    && rule_asts_view(rs@) == sentence_rules(xs)
                    && terms_view(tms@) == sentence_terms(xs)
                    && e == f && i <= e <= self.view_chars().len(),
                None => sentence_list(self.view_chars(), i as int) is None,
            },
    {
        let n = self.len();
        let ghost s = self.view_chars();
        let mut types: Vec<RawTypeDefAst> = Vec::new();
        let mut rules: Vec<RuleAst> = Vec::new();
        let mut terms: Vec<AtomicTerm> = Vec::new();
        let ghost done: Seq<SentenceView> = Seq::empty();
        assert(defs_view(types@) =~= sentence_types(done));
        assert(rule_asts_view(rules@) =~= sentence_rules(done));
        assert(terms_view(terms@) =~= sentence_terms(done));
        let (x, e) = match self.read_module_sentence(i) {
            Some(p) => p,
            None => {
                return Some((types, rules, terms, i));
            },
        };
        if !(i < e) {
            return None;
        }
        let ghost xv = x@;
        push_sentence(x, &mut types, &mut rules, &mut terms, Ghost(done));
        proof {
            done = done.push(xv);
            assert(seq![xv] =~= done);
            match more_sentences(s, e as int) {
                Some((xs, f)) => {
                    assert(seq![xv] + xs =~= done + xs);
                },
                None => {},
            }
        }
        let mut pos = e;
        loop
            invariant
                self.wf(),
                s == self.view_chars(),
                n == s.len(),
                i < pos <= n,
                sentence_list(s, i as int) == (match more_sentences(s, pos as int) {
                    Some((xs, f)) => Some((done + xs, f)),
                    None => None,
                }),
                defs_view(types@) == sentence_types(done),
                rule_asts_view(rules@) == sentence_rules(done),
                terms_view(terms@) == sentence_terms(done),
            decreases n - pos,
        {
            let a = self.read_skip(pos);
            if a == pos {
                return None;
            }
            match self.read_module_sentence(a) {
                None => {
                    assert(done + Seq::empty() =~= done);
                    return Some((types, rules, terms, pos));
                },
                Some((x2, e2)) => {
                    if !(pos < e2) {
                        return None;
                    }
                    let ghost xv2 = x2@;
                    push_sentence(x2, &mut types, &mut rules, &mut terms, Ghost(done));
                    proof {
                        match more_sentences(s, e2 as int) {
                            Some((xs, f)) => {
                                assert(done + (seq![xv2] + xs) =~= done.push(xv2) + xs);
                            },
                            None => {},
                        }
                        done = done.push(xv2);
                    }
                    pos = e2;
                },
            }
        }
    }

    /// Read a domain at `i`.
    pub fn read_domain(&self, i: usize) -> (r: Option<(DomainAst, usize)>)
        requires
            self.wf(),
            i <= self.view_chars().len(),
        ensures
            match r {
                Some((d, e)) => spec_domain(self.view_chars(), i as int) == Some((d@, e as int)) && e <= self.view_chars().len(),
                None => spec_domain(self.view_chars(), i as int) is None,
            },
    {
        proof {
            reveal_strlit("domain");
            reveal(spec_domain);
        }
        let n = self.len();
        if !self.has_tag(i, "domain") {
            return None;
        }
        let a = self.scan_class(i + 6, 1);
        let e = match self.read_id(a) {
            Some(e) => e,
            None => {
                return None;
            },
        };
        let b = self.scan_class(e, 1);
        let (inherit_type, subdomains, renamed_subdomains, c) = self.read_inheritance(b);
        let g = self.read_skip(c);
        if !self.read_char(g, '{') {
            return None;
        }
        let h = self.read_skip(g + 1);
        match self.read_sentences(h) {
            Some((types, rules, _terms, j)) => {
                let k = self.read_skip(j);
                if self.read_char(k, '}') {
                    let d = DomainAst {
                        name: self.slice(a, e),
                        types,
                        rules,
                        inherit_type,
                        subdomains,
                        renamed_subdomains,
                    };
                    Some((d, k + 1))
                } else {
                    None
                }
            },
            None => None,
        }
    }
}

/// A model as written: its name, the domain it is a model of, its terms each
/// with the name it is given (`n is Node(1)`), how it inherits, the models it
/// includes, and the models it includes under a scope, as `(scope, model)`.
pub struct ModelAst {
    pub model_name: String,
    pub domain_name: String,
    pub models: Vec<(Option<String>, AtomicTerm)>,
    pub inherit_type: String,
    pub submodels: Vec<String>,
    pub renamed_submodels: Vec<(String, String)>,
}

/// The mathematical value of a model as written.
pub struct ModelAstView {
    pub model_name: Seq<char>,
    pub domain_name: Seq<char>,
    pub models: Seq<(Option<Seq<char>>, TermView)>,
    pub inherit_type: Seq<char>,
    pub submodels: Seq<Seq<char>>,
    pub renamed_submodels: Seq<(Seq<char>, Seq<char>)>,
}

pub open spec fn named_terms_view(v: Seq<(Option<String>, AtomicTerm)>) -> Seq<(Option<Seq<char>>, TermView)> {
    v.map_values(|p: (Option<String>, AtomicTerm)| (option_text_view(p.0), p.1@))
}

impl View for ModelAst {
    type V = ModelAstView;

    open spec fn view(&self) -> ModelAstView {
        ModelAstView {
            model_name: self.model_name@,
            domain_name: self.domain_name@,
            models: named_terms_view(self.models@),
            inherit_type: self.inherit_type@,
            submodels: strings_view(self.submodels@),
            renamed_submodels: pairs_view(self.renamed_submodels@),
        }
    }
}

/// The name given to a term by a `name is` prefix at `i`, if there is one.
pub open spec fn alias_name(s: Seq<char>, i: int) -> Option<Seq<char>> {
    match spec_id(s, i) {
        Some(e) => if alias_end(s, i) != i {
            Some(s.subrange(i, e))
        } else {
            None
        },
        None => None,
    }
}

/// A term of a model, with comments and white space before it: a composite
/// term with the name it is given, then a dot with white space around it, and
/// comments and white space after.
pub open spec fn model_term(s: Seq<char>, i: int) -> Option<((Option<Seq<char>>, TermView), int)> {
    let a = spec_skip(s, i);
    match spec_composite(s, a) {
        Some((t, e)) => {
            let b = multispace0(s, e);
            if has_char(s, b, '.') {
                Some(((alias_name(s, a), t), spec_skip(s, multispace0(s, b + 1))))
            } else {
                None
            }
        },
        None => None,
    }
}

/// The terms of a model, as many as follow one another.
pub open spec fn model_terms(s: Seq<char>, i: int) -> (Seq<(Option<Seq<char>>, TermView)>, int)
    decreases s.len() - i,
{
    match model_term(s, i) {
        Some((x, e)) => if i < e <= s.len() {
            let more = model_terms(s, e);
            (seq![x] + more.0, more.1)
        } else {
            (Seq::empty(), i)
        },
        None => (Seq::empty(), i),
    }
}

/// A model: `model`, its name, `of` and the name of its domain, an optional
/// inheritance, and its terms between braces.
#[verifier::opaque]
pub open spec fn spec_model(s: Seq<char>, i: int) -> Option<(ModelAstView, int)> {
    if has_tag(s, i, "model"@) {
        let a = multispace0(s, i + 5);
        match spec_id(s, a) {
            Some(e) => {
                let b = multispace0(s, e);
                if has_tag(s, b, "of"@) {
                    let c = multispace0(s, b + 2);
                    match spec_id(s, c) {
                        Some(f) => {
                            let h = spec_skip(s, multispace0(s, f));
                            let (inh, j) = inheritance(s, h);
                            let k = spec_skip(s, j);
                            if has_char(s, k, '{') {
                                let (ts, p) = model_terms(s, spec_skip(s, k + 1));
                                let q = spec_skip(s, p);
                                if has_char(s, q, '}') {
                                    Some((ModelAstView {
                                        model_name: s.subrange(a, e),
                                        domain_name: s.subrange(c, f),
                                        models: ts,
                                        inherit_type: inherit_word(inh),
                                        submodels: plain_subdomains(inherited(inh)),
                                        renamed_submodels: scoped_subdomains(inherited(inh)),
                                    }, q + 1))
                                } else {
                                    None
                                }
                            } else {
                                None
                            }
                        },
                        None => None,
                    }
                } else {
                    None
                }
            },
            None => None,
        }
    } else {
        None
    }
}

impl<'a> Input<'a> {
    fn read_model_term(&self, i: usize) -> (r: Option<((Option<String>, AtomicTerm), usize)>)
        requires
            self.wf(),
            i <= self.view_chars().len(),
        ensures
            match r {
                Some((x, e)) => model_term(self.view_chars(), i as int) == Some(((option_text_view(x.0), x.1@), e as int))
                    && e <= self.view_chars().len(),
                None => model_term(self.view_chars(), i as int) is None,
            },
    {
        let n = self.len();
        let a = self.read_skip(i);
        match self.read_composite(a) {
            Some((t, e)) => {
                let b = self.scan_class(e, 1);
                if self.read_char(b, '.') {
                    let alias = match self.read_id(a) {
                        Some(f) => if self.read_alias_end(a) != a {
                            Some(self.slice(a, f))
                        } else {
                            None
                        },
                        None => None,
                    };
                    let c = self.scan_class(b + 1, 1);
                    Some(((alias, t), self.read_skip(c)))
                } else {
                    None
                }
            },
            None => None,
        }
    }

    fn read_model_terms(&self, i: usize) -> (r: (Vec<(Option<String>, AtomicTerm)>, usize))
        requires
            self.wf(),
            i <= self.view_chars().len(),
        ensures
            (named_terms_view(r.0@), r.1 as int) == model_terms(self.view_chars(), i as int),
            i <= r.1 <= self.view_chars().len(),
    {
        let n = self.len();
        let ghost s = self.view_chars();
        let mut out: Vec<(Option<String>, AtomicTerm)> = Vec::new();
        let mut pos = i;
        assert(named_terms_view(out@) =~= Seq::<(Option<Seq<char>>, TermView)>::empty());
        loop
            invariant
                self.wf(),
                s == self.view_chars(),
                n == s.len(),
                i <= pos <= n,
                model_terms(s, i as int) == (named_terms_view(out@) + model_terms(s, pos as int).0, model_terms(s, pos as int).1),
            decreases n - pos,
        {
            match self.read_model_term(pos) {
                Some((x, e)) => {
                    if !(pos < e) {
                        assert(named_terms_view(out@) + Seq::empty() =~= named_terms_view(out@));
                        return (out, pos);
                    }
                    let ghost before = named_terms_view(out@);
                    let ghost xv = (option_text_view(x.0), x.1@);
                    out.push(x);
                    proof {
                        assert(named_terms_view(out@) =~= before.push(xv));
                        assert(before + (seq![xv] + model_terms(s, e as int).0) =~= named_terms_view(out@) + model_terms(s, e as int).0);
                    }
                    pos = e;
                },
                None => {
                    assert(named_terms_view(out@) + Seq::empty() =~= named_terms_view(out@));
                    return (out, pos);
                },
            }
        }
    }

    /// Read a model at `i`.
    pub fn read_model(&self, i: usize) -> (r: Option<(ModelAst, usize)>)
        requires
            self.wf(),
            i <= self.view_chars().len(),
        ensures
            match r {
                Some((m, e)) => spec_model(self.view_chars(), i as int) == Some((m@, e as int)) && e <= self.view_chars().len(),
                None => spec_model(self.view_chars(), i as int) is None,
            },
    {
        proof {
            reveal_strlit("model");
            reveal_strlit("of");
            reveal(spec_model);
        }
        let n = self.len();
        if !self.has_tag(i, "model") {
            return None;
        }
        let a = self.scan_class(i + 5, 1);
        let e = match self.read_id(a) {
            Some(e) => e,
            None => {
                return None;
            },
        };
        let b = self.scan_class(e, 1);
        if !self.has_tag(b, "of") {
            return None;
        }
        let c = self.scan_class(b + 2, 1);
        let f = match self.read_id(c) {
            Some(f) => f,
            None => {
                return None;
            },
        };
        let g = self.scan_class(f, 1);
        let h = self.read_skip(g);
        let (inherit_type, submodels, renamed_submodels, j) = self.read_inheritance(h);
        let k = self.read_skip(j);
        if !self.read_char(k, '{') {
            return None;
        }
        let m = self.read_skip(k + 1);
        let (models, p) = self.read_model_terms(m);
        let q = self.read_skip(p);
        if self.read_char(q, '}') {
            let x = ModelAst {
                model_name: self.slice(a, e),
                domain_name: self.slice(c, f),
                models,
                inherit_type,
                submodels,
                renamed_submodels,
            };
            Some((x, q + 1))
        } else {
            None
        }
    }
}

/// A domain under a name: `tag :: Domain`.
pub struct TaggedDomainAst {
    pub tag: String,
    pub domain: String,
}

impl View for TaggedDomainAst {
    type V = (Seq<char>, Seq<char>);

    open spec fn view(&self) -> (Seq<char>, Seq<char>) {
        (self.tag@, self.domain@)
    }
}

/// A type under a name: `tag : Type`.
pub struct TaggedTypeAst {
    pub tag: String,
    pub formula_type: AliasTypeDefAst,
}

/// A parameter of a transformation: a domain or a type, under a name.
pub enum TransformParamAst {
    TaggedDomain(TaggedDomainAst),
    TaggedType(TaggedTypeAst),
}

/// The mathematical value of a parameter: the name and the domain's name, or
/// the name and the full name of the type.
pub enum ParamView {
    Domain(Seq<char>, Seq<char>),
    Type(Seq<char>, Seq<char>),
}

impl View for TransformParamAst {
    type V = ParamView;

    open spec fn view(&self) -> ParamView {
        match self {
            TransformParamAst::TaggedDomain(d) => ParamView::Domain(d.tag@, d.domain@),
            TransformParamAst::TaggedType(t) => ParamView::Type(t.tag@, t.formula_type@),
        }
    }
}

/// A transformation as written: its name, its parameters, the domains it
/// returns, and the type definitions, rules and terms among its sentences.
pub struct TransformAst {
    pub transform_name: String,
    pub inputs: Vec<TransformParamAst>,
    pub output: Vec<TaggedDomainAst>,
    pub typedefs: Vec<RawTypeDefAst>,
    pub rules: Vec<RuleAst>,
    pub terms: Vec<AtomicTerm>,
}

/// The mathematical value of a transformation as written.
pub struct TransformAstView {
    pub transform_name: Seq<char>,
    pub inputs: Seq<ParamView>,
    pub output: Seq<(Seq<char>, Seq<char>)>,
    pub typedefs: Seq<TypeDefView>,
    pub rules: Seq<(Seq<TermView>, Seq<ConstraintView>)>,
    pub terms: Seq<TermView>,
}

pub open spec fn params_view(v: Seq<TransformParamAst>) -> Seq<ParamView> {
    v.map_values(|p: TransformParamAst| p@)
}

pub open spec fn tagged_domains_view(v: Seq<TaggedDomainAst>) -> Seq<(Seq<char>, Seq<char>)> {
    v.map_values(|d: TaggedDomainAst| d@)
}

impl View for TransformAst {
    type V = TransformAstView;

    open spec fn view(&self) -> TransformAstView {
        TransformAstView {
            transform_name: self.transform_name@,
            inputs: params_view(self.inputs@),
            output: tagged_domains_view(self.output@),
            typedefs: defs_view(self.typedefs@),
            rules: rule_asts_view(self.rules@),
            terms: terms_view(self.terms@),
        }
    }
}

/// A domain under a name: a name, `::` with spaces around it, and the name of
/// the domain.
pub open spec fn spec_tagged_domain(s: Seq<char>, i: int) -> Option<((Seq<char>, Seq<char>), int)> {
    match spec_id(s, i) {
        Some(e) => {
            let a = space0(s, e);
            if has_tag(s, a, "::"@) {
                let b = space0(s, a + 2);
                match spec_id(s, b) {
                    Some(f) => Some(((s.subrange(i, e), s.subrange(b, f)), f)),
                    None => None,
                }
            } else {
                None
            }
        },
        None => None,
    }
}

/// Whether a parameter at `i` is a type without a name, which a
/// transformation does not accept.
pub open spec fn untagged_param(s: Seq<char>, i: int) -> bool {
    spec_tagged_domain(s, i) is None && spec_tagged_typename(s, i) matches Some((None, _, _))
}

/// A parameter of a transformation: a domain under a name, or a type under a
/// name.
pub open spec fn spec_transform_param(s: Seq<char>, i: int) -> Option<(ParamView, int)> {
    match spec_tagged_domain(s, i) {
        Some(((t, d), e)) => Some((ParamView::Domain(t, d), e)),
        None => match spec_tagged_typename(s, i) {
            Some((Some(t), names, e)) => Some((ParamView::Type(t, dotted(names)), e)),
            _ => None,
        },
    }
}

/// Further parameters, each after a comma.
pub open spec fn more_params(s: Seq<char>, i: int) -> (Seq<ParamView>, int)
    decreases s.len() - i,
{
    match comma_sep(s, i) {
        Some(a) => match spec_transform_param(s, a) {
            Some((x, e)) => if i < e <= s.len() {
                let more = more_params(s, e);
                (seq![x] + more.0, more.1)
            } else {
                (Seq::empty(), i)
            },
            None => (Seq::empty(), i),
        },
        None => (Seq::empty(), i),
    }
}

/// Parameters separated by commas, possibly none.
pub open spec fn param_list(s: Seq<char>, i: int) -> (Seq<ParamView>, int) {
    match spec_transform_param(s, i) {
        Some((x, e)) => if i < e <= s.len() {
            let more = more_params(s, e);
            (seq![x] + more.0, more.1)
        } else {
            (Seq::empty(), i)
        },
        None => (Seq::empty(), i),
    }
}

/// Whether reading further parameters comes to a type without a name.
pub open spec fn more_params_untagged(s: Seq<char>, i: int) -> bool
    decreases s.len() - i,
{
    match comma_sep(s, i) {
        Some(a) => untagged_param(s, a) || match spec_transform_param(s, a) {
            Some((x, e)) => i < e <= s.len() && more_params_untagged(s, e),
            None => false,
        },
        None => false,
    }
}

/// Whether reading parameters comes to a type without a name.
pub open spec fn params_untagged(s: Seq<char>, i: int) -> bool {
    untagged_param(s, i) || match spec_transform_param(s, i) {
        Some((x, e)) => i < e <= s.len() && more_params_untagged(s, e),
        None => false,
    }
}

/// Further domains under names, each after a comma.
pub open spec fn more_tagged_domains(s: Seq<char>, i: int) -> (Seq<(Seq<char>, Seq<char>)>, int)
    decreases s.len() - i,
{
    match comma_sep(s, i) {
        Some(a) => match spec_tagged_domain(s, a) {
            Some((x, e)) => if i < e <= s.len() {
                let more = more_tagged_domains(s, e);
                (seq![x] + more.0, more.1)
            } else {
                (Seq::empty(), i)
            },
            None => (Seq::empty(), i),
        },
        None => (Seq::empty(), i),
    }
}

/// Domains under names separated by commas, possibly none.
pub open spec fn tagged_domain_list(s: Seq<char>, i: int) -> (Seq<(Seq<char>, Seq<char>)>, int) {
    match spec_tagged_domain(s, i) {
        Some((x, e)) => if i < e <= s.len() {
            let more = more_tagged_domains(s, e);
            (seq![x] + more.0, more.1)
        } else {
            (Seq::empty(), i)
        },
        None => (Seq::empty(), i),
    }
}

/// Where the parameters of a transformation at `i` start: after `transform`,
/// its name and `(`.
pub open spec fn transform_params_start(s: Seq<char>, i: int) -> Option<int> {
    if has_tag(s, i, "transform"@) {
        match spec_id(s, multispace0(s, i + 9)) {
            Some(e) => {
                let b = multispace0(s, e);
                if has_char(s, b, '(') {
                    Some(b + 1)
                } else {
                    None
                }
            },
            None => None,
        }
    } else {
        None
    }
}

/// Whether reading a transformation at `i` comes to a parameter that is a type
/// without a name.
pub open spec fn transform_untagged(s: Seq<char>, i: int) -> bool {
    match transform_params_start(s, i) {
        Some(p) => params_untagged(s, p),
        None => false,
    }
}

/// A transformation: `transform`, its name, its parameters between brackets,
/// `returns` and the domains it returns between brackets, and its sentences
/// between braces.
#[verifier::opaque]
pub open spec fn spec_transform(s: Seq<char>, i: int) -> Option<(TransformAstView, int)> {
    match transform_params_start(s, i) {
        Some(p) => {
            let (ins, c) = param_list(s, p);
            if has_char(s, c, ')') {
                let d = spec_skip(s, c + 1);
                if has_tag(s, d, "returns"@) {
                    let f = spec_skip(s, d + 7);
                    if has_char(s, f, '(') {
                        let (outs, g) = tagged_domain_list(s, f + 1);
                        if has_char(s, g, ')') {
                            let h = spec_skip(s, g + 1);
                            if has_char(s, h, '{') {
                                match sentence_list(s, spec_skip(s, h + 1)) {
                                    Some((xs, j)) => {
                                        let k = spec_skip(s, j);
                                        if has_char(s, k, '}') {
                                            let a = multispace0(s, i + 9);
                                            Some((TransformAstView {
                                                transform_name: s.subrange(a, spec_id(s, a)->0),
                                                inputs: ins,
                                                output: outs,
                                                typedefs: sentence_types(xs),
                                                rules: sentence_rules(xs),
                                                terms: sentence_terms(xs),
                                            }, k + 1))
                                        } else {
                                            None
                                        }
                                    },
                                    None => None,
                                }
                            } else {
                                None
                            }
                        } else {
                            None
                        }
                    } else {
                        None
                    }
                } else {
                    None
                }
            } else {
                None
            }
        },
        None => None,
    }
}

/// The use of a transformation: `result = Name(term, ...)`.
pub struct TransformationAst {
    pub result_name: String,
    pub transform_name: String,
    pub params: Vec<AtomicTerm>,
}

impl View for TransformationAst {
    type V = (Seq<char>, Seq<char>, Seq<TermView>);

    open spec fn view(&self) -> (Seq<char>, Seq<char>, Seq<TermView>) {
        (self.result_name@, self.transform_name@, terms_view(self.params@))
    }
}

/// Further terms, each after a comma.
pub open spec fn more_terms(s: Seq<char>, i: int) -> (Seq<TermView>, int)
    decreases s.len() - i,
{
    match comma_sep(s, i) {
        Some(a) => match spec_term(s, a) {
            Some((x, e)) => if i < e <= s.len() {
                let more = more_terms(s, e);
                (seq![x] + more.0, more.1)
            } else {
                (Seq::empty(), i)
            },
            None => (Seq::empty(), i),
        },
        None => (Seq::empty(), i),
    }
}

/// Terms separated by commas, possibly none.
pub open spec fn term_list(s: Seq<char>, i: int) -> (Seq<TermView>, int) {
    match spec_term(s, i) {
        Some((x, e)) => if i < e <= s.len() {
            let more = more_terms(s, e);
            (seq![x] + more.0, more.1)
        } else {
            (Seq::empty(), i)
        },
        None => (Seq::empty(), i),
    }
}

/// The use of a transformation: the name of the result, `=` with spaces around
/// it, the name of the transformation, and its arguments between brackets.
pub open spec fn spec_transformation(s: Seq<char>, i: int) -> Option<((Seq<char>, Seq<char>, Seq<TermView>), int)> {
    match spec_id(s, i) {
        Some(e) => {
            let a = space0(s, e);
            if has_char(s, a, '=') {
                let b = space0(s, a + 1);
                match spec_id(s, b) {
                    Some(f) => if has_char(s, f, '(') {
                        let (ps, g) = term_list(s, f + 1);
                        if has_char(s, g, ')') {
                            Some(((s.subrange(i, e), s.subrange(b, f), ps), g + 1))
                        } else {
                            None
                        }
                    } else {
                        None
                    },
                    None => None,
                }
            } else {
                None
            }
        },
        None => None,
    }
}

impl<'a> Input<'a> {
    /// Read a domain under a name at `i`.
    pub fn read_tagged_domain(&self, i: usize) -> (r: Option<(TaggedDomainAst, usize)>)
        requires
            self.wf(),
            i <= self.view_chars().len(),
        ensures
            match r {
                Some((x, e)) => spec_tagged_domain(self.view_chars(), i as int) == Some((x@, e as int)) && i < e <= self.view_chars().len(),
                None => spec_tagged_domain(self.view_chars(), i as int) is None,
            },
    {
        proof {
            reveal_strlit("::");
        }
        let n = self.len();
        let e = match self.read_id(i) {
            Some(e) => e,
            None => {
                return None;
            },
        };
        let a = self.scan_class(e, 0);
        if !self.has_tag(a, "::") {
            return None;
        }
        let b = self.scan_class(a + 2, 0);
        match self.read_id(b) {
            Some(f) => Some((TaggedDomainAst { tag: self.slice(i, e), domain: self.slice(b, f) }, f)),
            None => None,
        }
    }

    /// Read a parameter of a transformation at `i`.
    pub fn read_transform_param(&self, i: usize) -> (r: Option<(TransformParamAst, usize)>)
        requires
            self.wf(),
            i <= self.view_chars().len(),
            !untagged_param(self.view_chars(), i as int),
        ensures
            match r {
                Some((x, e)) => spec_transform_param(self.view_chars(), i as int) == Some((x@, e as int)) && i < e <= self.view_chars().len(),
                None => spec_transform_param(self.view_chars(), i as int) is None,
            },
    {
        match self.read_tagged_domain(i) {
            Some((d, e)) => Some((TransformParamAst::TaggedDomain(d), e)),
            None => match self.read_tagged_typename(i) {
                Some((Some(tag), names, e)) => {
                    let formula_type = alias_from_names(names);
                    Some((TransformParamAst::TaggedType(TaggedTypeAst { tag, formula_type }), e))
                },
                _ => None,
            },
        }
    }

    fn read_param_list(&self, i: usize) -> (r: (Vec<TransformParamAst>, usize))
        requires
            self.wf(),
            i <= self.view_chars().len(),
            !params_untagged(self.view_chars(), i as int),
        ensures
            (params_view(r.0@), r.1 as int) == param_list(self.view_chars(), i as int),
            i <= r.1 <= self.view_chars().len(),
    {
        let n = self.len();
        let ghost s = self.view_chars();
        let mut out: Vec<TransformParamAst> = Vec::new();
        let (x, e) = match self.read_transform_param(i) {
            Some(p) => p,
            None => {
                assert(params_view(out@) =~= Seq::empty());
                return (out, i);
            },
        };
        out.push(x);
        assert(params_view(out@) =~= seq![x@]);
        let mut pos = e;
        loop
            invariant
                self.wf(),
                s == self.view_chars(),
                n == s.len(),
                i < pos <= n,
                !more_params_untagged(s, pos as int),
                param_list(s, i as int) == (params_view(out@) + more_params(s, pos as int).0, more_params(s, pos as int).1),
            decreases n - pos,
        {
            let c = match self.read_comma_sep(pos) {
                Some(c) => c,
                None => {
                    assert(params_view(out@) + Seq::empty() =~= params_view(out@));
                    return (out, pos);
                },
            };
            match self.read_transform_param(c) {
                Some((x2, e2)) => {
                    if !(pos < e2) {
                        assert(params_view(out@) + Seq::empty() =~= params_view(out@));
                        return (out, pos);
                    }
                    let ghost before = params_view(out@);
                    out.push(x2);
                    proof {
                        assert(params_view(out@) =~= before.push(x2@));
                        assert(before + (seq![x2@] + more_params(s, e2 as int).0) =~= params_view(out@) + more_params(s, e2 as int).0);
                    }
                    pos = e2;
                },
                None => {
                    assert(params_view(out@) + Seq::empty() =~= params_view(out@));
                    return (out, pos);
                },
            }
        }
    }

    fn read_tagged_domain_list(&self, i: usize) -> (r: (Vec<TaggedDomainAst>, usize))
        requires
            self.wf(),
            i <= self.view_chars().len(),
        ensures
            (tagged_domains_view(r.0@), r.1 as int) == tagged_domain_list(self.view_chars(), i as int),
            i <= r.1 <= self.view_chars().len(),
    {
        let n = self.len();
        let ghost s = self.view_chars();
        let mut out: Vec<TaggedDomainAst> = Vec::new();
        let (x, e) = match self.read_tagged_domain(i) {
            Some(p) => p,
            None => {
                assert(tagged_domains_view(out@) =~= Seq::empty());
                return (out, i);
            },
        };
        out.push(x);
        assert(tagged_domains_view(out@) =~= seq![x@]);
        let mut pos = e;
        loop
            invariant
                self.wf(),
                s == self.view_chars(),
                n == s.len(),
                i < pos <= n,
                tagged_domain_list(s, i as int) == (tagged_domains_view(out@) + more_tagged_domains(s, pos as int).0, more_tagged_domains(s, pos as int).1),
            decreases n - pos,
        {
            let c = match self.read_comma_sep(pos) {
                Some(c) => c,
                None => {
                    assert(tagged_domains_view(out@) + Seq::empty() =~= tagged_domains_view(out@));
                    return (out, pos);
                },
            };
            match self.read_tagged_domain(c) {
                Some((x2, e2)) => {
                    if !(pos < e2) {
                        assert(tagged_domains_view(out@) + Seq::empty() =~= tagged_domains_view(out@));
                        return (out, pos);
                    }
                    let ghost before = tagged_domains_view(out@);
                    out.push(x2);
                    proof {
                        assert(tagged_domains_view(out@) =~= before.push(x2@));
                        assert(before + (seq![x2@] + more_tagged_domains(s, e2 as int).0) =~= tagged_domains_view(out@) + more_tagged_domains(s, e2 as int).0);
                    }
                    pos = e2;
                },
                None => {
                    assert(tagged_domains_view(out@) + Seq::empty() =~= tagged_domains_view(out@));
                    return (out, pos);
                },
            }
        }
    }

    /// Read a transformation at `i`.
    pub fn read_transform(&self, i: usize) -> (r: Option<(TransformAst, usize)>)
        requires
            self.wf(),
            i <= self.view_chars().len(),
            !transform_untagged(self.view_chars(), i as int),
        ensures
            match r {
                Some((x, e)) => spec_transform(self.view_chars(), i as int) == Some((x@, e as int)) && e <= self.view_chars().len(),
                None => spec_transform(self.view_chars(), i as int) is None,
            },
    {
        proof {
            reveal_strlit("transform");
            reveal_strlit("returns");
            reveal(spec_transform);
        }
        let n = self.len();
        if !self.has_tag(i, "transform") {
            return None;
        }
        let a = self.scan_class(i + 9, 1);
        let e = match self.read_id(a) {
            Some(e) => e,
            None => {
                return None;
            },
        };
        let b = self.scan_class(e, 1);
        if !self.read_char(b, '(') {
            return None;
        }
        let (inputs, c) = self.read_param_list(b + 1);
        if !self.read_char(c, ')') {
            return None;
        }
        let d = self.read_skip(c + 1);
        if !self.has_tag(d, "returns") {
            return None;
        }
        let f = self.read_skip(d + 7);
        if !self.read_char(f, '(') {
            return None;
        }
        let (output, g) = self.read_tagged_domain_list(f + 1);
        if !self.read_char(g, ')') {
            return None;
        }
        let h = self.read_skip(g + 1);
        if !self.read_char(h, '{') {
            return None;
        }
        let m = self.read_skip(h + 1);
        match self.read_sentences(m) {
            Some((typedefs, rules, terms, j)) => {
                let k = self.read_skip(j);
                if self.read_char(k, '}') {
                    let x = TransformAst { transform_name: self.slice(a, e), inputs, output, typedefs, rules, terms };
                    Some((x, k + 1))
                } else {
                    None
                }
            },
            None => None,
        }
    }

    fn read_term_list(&self, i: usize) -> (r: (Vec<AtomicTerm>, usize))
        requires
            self.wf(),
            i <= self.view_chars().len(),
        ensures
            (terms_view(r.0@), r.1 as int) == term_list(self.view_chars(), i as int),
            i <= r.1 <= self.view_chars().len(),
    {
        let n = self.len();
        let ghost s = self.view_chars();
        let mut out: Vec<AtomicTerm> = Vec::new();
        let (x, e) = match self.read_term(i) {
            Some(p) => p,
            None => {
                assert(terms_view(out@) =~= Seq::empty());
                return (out, i);
            },
        };
        if !(i < e) {
            assert(terms_view(out@) =~= Seq::empty());
            return (out, i);
        }
        out.push(x);
        assert(terms_view(out@) =~= seq![x@]);
        let mut pos = e;
        loop
            invariant
                self.wf(),
                s == self.view_chars(),
                n == s.len(),
                i < pos <= n,
                term_list(s, i as int) == (terms_view(out@) + more_terms(s, pos as int).0, more_terms(s, pos as int).1),
            decreases n - pos,
        {
            let c = match self.read_comma_sep(pos) {
                Some(c) => c,
                None => {
                    assert(terms_view(out@) + Seq::empty() =~= terms_view(out@));
                    return (out, pos);
                },
            };
            match self.read_term(c) {
                Some((x2, e2)) => {
                    if !(pos < e2) {
                        assert(terms_view(out@) + Seq::empty() =~= terms_view(out@));
                        return (out, pos);
                    }
                    let ghost before = terms_view(out@);
                    out.push(x2);
                    proof {
                        assert(terms_view(out@) =~= before.push(x2@));
                        assert(before + (seq![x2@] + more_terms(s, e2 as int).0) =~= terms_view(out@) + more_terms(s, e2 as int).0);
                    }
                    pos = e2;
                },
                None => {
                    assert(terms_view(out@) + Seq::empty() =~= terms_view(out@));
                    return (out, pos);
                },
            }
        }
    }

    /// Read the use of a transformation at `i`.
    pub fn read_transformation(&self, i: usize) -> (r: Option<(TransformationAst, usize)>)
        requires
            self.wf(),
            i <= self.view_chars().len(),
        ensures
            match r {
                Some((x, e)) => spec_transformation(self.view_chars(), i as int) == Some((x@, e as int)) && e <= self.view_chars().len(),
                None => spec_transformation(self.view_chars(), i as int) is None,
            },
    {
        let n = self.len();
        let e = match self.read_id(i) {
            Some(e) => e,
            None => {
                return None;
            },
        };
        let a = self.scan_class(e, 0);
        if !self.read_char(a, '=') {
            return None;
        }
        let b = self.scan_class(a + 1, 0);
        let f = match self.read_id(b) {
            Some(f) => f,
            None => {
                return None;
            },
        };
        if !self.read_char(f, '(') {
            return None;
        }
        let (params, g) = self.read_term_list(f + 1);
        if self.read_char(g, ')') {
            let x = TransformationAst { result_name: self.slice(i, e), transform_name: self.slice(b, f), params };
            Some((x, g + 1))
        } else {
            None
        }
    }
}

/// A module of a program: a domain, a model or a transformation.
pub enum ModuleAst {
    Domain(DomainAst),
    Model(ModelAst),
    Transform(TransformAst),
}

/// The mathematical value of a module.
pub enum ModuleView {
    Domain(DomainAstView),
    Model(ModelAstView),
    Transform(TransformAstView),
}

impl View for ModuleAst {
    type V = ModuleView;

    open spec fn view(&self) -> ModuleView {
        match self {
            ModuleAst::Domain(d) => ModuleView::Domain(d@),
            ModuleAst::Model(m) => ModuleView::Model(m@),
            ModuleAst::Transform(t) => ModuleView::Transform(t@),
        }
    }
}

/// A module: a domain, else a model, else a transformation.
pub open spec fn spec_module(s: Seq<char>, i: int) -> Option<(ModuleView, int)> {
    match spec_domain(s, i) {
        Some((d, e)) => Some((ModuleView::Domain(d), e)),
        None => match spec_model(s, i) {
            Some((m, e)) => Some((ModuleView::Model(m), e)),
            None => match spec_transform(s, i) {
                Some((t, e)) => Some((ModuleView::Transform(t), e)),
                None => None,
            },
        },
    }
}

/// The modules of a program, each with comments and white space around it, as
/// many as follow one another.
pub open spec fn program_modules(s: Seq<char>, i: int) -> (Seq<ModuleView>, int)
    decreases s.len() - i,
{
    let a = spec_skip(s, i);
    match spec_module(s, a) {
        Some((x, e)) => {
            let b = spec_skip(s, e);
            if i < b <= s.len() {
                let more = program_modules(s, b);
                (seq![x] + more.0, more.1)
            } else {
                (Seq::empty(), i)
            }
        },
        None => (Seq::empty(), i),
    }
}

/// Whether reading the modules of a program comes to a transformation with a
/// parameter that is a type without a name.
pub open spec fn program_untagged(s: Seq<char>, i: int) -> bool
    decreases s.len() - i,
{
    let a = spec_skip(s, i);
    if spec_domain(s, a) is None && spec_model(s, a) is None && transform_untagged(s, a) {
        true
    } else {
        match spec_module(s, a) {
            Some((x, e)) => {
                let b = spec_skip(s, e);
                i < b <= s.len() && program_untagged(s, b)
            },
            None => false,
        }
    }
}

/// A program: its domains, models and transformations, one for each name.
pub struct ProgramAst {
    pub domain_ast_map: Vec<DomainAst>,
    pub model_ast_map: Vec<ModelAst>,
    pub transform_ast_map: Vec<TransformAst>,
}

/// The mathematical value of a program.
pub struct ProgramView {
    pub domains: Seq<DomainAstView>,
    pub models: Seq<ModelAstView>,
    pub transforms: Seq<TransformAstView>,
}

pub open spec fn domain_asts_view(v: Seq<DomainAst>) -> Seq<DomainAstView> {
    v.map_values(|d: DomainAst| d@)
}

pub open spec fn model_asts_view(v: Seq<ModelAst>) -> Seq<ModelAstView> {
    v.map_values(|m: ModelAst| m@)
}

pub open spec fn transform_asts_view(v: Seq<TransformAst>) -> Seq<TransformAstView> {
    v.map_values(|t: TransformAst| t@)
}

impl View for ProgramAst {
    type V = ProgramView;

    open spec fn view(&self) -> ProgramView {
        ProgramView {
            domains: domain_asts_view(self.domain_ast_map@),
            models: model_asts_view(self.model_ast_map@),
            transforms: transform_asts_view(self.transform_ast_map@),
        }
    }
}

pub open spec fn domain_names(v: Seq<DomainAstView>) -> Seq<Seq<char>> {
    v.map_values(|d: DomainAstView| d.name)
}

pub open spec fn model_names(v: Seq<ModelAstView>) -> Seq<Seq<char>> {
    v.map_values(|m: ModelAstView| m.model_name)
}

pub open spec fn transform_names(v: Seq<TransformAstView>) -> Seq<Seq<char>> {
    v.map_values(|t: TransformAstView| t.transform_name)
}

/// The first position from `k` on where `names` has `key`, or the length of
/// `names` where there is none.
pub open spec fn name_position(names: Seq<Seq<char>>, key: Seq<char>, k: int) -> int
    decreases names.len() - k,
{
    if k < 0 || k >= names.len() {
        names.len() as int
    } else if names[k] == key {
        k
    } else {
        name_position(names, key, k + 1)
    }
}

/// `m`, whose entries have the names `names`, with `x` put under the name
/// `key`: in place of the entry of that name where there is one, else at the
/// end.
pub open spec fn put_named<T>(m: Seq<T>, names: Seq<Seq<char>>, key: Seq<char>, x: T) -> Seq<T> {
    let k = name_position(names, key, 0);
    if k < m.len() {
        m.update(k, x)
    } else {
        m.push(x)
    }
}

/// The program that modules make, read in order: a later module replaces an
/// earlier one of the same kind and name.
pub open spec fn program_of(ms: Seq<ModuleView>) -> ProgramView
    decreases ms.len(),
{
    if ms.len() == 0 {
        ProgramView { domains: Seq::empty(), models: Seq::empty(), transforms: Seq::empty() }
    } else {
        let p = program_of(ms.drop_last());
        match ms.last() {
            ModuleView::Domain(d) => ProgramView { domains: put_named(p.domains, domain_names(p.domains), d.name, d), ..p },
            ModuleView::Model(m) => ProgramView { models: put_named(p.models, model_names(p.models), m.model_name, m), ..p },
            ModuleView::Transform(t) => ProgramView {
                transforms: put_named(p.transforms, transform_names(p.transforms), t.transform_name, t),
                ..p
            },
        }
    }
}

fn put_domain_ast(m: &mut Vec<DomainAst>, d: DomainAst)
    ensures
        domain_asts_view(final(m)@) == put_named(domain_asts_view(old(m)@), domain_names(domain_asts_view(old(m)@)), d.name@, d@),
{
    let ghost v = domain_asts_view(m@);
    let ghost names = domain_names(v);
    let mut k: usize = 0;
    while k < m.len() && !(m[k].name == d.name)
        invariant
            k <= m@.len(),
            m@ == old(m)@,
            v == domain_asts_view(m@),
            names == domain_names(v),
            name_position(names, d.name@, 0) == name_position(names, d.name@, k as int),
        decreases m@.len() - k,
    {
        assert(names[k as int] == m@[k as int].name@);
        k += 1;
    }
    if k < m.len() {
        assert(names[k as int] == m@[k as int].name@);
        let ghost dv = d@;
        m.set(k, d);
        assert(domain_asts_view(m@) =~= v.update(k as int, dv));
    } else {
        let ghost dv = d@;
        m.push(d);
        assert(domain_asts_view(m@) =~= v.push(dv));
    }
}

fn put_model_ast(m: &mut Vec<ModelAst>, x: ModelAst)
    ensures
        model_asts_view(final(m)@) == put_named(model_asts_view(old(m)@), model_names(model_asts_view(old(m)@)), x.model_name@, x@),
{
    let ghost v = model_asts_view(m@);
    let ghost names = model_names(v);
    let mut k: usize = 0;
    while k < m.len() && !(m[k].model_name == x.model_name)
        invariant
            k <= m@.len(),
            m@ == old(m)@,
            v == model_asts_view(m@),
            names == model_names(v),
            name_position(names, x.model_name@, 0) == name_position(names, x.model_name@, k as int),
        decreases m@.len() - k,
    {
        assert(names[k as int] == m@[k as int].model_name@);
        k += 1;
    }
    if k < m.len() {
        assert(names[k as int] == m@[k as int].model_name@);
        let ghost xv = x@;
        m.set(k, x);
        assert(model_asts_view(m@) =~= v.update(k as int, xv));
    } else {
        let ghost xv = x@;
        m.push(x);
        assert(model_asts_view(m@) =~= v.push(xv));
    }
}

fn put_transform_ast(m: &mut Vec<TransformAst>, x: TransformAst)
    ensures
        transform_asts_view(final(m)@) == put_named(transform_asts_view(old(m)@), transform_names(transform_asts_view(old(m)@)), x.transform_name@, x@),
{
    let ghost v = transform_asts_view(m@);
    let ghost names = transform_names(v);
    let mut k: usize = 0;
    while k < m.len() && !(m[k].transform_name == x.transform_name)
        invariant
            k <= m@.len(),
            m@ == old(m)@,
            v == transform_asts_view(m@),
            names == transform_names(v),
            name_position(names, x.transform_name@, 0) == name_position(names, x.transform_name@, k as int),
        decreases m@.len() - k,
    {
        assert(names[k as int] == m@[k as int].transform_name@);
        k += 1;
    }
    if k < m.len() {
        assert(names[k as int] == m@[k as int].transform_name@);
        let ghost xv = x@;
        m.set(k, x);
        assert(transform_asts_view(m@) =~= v.update(k as int, xv));
    } else {
        let ghost xv = x@;
        m.push(x);
        assert(transform_asts_view(m@) =~= v.push(xv));
    }
}

impl ProgramAst {
    /// The program with `module` put in, in place of a module of the same kind
    /// and name.
    pub fn add_module(&mut self, module: ModuleAst)
        ensures
            final(self)@ == (ProgramView {
                domains: match module@ {
                    ModuleView::Domain(d) => put_named(old(self)@.domains, domain_names(old(self)@.domains), d.name, d),
                    _ => old(self)@.domains,
                },
                models: match module@ {
                    ModuleView::Model(m) => put_named(old(self)@.models, model_names(old(self)@.models), m.model_name, m),
                    _ => old(self)@.models,
                },
                transforms: match module@ {
                    ModuleView::Transform(t) => put_named(old(self)@.transforms, transform_names(old(self)@.transforms), t.transform_name, t),
                    _ => old(self)@.transforms,
                },
            }),
    {
        match module {
            ModuleAst::Domain(d) => put_domain_ast(&mut self.domain_ast_map, d),
            ModuleAst::Model(m) => put_model_ast(&mut self.model_ast_map, m),
            ModuleAst::Transform(t) => put_transform_ast(&mut self.transform_ast_map, t),
        }
    }
}

impl<'a> Input<'a> {
    /// Read a module at `i`.
    pub fn read_module(&self, i: usize) -> (r: Option<(ModuleAst, usize)>)
        requires
            self.wf(),
            i <= self.view_chars().len(),
            spec_domain(self.view_chars(), i as int) is None && spec_model(self.view_chars(), i as int) is None
                ==> !transform_untagged(self.view_chars(), i as int),
        ensures
            match r {
                Some((x, e)) => spec_module(self.view_chars(), i as int) == Some((x@, e as int)) && e <= self.view_chars().len(),
                None => spec_module(self.view_chars(), i as int) is None,
            },
    {
        if let Some((d, e)) = self.read_domain(i) {
            return Some((ModuleAst::Domain(d), e));
        }
        if let Some((m, e)) = self.read_model(i) {
            return Some((ModuleAst::Model(m), e));
        }
        match self.read_transform(i) {
            Some((t, e)) => Some((ModuleAst::Transform(t), e)),
            None => None,
        }
    }

    /// Read the modules of a program at `i`.
    pub fn read_program(&self, i: usize) -> (r: (ProgramAst, usize))
        requires
            self.wf(),
            i <= self.view_chars().len(),
            !program_untagged(self.view_chars(), i as int),
        ensures
            r.0@ == program_of(program_modules(self.view_chars(), i as int).0),
            r.1 as int == program_modules(self.view_chars(), i as int).1,
            i <= r.1 <= self.view_chars().len(),
    {
        let n = self.len();
        let ghost s = self.view_chars();
        let mut program = ProgramAst { domain_ast_map: Vec::new(), model_ast_map: Vec::new(), transform_ast_map: Vec::new() };
        let ghost done: Seq<ModuleView> = Seq::empty();
        proof {
            assert(domain_asts_view(program.domain_ast_map@) =~= Seq::empty());
            assert(model_asts_view(program.model_ast_map@) =~= Seq::empty());
            assert(transform_asts_view(program.transform_ast_map@) =~= Seq::empty());
        }
        let mut pos = i;
        loop
            invariant
                self.wf(),
                s == self.view_chars(),
                n == s.len(),
                i <= pos <= n,
                !program_untagged(s, pos as int),
                program_modules(s, i as int) == (done + program_modules(s, pos as int).0, program_modules(s, pos as int).1),
                program@ == program_of(done),
            decreases n - pos,
        {
            let a = self.read_skip(pos);
            match self.read_module(a) {
                Some((x, e)) => {
                    let b = self.read_skip(e);
                    if !(pos < b) {
                        assert(done + Seq::empty() =~= done);
                        return (program, pos);
                    }
                    let ghost xv = x@;
                    program.add_module(x);
                    proof {
                        assert(done.push(xv).drop_last() =~= done);
                        assert(done + (seq![xv] + program_modules(s, b as int).0) =~= done.push(xv) + program_modules(s, b as int).0);
                        done = done.push(xv);
                    }
                    pos = b;
                },
                None => {
                    assert(done + Seq::empty() =~= done);
                    return (program, pos);
                },
            }
        }
    }
}

proof fn lemma_name_position(names: Seq<Seq<char>>, key: Seq<char>, k: int)
    requires
        0 <= k <= names.len(),
    ensures
        k <= name_position(names, key, k) <= names.len(),
        name_position(names, key, k) < names.len() ==> names[name_position(names, key, k)] == key,
        forall|j: int| k <= j < name_position(names, key, k) ==> names[j] != key,
    decreases names.len() - k,
{
    if k < names.len() && names[k] != key {
        lemma_name_position(names, key, k + 1);
    }
}

/// The names after putting an entry under `key`: unchanged where the name was
/// there, else with `key` added at the end; distinct where they were.
proof fn lemma_put_named_names(names: Seq<Seq<char>>, key: Seq<char>, after: Seq<Seq<char>>)
    requires
        names.no_duplicates(),
        after == (if name_position(names, key, 0) < names.len() { names } else { names.push(key) }),
    ensures
        after.no_duplicates(),
{
    lemma_name_position(names, key, 0);
    if name_position(names, key, 0) >= names.len() {
        assert forall|i: int, j: int| 0 <= i < j < after.len() implies after[i] != after[j] by {
            if j == names.len() {
                assert(names[i] != key);
            }
        }
    }
}

proof fn lemma_program_of_distinct(ms: Seq<ModuleView>)
    ensures
        domain_names(program_of(ms).domains).no_duplicates(),
        model_names(program_of(ms).models).no_duplicates(),
        transform_names(program_of(ms).transforms).no_duplicates(),
    decreases ms.len(),
{
    if ms.len() > 0 {
        lemma_program_of_distinct(ms.drop_last());
        let p = program_of(ms.drop_last());
        match ms.last() {
            ModuleView::Domain(d) => {
                let names = domain_names(p.domains);
                lemma_name_position(names, d.name, 0);
                let k = name_position(names, d.name, 0);
                let after = domain_names(put_named(p.domains, names, d.name, d));
                if k < p.domains.len() {
                    assert(after =~= names);
                } else {
                    assert(after =~= names.push(d.name));
                }
                lemma_put_named_names(names, d.name, after);
            },
            ModuleView::Model(m) => {
                let names = model_names(p.models);
                lemma_name_position(names, m.model_name, 0);
                let k = name_position(names, m.model_name, 0);
                let after = model_names(put_named(p.models, names, m.model_name, m));
                if k < p.models.len() {
                    assert(after =~= names);
                } else {
                    assert(after =~= names.push(m.model_name));
                }
                lemma_put_named_names(names, m.model_name, after);
            },
            ModuleView::Transform(t) => {
                let names = transform_names(p.transforms);
                lemma_name_position(names, t.transform_name, 0);
                let k = name_position(names, t.transform_name, 0);
                let after = transform_names(put_named(p.transforms, names, t.transform_name, t));
                if k < p.transforms.len() {
                    assert(after =~= names);
                } else {
                    assert(after =~= names.push(t.transform_name));
                }
                lemma_put_named_names(names, t.transform_name, after);
            },
        }
    }
}

/// A program read from a text has one domain, one model and one
/// transformation for each name: a later module replaces an earlier one of the
/// same kind and name.
pub proof fn lemma_program_names_distinct(s: Seq<char>, i: int)
    ensures
        domain_names(program_of(program_modules(s, i).0).domains).no_duplicates(),
        model_names(program_of(program_modules(s, i).0).models).no_duplicates(),
        transform_names(program_of(program_modules(s, i).0).transforms).no_duplicates(),
{
    lemma_program_of_distinct(program_modules(s, i).0);
}

pub open spec fn entry_keys(m: Seq<(Seq<char>, Seq<char>)>) -> Seq<Seq<char>> {
    m.map_values(|e: (Seq<char>, Seq<char>)| e.0)
}

proof fn lemma_key_position(m: Seq<(Seq<char>, Seq<char>)>, key: Seq<char>, k: int)
    requires
        0 <= k <= m.len(),
    ensures
        k <= key_position(m, key, k) <= m.len(),
        key_position(m, key, k) < m.len() ==> m[key_position(m, key, k)].0 == key,
        forall|j: int| k <= j < key_position(m, key, k) ==> m[j].0 != key,
    decreases m.len() - k,
{
    if k < m.len() && m[k].0 != key {
        lemma_key_position(m, key, k + 1);
    }
}

/// A domain includes at most one domain under each scope: where a scope is
/// given twice, the later domain replaces the earlier one.
pub proof fn lemma_scopes_distinct(subs: Seq<(Option<Seq<char>>, Seq<char>)>)
    ensures
        entry_keys(scoped_subdomains(subs)).no_duplicates(),
    decreases subs.len(),
{
    if subs.len() > 0 {
        lemma_scopes_distinct(subs.drop_last());
        let p = scoped_subdomains(subs.drop_last());
        match subs.last().0 {
            Some(scope) => {
                let keys = entry_keys(p);
                lemma_key_position(p, scope, 0);
                let k = key_position(p, scope, 0);
                let after = entry_keys(put_entry(p, scope, subs.last().1));
                if k < p.len() {
                    assert(after =~= keys);
                } else {
                    assert(after =~= keys.push(scope));
                    assert forall|i: int, j: int| 0 <= i < j < after.len() implies after[i] != after[j] by {
                        if j == keys.len() {
                            assert(p[i].0 != scope);
                        }
                    }
                }
            },
            None => {},
        }
    }
}

} // verus!
