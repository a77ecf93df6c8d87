//! Formula domains: the types and rules that a domain definition gives,
//! together with the types of the domains it includes.
use crate::expression::ConstraintView;
use crate::parser::strings_view;
use crate::module::{names_view, put_all, renamed_types, rules_view, types_view, MetaInfo};
use crate::rule::Rule;
use crate::text::concat3;
use crate::rule::{fresh_variables_needed, normalized_body};
use crate::rule_parser::RuleAst;
use crate::sort_resolution::{resolve_constraints, resolve_terms};
use crate::term::TermView;
use crate::type_def::{create_types, defined_types, defs_view, import_builtin_types, with_builtins, RawTypeDefAst, TypeDefView};
use crate::type_system::{type_unique_form, RawType, TypeView};
use vstd::prelude::*;

verus! {

/// A domain as written: its name, type definitions and rules, how it
/// inherits (`includes` or `extends`), the domains it includes, and the
/// domains it includes under a scope, as `(scope, domain)`.
pub struct DomainAst {
    pub name: String,
    pub types: Vec<RawTypeDefAst>,
    pub rules: Vec<RuleAst>,
    pub inherit_type: String,
    pub subdomains: Vec<String>,
    pub renamed_subdomains: Vec<(String, String)>,
}

/// The mathematical value of a domain as written.
pub struct DomainAstView {
    pub name: Seq<char>,
    pub types: Seq<TypeDefView>,
    pub rules: Seq<(Seq<TermView>, Seq<ConstraintView>)>,
    pub inherit_type: Seq<char>,
    pub subdomains: Seq<Seq<char>>,
    pub renamed_subdomains: Seq<(Seq<char>, Seq<char>)>,
}

pub open spec fn pairs_view(v: Seq<(String, String)>) -> Seq<(Seq<char>, Seq<char>)> {
    v.map_values(|p: (String, String)| (p.0@, p.1@))
}

impl View for DomainAst {
    type V = DomainAstView;

    open spec fn view(&self) -> DomainAstView {
        DomainAstView {
            name: self.name@,
            types: defs_view(self.types@),
            rules: rule_asts_view(self.rules@),
            inherit_type: self.inherit_type@,
            subdomains: strings_view(self.subdomains@),
            renamed_subdomains: pairs_view(self.renamed_subdomains@),
        }
    }
}

/// A domain: its name and meta information.
pub struct Domain {
    pub name: String,
    pub metainfo: MetaInfo,
}

impl Domain {
    /// A domain of the given name, named types, whose names are distinct, and
    /// rules.
    pub fn new(name: String, type_map: Vec<(String, RawType)>, rules: Vec<Rule>) -> (r: Domain)
        requires
            names_view(type_map@).no_duplicates(),
        ensures
            r.name@ == name@,
            named_types(r) == (names_view(type_map@), types_view(type_map@)),
            r.metainfo.rule_list() == rules_view(rules@),
    {
        Domain { name, metainfo: MetaInfo::new(type_map, rules) }
    }

    /// The domain renamed with `scope`: its name is `scope.name`, its types are
    /// its types renamed with the scope, each under the name of its renamed
    /// form, and it has no rules.
    pub fn rename(&self, scope: String) -> (r: Domain)
        ensures
            r.name@ == scope@ + "."@ + self.name@,
            named_types(r) == renamed_named(self.metainfo.types(), scope@),
            r.metainfo.rule_count() == 0,
    {
        proof {
            reveal_strlit(".");
        }
        let name = concat3(scope.as_str(), ".", self.name.as_str());
        let metainfo = self.metainfo.rename_types(scope);
        Domain { name, metainfo }
    }
}

/// The named types of a domain: its names and, in the same order, its types.
pub open spec fn named_types(d: Domain) -> (Seq<Seq<char>>, Seq<TypeView>) {
    (d.metainfo.names(), d.metainfo.types())
}

/// The named types with the types of each included domain put in, in order.
pub open spec fn with_subdomains(
    names: Seq<Seq<char>>,
    types: Seq<TypeView>,
    subs: Seq<(Seq<Seq<char>>, Seq<TypeView>)>,
) -> (Seq<Seq<char>>, Seq<TypeView>)
    decreases subs.len(),
{
    if subs.len() == 0 {
        (names, types)
    } else {
        let p = with_subdomains(names, types, subs.drop_last());
        put_all(p.0, p.1, subs.last().0, subs.last().1)
    }
}

/// The types of a domain renamed with `scope`, each under the name of its
/// renamed form.
pub open spec fn renamed_named(types: Seq<TypeView>, scope: Seq<char>) -> (Seq<Seq<char>>, Seq<TypeView>) {
    put_all(
        Seq::empty(),
        Seq::empty(),
        renamed_types(types, scope).map_values(|t: TypeView| type_unique_form(t)),
        renamed_types(types, scope),
    )
}

/// The named types with the renamed types of each domain included under a
/// scope put in, in order.
pub open spec fn with_renamed(
    names: Seq<Seq<char>>,
    types: Seq<TypeView>,
    rs: Seq<(Seq<char>, Seq<TypeView>)>,
) -> (Seq<Seq<char>>, Seq<TypeView>)
    decreases rs.len(),
{
    if rs.len() == 0 {
        (names, types)
    } else {
        let p = with_renamed(names, types, rs.drop_last());
        let q = renamed_named(rs.last().1, rs.last().0);
        put_all(p.0, p.1, q.0, q.1)
    }
}

/// The named types of a domain: the built-in types, then the types of the
/// included domains, then the renamed types of the domains included under a
/// scope, and then the types that the domain's definitions give. `None` where a
/// definition does not resolve.
pub open spec fn domain_types(
    defs: Seq<TypeDefView>,
    subs: Seq<(Seq<Seq<char>>, Seq<TypeView>)>,
    rs: Seq<(Seq<char>, Seq<TypeView>)>,
) -> Option<(Seq<Seq<char>>, Seq<TypeView>)> {
    let b = with_builtins(Seq::empty(), Seq::empty());
    let s = with_subdomains(b.0, b.1, subs);
    let r = with_renamed(s.0, s.1, rs);
    defined_types(defs, r.0, r.1, defs.len())
}

/// The rules of a domain, each with its types resolved in the domain's named
/// types and formed as `Rule::new` forms it; `None` where a rule does not
/// resolve.
pub open spec fn domain_rules(
    asts: Seq<(Seq<TermView>, Seq<ConstraintView>)>,
    names: Seq<Seq<char>>,
    types: Seq<TypeView>,
) -> Option<Seq<(Seq<TermView>, Seq<ConstraintView>)>>
    decreases asts.len(),
{
    if asts.len() == 0 {
        Some(Seq::empty())
    } else {
        match domain_rules(asts.drop_last(), names, types) {
            Some(p) => match (resolve_terms(asts.last().0, names, types), resolve_constraints(asts.last().1, names, types)) {
                (Some(h), Some(b)) => Some(p.push((h, normalized_body(b)))),
                _ => None,
            },
            None => None,
        }
    }
}

/// Whether forming each rule stays within the numbering of fresh variables.
pub open spec fn rules_fit(
    asts: Seq<(Seq<TermView>, Seq<ConstraintView>)>,
    names: Seq<Seq<char>>,
    types: Seq<TypeView>,
) -> bool {
    forall|k: int| 0 <= k < asts.len() ==> (resolve_constraints(#[trigger] asts[k].1, names, types) matches Some(b) ==> fresh_variables_needed(b) <= i64::MAX)
}

pub open spec fn rule_asts_view(v: Seq<RuleAst>) -> Seq<(Seq<TermView>, Seq<ConstraintView>)> {
    v.map_values(|r: RuleAst| r@)
}

pub open spec fn domains_named_types(v: Seq<Domain>) -> Seq<(Seq<Seq<char>>, Seq<TypeView>)> {
    v.map_values(|d: Domain| named_types(d))
}

pub open spec fn scoped_types(v: Seq<(String, Domain)>) -> Seq<(Seq<char>, Seq<TypeView>)> {
    v.map_values(|p: (String, Domain)| (p.0@, p.1.metainfo.types()))
}

proof fn lemma_domain_rules_prefix(
    asts: Seq<(Seq<TermView>, Seq<ConstraintView>)>,
    k: int,
    names: Seq<Seq<char>>,
    types: Seq<TypeView>,
)
    requires
        0 <= k <= asts.len(),
        domain_rules(asts.subrange(0, k), names, types) is None,
    ensures
        domain_rules(asts, names, types) is None,
    decreases asts.len() - k,
{
    if k < asts.len() {
        assert(asts.subrange(0, k + 1).drop_last() =~= asts.subrange(0, k));
        lemma_domain_rules_prefix(asts, k + 1, names, types);
    } else {
        assert(asts.subrange(0, k) =~= asts);
    }
}

/// The domain that `ast` defines, where `subdomains` are the domains it
/// includes and `renamed_subdomains` the domains it includes under a scope.
/// `None` where a type definition or a rule does not resolve.
pub fn create_domain(ast: &DomainAst, subdomains: &Vec<Domain>, renamed_subdomains: &Vec<(String, Domain)>) -> (r: Option<Domain>)
    requires
        domain_types(defs_view(ast.types@), domains_named_types(subdomains@), scoped_types(renamed_subdomains@)) matches Some(nt)
            ==> rules_fit(rule_asts_view(ast.rules@), nt.0, nt.1),
    ensures
        match r {
            Some(d) => {
                &&& d.name@ == ast.name@
                &&& domain_types(defs_view(ast.types@), domains_named_types(subdomains@), scoped_types(renamed_subdomains@)) == Some(named_types(d))
                &&& domain_rules(rule_asts_view(ast.rules@), d.metainfo.names(), d.metainfo.types()) == Some(d.metainfo.rule_list())
            },
            None => domain_types(defs_view(ast.types@), domains_named_types(subdomains@), scoped_types(renamed_subdomains@)) matches Some(nt)
                ==> domain_rules(rule_asts_view(ast.rules@), nt.0, nt.1) is None,
        },
{
    let ghost subs = domains_named_types(subdomains@);
    let ghost rs = scoped_types(renamed_subdomains@);
    let mut builtins: Vec<(String, RawType)> = Vec::new();
    assert(names_view(builtins@) =~= Seq::<Seq<char>>::empty());
    assert(types_view(builtins@) =~= Seq::<TypeView>::empty());
    import_builtin_types(&mut builtins);
    let mut meta = MetaInfo::new(builtins, Vec::new());
    let ghost b = with_builtins(Seq::empty(), Seq::empty());
    assert(subs.subrange(0, 0) =~= Seq::<(Seq<Seq<char>>, Seq<TypeView>)>::empty());
    let mut i: usize = 0;
    while i < subdomains.len()
        invariant
            i <= subdomains@.len(),
            subs == domains_named_types(subdomains@),
            (meta.names(), meta.types()) == with_subdomains(b.0, b.1, subs.subrange(0, i as int)),
        decreases subdomains@.len() - i,
    {
        proof {
            assert(subs.subrange(0, i + 1).drop_last() =~= subs.subrange(0, i as int));
        }
        meta.extend_types(&subdomains[i].metainfo);
        i += 1;
    }
    assert(subs.subrange(0, subs.len() as int) =~= subs);
    let ghost s = with_subdomains(b.0, b.1, subs);
    assert(rs.subrange(0, 0) =~= Seq::<(Seq<char>, Seq<TypeView>)>::empty());
    let mut j: usize = 0;
    while j < renamed_subdomains.len()
        invariant
            j <= renamed_subdomains@.len(),
            rs == scoped_types(renamed_subdomains@),
            (meta.names(), meta.types()) == with_renamed(s.0, s.1, rs.subrange(0, j as int)),
        decreases renamed_subdomains@.len() - j,
    {
        proof {
            assert(rs.subrange(0, j + 1).drop_last() =~= rs.subrange(0, j as int));
        }
        let renamed = renamed_subdomains[j].1.metainfo.rename_types(renamed_subdomains[j].0.clone());
        meta.extend_types(&renamed);
        j += 1;
    }
    assert(rs.subrange(0, rs.len() as int) =~= rs);
    let tm = match create_types(&ast.types, meta.type_map()) {
        Some(tm) => tm,
        None => {
            return None;
        },
    };
    let mut domain_meta = MetaInfo::new(tm, Vec::new());
    assert(rules_view(Seq::<Rule>::empty()) =~= Seq::<(Seq<TermView>, Seq<ConstraintView>)>::empty());
    let ghost asts = rule_asts_view(ast.rules@);
    let ghost nt = (domain_meta.names(), domain_meta.types());
    assert(domain_meta.rule_list() =~= Seq::<(Seq<TermView>, Seq<ConstraintView>)>::empty());
    assert(asts.subrange(0, 0) =~= Seq::<(Seq<TermView>, Seq<ConstraintView>)>::empty());
    let mut k: usize = 0;
    while k < ast.rules.len()
        invariant
            k <= ast.rules@.len(),
            asts == rule_asts_view(ast.rules@),
            subs == domains_named_types(subdomains@),
            rs == scoped_types(renamed_subdomains@),
            domain_types(defs_view(ast.types@), subs, rs) == Some(nt),
            nt == (domain_meta.names(), domain_meta.types()),
            rules_fit(asts, nt.0, nt.1),
            domain_rules(asts.subrange(0, k as int), nt.0, nt.1) == Some(domain_meta.rule_list()),
        decreases ast.rules@.len() - k,
    {
        proof {
            assert(asts.subrange(0, k + 1).drop_last() =~= asts.subrange(0, k as int));
            assert(asts[k as int] == ast.rules@[k as int]@);
        }
        match ast.rules[k].to_rule(&domain_meta) {
            Some(rule) => {
                domain_meta.add_rule(rule);
            },
            None => {
                proof {
                    lemma_domain_rules_prefix(asts, k + 1, nt.0, nt.1);
                }
                return None;
            },
        }
        k += 1;
    }
    assert(asts.subrange(0, asts.len() as int) =~= asts);
    Some(Domain { name: ast.name.clone(), metainfo: domain_meta })
}

} // verus!
