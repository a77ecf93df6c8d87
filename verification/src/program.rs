//! Building the domains of a program: each domain is built after the domains
//! it includes, which are found in the program by name.
use crate::domain::{
    create_domain, domain_rules, domain_types, domains_named_types, rules_fit, scoped_types, Domain,
    DomainAstView,
};
use crate::expression::ConstraintView;
use crate::combinator::rest;
use crate::module_parser::{
    domain_names, name_position, program_modules, program_of, program_untagged, ProgramAst, ProgramView,
};
use crate::parser::Input;
use crate::term::TermView;
use crate::domain::{renamed_named, with_subdomains, with_renamed};
use crate::module::{put_all, put_type};
use crate::type_def::{def_name, defined_types, resolve_type, with_builtins, TypeDefView};
use crate::type_system::{BaseType, TypeView};
use vstd::prelude::*;

verus! {

/// What a built domain is made of: its type names, its types in the same
/// order, and its rules.
pub type DomainModel = (Seq<Seq<char>>, Seq<TypeView>, Seq<(Seq<TermView>, Seq<ConstraintView>)>);

/// The built form of a domain.
pub open spec fn domain_model(d: Domain) -> DomainModel {
    (d.metainfo.names(), d.metainfo.types(), d.metainfo.rule_list())
}

/// The domain named `name` in the program, built with the domains it includes,
/// which are built with `fuel - 1`; `None` where there is no such domain, where
/// `fuel` runs out, or where a type definition or a rule does not resolve.
pub open spec fn domain_built(p: ProgramView, name: Seq<char>, fuel: nat) -> Option<DomainModel>
    decreases fuel, 0nat, 0nat,
{
    if fuel == 0 {
        None
    } else {
        let k = name_position(domain_names(p.domains), name, 0);
        if 0 <= k < p.domains.len() {
            domain_assembled(p, p.domains[k], (fuel - 1) as nat)
        } else {
            None
        }
    }
}

/// The domain `d` built with the domains it includes, which are built with
/// `fuel`.
pub open spec fn domain_assembled(p: ProgramView, d: DomainAstView, fuel: nat) -> Option<DomainModel>
    decreases fuel, 2nat, 0nat,
{
    match (domains_built(p, d.subdomains, fuel), scoped_built(p, d.renamed_subdomains, fuel)) {
        (Some(subs), Some(rs)) => match domain_types(d.types, subs, rs) {
            Some(nt) => match domain_rules(d.rules, nt.0, nt.1) {
                Some(rules) => Some((nt.0, nt.1, rules)),
                None => None,
            },
            None => None,
        },
        _ => None,
    }
}

/// The named types of the domains named in `names`, each built with `fuel`;
/// `None` where one of them is not built.
pub open spec fn domains_built(p: ProgramView, names: Seq<Seq<char>>, fuel: nat) -> Option<Seq<(Seq<Seq<char>>, Seq<TypeView>)>>
    decreases fuel, 1nat, names.len(),
{
    if names.len() == 0 {
        Some(Seq::empty())
    } else {
        match (domains_built(p, names.drop_last(), fuel), domain_built(p, names.last(), fuel)) {
            (Some(a), Some(m)) => Some(a.push((m.0, m.1))),
            _ => None,
        }
    }
}

/// The types of the domains named in `rs` under their scopes, each built with
/// `fuel`; `None` where one of them is not built.
pub open spec fn scoped_built(p: ProgramView, rs: Seq<(Seq<char>, Seq<char>)>, fuel: nat) -> Option<Seq<(Seq<char>, Seq<TypeView>)>>
    decreases fuel, 1nat, rs.len(),
{
    if rs.len() == 0 {
        Some(Seq::empty())
    } else {
        match (scoped_built(p, rs.drop_last(), fuel), domain_built(p, rs.last().1, fuel)) {
            (Some(a), Some(m)) => Some(a.push((rs.last().0, m.1))),
            _ => None,
        }
    }
}

/// Whether forming the rules of every domain stays within the numbering of
/// fresh variables, whatever types they are resolved with.
pub open spec fn program_rules_fit(p: ProgramView) -> bool {
    forall|k: int, names: Seq<Seq<char>>, types: Seq<TypeView>|
        0 <= k < p.domains.len() ==> #[trigger] rules_fit(p.domains[k].rules, names, types)
}

/// The domains a program builds.
pub struct Env {
    pub domain_map: Vec<Domain>,
}

pub open spec fn domain_models(v: Seq<Domain>) -> Seq<DomainModel> {
    v.map_values(|d: Domain| domain_model(d))
}

/// Every domain of the program built, in order, with as much fuel as the
/// program has domains; `None` where one of them is not built.
pub open spec fn program_built(p: ProgramView) -> Option<Seq<DomainModel>> {
    program_built_prefix(p, p.domains.len() as int)
}

/// The first `k` domains of the program built.
pub open spec fn program_built_prefix(p: ProgramView, k: int) -> Option<Seq<DomainModel>>
    decreases k,
{
    if k <= 0 {
        Some(Seq::empty())
    } else {
        match (program_built_prefix(p, k - 1), domain_built(p, p.domains[k - 1].name, p.domains.len() as nat)) {
            (Some(a), Some(m)) => Some(a.push(m)),
            _ => None,
        }
    }
}

pub open spec fn domain_list_names(v: Seq<Domain>) -> Seq<Seq<char>> {
    v.map_values(|d: Domain| d.name@)
}

impl Env {
    /// An environment without domains.
    pub fn new() -> (r: Env)
        ensures
            r.domain_map@.len() == 0,
    {
        Env { domain_map: Vec::new() }
    }

    /// The first domain of the given name, if there is one.
    pub fn get_domain_by_name(&self, name: &str) -> (r: Option<&Domain>)
        ensures
            match r {
                Some(d) => {
                    let k = name_position(domain_list_names(self.domain_map@), name@, 0);
                    &&& 0 <= k < self.domain_map@.len()
                    &&& *d == self.domain_map@[k]
                },
                None => !domain_list_names(self.domain_map@).contains(name@),
            },
    {
        let ghost names = domain_list_names(self.domain_map@);
        let wanted = String::from_str(name);
        let mut k: usize = 0;
        while k < self.domain_map.len() && !(self.domain_map[k].name == wanted)
            invariant
                k <= self.domain_map@.len(),
                wanted@ == name@,
                names == domain_list_names(self.domain_map@),
                name_position(names, name@, 0) == name_position(names, name@, k as int),
                forall|j: int| 0 <= j < k ==> names[j] != name@,
            decreases self.domain_map@.len() - k,
        {
            assert(names[k as int] == self.domain_map@[k as int].name@);
            k += 1;
        }
        if k < self.domain_map.len() {
            assert(names[k as int] == self.domain_map@[k as int].name@);
            Some(&self.domain_map[k])
        } else {
            proof {
                if names.contains(name@) {
                    let j = names.index_of(name@);
                    assert(names[j] == name@);
                }
            }
            None
        }
    }
}

impl ProgramAst {
    fn domain_position(&self, name: &String) -> (r: usize)
        ensures
            r as int == name_position(domain_names(self@.domains), name@, 0),
            r <= self.domain_ast_map@.len(),
            r < self.domain_ast_map@.len() ==> self.domain_ast_map@[r as int].name@ == name@,
    {
        let ghost names = domain_names(self@.domains);
        let mut k: usize = 0;
        while k < self.domain_ast_map.len() && !(self.domain_ast_map[k].name == *name)
            invariant
                k <= self.domain_ast_map@.len(),
                names == domain_names(self@.domains),
                name_position(names, name@, 0) == name_position(names, name@, k as int),
            decreases self.domain_ast_map@.len() - k,
        {
            assert(names[k as int] == self.domain_ast_map@[k as int].name@);
            k += 1;
        }
        if k < self.domain_ast_map.len() {
            assert(names[k as int] == self.domain_ast_map@[k as int].name@);
        }
        k
    }

    fn build_domain(&self, name: &String, fuel: usize) -> (r: Option<Domain>)
        requires
            program_rules_fit(self@),
        ensures
            match r {
                Some(d) => domain_built(self@, name@, fuel as nat) == Some(domain_model(d)) && d.name@ == name@,
                None => domain_built(self@, name@, fuel as nat) is None,
            },
        decreases fuel,
    {
        if fuel == 0 {
            return None;
        }
        let ghost p = self@;
        let k = self.domain_position(name);
        if k >= self.domain_ast_map.len() {
            return None;
        }
        let ast = &self.domain_ast_map[k];
        let ghost d = p.domains[k as int];
        assert(d == ast@);
        assert(domain_built(p, name@, fuel as nat) == domain_assembled(p, d, (fuel - 1) as nat));
        let ghost f = (fuel - 1) as nat;
        let mut subs: Vec<Domain> = Vec::new();
        assert(d.subdomains.subrange(0, 0) =~= Seq::<Seq<char>>::empty());
        assert(domains_named_types(subs@) =~= Seq::<(Seq<Seq<char>>, Seq<TypeView>)>::empty());
        let mut j: usize = 0;
        while j < ast.subdomains.len()
            invariant
                program_rules_fit(self@),
                p == self@,
                d == ast@,
                f == (fuel - 1) as nat,
                fuel > 0,
                domain_built(p, name@, fuel as nat) == domain_assembled(p, d, f),
                j <= ast.subdomains@.len(),
                domains_built(p, d.subdomains.subrange(0, j as int), f) == Some(domains_named_types(subs@)),
            decreases ast.subdomains@.len() - j,
        {
            proof {
                assert(d.subdomains.subrange(0, j + 1).drop_last() =~= d.subdomains.subrange(0, j as int));
                assert(d.subdomains.subrange(0, j + 1).last() == ast.subdomains@[j as int]@);
            }
            match self.build_domain(&ast.subdomains[j], fuel - 1) {
                Some(sd) => {
                    let ghost before = domains_named_types(subs@);
                    subs.push(sd);
                    assert(domains_named_types(subs@) =~= before.push((sd.metainfo.names(), sd.metainfo.types())));
                },
                None => {
                    proof {
                        lemma_domains_built_prefix(p, d.subdomains, j + 1, f);
                    }
                    return None;
                },
            }
            j += 1;
        }
        assert(d.subdomains.subrange(0, d.subdomains.len() as int) =~= d.subdomains);
        let mut renamed: Vec<(String, Domain)> = Vec::new();
        assert(d.renamed_subdomains.subrange(0, 0) =~= Seq::<(Seq<char>, Seq<char>)>::empty());
        assert(scoped_types(renamed@) =~= Seq::<(Seq<char>, Seq<TypeView>)>::empty());
        let mut m: usize = 0;
        while m < ast.renamed_subdomains.len()
            invariant
                program_rules_fit(self@),
                p == self@,
                d == ast@,
                f == (fuel - 1) as nat,
                fuel > 0,
                domain_built(p, name@, fuel as nat) == domain_assembled(p, d, f),
                m <= ast.renamed_subdomains@.len(),
                domains_built(p, d.subdomains, f) == Some(domains_named_types(subs@)),
                scoped_built(p, d.renamed_subdomains.subrange(0, m as int), f) == Some(scoped_types(renamed@)),
            decreases ast.renamed_subdomains@.len() - m,
        {
            proof {
                assert(d.renamed_subdomains.subrange(0, m + 1).drop_last() =~= d.renamed_subdomains.subrange(0, m as int));
                assert(d.renamed_subdomains.subrange(0, m + 1).last() == (ast.renamed_subdomains@[m as int].0@, ast.renamed_subdomains@[m as int].1@));
            }
            match self.build_domain(&ast.renamed_subdomains[m].1, fuel - 1) {
                Some(sd) => {
                    let ghost before = scoped_types(renamed@);
                    let scope = ast.renamed_subdomains[m].0.clone();
                    let ghost entry = (scope@, sd.metainfo.types());
                    renamed.push((scope, sd));
                    assert(scoped_types(renamed@) =~= before.push(entry));
                },
                None => {
                    proof {
                        lemma_scoped_built_prefix(p, d.renamed_subdomains, m + 1, f);
                    }
                    return None;
                },
            }
            m += 1;
        }
        assert(d.renamed_subdomains.subrange(0, d.renamed_subdomains.len() as int) =~= d.renamed_subdomains);
        proof {
            match domain_types(d.types, domains_named_types(subs@), scoped_types(renamed@)) {
                Some(nt) => {
                    assert(rules_fit(p.domains[k as int].rules, nt.0, nt.1));
                },
                None => {},
            }
        }
        create_domain(ast, &subs, &renamed)
    }

    /// The domain named `domain_name`, built after the domains it includes;
    /// `None` where it or a domain it includes, at any depth, is not in the
    /// program, where domains include one another in a cycle, or where a type
    /// definition or a rule does not resolve.
    pub fn create_domain(&self, domain_name: &String) -> (r: Option<Domain>)
        requires
            program_rules_fit(self@),
        ensures
            match r {
                Some(d) => domain_built(self@, domain_name@, self@.domains.len() as nat) == Some(domain_model(d))
                    && d.name@ == domain_name@,
                None => domain_built(self@, domain_name@, self@.domains.len() as nat) is None,
            },
    {
        self.build_domain(domain_name, self.domain_ast_map.len())
    }

    /// Every domain of the program built, in order; `None` where one of them is
    /// not built.
    pub fn build_env(&self) -> (r: Option<Env>)
        requires
            program_rules_fit(self@),
        ensures
            match r {
                Some(env) => program_built(self@) == Some(domain_models(env.domain_map@)),
                None => program_built(self@) is None,
            },
    {
        let ghost p = self@;
        let mut domain_map: Vec<Domain> = Vec::new();
        assert(domain_models(domain_map@) =~= Seq::<DomainModel>::empty());
        let mut k: usize = 0;
        while k < self.domain_ast_map.len()
            invariant
                program_rules_fit(self@),
                p == self@,
                k <= self.domain_ast_map@.len(),
                program_built_prefix(p, k as int) == Some(domain_models(domain_map@)),
            decreases self.domain_ast_map@.len() - k,
        {
            assert(p.domains[k as int].name == self.domain_ast_map@[k as int].name@);
            match self.create_domain(&self.domain_ast_map[k].name) {
                Some(d) => {
                    let ghost before = domain_models(domain_map@);
                    let ghost dm = domain_model(d);
                    domain_map.push(d);
                    assert(domain_models(domain_map@) =~= before.push(dm));
                },
                None => {
                    proof {
                        lemma_program_built_prefix(p, k + 1);
                    }
                    return None;
                },
            }
            k += 1;
        }
        Some(Env { domain_map })
    }
}

/// Read a whole program, which must end with the text `EOF` where its modules
/// end, and build its domains.
pub fn load_program(content: String) -> (r: Option<Env>)
    requires
        !program_untagged(content@, 0),
        rest(content@, program_modules(content@, 0).1) == "EOF"@,
        program_rules_fit(program_of(program_modules(content@, 0).0)),
    ensures
        match r {
            Some(env) => program_built(program_of(program_modules(content@, 0).0)) == Some(domain_models(env.domain_map@)),
            None => program_built(program_of(program_modules(content@, 0).0)) is None,
        },
{
    let input = Input::new(content.as_str());
    let (program_ast, _end) = input.read_program(0);
    program_ast.build_env()
}

proof fn lemma_domains_built_prefix(p: ProgramView, names: Seq<Seq<char>>, k: int, fuel: nat)
    requires
        0 <= k <= names.len(),
        domains_built(p, names.subrange(0, k), fuel) is None,
    ensures
        domains_built(p, names, fuel) is None,
    decreases names.len() - k,
{
    if k < names.len() {
        assert(names.subrange(0, k + 1).drop_last() =~= names.subrange(0, k));
        lemma_domains_built_prefix(p, names, k + 1, fuel);
    } else {
        assert(names.subrange(0, k) =~= names);
    }
}

proof fn lemma_scoped_built_prefix(p: ProgramView, rs: Seq<(Seq<char>, Seq<char>)>, k: int, fuel: nat)
    requires
        0 <= k <= rs.len(),
        scoped_built(p, rs.subrange(0, k), fuel) is None,
    ensures
        scoped_built(p, rs, fuel) is None,
    decreases rs.len() - k,
{
    if k < rs.len() {
        assert(rs.subrange(0, k + 1).drop_last() =~= rs.subrange(0, k));
        lemma_scoped_built_prefix(p, rs, k + 1, fuel);
    } else {
        assert(rs.subrange(0, k) =~= rs);
    }
}

proof fn lemma_program_built_prefix(p: ProgramView, k: int)
    requires
        0 <= k <= p.domains.len(),
        program_built_prefix(p, k) is None,
    ensures
        program_built(p) is None,
    decreases p.domains.len() - k,
{
    if k < p.domains.len() {
        lemma_program_built_prefix(p, k + 1);
    }
}

/// The names of optional named types; none where there are none.
pub open spec fn named_of(o: Option<(Seq<Seq<char>>, Seq<TypeView>)>) -> Seq<Seq<char>> {
    match o {
        Some(x) => x.0,
        None => Seq::empty(),
    }
}

/// The type names of an optional built domain; none where there is none.
pub open spec fn model_names_of(o: Option<DomainModel>) -> Seq<Seq<char>> {
    match o {
        Some(x) => x.0,
        None => Seq::empty(),
    }
}

proof fn lemma_put_type_keeps(names: Seq<Seq<char>>, types: Seq<TypeView>, name: Seq<char>, t: TypeView)
    ensures
        put_type(names, types, name, t).0.contains(name),
        forall|x: Seq<char>| names.contains(x) ==> #[trigger] put_type(names, types, name, t).0.contains(x),
{
    if !names.contains(name) {
        assert(names.push(name)[names.len() as int] == name);
        assert forall|x: Seq<char>| names.contains(x) implies #[trigger] names.push(name).contains(x) by {
            let j = names.index_of(x);
            assert(names.push(name)[j] == x);
        }
    }
}

proof fn lemma_put_all_keeps(names: Seq<Seq<char>>, types: Seq<TypeView>, ns: Seq<Seq<char>>, ts: Seq<TypeView>)
    ensures
        forall|x: Seq<char>| names.contains(x) ==> #[trigger] put_all(names, types, ns, ts).0.contains(x),
        forall|j: int| 0 <= j < ns.len() ==> put_all(names, types, ns, ts).0.contains(#[trigger] ns[j]),
    decreases ns.len(),
{
    if ns.len() > 0 {
        let q = put_all(names, types, ns.drop_last(), ts.drop_last());
        lemma_put_all_keeps(names, types, ns.drop_last(), ts.drop_last());
        lemma_put_type_keeps(q.0, q.1, ns.last(), ts.last());
        assert forall|j: int| 0 <= j < ns.len() implies put_all(names, types, ns, ts).0.contains(#[trigger] ns[j]) by {
            if j < ns.len() - 1 {
                assert(ns.drop_last()[j] == ns[j]);
            }
        }
    }
}

proof fn lemma_with_subdomains_keeps(names: Seq<Seq<char>>, types: Seq<TypeView>, subs: Seq<(Seq<Seq<char>>, Seq<TypeView>)>)
    ensures
        forall|x: Seq<char>| names.contains(x) ==> #[trigger] with_subdomains(names, types, subs).0.contains(x),
        forall|j: int, x: Seq<char>| 0 <= j < subs.len() && (#[trigger] subs[j]).0.contains(x)
            ==> #[trigger] with_subdomains(names, types, subs).0.contains(x),
    decreases subs.len(),
{
    if subs.len() > 0 {
        let q = with_subdomains(names, types, subs.drop_last());
        lemma_with_subdomains_keeps(names, types, subs.drop_last());
        lemma_put_all_keeps(q.0, q.1, subs.last().0, subs.last().1);
        assert forall|j: int, x: Seq<char>| 0 <= j < subs.len() && (#[trigger] subs[j]).0.contains(x)
            implies #[trigger] with_subdomains(names, types, subs).0.contains(x) by {
            if j < subs.len() - 1 {
                assert(subs.drop_last()[j] == subs[j]);
                assert(q.0.contains(x));
            } else {
                let k = subs.last().0.index_of(x);
                assert(subs.last().0[k] == x);
            }
        }
    }
}

proof fn lemma_with_renamed_keeps(names: Seq<Seq<char>>, types: Seq<TypeView>, rs: Seq<(Seq<char>, Seq<TypeView>)>)
    ensures
        forall|x: Seq<char>| names.contains(x) ==> #[trigger] with_renamed(names, types, rs).0.contains(x),
    decreases rs.len(),
{
    if rs.len() > 0 {
        let q = with_renamed(names, types, rs.drop_last());
        let w = renamed_named(rs.last().1, rs.last().0);
        lemma_with_renamed_keeps(names, types, rs.drop_last());
        lemma_put_all_keeps(q.0, q.1, w.0, w.1);
    }
}

proof fn lemma_defined_types_keeps(defs: Seq<TypeDefView>, names: Seq<Seq<char>>, types: Seq<TypeView>, upto: nat)
    requires
        defined_types(defs, names, types, upto) is Some,
    ensures
        forall|x: Seq<char>| names.contains(x) ==> #[trigger] named_of(defined_types(defs, names, types, upto)).contains(x),
    decreases upto,
{
    if upto > 0 {
        let p = defined_types(defs, names, types, (upto - 1) as nat)->0;
        lemma_defined_types_keeps(defs, names, types, (upto - 1) as nat);
        let name = def_name(defs[upto - 1]);
        let t = resolve_type(defs, names, types, name, defs.len())->0;
        lemma_put_type_keeps(p.0, p.1, name, t);
        assert(named_of(defined_types(defs, names, types, upto)) == put_type(p.0, p.1, name, t).0);
        assert forall|x: Seq<char>| names.contains(x) implies #[trigger] named_of(defined_types(defs, names, types, upto)).contains(x) by {
            assert(named_of(defined_types(defs, names, types, (upto - 1) as nat)).contains(x));
        }
    }
}

proof fn lemma_domain_types_keep(defs: Seq<TypeDefView>, subs: Seq<(Seq<Seq<char>>, Seq<TypeView>)>, rs: Seq<(Seq<char>, Seq<TypeView>)>)
    requires
        domain_types(defs, subs, rs) is Some,
    ensures
        forall|j: int, x: Seq<char>| 0 <= j < subs.len() && (#[trigger] subs[j]).0.contains(x)
            ==> #[trigger] named_of(domain_types(defs, subs, rs)).contains(x),
        named_of(domain_types(defs, subs, rs)).contains("String"@),
        named_of(domain_types(defs, subs, rs)).contains("Integer"@),
        named_of(domain_types(defs, subs, rs)).contains("Boolean"@),
        named_of(domain_types(defs, subs, rs)).contains("~Undefined"@),
{
    let e: Seq<Seq<char>> = Seq::empty();
    let ba = put_type(e, Seq::empty(), "String"@, TypeView::Base(BaseType::String));
    let bb = put_type(ba.0, ba.1, "Integer"@, TypeView::Base(BaseType::Integer));
    let bc = put_type(bb.0, bb.1, "Boolean"@, TypeView::Base(BaseType::Boolean));
    lemma_put_type_keeps(e, Seq::empty(), "String"@, TypeView::Base(BaseType::String));
    lemma_put_type_keeps(ba.0, ba.1, "Integer"@, TypeView::Base(BaseType::Integer));
    lemma_put_type_keeps(bb.0, bb.1, "Boolean"@, TypeView::Base(BaseType::Boolean));
    lemma_put_type_keeps(bc.0, bc.1, "~Undefined"@, TypeView::Undefined);
    let b = with_builtins(Seq::empty(), Seq::empty());
    let s = with_subdomains(b.0, b.1, subs);
    let r = with_renamed(s.0, s.1, rs);
    lemma_with_subdomains_keeps(b.0, b.1, subs);
    lemma_with_renamed_keeps(s.0, s.1, rs);
    lemma_defined_types_keeps(defs, r.0, r.1, defs.len());
}

proof fn lemma_domains_built_each(p: ProgramView, names: Seq<Seq<char>>, fuel: nat)
    requires
        domains_built(p, names, fuel) is Some,
    ensures
        domains_built(p, names, fuel)->0.len() == names.len(),
        forall|j: int| 0 <= j < names.len() ==> ((#[trigger] domain_built(p, names[j], fuel)) matches Some(m)
            && domains_built(p, names, fuel)->0[j] == (m.0, m.1)),
    decreases names.len(),
{
    if names.len() > 0 {
        lemma_domains_built_each(p, names.drop_last(), fuel);
        assert forall|j: int| 0 <= j < names.len() implies ((#[trigger] domain_built(p, names[j], fuel)) matches Some(m)
            && domains_built(p, names, fuel)->0[j] == (m.0, m.1)) by {
            if j < names.len() - 1 {
                assert(names.drop_last()[j] == names[j]);
            }
        }
    }
}

/// Including a domain brings its types along: every type name of a domain that
/// a built domain includes without a scope is a type name of the built domain.
pub proof fn lemma_included_types_are_kept(p: ProgramView, name: Seq<char>, fuel: nat, sub: Seq<char>, x: Seq<char>)
    requires
        domain_built(p, name, fuel) is Some,
        p.domains[name_position(domain_names(p.domains), name, 0)].subdomains.contains(sub),
        domain_built(p, sub, (fuel - 1) as nat) matches Some(ms) && ms.0.contains(x),
    ensures
        model_names_of(domain_built(p, name, fuel)).contains(x),
{
    let k = name_position(domain_names(p.domains), name, 0);
    let d = p.domains[k];
    let f = (fuel - 1) as nat;
    let subs = domains_built(p, d.subdomains, f)->0;
    lemma_domains_built_each(p, d.subdomains, f);
    let j = d.subdomains.index_of(sub);
    assert(d.subdomains[j] == sub);
    assert(subs[j].0.contains(x));
    let rs = scoped_built(p, d.renamed_subdomains, f)->0;
    lemma_domain_types_keep(d.types, subs, rs);
}

/// Every built domain has the built-in types `String`, `Integer`, `Boolean`
/// and `~Undefined`.
pub proof fn lemma_built_domains_have_builtins(p: ProgramView, name: Seq<char>, fuel: nat)
    requires
        domain_built(p, name, fuel) is Some,
    ensures
        model_names_of(domain_built(p, name, fuel)).contains("String"@),
        model_names_of(domain_built(p, name, fuel)).contains("Integer"@),
        model_names_of(domain_built(p, name, fuel)).contains("Boolean"@),
        model_names_of(domain_built(p, name, fuel)).contains("~Undefined"@),
{
    let k = name_position(domain_names(p.domains), name, 0);
    let d = p.domains[k];
    let f = (fuel - 1) as nat;
    let subs = domains_built(p, d.subdomains, f)->0;
    let rs = scoped_built(p, d.renamed_subdomains, f)->0;
    lemma_domain_types_keep(d.types, subs, rs);
}

proof fn lemma_defined_types_names(defs: Seq<TypeDefView>, names: Seq<Seq<char>>, types: Seq<TypeView>, upto: nat)
    requires
        defined_types(defs, names, types, upto) is Some,
    ensures
        forall|k: int| 0 <= k < upto ==> #[trigger] named_of(defined_types(defs, names, types, upto)).contains(def_name(defs[k])),
    decreases upto,
{
    if upto > 0 {
        let p = defined_types(defs, names, types, (upto - 1) as nat)->0;
        lemma_defined_types_names(defs, names, types, (upto - 1) as nat);
        let name = def_name(defs[upto - 1]);
        let t = resolve_type(defs, names, types, name, defs.len())->0;
        lemma_put_type_keeps(p.0, p.1, name, t);
        assert(named_of(defined_types(defs, names, types, upto)) == put_type(p.0, p.1, name, t).0);
        assert forall|k: int| 0 <= k < upto implies #[trigger] named_of(defined_types(defs, names, types, upto)).contains(def_name(defs[k])) by {
            if k < upto - 1 {
                assert(named_of(defined_types(defs, names, types, (upto - 1) as nat)).contains(def_name(defs[k])));
            }
        }
    }
}

/// A built domain has a type under the name of each of its own type
/// definitions.
pub proof fn lemma_built_domains_have_their_types(p: ProgramView, name: Seq<char>, fuel: nat, k: int)
    requires
        domain_built(p, name, fuel) is Some,
        0 <= k < p.domains[name_position(domain_names(p.domains), name, 0)].types.len(),
    ensures
        model_names_of(domain_built(p, name, fuel)).contains(
            def_name(p.domains[name_position(domain_names(p.domains), name, 0)].types[k]),
        ),
{
    let i = name_position(domain_names(p.domains), name, 0);
    let d = p.domains[i];
    let f = (fuel - 1) as nat;
    let subs = domains_built(p, d.subdomains, f)->0;
    let rs = scoped_built(p, d.renamed_subdomains, f)->0;
    let b = with_builtins(Seq::empty(), Seq::empty());
    let s = with_subdomains(b.0, b.1, subs);
    let r = with_renamed(s.0, s.1, rs);
    lemma_defined_types_names(d.types, r.0, r.1, d.types.len());
    assert(named_of(domain_types(d.types, subs, rs)) == named_of(defined_types(d.types, r.0, r.1, d.types.len())));
}

/// Building a domain twice gives the same domain: two domains that both
/// stand for what the program builds under one name have the same name, the
/// same types under the same names and the same rules.
pub proof fn lemma_domain_built_once(p: ProgramView, name: Seq<char>, d1: Domain, d2: Domain)
    requires
        domain_built(p, name, p.domains.len() as nat) == Some(domain_model(d1)),
        domain_built(p, name, p.domains.len() as nat) == Some(domain_model(d2)),
        d1.name@ == name,
        d2.name@ == name,
    ensures
        domain_model(d1) == domain_model(d2),
        d1.name@ == d2.name@,
{
}

} // verus!
