//! Type definitions as they are written in a domain, and the types that they
//! define.
use crate::module::{names_view, put_type, put_type_exec, type_named, types_view};
use crate::text::{copy_str, join, join_text};
use crate::type_system::{
    option_text_view, BaseType, CompositeType, FormulaTypeEnum, RawType, TypeView, UnionType,
};
use vstd::prelude::*;

verus! {

/// A type named by names separated by dots, e.g. `left.Node`.
pub struct AliasTypeDefAst {
    pub chained_scopes: Vec<String>,
    pub name: String,
}

/// `Edge ::= new(src: Node, dst: Node).`
pub struct CompositeTypeDefAst {
    pub name: String,
    pub args: Vec<(Option<String>, AliasTypeDefAst)>,
}

/// `X ::= A + B + C.`
pub struct UnionTypeDefAst {
    pub name: String,
    pub subtypes: Vec<AliasTypeDefAst>,
}

/// A type definition.
pub enum RawTypeDefAst {
    AliasTypeDefAst(AliasTypeDefAst),
    CompositeTypeDefAst(CompositeTypeDefAst),
    UnionTypeDefAst(UnionTypeDefAst),
}

/// The mathematical value of a type definition: a name standing for the type of
/// another name, a composite type with labelled argument type names, or a union
/// of type names.
pub enum TypeDefView {
    Alias(Seq<char>),
    Composite(Seq<char>, Seq<(Option<Seq<char>>, Seq<char>)>),
    Union(Seq<char>, Seq<Seq<char>>),
}

/// The full name of a type named by scopes and a name: all of them joined by
/// dots.
pub open spec fn full_name(scopes: Seq<Seq<char>>, name: Seq<char>) -> Seq<char> {
    join_text(scopes.push(name), "."@)
}

impl View for AliasTypeDefAst {
    type V = Seq<char>;

    open spec fn view(&self) -> Seq<char> {
        full_name(self.chained_scopes@.map_values(|p: String| p@), self.name@)
    }
}

pub open spec fn args_def_view(args: Seq<(Option<String>, AliasTypeDefAst)>) -> Seq<(Option<Seq<char>>, Seq<char>)> {
    args.map_values(|a: (Option<String>, AliasTypeDefAst)| (option_text_view(a.0), a.1@))
}

pub open spec fn aliases_view(v: Seq<AliasTypeDefAst>) -> Seq<Seq<char>> {
    v.map_values(|a: AliasTypeDefAst| a@)
}

impl View for RawTypeDefAst {
    type V = TypeDefView;

    open spec fn view(&self) -> TypeDefView {
        match self {
            RawTypeDefAst::AliasTypeDefAst(a) => TypeDefView::Alias(a@),
            RawTypeDefAst::CompositeTypeDefAst(c) => TypeDefView::Composite(c.name@, args_def_view(c.args@)),
            RawTypeDefAst::UnionTypeDefAst(u) => TypeDefView::Union(u.name@, aliases_view(u.subtypes@)),
        }
    }
}

/// The name a definition gives: the full name of an alias, or the name of the
/// defined type.
pub open spec fn def_name(d: TypeDefView) -> Seq<char> {
    match d {
        TypeDefView::Alias(n) => n,
        TypeDefView::Composite(n, _) => n,
        TypeDefView::Union(n, _) => n,
    }
}

/// The last of the definitions that gives the name `t`, if any: a later
/// definition of a name replaces an earlier one.
pub open spec fn last_def(defs: Seq<TypeDefView>, t: Seq<char>) -> Option<TypeDefView>
    decreases defs.len(),
{
    if defs.len() == 0 {
        None
    } else if def_name(defs.last()) == t {
        Some(defs.last())
    } else {
        last_def(defs.drop_last(), t)
    }
}

/// The type of a name, given the definitions `defs` and the named types that
/// are already known: a known name has its known type; otherwise the name's
/// definition is followed, and each type name in it resolved in turn, at most
/// `fuel` definitions deep. `None` where a name has neither a type nor a
/// definition, or the definitions go deeper than `fuel`.
pub open spec fn resolve_type(
    defs: Seq<TypeDefView>,
    names: Seq<Seq<char>>,
    types: Seq<TypeView>,
    t: Seq<char>,
    fuel: nat,
) -> Option<TypeView>
    decreases fuel as int, 1int,
{
    if names.contains(t) {
        Some(types[names.index_of(t)])
    } else if fuel == 0 {
        None
    } else {
        match last_def(defs, t) {
            None => None,
            Some(TypeDefView::Alias(full)) => resolve_type(defs, names, types, full, (fuel - 1) as nat),
            Some(TypeDefView::Composite(name, args)) => {
                let resolved = resolve_all(defs, names, types, arg_type_names(args), (fuel - 1) as nat);
                if all_resolved(resolved) {
                    Some(TypeView::Composite(name, labelled_types(args, resolved)))
                } else {
                    None
                }
            },
            Some(TypeDefView::Union(name, subs)) => {
                let resolved = resolve_all(defs, names, types, subs, (fuel - 1) as nat);
                if all_resolved(resolved) {
                    Some(TypeView::Union(name, resolved_types(resolved)))
                } else {
                    None
                }
            },
        }
    }
}

/// The types of the names `ns`, each resolved as `resolve_type` does.
pub open spec fn resolve_all(
    defs: Seq<TypeDefView>,
    names: Seq<Seq<char>>,
    types: Seq<TypeView>,
    ns: Seq<Seq<char>>,
    fuel: nat,
) -> Seq<Option<TypeView>>
    decreases fuel + 1, 0int,
{
    Seq::new(ns.len(), |k: int| resolve_type(defs, names, types, ns[k], fuel))
}

/// The type names of the arguments of a composite definition.
pub open spec fn arg_type_names(args: Seq<(Option<Seq<char>>, Seq<char>)>) -> Seq<Seq<char>> {
    args.map_values(|a: (Option<Seq<char>>, Seq<char>)| a.1)
}

/// Whether every name was resolved.
pub open spec fn all_resolved(r: Seq<Option<TypeView>>) -> bool {
    forall|k: int| 0 <= k < r.len() ==> (#[trigger] r[k]) is Some
}

/// The resolved types.
pub open spec fn resolved_types(r: Seq<Option<TypeView>>) -> Seq<TypeView> {
    Seq::new(r.len(), |k: int| r[k]->0)
}

/// The arguments' labels paired with their resolved types.
pub open spec fn labelled_types(
    args: Seq<(Option<Seq<char>>, Seq<char>)>,
    r: Seq<Option<TypeView>>,
) -> Seq<(Option<Seq<char>>, TypeView)> {
    Seq::new(args.len(), |k: int| (args[k].0, r[k]->0))
}

pub open spec fn defs_view(defs: Seq<RawTypeDefAst>) -> Seq<TypeDefView> {
    defs.map_values(|d: RawTypeDefAst| d@)
}

impl AliasTypeDefAst {
    /// The full name: the scopes and the name joined by dots.
    pub fn full_name(&self) -> (r: String)
        ensures
            r@ == self@,
    {
        let mut parts: Vec<String> = Vec::new();
        let mut i: usize = 0;
        while i < self.chained_scopes.len()
            invariant
                i <= self.chained_scopes@.len(),
                parts@.len() == i,
                forall|j: int| 0 <= j < i ==> (#[trigger] parts@[j])@ == self.chained_scopes@[j]@,
            decreases self.chained_scopes@.len() - i,
        {
            parts.push(self.chained_scopes[i].clone());
            i += 1;
        }
        let ghost scopes = parts@.map_values(|p: String| p@);
        assert(scopes =~= self.chained_scopes@.map_values(|p: String| p@));
        parts.push(self.name.clone());
        assert(parts@.map_values(|p: String| p@) =~= scopes.push(self.name@));
        join(&parts, ".")
    }

    /// A copy.
    pub fn duplicate(&self) -> (r: AliasTypeDefAst)
        ensures
            r@ == self@,
    {
        let mut scopes: Vec<String> = Vec::new();
        let mut i: usize = 0;
        while i < self.chained_scopes.len()
            invariant
                i <= self.chained_scopes@.len(),
                scopes@.len() == i,
                forall|j: int| 0 <= j < i ==> (#[trigger] scopes@[j])@ == self.chained_scopes@[j]@,
            decreases self.chained_scopes@.len() - i,
        {
            scopes.push(self.chained_scopes[i].clone());
            i += 1;
        }
        let r = AliasTypeDefAst { chained_scopes: scopes, name: self.name.clone() };
        assert(r.chained_scopes@.map_values(|p: String| p@) =~= self.chained_scopes@.map_values(|p: String| p@));
        r
    }
}

impl RawTypeDefAst {
    /// The name the definition gives.
    pub fn name(&self) -> (r: String)
        ensures
            r@ == def_name(self@),
    {
        match self {
            RawTypeDefAst::AliasTypeDefAst(a) => a.full_name(),
            RawTypeDefAst::CompositeTypeDefAst(c) => c.name.clone(),
            RawTypeDefAst::UnionTypeDefAst(u) => u.name.clone(),
        }
    }
}

/// The last definition among `defs` that gives the name `t`.
fn find_last_def<'b>(defs: &'b Vec<RawTypeDefAst>, t: &str) -> (r: Option<&'b RawTypeDefAst>)
    ensures
        match r {
            Some(d) => last_def(defs_view(defs@), t@) == Some(d@),
            None => last_def(defs_view(defs@), t@) is None,
        },
{
    let wanted = copy_str(t);
    let mut i: usize = defs.len();
    assert(defs@.subrange(0, defs@.len() as int) =~= defs@);
    while i > 0
        invariant
            i <= defs@.len(),
            wanted@ == t@,
            last_def(defs_view(defs@), t@) == last_def(defs_view(defs@.subrange(0, i as int)), t@),
        decreases i,
    {
        let name = defs[i - 1].name();
        proof {
            let sub = defs_view(defs@.subrange(0, i as int));
            assert(sub.last() == defs@[i - 1]@);
            assert(sub.drop_last() =~= defs_view(defs@.subrange(0, i - 1)));
        }
        if name == wanted {
            return Some(&defs[i - 1]);
        }
        i -= 1;
    }
    assert(defs_view(defs@.subrange(0, 0)) =~= Seq::<TypeDefView>::empty());
    None
}

/// The type of the given name among named types, if there is one.
fn find_known<'b>(tm: &'b Vec<(String, RawType)>, t: &str) -> (r: Option<&'b RawType>)
    requires
        names_view(tm@).no_duplicates(),
    ensures
        match r {
            Some(x) => names_view(tm@).contains(t@) && x@ == types_view(tm@)[names_view(tm@).index_of(t@)],
            None => !names_view(tm@).contains(t@),
        },
{
    let wanted = copy_str(t);
    let mut i: usize = 0;
    while i < tm.len()
        invariant
            i <= tm@.len(),
            wanted@ == t@,
            names_view(tm@).no_duplicates(),
            forall|j: int| 0 <= j < i ==> tm@[j].0@ != t@,
        decreases tm@.len() - i,
    {
        if tm[i].0 == wanted {
            proof {
                let nv = names_view(tm@);
                assert(nv[i as int] == t@);
                assert(nv.contains(t@));
                let k = nv.index_of(t@);
                assert(0 <= k < nv.len() && nv[k] == t@);
                assert(k == i);
            }
            return Some(&tm[i].1);
        }
        i += 1;
    }
    proof {
        let nv = names_view(tm@);
        if nv.contains(t@) {
            let j = choose|j: int| 0 <= j < nv.len() && nv[j] == t@;
            assert(tm@[j].0@ == t@);
        }
    }
    None
}


fn copy_label(o: &Option<String>) -> (r: Option<String>)
    ensures
        option_text_view(r) == option_text_view(*o),
{
    match o {
        Some(l) => Some(l.clone()),
        None => None,
    }
}

/// The type that the name `t` stands for, given the definitions `defs` and the
/// named types `type_map` known already; definitions are followed at most
/// `fuel` deep. `None` exactly where `resolve_type` has no type.
pub(crate) fn resolve_raw_type(t: &str, defs: &Vec<RawTypeDefAst>, type_map: &Vec<(String, RawType)>, fuel: usize) -> (r: Option<RawType>)
    requires
        names_view(type_map@).no_duplicates(),
    ensures
        match r {
            Some(x) => resolve_type(defs_view(defs@), names_view(type_map@), types_view(type_map@), t@, fuel as nat) == Some(x@),
            None => resolve_type(defs_view(defs@), names_view(type_map@), types_view(type_map@), t@, fuel as nat) is None,
        },
    decreases fuel,
{
    let ghost dv = defs_view(defs@);
    let ghost nv = names_view(type_map@);
    let ghost tv = types_view(type_map@);
    match find_known(type_map, t) {
        Some(x) => {
            return Some(x.duplicate());
        },
        None => {},
    }
    if fuel == 0 {
        return None;
    }
    match find_last_def(defs, t) {
        None => None,
        Some(RawTypeDefAst::AliasTypeDefAst(a)) => {
            let full = a.full_name();
            resolve_raw_type(full.as_str(), defs, type_map, fuel - 1)
        },
        Some(RawTypeDefAst::CompositeTypeDefAst(c)) => {
            let ghost sargs = args_def_view(c.args@);
            let ghost resolved = resolve_all(dv, nv, tv, arg_type_names(sargs), (fuel - 1) as nat);
            let mut args: Vec<(Option<String>, RawType)> = Vec::new();
            let mut k: usize = 0;
            while k < c.args.len()
                invariant
                    k <= c.args@.len(),
                    sargs == args_def_view(c.args@),
                    !nv.contains(t@),
                    last_def(dv, t@) == Some(TypeDefView::Composite(c.name@, sargs)),
                    resolved == resolve_all(dv, nv, tv, arg_type_names(sargs), (fuel - 1) as nat),
                    dv == defs_view(defs@),
                    nv == names_view(type_map@),
                    tv == types_view(type_map@),
                    nv.no_duplicates(),
                    fuel > 0,
                    args@.len() == k,
                    forall|j: int| 0 <= j < k ==> (#[trigger] resolved[j]) is Some,
                    forall|j: int| 0 <= j < k ==> (option_text_view(#[trigger] args@[j].0), args@[j].1@) == (sargs[j].0, resolved[j]->0),
                decreases c.args@.len() - k,
            {
                let name = c.args[k].1.full_name();
                assert(arg_type_names(sargs)[k as int] == name@);
                match resolve_raw_type(name.as_str(), defs, type_map, fuel - 1) {
                    Some(x) => {
                        let label = copy_label(&c.args[k].0);
                        args.push((label, x));
                    },
                    None => {
                        assert(resolved[k as int] == resolve_type(dv, nv, tv, name@, (fuel - 1) as nat));
                        assert(resolved[k as int] is None);
                        assert(!all_resolved(resolved));
                        return None;
                    },
                }
                k += 1;
            }
            let r = RawType::Type(FormulaTypeEnum::CompositeType(CompositeType { name: c.name.clone(), arguments: args }));
            proof {
                assert(all_resolved(resolved));
                assert(r@->Composite_1 =~= labelled_types(sargs, resolved));
            }
            Some(r)
        },
        Some(RawTypeDefAst::UnionTypeDefAst(u)) => {
            let ghost subs = aliases_view(u.subtypes@);
            let ghost resolved = resolve_all(dv, nv, tv, subs, (fuel - 1) as nat);
            let mut members: Vec<RawType> = Vec::new();
            let mut k: usize = 0;
            while k < u.subtypes.len()
                invariant
                    k <= u.subtypes@.len(),
                    subs == aliases_view(u.subtypes@),
                    !nv.contains(t@),
                    last_def(dv, t@) == Some(TypeDefView::Union(u.name@, subs)),
                    resolved == resolve_all(dv, nv, tv, subs, (fuel - 1) as nat),
                    dv == defs_view(defs@),
                    nv == names_view(type_map@),
                    tv == types_view(type_map@),
                    nv.no_duplicates(),
                    fuel > 0,
                    members@.len() == k,
                    forall|j: int| 0 <= j < k ==> (#[trigger] resolved[j]) is Some,
                    forall|j: int| 0 <= j < k ==> (#[trigger] members@[j])@ == resolved[j]->0,
                decreases u.subtypes@.len() - k,
            {
                let name = u.subtypes[k].full_name();
                match resolve_raw_type(name.as_str(), defs, type_map, fuel - 1) {
                    Some(x) => {
                        members.push(x);
                    },
                    None => {
                        assert(subs[k as int] == name@);
                        assert(resolved[k as int] == resolve_type(dv, nv, tv, name@, (fuel - 1) as nat));
                        assert(resolved[k as int] is None);
                        assert(!all_resolved(resolved));
                        return None;
                    },
                }
                k += 1;
            }
            let r = RawType::Type(FormulaTypeEnum::UnionType(UnionType { name: u.name.clone(), subtypes: members }));
            proof {
                assert(all_resolved(resolved));
                assert(r@->Union_1 =~= resolved_types(resolved));
            }
            Some(r)
        },
    }
}


/// The named types with the built-in ones put in: `String`, `Integer`,
/// `Boolean` and `~Undefined`, in this order.
pub open spec fn with_builtins(names: Seq<Seq<char>>, types: Seq<TypeView>) -> (Seq<Seq<char>>, Seq<TypeView>) {
    let a = put_type(names, types, "String"@, TypeView::Base(BaseType::String));
    let b = put_type(a.0, a.1, "Integer"@, TypeView::Base(BaseType::Integer));
    let c = put_type(b.0, b.1, "Boolean"@, TypeView::Base(BaseType::Boolean));
    put_type(c.0, c.1, "~Undefined"@, TypeView::Undefined)
}

/// Put the built-in types into `type_map`.
pub fn import_builtin_types(type_map: &mut Vec<(String, RawType)>)
    requires
        names_view(old(type_map)@).no_duplicates(),
    ensures
        names_view(final(type_map)@).no_duplicates(),
        (names_view(final(type_map)@), types_view(final(type_map)@)) == with_builtins(
            names_view(old(type_map)@),
            types_view(old(type_map)@),
        ),
{
    proof {
        reveal_strlit("String");
        reveal_strlit("Integer");
        reveal_strlit("Boolean");
        reveal_strlit("~Undefined");
    }
    put_type_exec(type_map, copy_str("String"), RawType::Type(FormulaTypeEnum::BaseType(BaseType::String)));
    put_type_exec(type_map, copy_str("Integer"), RawType::Type(FormulaTypeEnum::BaseType(BaseType::Integer)));
    put_type_exec(type_map, copy_str("Boolean"), RawType::Type(FormulaTypeEnum::BaseType(BaseType::Boolean)));
    put_type_exec(type_map, copy_str("~Undefined"), RawType::undefined());
}

/// The named types after the first `upto` definitions have each put in the
/// type of the name it gives, resolved against the types known at the start,
/// as deep as there are definitions. `None` where one of those names does not
/// resolve.
pub open spec fn defined_types(
    defs: Seq<TypeDefView>,
    names: Seq<Seq<char>>,
    types: Seq<TypeView>,
    upto: nat,
) -> Option<(Seq<Seq<char>>, Seq<TypeView>)>
    decreases upto,
{
    if upto == 0 {
        Some((names, types))
    } else {
        match defined_types(defs, names, types, (upto - 1) as nat) {
            Some(p) => {
                let name = def_name(defs[upto - 1]);
                match resolve_type(defs, names, types, name, defs.len()) {
                    Some(t) => Some(put_type(p.0, p.1, name, t)),
                    None => None,
                }
            },
            None => None,
        }
    }
}

proof fn lemma_defined_types_none(
    defs: Seq<TypeDefView>,
    names: Seq<Seq<char>>,
    types: Seq<TypeView>,
    a: nat,
    b: nat,
)
    requires
        a <= b,
        defined_types(defs, names, types, a) is None,
    ensures
        defined_types(defs, names, types, b) is None,
    decreases b - a,
{
    if a < b {
        lemma_defined_types_none(defs, names, types, a, (b - 1) as nat);
    }
}

/// The named types `type_map` together with the types that `defs` define, each
/// under the name its definition gives. Names are resolved against the types
/// of `type_map`; where a name cannot be resolved, because a definition is
/// missing or the definitions run in a circle, the result is `None`.
pub fn create_types(defs: &Vec<RawTypeDefAst>, type_map: &Vec<(String, RawType)>) -> (r: Option<Vec<(String, RawType)>>)
    requires
        names_view(type_map@).no_duplicates(),
    ensures
        match r {
            Some(tm) => names_view(tm@).no_duplicates() && defined_types(
                defs_view(defs@),
                names_view(type_map@),
                types_view(type_map@),
                defs@.len(),
            ) == Some((names_view(tm@), types_view(tm@))),
            None => defined_types(
                defs_view(defs@),
                names_view(type_map@),
                types_view(type_map@),
                defs@.len(),
            ) is None,
        },
{
    let ghost dv = defs_view(defs@);
    let ghost nv = names_view(type_map@);
    let ghost tv = types_view(type_map@);
    let mut out: Vec<(String, RawType)> = Vec::new();
    let mut i: usize = 0;
    while i < type_map.len()
        invariant
            i <= type_map@.len(),
            out@.len() == i,
            forall|j: int| 0 <= j < i ==> (#[trigger] out@[j]).0@ == type_map@[j].0@ && out@[j].1@ == type_map@[j].1@,
        decreases type_map@.len() - i,
    {
        out.push((type_map[i].0.clone(), type_map[i].1.duplicate()));
        i += 1;
    }
    assert(names_view(out@) =~= nv);
    assert(types_view(out@) =~= tv);
    let fuel = defs.len();
    let mut k: usize = 0;
    while k < defs.len()
        invariant
            k <= defs@.len(),
            fuel == defs@.len(),
            dv == defs_view(defs@),
            nv == names_view(type_map@),
            tv == types_view(type_map@),
            nv.no_duplicates(),
            names_view(out@).no_duplicates(),
            defined_types(dv, nv, tv, k as nat) == Some((names_view(out@), types_view(out@))),
        decreases defs@.len() - k,
    {
        let name = defs[k].name();
        assert(dv[k as int] == defs@[k as int]@);
        match resolve_raw_type(name.as_str(), defs, type_map, fuel) {
            Some(t) => {
                put_type_exec(&mut out, name, t);
            },
            None => {
                proof {
                    assert(defined_types(dv, nv, tv, (k + 1) as nat) is None);
                    lemma_defined_types_none(dv, nv, tv, (k + 1) as nat, defs@.len());
                }
                return None;
            },
        }
        k += 1;
    }
    Some(out)
}

/// The named types after creating the type of `t` into `(ns, ts)`: where `t`
/// has no type there yet, the types of the names its definition uses are
/// created first, in order, and then `t` is put in with its type as resolved
/// in the named types `(n0, t0)` known at the start.
pub open spec fn created(
    dv: Seq<TypeDefView>,
    n0: Seq<Seq<char>>,
    t0: Seq<TypeView>,
    t: Seq<char>,
    fuel: nat,
    ns: Seq<Seq<char>>,
    ts: Seq<TypeView>,
) -> (Seq<Seq<char>>, Seq<TypeView>)
    decreases fuel, 1int, 0int,
{
    if ns.contains(t) || fuel == 0 {
        (ns, ts)
    } else {
        let p = match last_def(dv, t) {
            None => (ns, ts),
            Some(TypeDefView::Alias(full)) => created(dv, n0, t0, full, (fuel - 1) as nat, ns, ts),
            Some(TypeDefView::Composite(_, args)) => created_list(dv, n0, t0, arg_type_names(args), (fuel - 1) as nat, ns, ts),
            Some(TypeDefView::Union(_, subs)) => created_list(dv, n0, t0, subs, (fuel - 1) as nat, ns, ts),
        };
        match resolve_type(dv, n0, t0, t, fuel) {
            Some(v) => put_type(p.0, p.1, t, v),
            None => p,
        }
    }
}

/// The named types after creating the type of each of `names`, in order.
pub open spec fn created_list(
    dv: Seq<TypeDefView>,
    n0: Seq<Seq<char>>,
    t0: Seq<TypeView>,
    names: Seq<Seq<char>>,
    fuel: nat,
    ns: Seq<Seq<char>>,
    ts: Seq<TypeView>,
) -> (Seq<Seq<char>>, Seq<TypeView>)
    decreases fuel, 2int, names.len(),
{
    if names.len() == 0 {
        (ns, ts)
    } else {
        let p = created_list(dv, n0, t0, names.drop_last(), fuel, ns, ts);
        created(dv, n0, t0, names.last(), fuel, p.0, p.1)
    }
}

fn copy_type_map(tm: &Vec<(String, RawType)>) -> (r: Vec<(String, RawType)>)
    ensures
        names_view(r@) == names_view(tm@),
        types_view(r@) == types_view(tm@),
{
    let mut out: Vec<(String, RawType)> = Vec::new();
    let mut i: usize = 0;
    while i < tm.len()
        invariant
            i <= tm@.len(),
            out@.len() == i,
            forall|j: int| 0 <= j < i ==> (#[trigger] out@[j]).0@ == tm@[j].0@ && out@[j].1@ == tm@[j].1@,
        decreases tm@.len() - i,
    {
        out.push((tm[i].0.clone(), tm[i].1.duplicate()));
        i += 1;
    }
    assert(names_view(out@) =~= names_view(tm@));
    assert(types_view(out@) =~= types_view(tm@));
    out
}

fn create_into(t: &str, defs: &Vec<RawTypeDefAst>, known: &Vec<(String, RawType)>, type_map: &mut Vec<(String, RawType)>, fuel: usize)
    requires
        names_view(known@).no_duplicates(),
        names_view(old(type_map)@).no_duplicates(),
    ensures
        names_view(final(type_map)@).no_duplicates(),
        (names_view(final(type_map)@), types_view(final(type_map)@)) == created(
            defs_view(defs@),
            names_view(known@),
            types_view(known@),
            t@,
            fuel as nat,
            names_view(old(type_map)@),
            types_view(old(type_map)@),
        ),
    decreases fuel, 1int, 0int,
{
    let ghost dv = defs_view(defs@);
    let ghost n0 = names_view(known@);
    let ghost t0 = types_view(known@);
    let ghost ns = names_view(type_map@);
    let ghost ts = types_view(type_map@);
    if find_known(type_map, t).is_some() || fuel == 0 {
        return;
    }
    match find_last_def(defs, t) {
        None => {},
        Some(RawTypeDefAst::AliasTypeDefAst(a)) => {
            let full = a.full_name();
            create_into(full.as_str(), defs, known, type_map, fuel - 1);
        },
        Some(RawTypeDefAst::CompositeTypeDefAst(c)) => {
            let mut names: Vec<String> = Vec::new();
            let mut k: usize = 0;
            while k < c.args.len()
                invariant
                    k <= c.args@.len(),
                    names@.len() == k,
                    forall|j: int| 0 <= j < k ==> (#[trigger] names@[j])@ == arg_type_names(args_def_view(c.args@))[j],
                decreases c.args@.len() - k,
            {
                names.push(c.args[k].1.full_name());
                k += 1;
            }
            assert(names@.map_values(|x: String| x@) =~= arg_type_names(args_def_view(c.args@)));
            create_list_into(&names, defs, known, type_map, fuel - 1);
        },
        Some(RawTypeDefAst::UnionTypeDefAst(u)) => {
            let mut names: Vec<String> = Vec::new();
            let mut k: usize = 0;
            while k < u.subtypes.len()
                invariant
                    k <= u.subtypes@.len(),
                    names@.len() == k,
                    forall|j: int| 0 <= j < k ==> (#[trigger] names@[j])@ == aliases_view(u.subtypes@)[j],
                decreases u.subtypes@.len() - k,
            {
                names.push(u.subtypes[k].full_name());
                k += 1;
            }
            assert(names@.map_values(|x: String| x@) =~= aliases_view(u.subtypes@));
            create_list_into(&names, defs, known, type_map, fuel - 1);
        },
    }
    match resolve_raw_type(t, defs, known, fuel) {
        Some(v) => {
            put_type_exec(type_map, copy_str(t), v);
        },
        None => {},
    }
}

fn create_list_into(names: &Vec<String>, defs: &Vec<RawTypeDefAst>, known: &Vec<(String, RawType)>, type_map: &mut Vec<(String, RawType)>, fuel: usize)
    requires
        names_view(known@).no_duplicates(),
        names_view(old(type_map)@).no_duplicates(),
    ensures
        names_view(final(type_map)@).no_duplicates(),
        (names_view(final(type_map)@), types_view(final(type_map)@)) == created_list(
            defs_view(defs@),
            names_view(known@),
            types_view(known@),
            names@.map_values(|x: String| x@),
            fuel as nat,
            names_view(old(type_map)@),
            types_view(old(type_map)@),
        ),
    decreases fuel, 2int, names@.len(),
{
    let ghost dv = defs_view(defs@);
    let ghost n0 = names_view(known@);
    let ghost t0 = types_view(known@);
    let ghost ns = names_view(type_map@);
    let ghost ts = types_view(type_map@);
    let ghost nv = names@.map_values(|x: String| x@);
    let mut k: usize = 0;
    assert(nv.subrange(0, 0) =~= Seq::<Seq<char>>::empty());
    while k < names.len()
        invariant
            k <= names@.len(),
            nv == names@.map_values(|x: String| x@),
            dv == defs_view(defs@),
            n0 == names_view(known@),
            t0 == types_view(known@),
            names_view(known@).no_duplicates(),
            names_view(type_map@).no_duplicates(),
            (names_view(type_map@), types_view(type_map@)) == created_list(dv, n0, t0, nv.subrange(0, k as int), fuel as nat, ns, ts),
        decreases names@.len() - k,
    {
        proof {
            assert(nv.subrange(0, k + 1).drop_last() =~= nv.subrange(0, k as int));
            assert(nv.subrange(0, k + 1).last() == names@[k as int]@);
        }
        create_into(names[k].as_str(), defs, known, type_map, fuel);
        k += 1;
    }
    assert(nv.subrange(0, nv.len() as int) =~= nv);
}

/// The type that the name `t` stands for, given the definitions `defs` and the
/// named types `type_map` known already, with definitions followed as many
/// deep as there are definitions, which a chain of definitions never needs
/// unless it runs in a circle; `None` exactly where `resolve_type` has no
/// type with that much fuel. Where there
/// is one, it is put into `type_map` under `t`, and so is the type of every
/// name its definition uses, at any depth, that `type_map` did not have; where
/// there is none, `type_map` stays as it was.
pub fn create_raw_type(t: &str, defs: &Vec<RawTypeDefAst>, type_map: &mut Vec<(String, RawType)>) -> (r: Option<RawType>)
    requires
        names_view(old(type_map)@).no_duplicates(),
    ensures
        names_view(final(type_map)@).no_duplicates(),
        match r {
            Some(x) => {
                &&& resolve_type(defs_view(defs@), names_view(old(type_map)@), types_view(old(type_map)@), t@, defs@.len()) == Some(x@)
                &&& (names_view(final(type_map)@), types_view(final(type_map)@)) == created(
                    defs_view(defs@),
                    names_view(old(type_map)@),
                    types_view(old(type_map)@),
                    t@,
                    defs@.len(),
                    names_view(old(type_map)@),
                    types_view(old(type_map)@),
                )
                &&& type_named(names_view(final(type_map)@), types_view(final(type_map)@), t@) == Some(x@)
            },
            None => {
                &&& resolve_type(defs_view(defs@), names_view(old(type_map)@), types_view(old(type_map)@), t@, defs@.len()) is None
                &&& final(type_map)@ == old(type_map)@
            },
        },
{
    let fuel = defs.len();
    let known = copy_type_map(type_map);
    let r = resolve_raw_type(t, defs, &known, fuel);
    match r {
        Some(x) => {
            let ghost xv = x@;
            create_into(t, defs, &known, type_map, fuel);
            proof {
                lemma_created_names(defs_view(defs@), names_view(known@), types_view(known@), t@, fuel as nat, xv);
            }
            Some(x)
        },
        None => None,
    }
}

proof fn lemma_created_len(dv: Seq<TypeDefView>, n0: Seq<Seq<char>>, t0: Seq<TypeView>, t: Seq<char>, fuel: nat, ns: Seq<Seq<char>>, ts: Seq<TypeView>)
    requires
        ns.len() == ts.len(),
    ensures
        created(dv, n0, t0, t, fuel, ns, ts).0.len() == created(dv, n0, t0, t, fuel, ns, ts).1.len(),
    decreases fuel, 1int, 0int,
{
    if !(ns.contains(t) || fuel == 0) {
        match last_def(dv, t) {
            None => {},
            Some(TypeDefView::Alias(full)) => lemma_created_len(dv, n0, t0, full, (fuel - 1) as nat, ns, ts),
            Some(TypeDefView::Composite(_, args)) => lemma_created_list_len(dv, n0, t0, arg_type_names(args), (fuel - 1) as nat, ns, ts),
            Some(TypeDefView::Union(_, subs)) => lemma_created_list_len(dv, n0, t0, subs, (fuel - 1) as nat, ns, ts),
        }
    }
}

proof fn lemma_created_list_len(dv: Seq<TypeDefView>, n0: Seq<Seq<char>>, t0: Seq<TypeView>, names: Seq<Seq<char>>, fuel: nat, ns: Seq<Seq<char>>, ts: Seq<TypeView>)
    requires
        ns.len() == ts.len(),
    ensures
        created_list(dv, n0, t0, names, fuel, ns, ts).0.len() == created_list(dv, n0, t0, names, fuel, ns, ts).1.len(),
    decreases fuel, 2int, names.len(),
{
    if names.len() > 0 {
        lemma_created_list_len(dv, n0, t0, names.drop_last(), fuel, ns, ts);
        let p = created_list(dv, n0, t0, names.drop_last(), fuel, ns, ts);
        lemma_created_len(dv, n0, t0, names.last(), fuel, p.0, p.1);
    }
}

/// Where `t` resolves in `(n0, t0)`, creating it into `(n0, t0)` itself leaves
/// `t` named with that type.
proof fn lemma_created_names(dv: Seq<TypeDefView>, n0: Seq<Seq<char>>, t0: Seq<TypeView>, t: Seq<char>, fuel: nat, v: TypeView)
    requires
        resolve_type(dv, n0, t0, t, fuel) == Some(v),
        n0.len() == t0.len(),
    ensures
        type_named(created(dv, n0, t0, t, fuel, n0, t0).0, created(dv, n0, t0, t, fuel, n0, t0).1, t) == Some(v),
{
    if n0.contains(t) {
        let k = n0.index_of(t);
        assert(type_named(n0, t0, t) == Some(t0[k]));
        assert(resolve_type(dv, n0, t0, t, fuel) == Some(t0[k]));
    } else {
        let c = created(dv, n0, t0, t, fuel, n0, t0);
        let p = match last_def(dv, t) {
            None => (n0, t0),
            Some(TypeDefView::Alias(full)) => created(dv, n0, t0, full, (fuel - 1) as nat, n0, t0),
            Some(TypeDefView::Composite(_, args)) => created_list(dv, n0, t0, arg_type_names(args), (fuel - 1) as nat, n0, t0),
            Some(TypeDefView::Union(_, subs)) => created_list(dv, n0, t0, subs, (fuel - 1) as nat, n0, t0),
        };
        assert(c == put_type(p.0, p.1, t, v));
        assert(p.0.len() == p.1.len()) by {
            match last_def(dv, t) {
                None => {},
                Some(TypeDefView::Alias(full)) => lemma_created_len(dv, n0, t0, full, (fuel - 1) as nat, n0, t0),
                Some(TypeDefView::Composite(_, args)) => lemma_created_list_len(dv, n0, t0, arg_type_names(args), (fuel - 1) as nat, n0, t0),
                Some(TypeDefView::Union(_, subs)) => lemma_created_list_len(dv, n0, t0, subs, (fuel - 1) as nat, n0, t0),
            }
        }
        if p.0.contains(t) {
            let k = p.0.index_of(t);
            assert(c.0 == p.0);
            assert(c.1[k] == v);
        } else {
            assert(c.0 == p.0.push(t));
            assert(c.0[p.0.len() as int] == t);
            assert(c.0.contains(t));
            let k = c.0.index_of(t);
            assert(c.0[k] == t);
            if k < p.0.len() {
                assert(p.0[k] == t);
                assert(false);
            }
            assert(c.1[k] == v);
        }
    }
}

} // verus!
