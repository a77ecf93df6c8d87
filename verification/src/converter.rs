//! Conversion of types and terms into Differential Datalog text.
use crate::rule::Rule;
use crate::term::{args_text, atom_text, term_text, AtomView, AtomicTerm, TermView};
use crate::text::{concat2, concat3, copy_str, join, join_text};
use crate::type_system::{
    type_unique_form, BaseType, FormulaTypeEnum, RawType, TypeView,
};
use vstd::prelude::*;

verus! {

/// Values that have a Differential Datalog form.
pub trait DDLogFormat {
    /// Whether the conversion is defined for the value.
    spec fn ddlog_convertible(&self) -> bool;

    /// The Differential Datalog text of the value, if it has one.
    spec fn ddlog_text(&self) -> Option<Seq<char>>;

    /// The Differential Datalog text of the value, if it has one.
    fn into_ddlog_format(&self) -> (r: Option<String>)
        requires
            self.ddlog_convertible(),
        ensures
            match r {
                Some(s) => self.ddlog_text() == Some(s@),
                None => self.ddlog_text() is None,
            },
    ;
}

/// The Differential Datalog name of a base type.
pub open spec fn base_type_ddlog(b: BaseType) -> Seq<char> {
    match b {
        BaseType::Boolean => "bool"@,
        BaseType::String => "string"@,
        BaseType::Integer => "usize"@,
        BaseType::PosInteger => "usize"@,
        BaseType::NegInteger => "usize"@,
        BaseType::Rational => "float"@,
    }
}

/// The name under which a type appears inside another type's definition: the
/// Differential Datalog name of a base type, or the type's identifier.
pub open spec fn member_type_name(t: TypeView) -> Seq<char> {
    match t {
        TypeView::Base(b) => base_type_ddlog(b),
        _ => type_unique_form(t),
    }
}

/// `label: type` for an argument of a composite type, with `None` as the label
/// of an unlabelled argument.
pub open spec fn ddlog_field(arg: (Option<Seq<char>>, TypeView)) -> Seq<char> {
    (match arg.0 {
        Some(l) => l,
        None => "None"@,
    }) + ": "@ + member_type_name(arg.1)
}

/// `Union_Member { t: Member }` for a member of a union type.
pub open spec fn ddlog_variant(union_name: Seq<char>, member: TypeView) -> Seq<char> {
    union_name + "_"@ + member_type_name(member) + " { t: "@ + member_type_name(member) + " }"@
}

/// Whether a type has a Differential Datalog definition that can be written:
/// ranges, renamed types and composite types with an argument known only by
/// name have none.
pub open spec fn type_ddlog_convertible(t: TypeView) -> bool {
    match t {
        TypeView::Range(_, _) => false,
        TypeView::Renamed(_, _) => false,
        TypeView::Composite(_, args) => forall|i: int| 0 <= i < args.len() ==> !(#[trigger] args[i].1 is TypeId),
        _ => true,
    }
}

/// The Differential Datalog definition of a type: the name of a base type,
/// `typedef T = { a: A, b: B }` for a composite type, `typedef T = x | y` for an
/// enumeration and `typedef U = U_A { t: A } | U_B { t: B }` for a union; none for
/// a type known only by name.
pub open spec fn type_ddlog(t: TypeView) -> Option<Seq<char>> {
    match t {
        TypeView::TypeId(_) => None,
        TypeView::Undefined => None,
        TypeView::Base(b) => Some(base_type_ddlog(b)),
        TypeView::Composite(name, args) => Some(
            "typedef "@ + name + " = { "@ + join_text(args.map_values(|a: (Option<Seq<char>>, TypeView)| ddlog_field(a)), ", "@) + " }"@,
        ),
        TypeView::Enum(name, items) => Some(
            "typedef "@ + name + " = "@ + join_text(items.map_values(|a| atom_text(a)), " | "@),
        ),
        TypeView::Union(name, subs) => Some(
            "typedef "@ + name + " = "@ + join_text(subs.map_values(|s: TypeView| ddlog_variant(name, s)), " | "@),
        ),
        _ => None,
    }
}

/// The Differential Datalog form of a term: `T{ a, b }` for a composite term,
/// the root of a variable, and the printed atom.
pub open spec fn term_ddlog(t: TermView) -> Seq<char>
    decreases t,
{
    match t {
        TermView::Composite(sort, args) => type_unique_form(sort) + "{ "@ + join_text(
            args_ddlog(args),
            ", "@,
        ) + " }"@,
        TermView::Variable(root, _) => root,
        TermView::Atom(a) => atom_text(a),
    }
}

/// The Differential Datalog forms of the arguments of a term.
pub open spec fn args_ddlog(args: Seq<TermView>) -> Seq<Seq<char>>
    decreases args,
{
    Seq::new(args.len(), |i: int| if 0 <= i < args.len() { term_ddlog(args[i]) } else { Seq::empty() })
}

fn base_type_name(b: BaseType) -> (r: String)
    ensures
        r@ == base_type_ddlog(b),
{
    match b {
        BaseType::Boolean => copy_str("bool"),
        BaseType::String => copy_str("string"),
        BaseType::Integer => copy_str("usize"),
        BaseType::PosInteger => copy_str("usize"),
        BaseType::NegInteger => copy_str("usize"),
        BaseType::Rational => copy_str("float"),
    }
}

fn member_name(t: &RawType) -> (r: String)
    ensures
        r@ == member_type_name(t@),
{
    match t {
        RawType::Type(FormulaTypeEnum::BaseType(b)) => base_type_name(*b),
        _ => t.type_id(),
    }
}

impl DDLogFormat for RawType {
    open spec fn ddlog_convertible(&self) -> bool {
        type_ddlog_convertible(self@)
    }

    open spec fn ddlog_text(&self) -> Option<Seq<char>> {
        type_ddlog(self@)
    }

    fn into_ddlog_format(&self) -> (r: Option<String>) {
        match self {
            RawType::TypeId(_) => None,
            RawType::Undefined => None,
            RawType::Type(t) => match t {
                FormulaTypeEnum::BaseType(b) => Some(base_type_name(*b)),
                FormulaTypeEnum::CompositeType(c) => {
                    let ghost args = self@->Composite_1;
                    let mut parts: Vec<String> = Vec::new();
                    let mut i: usize = 0;
                    while i < c.arguments.len()
                        invariant
                            i <= c.arguments@.len(),
                            parts@.len() == i,
                            *self == RawType::Type(FormulaTypeEnum::CompositeType(*c)),
                            args == self@->Composite_1,
                            forall|j: int| 0 <= j < i ==> (#[trigger] parts@[j])@ == ddlog_field(args[j]),
                        decreases c.arguments@.len() - i,
                    {
                        let label = match &c.arguments[i].0 {
                            Some(l) => l.clone(),
                            None => copy_str("None"),
                        };
                        let member = member_name(&c.arguments[i].1);
                        parts.push(concat3(label.as_str(), ": ", member.as_str()));
                        i += 1;
                    }
                    assert(parts@.map_values(|p: String| p@) =~= args.map_values(|a: (Option<Seq<char>>, TypeView)| ddlog_field(a)));
                    let fields = join(&parts, ", ");
                    let a = concat3("typedef ", c.name.as_str(), " = { ");
                    Some(concat3(a.as_str(), fields.as_str(), " }"))
                },
                FormulaTypeEnum::EnumType(e) => {
                    let mut parts: Vec<String> = Vec::new();
                    let mut i: usize = 0;
                    while i < e.items.len()
                        invariant
                            i <= e.items@.len(),
                            parts@.len() == i,
                            forall|j: int| 0 <= j < i ==> (#[trigger] parts@[j])@ == atom_text(e.items@[j]@),
                        decreases e.items@.len() - i,
                    {
                        parts.push(e.items[i].to_text());
                        i += 1;
                    }
                    assert(parts@.map_values(|p: String| p@) =~= self@->Enum_1.map_values(|a| atom_text(a)));
                    let items = join(&parts, " | ");
                    Some(concat3("typedef ", e.name.as_str(), concat2(" = ", items.as_str()).as_str()))
                },
                FormulaTypeEnum::UnionType(u) => {
                    let ghost subs = self@->Union_1;
                    let mut parts: Vec<String> = Vec::new();
                    let mut i: usize = 0;
                    while i < u.subtypes.len()
                        invariant
                            i <= u.subtypes@.len(),
                            parts@.len() == i,
                            *self == RawType::Type(FormulaTypeEnum::UnionType(*u)),
                            subs == self@->Union_1,
                            forall|j: int| 0 <= j < i ==> (#[trigger] parts@[j])@ == ddlog_variant(u.name@, subs[j]),
                        decreases u.subtypes@.len() - i,
                    {
                        let member = member_name(&u.subtypes[i]);
                        let a = concat3(u.name.as_str(), "_", member.as_str());
                        let b = concat3(a.as_str(), " { t: ", member.as_str());
                        parts.push(concat2(b.as_str(), " }"));
                        i += 1;
                    }
                    assert(parts@.map_values(|p: String| p@) =~= subs.map_values(|s: TypeView| ddlog_variant(u.name@, s)));
                    let variants = join(&parts, " | ");
                    Some(concat3("typedef ", u.name.as_str(), concat2(" = ", variants.as_str()).as_str()))
                },
                _ => None,
            },
        }
    }
}

impl DDLogFormat for AtomicTerm {
    open spec fn ddlog_convertible(&self) -> bool {
        true
    }

    open spec fn ddlog_text(&self) -> Option<Seq<char>> {
        Some(term_ddlog(self@))
    }

    fn into_ddlog_format(&self) -> (r: Option<String>) {
        Some(term_to_ddlog(self))
    }
}

/// The Differential Datalog form of a term.
pub fn term_to_ddlog(t: &AtomicTerm) -> (r: String)
    ensures
        r@ == term_ddlog(t@),
    decreases t,
{
    match t {
        AtomicTerm::Composite(c) => {
            let ghost args = t@->Composite_1;
            let mut parts: Vec<String> = Vec::new();
            let mut i: usize = 0;
            while i < c.arguments.len()
                invariant
                    i <= c.arguments@.len(),
                    parts@.len() == i,
                    *t == AtomicTerm::Composite(*c),
                    args == t@->Composite_1,
                    forall|j: int| 0 <= j < i ==> (#[trigger] parts@[j])@ == term_ddlog(args[j]),
                decreases c.arguments@.len() - i,
            {
                proof {
                    assert(decreases_to!(*t => (*t)->Composite_0));
                    assert(decreases_to!((*t)->Composite_0 => (*t)->Composite_0.arguments));
                    vstd::std_specs::vec::axiom_vec_index_decreases(c.arguments, i as int);
                }
                parts.push(term_to_ddlog(&c.arguments[i]));
                i += 1;
            }
            assert(parts@.map_values(|p: String| p@) =~= args_ddlog(args));
            let name = c.sort.type_id();
            let inner = join(&parts, ", ");
            let a = concat3(name.as_str(), "{ ", inner.as_str());
            let out = concat2(a.as_str(), " }");
            assert(out@ == term_ddlog(t@));
            out
        },
        AtomicTerm::Variable(v) => {
            let out = v.root.clone();
            assert(out@ == term_ddlog(t@));
            out
        },
        AtomicTerm::Atom(a) => {
            let out = a.val.to_text();
            assert(t@ == TermView::Atom(a.val@));
            assert(out@ == term_ddlog(t@));
            out
        },
    }
}


/// The relation entries of the composite head terms of a rule, each written
/// `Type[term]`, in order.
pub open spec fn head_entries(h: Seq<TermView>) -> Seq<Seq<char>>
    decreases h.len(),
{
    if h.len() == 0 {
        Seq::empty()
    } else {
        let rest = head_entries(h.drop_last());
        match h.last() {
            TermView::Composite(sort, _) => rest.push(type_unique_form(sort) + "["@ + term_ddlog(h.last()) + "]"@),
            _ => rest,
        }
    }
}

/// For each variable in a rule's head, in order, the type and the relation of
/// a boolean constant named after it.
pub open spec fn head_bool_consts(h: Seq<TermView>) -> Seq<(Seq<char>, Seq<char>)>
    decreases h.len(),
{
    if h.len() == 0 {
        Seq::empty()
    } else {
        let rest = head_bool_consts(h.drop_last());
        match h.last() {
            TermView::Variable(_, _) => {
                let n = term_text(h.last());
                rest.push(
                    (
                        "typedef "@ + n + "BoolConst = "@ + n + "BoolConst{}"@,
                        "output relation "@ + n + "BoolConst[inner: "@ + n + "BoolConst]"@,
                    ),
                )
            },
            _ => rest,
        }
    }
}

pub open spec fn text_pairs_view(v: Seq<(String, String)>) -> Seq<(Seq<char>, Seq<char>)> {
    v.map_values(|p: (String, String)| (p.0@, p.1@))
}

/// The head of a rule in Differential Datalog: its composite terms as relation
/// entries separated by commas, and, for each variable in the head, the type
/// and relation of a boolean constant.
pub fn convert_rule_head(rule: &Rule) -> (r: (String, Vec<(String, String)>))
    ensures
        r.0@ == join_text(head_entries(rule.head_view()), ", "@),
        text_pairs_view(r.1@) == head_bool_consts(rule.head_view()),
{
    let head = rule.get_head();
    let ghost hv = rule.head_view();
    let mut entries: Vec<String> = Vec::new();
    let mut bools: Vec<(String, String)> = Vec::new();
    let mut i: usize = 0;
    assert(hv.subrange(0, 0) =~= Seq::<TermView>::empty());
    assert(entries@.map_values(|p: String| p@) =~= Seq::<Seq<char>>::empty());
    assert(text_pairs_view(bools@) =~= Seq::<(Seq<char>, Seq<char>)>::empty());
    while i < head.len()
        invariant
            i <= head@.len(),
            hv == rule.head_view(),
            crate::expression::terms_view(head@) == hv,
            entries@.map_values(|p: String| p@) == head_entries(hv.subrange(0, i as int)),
            text_pairs_view(bools@) == head_bool_consts(hv.subrange(0, i as int)),
        decreases head@.len() - i,
    {
        let ghost sub = hv.subrange(0, i + 1);
        proof {
            assert(sub.drop_last() =~= hv.subrange(0, i as int));
            assert(sub.last() == head@[i as int]@);
        }
        let ghost before_e = entries@.map_values(|p: String| p@);
        let ghost before_b = text_pairs_view(bools@);
        match &head[i] {
            AtomicTerm::Composite(c) => {
                let name = c.sort.type_id();
                let text = term_to_ddlog(&head[i]);
                let a = concat3(name.as_str(), "[", text.as_str());
                entries.push(concat2(a.as_str(), "]"));
                assert(entries@.map_values(|p: String| p@) =~= before_e.push(a@ + "]"@));
            },
            AtomicTerm::Variable(_) => {
                let n = head[i].to_string();
                let t1 = concat3("typedef ", n.as_str(), "BoolConst = ");
                let t2 = concat3(t1.as_str(), n.as_str(), "BoolConst{}");
                let r1 = concat3("output relation ", n.as_str(), "BoolConst[inner: ");
                let r2 = concat3(r1.as_str(), n.as_str(), "BoolConst]");
                bools.push((t2, r2));
                assert(text_pairs_view(bools@) =~= before_b.push((t2@, r2@)));
            },
            _ => {},
        }
        i += 1;
    }
    assert(hv.subrange(0, hv.len() as int) =~= hv);
    (join(&entries, ", "), bools)
}

proof fn lemma_join_push(parts: Seq<Seq<char>>, x: Seq<char>, sep: Seq<char>)
    requires
        parts.len() > 0,
    ensures
        join_text(parts.push(x), sep) == join_text(parts, sep) + sep + x,
{
    assert(parts.push(x).drop_last() =~= parts);
}

/// One more item of an enumeration, or one more subtype of a union, adds one
/// more alternative ` | ...` to the end of its Differential Datalog
/// definition; one more argument of a composite type adds one more field
/// `, ...` inside its braces.
pub proof fn lemma_ddlog_one_more_alternative(
    name: Seq<char>,
    items: Seq<AtomView>,
    a: AtomView,
    subs: Seq<TypeView>,
    s: TypeView,
    args: Seq<(Option<Seq<char>>, TypeView)>,
    f: (Option<Seq<char>>, TypeView),
)
    ensures
        items.len() > 0 ==> type_ddlog(TypeView::Enum(name, items.push(a))) == Some(
            type_ddlog(TypeView::Enum(name, items))->0 + " | "@ + atom_text(a),
        ),
        subs.len() > 0 ==> type_ddlog(TypeView::Union(name, subs.push(s))) == Some(
            type_ddlog(TypeView::Union(name, subs))->0 + " | "@ + ddlog_variant(name, s),
        ),
        args.len() > 0 ==> type_ddlog(TypeView::Composite(name, args.push(f))) == Some(
            "typedef "@ + name + " = { "@ + join_text(args.map_values(|x: (Option<Seq<char>>, TypeView)| ddlog_field(x)), ", "@)
                + ", "@ + ddlog_field(f) + " }"@,
        ),
{
    if items.len() > 0 {
        let parts = items.map_values(|x| atom_text(x));
        assert(items.push(a).map_values(|x| atom_text(x)) =~= parts.push(atom_text(a)));
        lemma_join_push(parts, atom_text(a), " | "@);
        assert(type_ddlog(TypeView::Enum(name, items.push(a)))->0 =~= type_ddlog(TypeView::Enum(name, items))->0 + " | "@ + atom_text(a));
    }
    if subs.len() > 0 {
        let parts = subs.map_values(|x: TypeView| ddlog_variant(name, x));
        assert(subs.push(s).map_values(|x: TypeView| ddlog_variant(name, x)) =~= parts.push(ddlog_variant(name, s)));
        lemma_join_push(parts, ddlog_variant(name, s), " | "@);
        assert(type_ddlog(TypeView::Union(name, subs.push(s)))->0 =~= type_ddlog(TypeView::Union(name, subs))->0 + " | "@ + ddlog_variant(name, s));
    }
    if args.len() > 0 {
        let parts = args.map_values(|x: (Option<Seq<char>>, TypeView)| ddlog_field(x));
        assert(args.push(f).map_values(|x: (Option<Seq<char>>, TypeView)| ddlog_field(x)) =~= parts.push(ddlog_field(f)));
        lemma_join_push(parts, ddlog_field(f), ", "@);
        assert(type_ddlog(TypeView::Composite(name, args.push(f)))->0 =~= "typedef "@ + name + " = { "@ + join_text(parts, ", "@)
            + ", "@ + ddlog_field(f) + " }"@);
    }
}

/// One more argument of a composite term adds one more `, ...` before the
/// closing brace of its Differential Datalog form and before the closing
/// parenthesis of its printed form.
pub proof fn lemma_term_one_more_argument(sort: TypeView, args: Seq<TermView>, x: TermView)
    requires
        args.len() > 0,
    ensures
        term_ddlog(TermView::Composite(sort, args.push(x))) == type_unique_form(sort) + "{ "@ + join_text(args_ddlog(args), ", "@)
            + ", "@ + term_ddlog(x) + " }"@,
        term_text(TermView::Composite(sort, args.push(x))) == type_unique_form(sort) + "("@ + join_text(args_text(args), ", "@)
            + ", "@ + term_text(x) + ")"@,
{
    assert(args_ddlog(args.push(x)) =~= args_ddlog(args).push(term_ddlog(x)));
    lemma_join_push(args_ddlog(args), term_ddlog(x), ", "@);
    assert(args_text(args.push(x)) =~= args_text(args).push(term_text(x)));
    lemma_join_push(args_text(args), term_text(x), ", "@);
    assert(term_ddlog(TermView::Composite(sort, args.push(x))) =~= type_unique_form(sort) + "{ "@ + join_text(args_ddlog(args), ", "@)
        + ", "@ + term_ddlog(x) + " }"@);
    assert(term_text(TermView::Composite(sort, args.push(x))) =~= type_unique_form(sort) + "("@ + join_text(args_text(args), ", "@)
        + ", "@ + term_text(x) + ")"@);
}

} // verus!
