//! The types of a Formula domain.
use crate::term::{atom_debug_text, AtomEnum, AtomView};
use crate::text::{concat3, copy_str, debug_quote, debug_quoted};
use vstd::prelude::*;

verus! {

/// A marker for the kinds of types that a domain can define.
pub trait FormulaTypeTrait {}

/// Built-in primitive types.
#[derive(Clone, Copy, Debug, PartialEq, Eq, Structural, Hash)]
pub enum BaseType {
    Boolean,
    String,
    Integer,
    PosInteger,
    NegInteger,
    Rational,
}

/// The mathematical value of a type.
pub enum TypeView {
    TypeId(Seq<char>),
    Base(BaseType),
    Composite(Seq<char>, Seq<(Option<Seq<char>>, TypeView)>),
    Enum(Seq<char>, Seq<AtomView>),
    Range(AtomView, AtomView),
    Renamed(Seq<char>, Box<TypeView>),
    Union(Seq<char>, Seq<TypeView>),
    Undefined,
}

/// A type reference: a type known only by its name, a type definition, or no type.
#[derive(Hash)]
pub enum RawType {
    TypeId(String),
    Type(FormulaTypeEnum),
    Undefined,
}

/// A type as it is defined in a domain.
#[derive(Hash)]
pub enum FormulaTypeEnum {
    /// A built-in primitive type.
    BaseType(BaseType),
    /// `A ::= new (src: B, dst: C)`.
    CompositeType(CompositeType),
    /// A set of atoms, e.g. `B ::= {1, "hello"}`.
    EnumType(EnumType),
    /// A range of integers, e.g. `C ::= {1..100}`.
    RangeType(RangeType),
    /// A type reused from another domain under a scope.
    RenamedType(RenamedType),
    /// A union of types, e.g. `D ::= A + B`.
    UnionType(UnionType),
}

/// A composite type with optionally labelled arguments.
#[derive(Hash)]
pub struct CompositeType {
    pub name: String,
    pub arguments: Vec<(Option<String>, RawType)>,
}

/// A type whose values are the listed atoms.
#[derive(Hash)]
pub struct EnumType {
    pub name: String,
    pub items: Vec<AtomEnum>,
}

/// A range of integers between two bounds.
#[derive(Hash)]
pub struct RangeType {
    pub low: AtomEnum,
    pub high: AtomEnum,
}

/// A type taken over from another domain under a scope.
#[derive(Hash)]
pub struct RenamedType {
    pub scope: String,
    pub base: Box<RawType>,
}

/// The union of several types.
#[derive(Hash)]
pub struct UnionType {
    pub name: String,
    pub subtypes: Vec<RawType>,
}

/// The undefined type.
#[derive(Hash)]
pub struct Undefined {}

impl FormulaTypeTrait for BaseType {}

impl FormulaTypeTrait for CompositeType {}

impl FormulaTypeTrait for EnumType {}

impl FormulaTypeTrait for RangeType {}

impl FormulaTypeTrait for RenamedType {}

impl FormulaTypeTrait for UnionType {}

impl FormulaTypeTrait for Undefined {}

pub open spec fn option_text_view(o: Option<String>) -> Option<Seq<char>> {
    match o {
        Some(s) => Some(s@),
        None => None,
    }
}

impl RawType {
    /// The mathematical value of the type.
    pub open spec fn type_view(&self) -> TypeView
        decreases self,
    {
        match self {
            RawType::TypeId(id) => TypeView::TypeId(id@),
            RawType::Undefined => TypeView::Undefined,
            RawType::Type(t) => match t {
                FormulaTypeEnum::BaseType(b) => TypeView::Base(*b),
                FormulaTypeEnum::CompositeType(c) => TypeView::Composite(
                    c.name@,
                    Seq::new(
                        c.arguments.len() as nat,
                        |i: int|
                            if 0 <= i < c.arguments.len() {
                                (option_text_view(c.arguments[i].0), c.arguments[i].1.type_view())
                            } else {
                                (None, TypeView::Undefined)
                            },
                    ),
                ),
                FormulaTypeEnum::EnumType(e) => TypeView::Enum(
                    e.name@,
                    e.items@.map_values(|a: AtomEnum| a@),
                ),
                FormulaTypeEnum::RangeType(r) => TypeView::Range(r.low@, r.high@),
                FormulaTypeEnum::RenamedType(r) => TypeView::Renamed(
                    r.scope@,
                    Box::new(r.base.type_view()),
                ),
                FormulaTypeEnum::UnionType(u) => TypeView::Union(
                    u.name@,
                    Seq::new(
                        u.subtypes.len() as nat,
                        |i: int|
                            if 0 <= i < u.subtypes.len() {
                                u.subtypes[i].type_view()
                            } else {
                                TypeView::Undefined
                            },
                    ),
                ),
            },
        }
    }
}

impl View for RawType {
    type V = TypeView;

    open spec fn view(&self) -> TypeView {
        self.type_view()
    }
}

/// The name of a base type.
pub open spec fn base_type_name(b: BaseType) -> Seq<char> {
    match b {
        BaseType::Boolean => "Boolean"@,
        BaseType::String => "String"@,
        BaseType::Integer => "Integer"@,
        BaseType::PosInteger => "PosInteger"@,
        BaseType::NegInteger => "NegInteger"@,
        BaseType::Rational => "Rational"@,
    }
}

/// The unique text form of a type: its name, or for a range its bounds, or for a
/// renamed type its quoted scope and the quoted form of its base.
pub open spec fn type_unique_form(t: TypeView) -> Seq<char>
    decreases t,
{
    match t {
        TypeView::TypeId(id) => id,
        TypeView::Base(b) => base_type_name(b),
        TypeView::Composite(name, _) => name,
        TypeView::Enum(name, _) => name,
        TypeView::Range(low, high) => atom_debug_text(low) + " .. "@ + atom_debug_text(high),
        TypeView::Renamed(scope, base) => debug_quoted(scope) + "."@ + debug_quoted(
            type_unique_form(*base),
        ),
        TypeView::Union(name, _) => name,
        TypeView::Undefined => "Undefined"@,
    }
}

/// A type with a scope added: type names get the scope as a prefix, base types
/// stay as they are, and other definitions are wrapped as renamed types.
pub open spec fn renamed_type(t: TypeView, scope: Seq<char>) -> TypeView {
    match t {
        TypeView::TypeId(id) => TypeView::TypeId(scope + "."@ + id),
        TypeView::Base(_) => t,
        TypeView::Undefined => TypeView::Undefined,
        _ => TypeView::Renamed(scope, Box::new(t)),
    }
}

/// The base of a renamed type, one level down.
pub open spec fn unrenamed_type(t: TypeView) -> Option<TypeView> {
    match t {
        TypeView::Renamed(_, base) => Some(*base),
        _ => None,
    }
}

/// Whether `s` occurs as an argument type of the composite type `o`, directly or
/// inside the argument types of its arguments.
pub open spec fn is_subtype(s: TypeView, o: TypeView) -> bool
    decreases o,
{
    match o {
        TypeView::Composite(_, args) => exists|i: int|
            0 <= i < args.len() && (args[i].1 == s || is_subtype(s, #[trigger] args[i].1)),
        _ => false,
    }
}

impl BaseType {
    /// The name of the base type.
    pub fn unique_form(&self) -> (r: String)
        ensures
            r@ == base_type_name(*self),
    {
        match self {
            BaseType::Boolean => copy_str("Boolean"),
            BaseType::String => copy_str("String"),
            BaseType::Integer => copy_str("Integer"),
            BaseType::PosInteger => copy_str("PosInteger"),
            BaseType::NegInteger => copy_str("NegInteger"),
            BaseType::Rational => copy_str("Rational"),
        }
    }
}

fn option_text_equals(a: &Option<String>, b: &Option<String>) -> (r: bool)
    ensures
        r == (option_text_view(*a) == option_text_view(*b)),
{
    match (a, b) {
        (Some(x), Some(y)) => *x == *y,
        (None, None) => true,
        _ => false,
    }
}

fn option_text_copy(a: &Option<String>) -> (r: Option<String>)
    ensures
        option_text_view(r) == option_text_view(*a),
{
    match a {
        Some(x) => Some(x.clone()),
        None => None,
    }
}

fn atoms_equal(a: &Vec<AtomEnum>, b: &Vec<AtomEnum>) -> (r: bool)
    ensures
        r == (a@.map_values(|x: AtomEnum| x@) == b@.map_values(|x: AtomEnum| x@)),
{
    if a.len() != b.len() {
        assert(a@.map_values(|x: AtomEnum| x@).len() != b@.map_values(|x: AtomEnum| x@).len());
        return false;
    }
    let mut i: usize = 0;
    while i < a.len()
        invariant
            i <= a@.len(),
            a@.len() == b@.len(),
            forall|j: int| 0 <= j < i ==> a@[j]@ == b@[j]@,
        decreases a@.len() - i,
    {
        if !a[i].equals(&b[i]) {
            assert(a@.map_values(|x: AtomEnum| x@)[i as int] != b@.map_values(|x: AtomEnum| x@)[i as int]);
            return false;
        }
        i += 1;
    }
    assert(a@.map_values(|x: AtomEnum| x@) =~= b@.map_values(|x: AtomEnum| x@));
    true
}

fn atoms_copy(a: &Vec<AtomEnum>) -> (r: Vec<AtomEnum>)
    ensures
        r@.map_values(|x: AtomEnum| x@) == a@.map_values(|x: AtomEnum| x@),
{
    let mut r: Vec<AtomEnum> = Vec::new();
    let mut i: usize = 0;
    while i < a.len()
        invariant
            i <= a@.len(),
            r@.len() == i,
            forall|j: int| 0 <= j < i ==> r@[j]@ == a@[j]@,
        decreases a@.len() - i,
    {
        r.push(a[i].duplicate());
        i += 1;
    }
    assert(r@.map_values(|x: AtomEnum| x@) =~= a@.map_values(|x: AtomEnum| x@));
    r
}

impl RangeType {
    /// A range between two atoms.
    pub fn new(low: AtomEnum, high: AtomEnum) -> (r: RangeType)
        ensures
            r.low@ == low@,
            r.high@ == high@,
    {
        RangeType { low, high }
    }
}

impl RawType {
    /// The undefined type.
    pub fn undefined() -> (r: RawType)
        ensures
            r@ == TypeView::Undefined,
    {
        RawType::Undefined
    }

    /// Whether this is a built-in primitive type.
    pub fn is_base_type(&self) -> (r: bool)
        ensures
            r == (self@ is Base),
    {
        match self {
            RawType::Type(FormulaTypeEnum::BaseType(_)) => true,
            _ => false,
        }
    }

    /// Whether two types are the same.
    pub fn equals(&self, other: &RawType) -> (r: bool)
        ensures
            r == (self@ == other@),
        decreases self,
    {
        match (self, other) {
            (RawType::TypeId(a), RawType::TypeId(b)) => *a == *b,
            (RawType::Undefined, RawType::Undefined) => true,
            (RawType::Type(a), RawType::Type(b)) => match (a, b) {
                (FormulaTypeEnum::BaseType(x), FormulaTypeEnum::BaseType(y)) => *x == *y,
                (FormulaTypeEnum::CompositeType(x), FormulaTypeEnum::CompositeType(y)) => {
                    if x.name != y.name || x.arguments.len() != y.arguments.len() {
                        proof {
                            if x.arguments.len() != y.arguments.len() {
                                assert(self@->Composite_1.len() != other@->Composite_1.len());
                            }
                        }
                        return false;
                    }
                    let mut i: usize = 0;
                    while i < x.arguments.len()
                        invariant
                            i <= x.arguments@.len(),
                            x.arguments@.len() == y.arguments@.len(),
                            *self == RawType::Type(FormulaTypeEnum::CompositeType(*x)),
                            *other == RawType::Type(FormulaTypeEnum::CompositeType(*y)),
                            x.name@ == y.name@,
                            forall|j: int|
                                0 <= j < i ==> #[trigger] self@->Composite_1[j]
                                    == other@->Composite_1[j],
                        decreases x.arguments@.len() - i,
                    {
                        proof {
                            assert(decreases_to!(*self => x.arguments[i as int].1));
                        }
                        let same_tag = option_text_equals(&x.arguments[i].0, &y.arguments[i].0);
                        if !same_tag || !x.arguments[i].1.equals(&y.arguments[i].1) {
                            assert(self@->Composite_1[i as int] != other@->Composite_1[i as int]);
                            return false;
                        }
                        i += 1;
                    }
                    assert(self@->Composite_1 =~= other@->Composite_1);
                    true
                },
                (FormulaTypeEnum::EnumType(x), FormulaTypeEnum::EnumType(y)) => {
                    x.name == y.name && atoms_equal(&x.items, &y.items)
                },
                (FormulaTypeEnum::RangeType(x), FormulaTypeEnum::RangeType(y)) => {
                    x.low.equals(&y.low) && x.high.equals(&y.high)
                },
                (FormulaTypeEnum::RenamedType(x), FormulaTypeEnum::RenamedType(y)) => {
                    if x.scope != y.scope {
                        return false;
                    }
                    let same = x.base.equals(&y.base);
                    proof {
                        if !same {
                            assert(self@->Renamed_1 != other@->Renamed_1);
                        }
                    }
                    same
                },
                (FormulaTypeEnum::UnionType(x), FormulaTypeEnum::UnionType(y)) => {
                    if x.name != y.name || x.subtypes.len() != y.subtypes.len() {
                        proof {
                            if x.subtypes.len() != y.subtypes.len() {
                                assert(self@->Union_1.len() != other@->Union_1.len());
                            }
                        }
                        return false;
                    }
                    let mut i: usize = 0;
                    while i < x.subtypes.len()
                        invariant
                            i <= x.subtypes@.len(),
                            x.subtypes@.len() == y.subtypes@.len(),
                            *self == RawType::Type(FormulaTypeEnum::UnionType(*x)),
                            *other == RawType::Type(FormulaTypeEnum::UnionType(*y)),
                            x.name@ == y.name@,
                            forall|j: int|
                                0 <= j < i ==> #[trigger] self@->Union_1[j] == other@->Union_1[j],
                        decreases x.subtypes@.len() - i,
                    {
                        proof {
                            assert(decreases_to!(*self => x.subtypes[i as int]));
                        }
                        if !x.subtypes[i].equals(&y.subtypes[i]) {
                            assert(self@->Union_1[i as int] != other@->Union_1[i as int]);
                            return false;
                        }
                        i += 1;
                    }
                    assert(self@->Union_1 =~= other@->Union_1);
                    true
                },
                _ => false,
            },
            _ => false,
        }
    }

    /// A deep copy of this type.
    pub fn duplicate(&self) -> (r: RawType)
        ensures
            r@ == self@,
        decreases self,
    {
        match self {
            RawType::TypeId(id) => RawType::TypeId(id.clone()),
            RawType::Undefined => RawType::Undefined,
            RawType::Type(t) => match t {
                FormulaTypeEnum::BaseType(b) => RawType::Type(FormulaTypeEnum::BaseType(*b)),
                FormulaTypeEnum::CompositeType(c) => {
                    let mut args: Vec<(Option<String>, RawType)> = Vec::new();
                    let mut i: usize = 0;
                    while i < c.arguments.len()
                        invariant
                            i <= c.arguments@.len(),
                            args@.len() == i,
                            *self == RawType::Type(FormulaTypeEnum::CompositeType(*c)),
                            forall|j: int|
                                0 <= j < i ==> option_text_view(#[trigger] args@[j].0)
                                    == option_text_view(c.arguments@[j].0) && args@[j].1@
                                    == c.arguments@[j].1@,
                        decreases c.arguments@.len() - i,
                    {
                        proof {
                            assert(decreases_to!(*self => (*self)->Type_0));
                            assert(decreases_to!((*self)->Type_0 => (*self)->Type_0->CompositeType_0));
                            assert(decreases_to!((*self)->Type_0->CompositeType_0 => (*self)->Type_0->CompositeType_0.arguments));
                            vstd::std_specs::vec::axiom_vec_index_decreases(c.arguments, i as int);
                            assert(decreases_to!(c.arguments[i as int] => c.arguments[i as int].1));
                            assert(decreases_to!(*self => c.arguments[i as int].1));
                        }
                        let tag = option_text_copy(&c.arguments[i].0);
                        let sub = c.arguments[i].1.duplicate();
                        args.push((tag, sub));
                        i += 1;
                    }
                    let r = RawType::Type(
                        FormulaTypeEnum::CompositeType(
                            CompositeType { name: c.name.clone(), arguments: args },
                        ),
                    );
                    assert(r@->Composite_1 =~= self@->Composite_1);
                    r
                },
                FormulaTypeEnum::EnumType(e) => RawType::Type(
                    FormulaTypeEnum::EnumType(
                        EnumType { name: e.name.clone(), items: atoms_copy(&e.items) },
                    ),
                ),
                FormulaTypeEnum::RangeType(rt) => RawType::Type(
                    FormulaTypeEnum::RangeType(
                        RangeType { low: rt.low.duplicate(), high: rt.high.duplicate() },
                    ),
                ),
                FormulaTypeEnum::RenamedType(rt) => {
                    let base = rt.base.duplicate();
                    RawType::Type(
                        FormulaTypeEnum::RenamedType(
                            RenamedType { scope: rt.scope.clone(), base: Box::new(base) },
                        ),
                    )
                },
                FormulaTypeEnum::UnionType(u) => {
                    let mut subs: Vec<RawType> = Vec::new();
                    let mut i: usize = 0;
                    while i < u.subtypes.len()
                        invariant
                            i <= u.subtypes@.len(),
                            subs@.len() == i,
                            *self == RawType::Type(FormulaTypeEnum::UnionType(*u)),
                            forall|j: int| 0 <= j < i ==> (#[trigger] subs@[j]).type_view() == u.subtypes@[j].type_view(),
                        decreases u.subtypes@.len() - i,
                    {
                        proof {
                            assert(decreases_to!(*self => (*self)->Type_0));
                            assert(decreases_to!((*self)->Type_0 => (*self)->Type_0->UnionType_0));
                            assert(decreases_to!((*self)->Type_0->UnionType_0 => (*self)->Type_0->UnionType_0.subtypes));
                            vstd::std_specs::vec::axiom_vec_index_decreases(u.subtypes, i as int);
                            assert(decreases_to!(*self => u.subtypes[i as int]));
                        }
                        subs.push(u.subtypes[i].duplicate());
                        i += 1;
                    }
                    let r = RawType::Type(
                        FormulaTypeEnum::UnionType(UnionType { name: u.name.clone(), subtypes: subs }),
                    );
                    assert(r@->Union_1 =~= self@->Union_1);
                    r
                },
            },
        }
    }

    /// The unique text form of the type, which is also how it is displayed.
    pub fn derive_unique_form(&self) -> (r: String)
        ensures
            r@ == type_unique_form(self@),
        decreases self,
    {
        match self {
            RawType::TypeId(id) => id.clone(),
            RawType::Undefined => copy_str("Undefined"),
            RawType::Type(t) => match t {
                FormulaTypeEnum::BaseType(b) => b.unique_form(),
                FormulaTypeEnum::CompositeType(c) => c.name.clone(),
                FormulaTypeEnum::EnumType(e) => e.name.clone(),
                FormulaTypeEnum::RangeType(rt) => {
                    let low = rt.low.debug_text();
                    let high = rt.high.debug_text();
                    concat3(low.as_str(), " .. ", high.as_str())
                },
                FormulaTypeEnum::RenamedType(rt) => {
                    let scope = debug_quote(rt.scope.as_str());
                    let base_form = rt.base.derive_unique_form();
                    let base = debug_quote(base_form.as_str());
                    concat3(scope.as_str(), ".", base.as_str())
                },
                FormulaTypeEnum::UnionType(u) => u.name.clone(),
            },
        }
    }

    /// The text of the type (its unique form).
    pub fn to_string(&self) -> (r: String)
        ensures
            r@ == type_unique_form(self@),
    {
        self.derive_unique_form()
    }

    /// The identifier of the type (its unique form).
    pub fn type_id(&self) -> (r: String)
        ensures
            r@ == type_unique_form(self@),
    {
        self.derive_unique_form()
    }

    /// Whether this type occurs among the argument types of the composite type `other`,
    /// directly or further down.
    pub fn is_subtype_of(&self, other: &RawType) -> (r: bool)
        ensures
            r == is_subtype(self@, other@),
        decreases other,
    {
        match other {
            RawType::Type(FormulaTypeEnum::CompositeType(c)) => {
                let mut i: usize = 0;
                while i < c.arguments.len()
                    invariant
                        i <= c.arguments@.len(),
                        *other == RawType::Type(FormulaTypeEnum::CompositeType(*c)),
                        forall|j: int|
                            0 <= j < i ==> !(other@->Composite_1[j].1 == self@ || is_subtype(
                                self@,
                                #[trigger] other@->Composite_1[j].1,
                            )),
                    decreases c.arguments@.len() - i,
                {
                    proof {
                        assert(decreases_to!(*other => c.arguments[i as int].1));
                    }
                    if self.equals(&c.arguments[i].1) || self.is_subtype_of(&c.arguments[i].1) {
                        assert(other@->Composite_1[i as int].1 == c.arguments[i as int].1@);
                        return true;
                    }
                    i += 1;
                }
                false
            },
            _ => false,
        }
    }

    /// The type with `scope` added: a type name becomes `scope.name`, a base type
    /// stays, and any other definition is wrapped as a renamed type.
    pub fn rename_type(&self, scope: String) -> (r: RawType)
        ensures
            r@ == renamed_type(self@, scope@),
    {
        match self {
            RawType::Type(FormulaTypeEnum::BaseType(b)) => RawType::Type(
                FormulaTypeEnum::BaseType(*b),
            ),
            RawType::Type(_) => {
                let base = self.duplicate();
                RawType::Type(
                    FormulaTypeEnum::RenamedType(RenamedType { scope, base: Box::new(base) }),
                )
            },
            RawType::TypeId(id) => {
                let renamed = concat3(scope.as_str(), ".", id.as_str());
                RawType::TypeId(renamed)
            },
            RawType::Undefined => RawType::Undefined,
        }
    }

    /// The base of a renamed type, one level down; `None` for any other type.
    pub fn unrename_type(&self) -> (r: Option<RawType>)
        ensures
            match r {
                Some(t) => unrenamed_type(self@) == Some(t@),
                None => unrenamed_type(self@) is None,
            },
    {
        match self {
            RawType::Type(FormulaTypeEnum::RenamedType(rt)) => Some(rt.base.duplicate()),
            _ => None,
        }
    }
}

/// Renaming a defined type that is not a base type and then unrenaming it gives
/// the type back.
pub proof fn lemma_unrename_after_rename(t: TypeView, scope: Seq<char>)
    requires
        !(t is TypeId),
        !(t is Base),
        !(t is Undefined),
    ensures
        unrenamed_type(renamed_type(t, scope)) == Some(t),
{
}

/// A base type, a type name and the undefined type have nothing to unrename,
/// and renaming keeps a base type and the undefined type as they are.
pub proof fn lemma_rename_keeps_base_and_undefined(t: TypeView, scope: Seq<char>)
    requires
        t is Base || t is Undefined,
    ensures
        renamed_type(t, scope) == t,
        unrenamed_type(t) is None,
{
}

} // verus!
