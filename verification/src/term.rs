//! Formula terms: atoms, variables and composite terms.
use crate::integer::{int_decimal, Integer};
use crate::text::{concat2, concat3, copy_str, debug_quote, debug_quoted, join, join_text};
use crate::type_system::{
    renamed_type, type_unique_form, BaseType, CompositeType, FormulaTypeEnum, RawType, TypeView,
};
use vstd::prelude::*;
use vstd::string::StringExecFns;

verus! {

/// The value of an atom.
///
/// A floating-point atom carries the literal it was written with.
#[derive(Hash)]
pub enum AtomEnum {
    Int(Integer),
    Str(String),
    Bool(bool),
    Float(String),
}

/// The mathematical value of an atom.
pub enum AtomView {
    Int(int),
    Str(Seq<char>),
    Bool(bool),
    Float(Seq<char>),
}

pub open spec fn bool_text(b: bool) -> Seq<char> {
    if b {
        "true"@
    } else {
        "false"@
    }
}

/// How an atom is printed inside a term.
pub open spec fn atom_text(a: AtomView) -> Seq<char> {
    match a {
        AtomView::Int(i) => int_decimal(i),
        AtomView::Str(s) => "\""@ + debug_quoted(s) + "\""@,
        AtomView::Bool(b) => bool_text(b),
        AtomView::Float(t) => t,
    }
}

/// The debugging form of an atom value, as in `Int(3)` or `Str("a")`.
pub open spec fn atom_debug_text(a: AtomView) -> Seq<char> {
    match a {
        AtomView::Int(i) => "Int("@ + int_decimal(i) + ")"@,
        AtomView::Str(s) => "Str("@ + debug_quoted(s) + ")"@,
        AtomView::Bool(b) => "Bool("@ + bool_text(b) + ")"@,
        AtomView::Float(t) => "Float("@ + t + ")"@,
    }
}

/// The base type that the value of an atom belongs to.
pub open spec fn atom_base_type(a: AtomView) -> BaseType {
    match a {
        AtomView::Int(_) => BaseType::Integer,
        AtomView::Str(_) => BaseType::String,
        AtomView::Bool(_) => BaseType::Boolean,
        AtomView::Float(_) => BaseType::Rational,
    }
}

impl View for AtomEnum {
    type V = AtomView;

    open spec fn view(&self) -> AtomView {
        match self {
            AtomEnum::Int(i) => AtomView::Int(i@),
            AtomEnum::Str(s) => AtomView::Str(s@),
            AtomEnum::Bool(b) => AtomView::Bool(*b),
            AtomEnum::Float(t) => AtomView::Float(t@),
        }
    }
}

fn bool_to_text(b: bool) -> (r: String)
    ensures
        r@ == bool_text(b),
{
    if b {
        copy_str("true")
    } else {
        copy_str("false")
    }
}

impl AtomEnum {
    /// Whether two atom values are equal.
    pub fn equals(&self, other: &AtomEnum) -> (r: bool)
        ensures
            r == (self@ == other@),
    {
        match (self, other) {
            (AtomEnum::Int(a), AtomEnum::Int(b)) => a.equals(b),
            (AtomEnum::Str(a), AtomEnum::Str(b)) => *a == *b,
            (AtomEnum::Bool(a), AtomEnum::Bool(b)) => *a == *b,
            (AtomEnum::Float(a), AtomEnum::Float(b)) => *a == *b,
            _ => false,
        }
    }

    /// A copy of this value.
    pub fn duplicate(&self) -> (r: AtomEnum)
        ensures
            r@ == self@,
    {
        match self {
            AtomEnum::Int(i) => AtomEnum::Int(i.duplicate()),
            AtomEnum::Str(s) => AtomEnum::Str(s.clone()),
            AtomEnum::Bool(b) => AtomEnum::Bool(*b),
            AtomEnum::Float(t) => AtomEnum::Float(t.clone()),
        }
    }

    /// The text of the atom as it is printed inside a term.
    pub fn to_text(&self) -> (r: String)
        ensures
            r@ == atom_text(self@),
    {
        match self {
            AtomEnum::Int(i) => i.to_decimal(),
            AtomEnum::Str(s) => {
                let q = debug_quote(s.as_str());
                concat3("\"", q.as_str(), "\"")
            },
            AtomEnum::Bool(b) => bool_to_text(*b),
            AtomEnum::Float(t) => t.clone(),
        }
    }

    /// The debugging form of the value, as in `Int(3)`.
    pub fn debug_text(&self) -> (r: String)
        ensures
            r@ == atom_debug_text(self@),
    {
        match self {
            AtomEnum::Int(i) => {
                let d = i.to_decimal();
                concat3("Int(", d.as_str(), ")")
            },
            AtomEnum::Str(s) => {
                let q = debug_quote(s.as_str());
                concat3("Str(", q.as_str(), ")")
            },
            AtomEnum::Bool(b) => {
                let t = bool_to_text(*b);
                concat3("Bool(", t.as_str(), ")")
            },
            AtomEnum::Float(t) => concat3("Float(", t.as_str(), ")"),
        }
    }

    /// The base type of the value: `Integer`, `String`, `Boolean` or `Rational`.
    pub fn base_type(&self) -> (r: BaseType)
        ensures
            r == atom_base_type(self@),
    {
        match self {
            AtomEnum::Int(_) => BaseType::Integer,
            AtomEnum::Str(_) => BaseType::String,
            AtomEnum::Bool(_) => BaseType::Boolean,
            AtomEnum::Float(_) => BaseType::Rational,
        }
    }
}


/// An atom: a value together with its type.
#[derive(Hash)]
pub struct AtomicAtom {
    pub sort: RawType,
    pub val: AtomEnum,
}

/// A variable such as `x` or, with fragments, `x.src.id`.
#[derive(Hash)]
pub struct AtomicVariable {
    pub sort: RawType,
    pub root: String,
    pub fragments: Vec<String>,
}

/// A composite term such as `Edge(a, Node(1))`.
#[derive(Hash)]
pub struct AtomicComposite {
    pub sort: RawType,
    pub arguments: Vec<AtomicTerm>,
}

/// A Formula term.
#[derive(Hash)]
pub enum AtomicTerm {
    Atom(AtomicAtom),
    Variable(AtomicVariable),
    Composite(AtomicComposite),
}

/// The mathematical value of a term, as far as term equality goes: an atom is
/// its value, a variable its root and fragments, and a composite term its type
/// and arguments.
pub enum TermView {
    Atom(AtomView),
    Variable(Seq<char>, Seq<Seq<char>>),
    Composite(TypeView, Seq<TermView>),
}

pub open spec fn texts_view(v: Seq<String>) -> Seq<Seq<char>> {
    v.map_values(|s: String| s@)
}

impl AtomicTerm {
    /// The mathematical value of the term.
    pub open spec fn term_view(&self) -> TermView
        decreases self,
    {
        match self {
            AtomicTerm::Atom(a) => TermView::Atom(a.val@),
            AtomicTerm::Variable(v) => TermView::Variable(v.root@, texts_view(v.fragments@)),
            AtomicTerm::Composite(c) => TermView::Composite(
                c.sort@,
                Seq::new(
                    c.arguments.len() as nat,
                    |i: int|
                        if 0 <= i < c.arguments.len() {
                            c.arguments[i].term_view()
                        } else {
                            TermView::Atom(AtomView::Bool(false))
                        },
                ),
            ),
        }
    }

    /// The type attached to the term itself.
    pub open spec fn sort_view(&self) -> TypeView {
        match self {
            AtomicTerm::Atom(a) => a.sort@,
            AtomicTerm::Variable(v) => v.sort@,
            AtomicTerm::Composite(c) => c.sort@,
        }
    }
}

/// Whether `b` has the types of `a` at every position: the same type at the
/// top and, for composite terms, argument by argument.
pub open spec fn sorts_kept(a: AtomicTerm, b: AtomicTerm) -> bool
    decreases a,
{
    a.sort_view() == b.sort_view() && match (a, b) {
        (AtomicTerm::Composite(x), AtomicTerm::Composite(y)) => x.arguments.len() == y.arguments.len()
            && forall|i: int| 0 <= i < x.arguments.len() ==> sorts_kept(#[trigger] x.arguments[i], y.arguments[i]),
        _ => true,
    }
}

/// Whether `b` has the types of `a` moved into `scope` at every position: the
/// type of each composite term renamed, atoms and variables keeping theirs.
pub open spec fn sorts_renamed(a: AtomicTerm, b: AtomicTerm, scope: Seq<char>) -> bool
    decreases a,
{
    match (a, b) {
        (AtomicTerm::Composite(x), AtomicTerm::Composite(y)) => y.sort@ == renamed_type(x.sort@, scope)
            && x.arguments.len() == y.arguments.len()
            && forall|i: int| 0 <= i < x.arguments.len() ==> sorts_renamed(#[trigger] x.arguments[i], y.arguments[i], scope),
        (AtomicTerm::Composite(_), _) => false,
        _ => a.sort_view() == b.sort_view(),
    }
}

impl View for AtomicTerm {
    type V = TermView;

    open spec fn view(&self) -> TermView {
        self.term_view()
    }
}

/// The name of the don't-care variable.
pub open spec fn dont_care_name() -> Seq<char> {
    "_"@
}

/// Whether a term is the don't-care variable `_`.
pub open spec fn is_dont_care(t: TermView) -> bool {
    t matches TermView::Variable(root, frags) && root == dont_care_name()
}

/// The arguments of a term: those of a composite term, none for the others.
pub open spec fn term_args(t: TermView) -> Seq<TermView> {
    match t {
        TermView::Composite(_, args) => args,
        _ => Seq::empty(),
    }
}

/// How a term is printed: `Edge(a, Node(1))`, `x.src`, `"\"hi\""` or `3`.
pub open spec fn term_text(t: TermView) -> Seq<char>
    decreases t,
{
    match t {
        TermView::Atom(a) => atom_text(a),
        TermView::Variable(root, frags) => if frags.len() > 0 {
            root + "."@ + join_text(frags, "."@)
        } else {
            root
        },
        TermView::Composite(sort, args) => type_unique_form(sort) + "("@ + join_text(
            args_text(args),
            ", "@,
        ) + ")"@,
    }
}

/// The printed forms of the arguments of a term.
pub open spec fn args_text(args: Seq<TermView>) -> Seq<Seq<char>>
    decreases args,
{
    Seq::new(args.len(), |i: int| if 0 <= i < args.len() { term_text(args[i]) } else { Seq::empty() })
}

/// The term with `scope` added: a variable gets the scope glued in front of its
/// root, a composite term gets a renamed type and renamed arguments, and an atom
/// stays as it is.
pub open spec fn renamed_term(t: TermView, scope: Seq<char>) -> TermView
    decreases t,
{
    match t {
        TermView::Atom(_) => t,
        TermView::Variable(root, frags) => TermView::Variable(scope + root, frags),
        TermView::Composite(sort, args) => TermView::Composite(
            renamed_type(sort, scope),
            Seq::new(args.len(), |i: int| if 0 <= i < args.len() { renamed_term(args[i], scope) } else { t }),
        ),
    }
}

fn texts_equal(a: &Vec<String>, b: &Vec<String>) -> (r: bool)
    ensures
        r == (texts_view(a@) == texts_view(b@)),
{
    if a.len() != b.len() {
        assert(texts_view(a@).len() != texts_view(b@).len());
        return false;
    }
    let mut i: usize = 0;
    while i < a.len()
        invariant
            i <= a@.len(),
            a@.len() == b@.len(),
            forall|j: int| 0 <= j < i ==> a@[j]@ == b@[j]@,
        decreases a@.len() - i,
    {
        if a[i] != b[i] {
            assert(texts_view(a@)[i as int] != texts_view(b@)[i as int]);
            return false;
        }
        i += 1;
    }
    assert(texts_view(a@) =~= texts_view(b@));
    true
}

/// A copy of a list of texts.
pub fn texts_copy(a: &Vec<String>) -> (r: Vec<String>)
    ensures
        texts_view(r@) == texts_view(a@),
{
    let mut r: Vec<String> = Vec::new();
    let mut i: usize = 0;
    while i < a.len()
        invariant
            i <= a@.len(),
            r@.len() == i,
            forall|j: int| 0 <= j < i ==> r@[j]@ == a@[j]@,
        decreases a@.len() - i,
    {
        r.push(a[i].clone());
        i += 1;
    }
    assert(texts_view(r@) =~= texts_view(a@));
    r
}

impl AtomicAtom {
    /// An atom whose type is the base type of its value.
    pub fn new(val: AtomEnum) -> (r: AtomicAtom)
        ensures
            r.val@ == val@,
            r.sort@ == TypeView::Base(atom_base_type(val@)),
    {
        let b = val.base_type();
        AtomicAtom { sort: RawType::Type(FormulaTypeEnum::BaseType(b)), val }
    }
}

impl AtomicVariable {
    /// A variable with the given type, root and fragments.
    pub fn new(sort: RawType, root: String, fragments: Vec<String>) -> (r: AtomicVariable)
        ensures
            r.sort@ == sort@,
            r.root@ == root@,
            texts_view(r.fragments@) == texts_view(fragments@),
    {
        AtomicVariable { sort, root, fragments }
    }

    /// Whether the variable has no fragments.
    pub fn is_root(&self) -> (r: bool)
        ensures
            r == (self.fragments@.len() == 0),
    {
        self.fragments.len() == 0
    }
}

impl AtomicComposite {
    /// A composite term of the given type and arguments; an alias is not kept.
    pub fn new(sort: RawType, arguments: Vec<AtomicTerm>, alias: Option<String>) -> (r: AtomicComposite)
        ensures
            r.sort@ == sort@,
            r.arguments@ == arguments@,
    {
        AtomicComposite { sort, arguments }
    }
}

impl AtomicTerm {
    /// Whether the term is an atom.
    pub fn is_atom(&self) -> (r: bool)
        ensures
            r == (self@ is Atom),
    {
        match self {
            AtomicTerm::Atom(_) => true,
            _ => false,
        }
    }

    /// Whether the term is a variable.
    pub fn is_var(&self) -> (r: bool)
        ensures
            r == (self@ is Variable),
    {
        match self {
            AtomicTerm::Variable(_) => true,
            _ => false,
        }
    }

    /// Whether the term is a composite term.
    pub fn is_composite(&self) -> (r: bool)
        ensures
            r == (self@ is Composite),
    {
        match self {
            AtomicTerm::Composite(_) => true,
            _ => false,
        }
    }

    /// Whether the term is a variable with fragments.
    pub fn is_fragmented_var(&self) -> (r: bool)
        ensures
            r == (self@ matches TermView::Variable(_, frags) && frags.len() > 0),
    {
        match self {
            AtomicTerm::Variable(v) => v.fragments.len() > 0,
            _ => false,
        }
    }

    /// Whether the term is the don't-care variable `_`.
    pub fn is_donot_care_variable(&self) -> (r: bool)
        ensures
            r == is_dont_care(self@),
    {
        match self {
            AtomicTerm::Variable(v) => {
                let dc = copy_str("_");
                v.root == dc
            },
            _ => false,
        }
    }

    /// Whether two terms are equal: atoms by value, variables by root and
    /// fragments, composite terms by type and arguments.
    pub fn equals(&self, other: &AtomicTerm) -> (r: bool)
        ensures
            r == (self@ == other@),
        decreases self,
    {
        match (self, other) {
            (AtomicTerm::Atom(a), AtomicTerm::Atom(b)) => a.val.equals(&b.val),
            (AtomicTerm::Variable(a), AtomicTerm::Variable(b)) => {
                a.root == b.root && texts_equal(&a.fragments, &b.fragments)
            },
            (AtomicTerm::Composite(a), AtomicTerm::Composite(b)) => {
                if !a.sort.equals(&b.sort) || a.arguments.len() != b.arguments.len() {
                    proof {
                        if a.arguments.len() != b.arguments.len() {
                            assert(self@->Composite_1.len() != other@->Composite_1.len());
                        }
                    }
                    return false;
                }
                let mut i: usize = 0;
                while i < a.arguments.len()
                    invariant
                        i <= a.arguments@.len(),
                        a.arguments@.len() == b.arguments@.len(),
                        *self == AtomicTerm::Composite(*a),
                        *other == AtomicTerm::Composite(*b),
                        a.sort@ == b.sort@,
                        forall|j: int|
                            0 <= j < i ==> #[trigger] self@->Composite_1[j] == other@->Composite_1[j],
                    decreases a.arguments@.len() - i,
                {
                    proof {
                        assert(decreases_to!(*self => (*self)->Composite_0));
                        assert(decreases_to!((*self)->Composite_0 => (*self)->Composite_0.arguments));
                        vstd::std_specs::vec::axiom_vec_index_decreases(a.arguments, i as int);
                    }
                    if !a.arguments[i].equals(&b.arguments[i]) {
                        assert(self@->Composite_1[i as int] != other@->Composite_1[i as int]);
                        return false;
                    }
                    i += 1;
                }
                assert(self@->Composite_1 =~= other@->Composite_1);
                true
            },
            _ => false,
        }
    }

    /// A deep copy of the term, with the same value and the same type.
    pub fn duplicate(&self) -> (r: AtomicTerm)
        ensures
            r@ == self@,
            r.sort_view() == self.sort_view(),
            sorts_kept(*self, r),
        decreases self,
    {
        match self {
            AtomicTerm::Atom(a) => AtomicTerm::Atom(
                AtomicAtom { sort: a.sort.duplicate(), val: a.val.duplicate() },
            ),
            AtomicTerm::Variable(v) => {
                let r = AtomicTerm::Variable(
                    AtomicVariable {
                        sort: v.sort.duplicate(),
                        root: v.root.clone(),
                        fragments: texts_copy(&v.fragments),
                    },
                );
                r
            },
            AtomicTerm::Composite(c) => {
                let mut args: Vec<AtomicTerm> = Vec::new();
                let mut i: usize = 0;
                while i < c.arguments.len()
                    invariant
                        i <= c.arguments@.len(),
                        args@.len() == i,
                        *self == AtomicTerm::Composite(*c),
                        forall|j: int| 0 <= j < i ==> (#[trigger] args@[j]).term_view() == c.arguments@[j].term_view(),
                        forall|j: int| 0 <= j < i ==> sorts_kept(c.arguments@[j], #[trigger] args@[j]),
                    decreases c.arguments@.len() - i,
                {
                    proof {
                        assert(decreases_to!(*self => (*self)->Composite_0));
                        assert(decreases_to!((*self)->Composite_0 => (*self)->Composite_0.arguments));
                        vstd::std_specs::vec::axiom_vec_index_decreases(c.arguments, i as int);
                    }
                    args.push(c.arguments[i].duplicate());
                    i += 1;
                }
                let r = AtomicTerm::Composite(AtomicComposite { sort: c.sort.duplicate(), arguments: args });
                assert(r@->Composite_1 =~= self@->Composite_1);
                assert(sorts_kept(*self, r));
                r
            },
        }
    }
}


impl AtomicTerm {
    /// How the term is printed, e.g. `Edge(a, Node(1))` or `x.src`.
    pub fn to_string(&self) -> (res: String)
        ensures
            res@ == term_text(self@),
        decreases self,
    {
        match self {
            AtomicTerm::Atom(a) => {
                let r = a.val.to_text();
                assert(self@ == TermView::Atom(a.val@));
                r
            },
            AtomicTerm::Variable(v) => {
                if v.fragments.len() > 0 {
                    let rest = join(&v.fragments, ".");
                    assert(texts_view(v.fragments@) =~= v.fragments@.map_values(|p: String| p@));
                    let out = concat3(v.root.as_str(), ".", rest.as_str());
                    assert(out@ == term_text(self@));
                    out
                } else {
                    let out = v.root.clone();
                    assert(out@ == term_text(self@));
                    out
                }
            },
            AtomicTerm::Composite(c) => {
                let ghost args = self@->Composite_1;
                let mut parts: Vec<String> = Vec::new();
                let mut i: usize = 0;
                while i < c.arguments.len()
                    invariant
                        i <= c.arguments@.len(),
                        parts@.len() == i,
                        *self == AtomicTerm::Composite(*c),
                        args == self@->Composite_1,
                        forall|j: int| 0 <= j < i ==> (#[trigger] parts@[j])@ == term_text(args[j]),
                    decreases c.arguments@.len() - i,
                {
                    proof {
                        assert(decreases_to!(*self => (*self)->Composite_0));
                        assert(decreases_to!((*self)->Composite_0 => (*self)->Composite_0.arguments));
                        vstd::std_specs::vec::axiom_vec_index_decreases(c.arguments, i as int);
                    }
                    parts.push(c.arguments[i].to_string());
                    i += 1;
                }
                let sort = c.sort.derive_unique_form();
                let inner = join(&parts, ", ");
                let head = concat2(sort.as_str(), "(");
                proof {
                    assert(parts@.map_values(|p: String| p@) =~= args_text(args));
                }
                let out = concat3(head.as_str(), inner.as_str(), ")");
                assert(out@ == term_text(self@));
                out
            },
        }
    }

    /// The unique text form of the term, the same as its printed form.
    pub fn derive_unique_form(&self) -> (r: String)
        ensures
            r@ == term_text(self@),
    {
        self.to_string()
    }

    /// The root of a variable as a variable of its own with no fragments and no
    /// type; any other term is copied.
    pub fn root(&self) -> (r: AtomicTerm)
        ensures
            match self@ {
                TermView::Variable(root, _) => r@ == TermView::Variable(root, Seq::empty())
                    && r.sort_view() == TypeView::Undefined,
                _ => r@ == self@ && r.sort_view() == self.sort_view(),
            },
    {
        match self {
            AtomicTerm::Variable(v) => {
                let r = AtomicTerm::gen_raw_variable_term(v.root.clone(), Vec::new());
                assert(texts_view(Seq::<String>::empty()) =~= Seq::empty());
                r
            },
            _ => self.duplicate(),
        }
    }

    /// A variable with the given root and fragments and no type.
    pub fn gen_raw_variable_term(root: String, fragments: Vec<String>) -> (r: AtomicTerm)
        ensures
            r@ == TermView::Variable(root@, texts_view(fragments@)),
            r.sort_view() == TypeView::Undefined,
    {
        AtomicTerm::Variable(AtomicVariable::new(RawType::undefined(), root, fragments))
    }

    /// An atom holding the value, typed by the base type of the value.
    pub fn gen_atom_term(atom_enum: AtomEnum) -> (r: AtomicTerm)
        ensures
            r@ == TermView::Atom(atom_enum@),
            r.sort_view() == TypeView::Base(atom_base_type(atom_enum@)),
    {
        AtomicTerm::Atom(AtomicAtom::new(atom_enum))
    }

    /// A nullary composite type named `constant` and its only term.
    pub fn gen_constant(constant: String) -> (r: (RawType, AtomicTerm))
        ensures
            r.0@ == TypeView::Composite(constant@, Seq::empty()),
            r.1@ == TermView::Composite(r.0@, Seq::empty()),
    {
        let name = constant.clone();
        let t1 = RawType::Type(
            FormulaTypeEnum::CompositeType(CompositeType { name, arguments: Vec::new() }),
        );
        let t2 = RawType::Type(
            FormulaTypeEnum::CompositeType(CompositeType { name: constant, arguments: Vec::new() }),
        );
        assert(t1@->Composite_1 =~= Seq::empty());
        assert(t2@->Composite_1 =~= Seq::empty());
        let term = AtomicTerm::Composite(AtomicComposite::new(t2, Vec::new(), None));
        assert(term@->Composite_1 =~= Seq::empty());
        (t1, term)
    }

    /// The term with `scope` added to its variables and types.
    pub fn rename(&self, scope: String) -> (r: AtomicTerm)
        ensures
            r@ == renamed_term(self@, scope@),
            sorts_renamed(*self, r, scope@),
        decreases self,
    {
        match self {
            AtomicTerm::Atom(_) => self.duplicate(),
            AtomicTerm::Variable(v) => {
                let root = concat2(scope.as_str(), v.root.as_str());
                AtomicTerm::Variable(
                    AtomicVariable::new(v.sort.duplicate(), root, texts_copy(&v.fragments)),
                )
            },
            AtomicTerm::Composite(c) => {
                let mut args: Vec<AtomicTerm> = Vec::new();
                let mut i: usize = 0;
                while i < c.arguments.len()
                    invariant
                        i <= c.arguments@.len(),
                        args@.len() == i,
                        *self == AtomicTerm::Composite(*c),
                        forall|j: int|
                            0 <= j < i ==> (#[trigger] args@[j])@ == renamed_term(
                                c.arguments@[j]@,
                                scope@,
                            ),
                        forall|j: int| 0 <= j < i ==> sorts_renamed(c.arguments@[j], #[trigger] args@[j], scope@),
                    decreases c.arguments@.len() - i,
                {
                    proof {
                        assert(decreases_to!(*self => (*self)->Composite_0));
                        assert(decreases_to!((*self)->Composite_0 => (*self)->Composite_0.arguments));
                        vstd::std_specs::vec::axiom_vec_index_decreases(c.arguments, i as int);
                    }
                    args.push(c.arguments[i].rename(scope.clone()));
                    i += 1;
                }
                let sort = c.sort.rename_type(scope);
                let r = AtomicTerm::Composite(AtomicComposite { sort, arguments: args });
                assert(r@->Composite_1 =~= renamed_term(self@, scope@)->Composite_1);
                assert(sorts_renamed(*self, r, scope@));
                r
            },
        }
    }

    /// The identifier of the type attached to the term.
    pub fn type_id(&self) -> (r: String)
        ensures
            r@ == type_unique_form(self.sort_view()),
    {
        match self {
            AtomicTerm::Atom(a) => a.sort.type_id(),
            AtomicTerm::Variable(v) => v.sort.type_id(),
            AtomicTerm::Composite(c) => c.sort.type_id(),
        }
    }

    /// Copies of the arguments of a composite term; no arguments for the others.
    pub fn arguments(&self) -> (r: Vec<AtomicTerm>)
        ensures
            r@.len() == term_args(self@).len(),
            forall|i: int| 0 <= i < r@.len() ==> (#[trigger] r@[i])@ == term_args(self@)[i],
    {
        match self {
            AtomicTerm::Composite(c) => {
                let mut args: Vec<AtomicTerm> = Vec::new();
                let mut i: usize = 0;
                while i < c.arguments.len()
                    invariant
                        i <= c.arguments@.len(),
                        args@.len() == i,
                        *self == AtomicTerm::Composite(*c),
                        forall|j: int| 0 <= j < i ==> (#[trigger] args@[j])@ == c.arguments@[j]@,
                    decreases c.arguments@.len() - i,
                {
                    args.push(c.arguments[i].duplicate());
                    i += 1;
                }
                args
            },
            _ => Vec::new(),
        }
    }

    /// The value of an atom; `None` for other terms.
    pub fn into_atom_enum(&self) -> (r: Option<AtomEnum>)
        ensures
            match self@ {
                TermView::Atom(a) => r matches Some(v) && v@ == a,
                _ => r is None,
            },
    {
        match self {
            AtomicTerm::Atom(a) => Some(a.val.duplicate()),
            _ => None,
        }
    }

    /// The default term: the integer atom 0 with no type.
    pub fn default_term() -> (r: AtomicTerm)
        ensures
            r@ == TermView::Atom(AtomView::Int(0)),
            r.sort_view() == TypeView::Undefined,
    {
        AtomicTerm::Atom(AtomicAtom { sort: RawType::undefined(), val: AtomEnum::Int(Integer::zero()) })
    }
}


/// The position of the first argument labelled `label` in a composite type's
/// argument list.
pub open spec fn label_position(tags: Seq<(Option<Seq<char>>, TypeView)>, label: Seq<char>) -> Option<int>
    decreases tags.len(),
{
    if tags.len() == 0 {
        None
    } else if tags[0].0 == Some(label) {
        Some(0)
    } else {
        match label_position(tags.drop_first(), label) {
            Some(i) => Some(i + 1),
            None => None,
        }
    }
}

/// The subterm reached from `t` by following the argument labels of the types of
/// its composite subterms, e.g. `src` then `id`.
pub open spec fn subterm_by_labels(t: TermView, labels: Seq<Seq<char>>) -> Option<TermView>
    decreases labels.len(),
{
    if labels.len() == 0 {
        Some(t)
    } else {
        match t {
            TermView::Composite(TypeView::Composite(_, tags), args) => match label_position(tags, labels[0]) {
                Some(i) => if i < args.len() {
                    subterm_by_labels(args[i], labels.drop_first())
                } else {
                    None
                },
                None => None,
            },
            _ => None,
        }
    }
}

fn find_label(tags: &Vec<(Option<String>, RawType)>, label: &String) -> (r: Option<usize>)
    ensures
        match r {
            Some(i) => label_position(
                Seq::new(tags@.len(), |j: int| (crate::type_system::option_text_view(tags@[j].0), tags@[j].1@)),
                label@,
            ) == Some(i as int),
            None => label_position(
                Seq::new(tags@.len(), |j: int| (crate::type_system::option_text_view(tags@[j].0), tags@[j].1@)),
                label@,
            ) is None,
        },
{
    let ghost full = Seq::new(tags@.len(), |j: int| (crate::type_system::option_text_view(tags@[j].0), tags@[j].1@));
    assert(full.subrange(0, full.len() as int) =~= full);
    let mut i: usize = 0;
    while i < tags.len()
        invariant
            i <= tags@.len(),
            full == Seq::new(tags@.len(), |j: int| (crate::type_system::option_text_view(tags@[j].0), tags@[j].1@)),
            forall|j: int| 0 <= j < i ==> full[j].0 != Some(label@),
            label_position(full, label@) == (match label_position(full.subrange(i as int, full.len() as int), label@) {
                Some(k) => Some(k + i),
                None => None,
            }),
        decreases tags@.len() - i,
    {
        let ghost rest = full.subrange(i as int, full.len() as int);
        assert(rest.drop_first() =~= full.subrange(i as int + 1, full.len() as int));
        let hit = match &tags[i].0 {
            Some(t) => *t == *label,
            None => false,
        };
        if hit {
            assert(rest[0].0 == Some(label@));
            return Some(i);
        }
        assert(rest[0].0 != Some(label@));
        i += 1;
    }
    assert(full.subrange(i as int, full.len() as int) =~= Seq::<(Option<Seq<char>>, TypeView)>::empty());
    None
}

impl AtomicTerm {
    /// A copy of the subterm reached by following argument labels, or `None`
    /// when some label leads nowhere.
    pub fn find_subterm_by_labels(&self, labels: &Vec<String>) -> (r: Option<AtomicTerm>)
        ensures
            match r {
                Some(s) => subterm_by_labels(self@, texts_view(labels@)) == Some(s@),
                None => subterm_by_labels(self@, texts_view(labels@)) is None,
            },
    {
        let mut current: AtomicTerm = self.duplicate();
        assert(texts_view(labels@).subrange(0, labels@.len() as int) =~= texts_view(labels@));
        let mut k: usize = 0;
        while k < labels.len()
            invariant
                k <= labels@.len(),
                subterm_by_labels(self@, texts_view(labels@)) == subterm_by_labels(
                    current@,
                    texts_view(labels@).subrange(k as int, labels@.len() as int),
                ),
            decreases labels@.len() - k,
        {
            let ghost rest = texts_view(labels@).subrange(k as int, labels@.len() as int);
            assert(rest.drop_first() =~= texts_view(labels@).subrange(k as int + 1, labels@.len() as int));
            assert(rest[0] == labels@[k as int]@);
            let next = match &current {
                AtomicTerm::Composite(c) => match &c.sort {
                    RawType::Type(FormulaTypeEnum::CompositeType(ct)) => {
                        match find_label(&ct.arguments, &labels[k]) {
                            Some(i) => {
                                if i < c.arguments.len() {
                                    assert(current@->Composite_0 == c.sort@);
                                    assert(c.sort@->Composite_1 =~= Seq::new(
                                        ct.arguments@.len(),
                                        |j: int| (crate::type_system::option_text_view(ct.arguments@[j].0), ct.arguments@[j].1@),
                                    ));
                                    Some(c.arguments[i].duplicate())
                                } else {
                                    assert(c.sort@->Composite_1 =~= Seq::new(
                                        ct.arguments@.len(),
                                        |j: int| (crate::type_system::option_text_view(ct.arguments@[j].0), ct.arguments@[j].1@),
                                    ));
                                    None
                                }
                            },
                            None => {
                                assert(c.sort@->Composite_1 =~= Seq::new(
                                    ct.arguments@.len(),
                                    |j: int| (crate::type_system::option_text_view(ct.arguments@[j].0), ct.arguments@[j].1@),
                                ));
                                None
                            },
                        }
                    },
                    _ => None,
                },
                _ => None,
            };
            match next {
                Some(n) => {
                    current = n;
                },
                None => {
                    return None;
                },
            }
            k += 1;
        }
        assert(texts_view(labels@).subrange(k as int, labels@.len() as int) =~= Seq::<Seq<char>>::empty());
        Some(current)
    }
}

} // verus!
