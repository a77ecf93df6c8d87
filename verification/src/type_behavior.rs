//! The earlier form of Formula types, each with a name.
use crate::term::{term_text, AtomicTerm};
use crate::text::{concat3, copy_str};
use vstd::prelude::*;

verus! {

/// A type that has a name.
pub trait TypeBehavior {
    /// The name of the type.
    spec fn name_view(&self) -> Seq<char>;

    /// The name of the type.
    fn name(&self) -> (r: String)
        ensures
            r@ == self.name_view(),
    ;
}

/// Built-in primitive types.
#[derive(Clone, Copy, Debug, PartialEq, Eq, Structural, Hash)]
pub enum BaseType {
    String,
    Integer,
    PosInteger,
    NegInteger,
    Rational,
}

/// A composite type with optionally labelled arguments.
pub struct CompositeType {
    pub name: String,
    pub arguments: Vec<(Option<String>, Type)>,
}

/// A range between two terms.
pub struct RangeType {
    pub low: AtomicTerm,
    pub high: AtomicTerm,
}

/// The union of several types.
pub struct UnionType {
    pub name: String,
    pub subtypes: Vec<Type>,
}

/// A type.
pub enum Type {
    BaseType(BaseType),
    CompositeType(CompositeType),
    RangeType(RangeType),
    UnionType(UnionType),
}

impl TypeBehavior for BaseType {
    open spec fn name_view(&self) -> Seq<char> {
        match self {
            BaseType::String => "String"@,
            BaseType::Integer => "Integer"@,
            BaseType::PosInteger => "PosInteger"@,
            BaseType::NegInteger => "NegInteger"@,
            BaseType::Rational => "Rational"@,
        }
    }

    fn name(&self) -> (r: String) {
        match self {
            BaseType::String => copy_str("String"),
            BaseType::Integer => copy_str("Integer"),
            BaseType::PosInteger => copy_str("PosInteger"),
            BaseType::NegInteger => copy_str("NegInteger"),
            BaseType::Rational => copy_str("Rational"),
        }
    }
}

impl TypeBehavior for CompositeType {
    open spec fn name_view(&self) -> Seq<char> {
        self.name@
    }

    fn name(&self) -> (r: String) {
        self.name.clone()
    }
}

impl TypeBehavior for RangeType {
    /// `(low, high)`.
    open spec fn name_view(&self) -> Seq<char> {
        "("@ + term_text(self.low@) + ", "@ + term_text(self.high@) + ")"@
    }

    fn name(&self) -> (r: String) {
        let low = self.low.to_string();
        let high = self.high.to_string();
        let a = concat3("(", low.as_str(), ", ");
        concat3(a.as_str(), high.as_str(), ")")
    }
}

impl TypeBehavior for UnionType {
    open spec fn name_view(&self) -> Seq<char> {
        self.name@
    }

    fn name(&self) -> (r: String) {
        self.name.clone()
    }
}

impl TypeBehavior for Type {
    open spec fn name_view(&self) -> Seq<char> {
        match self {
            Type::BaseType(t) => t.name_view(),
            Type::CompositeType(t) => t.name_view(),
            Type::RangeType(t) => t.name_view(),
            Type::UnionType(t) => t.name_view(),
        }
    }

    fn name(&self) -> (r: String) {
        match self {
            Type::BaseType(t) => t.name(),
            Type::CompositeType(t) => t.name(),
            Type::RangeType(t) => t.name(),
            Type::UnionType(t) => t.name(),
        }
    }
}

} // verus!
