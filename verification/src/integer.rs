//! Arbitrary-precision integers for integer atoms and arithmetic.
//!
//! An `Integer` holds its sign and its magnitude as base 2^32 digits, least
//! significant first, in canonical form (no leading zero digit, no negative
//! zero). The arithmetic itself is done by `num`'s `BigInt`.
use num::bigint::Sign;
use crate::parser::is_integer_literal_exec;
use num::BigInt;
use vstd::prelude::*;

verus! {

/// The natural number written by little-endian base 2^32 digits.
pub open spec fn digits_value(d: Seq<u32>) -> nat
    decreases d.len(),
{
    if d.len() == 0 {
        0
    } else {
        (d[0] + 4294967296 * digits_value(d.drop_first())) as nat
    }
}

/// Digits with no most significant zero digit.
pub open spec fn canonical_digits(d: Seq<u32>) -> bool {
    d.len() == 0 || d.last() != 0
}

/// The decimal digit character of `d < 10`.
pub open spec fn digit_char(d: nat) -> char {
    seq!['0', '1', '2', '3', '4', '5', '6', '7', '8', '9'][d as int]
}

/// Decimal notation of a natural number, without leading zeros.
pub open spec fn nat_decimal(n: nat) -> Seq<char>
    decreases n,
{
    if n < 10 {
        seq![digit_char(n)]
    } else {
        nat_decimal(n / 10).push(digit_char(n % 10))
    }
}

/// Decimal notation of an integer, with a leading `-` when it is negative.
pub open spec fn int_decimal(i: int) -> Seq<char> {
    if i < 0 {
        seq!['-'] + nat_decimal((-i) as nat)
    } else {
        nat_decimal(i as nat)
    }
}

pub open spec fn is_digit_char(c: char) -> bool {
    '0' <= c && c <= '9'
}

pub open spec fn all_digits(s: Seq<char>) -> bool {
    forall|i: int| 0 <= i < s.len() ==> is_digit_char(#[trigger] s[i])
}

/// The value of a string of decimal digits.
pub open spec fn decimal_value(s: Seq<char>) -> nat
    decreases s.len(),
{
    if s.len() == 0 {
        0
    } else {
        (decimal_value(s.drop_last()) * 10 + (s.last() as u32 - '0' as u32)) as nat
    }
}

/// An optional `+` or `-` sign followed by at least one decimal digit.
pub open spec fn is_integer_literal(s: Seq<char>) -> bool {
    if s.len() > 0 && (s[0] == '-' || s[0] == '+') {
        s.len() > 1 && all_digits(s.drop_first())
    } else {
        s.len() > 0 && all_digits(s)
    }
}

/// The value of an integer literal.
pub open spec fn integer_literal_value(s: Seq<char>) -> int {
    if s.len() > 0 && s[0] == '-' {
        -decimal_value(s.drop_first())
    } else if s.len() > 0 && s[0] == '+' {
        decimal_value(s.drop_first()) as int
    } else {
        decimal_value(s) as int
    }
}

/// Integer division that rounds toward zero.
pub open spec fn trunc_div(a: int, b: int) -> int {
    let q = (if a < 0 { -a } else { a }) / (if b < 0 { -b } else { b });
    if (a < 0) == (b < 0) {
        q
    } else {
        -q
    }
}

proof fn lemma_nat_decimal_len(n: nat)
    ensures
        nat_decimal(n).len() >= 1,
        nat_decimal(n).len() == 1 <==> n < 10,
    decreases n,
{
    if n >= 10 {
        lemma_nat_decimal_len(n / 10);
    }
}

proof fn lemma_digit_char(d: nat)
    requires
        d < 10,
    ensures
        is_digit_char(digit_char(d)),
        digit_char(d) as u32 - '0' as u32 == d,
{
    let digits = seq!['0', '1', '2', '3', '4', '5', '6', '7', '8', '9'];
    assert(digit_char(d) == digits[d as int]);
    if d == 0 { assert(digits[0] == '0'); }
    else if d == 1 { assert(digits[1] == '1'); }
    else if d == 2 { assert(digits[2] == '2'); }
    else if d == 3 { assert(digits[3] == '3'); }
    else if d == 4 { assert(digits[4] == '4'); }
    else if d == 5 { assert(digits[5] == '5'); }
    else if d == 6 { assert(digits[6] == '6'); }
    else if d == 7 { assert(digits[7] == '7'); }
    else if d == 8 { assert(digits[8] == '8'); }
    else { assert(digits[9] == '9'); }
}

/// The decimal notation of a natural number is made of digits and has that
/// number as its value.
pub proof fn lemma_nat_decimal_value(n: nat)
    ensures
        all_digits(nat_decimal(n)),
        decimal_value(nat_decimal(n)) == n,
        nat_decimal(n).len() >= 1,
    decreases n,
{
    lemma_nat_decimal_len(n);
    if n < 10 {
        lemma_digit_char(n);
        let s = nat_decimal(n);
        assert(s.drop_last() =~= Seq::<char>::empty());
        assert(s.last() == digit_char(n));
        assert(decimal_value(s.drop_last()) == 0);
    } else {
        lemma_nat_decimal_value(n / 10);
        lemma_digit_char(n % 10);
        let s = nat_decimal(n);
        assert(s.drop_last() =~= nat_decimal(n / 10));
        assert(s.last() == digit_char(n % 10));
        assert forall|i: int| 0 <= i < s.len() implies is_digit_char(#[trigger] s[i]) by {
            if i < s.len() - 1 {
                assert(s[i] == nat_decimal(n / 10)[i]);
            }
        }
        assert(decimal_value(s) == decimal_value(nat_decimal(n / 10)) * 10 + (n % 10));
        assert((n / 10) * 10 + n % 10 == n) by (nonlinear_arith);
    }
}

/// Different natural numbers have different decimal notations.
pub proof fn lemma_nat_decimal_injective(a: nat, b: nat)
    requires
        nat_decimal(a) == nat_decimal(b),
    ensures
        a == b,
    decreases a,
{
    lemma_nat_decimal_len(a);
    lemma_nat_decimal_len(b);
    let digits = seq!['0', '1', '2', '3', '4', '5', '6', '7', '8', '9'];
    if a < 10 {
        assert(digit_char(a) == nat_decimal(b)[0]);
        assert(digits[a as int] == digits[b as int]);
    } else {
        let da = nat_decimal(a);
        let db = nat_decimal(b);
        assert(da.last() == digit_char(a % 10));
        assert(db.last() == digit_char(b % 10));
        assert(digits[(a % 10) as int] == digits[(b % 10) as int]);
        assert(da.drop_last() =~= nat_decimal(a / 10));
        assert(db.drop_last() =~= nat_decimal(b / 10));
        lemma_nat_decimal_injective(a / 10, b / 10);
    }
}

/// An arbitrary-precision integer.
#[derive(Hash)]
pub struct Integer {
    negative: bool,
    magnitude: Vec<u32>,
}

impl View for Integer {
    type V = int;

    closed spec fn view(&self) -> int {
        if self.negative {
            -digits_value(self.magnitude@)
        } else {
            digits_value(self.magnitude@) as int
        }
    }
}

proof fn lemma_canonical_nonempty_positive(d: Seq<u32>)
    requires
        canonical_digits(d),
        d.len() > 0,
    ensures
        digits_value(d) > 0,
    decreases d.len(),
{
    if d.len() > 1 {
        assert(d.drop_first().last() == d.last());
        lemma_canonical_nonempty_positive(d.drop_first());
    }
}

proof fn lemma_digits_unique(a: Seq<u32>, b: Seq<u32>)
    requires
        canonical_digits(a),
        canonical_digits(b),
        digits_value(a) == digits_value(b),
    ensures
        a == b,
    decreases a.len(),
{
    if a.len() == 0 {
        if b.len() > 0 {
            lemma_canonical_nonempty_positive(b);
        }
        assert(a =~= b);
    } else if b.len() == 0 {
        lemma_canonical_nonempty_positive(a);
    } else {
        let v = digits_value(a) as int;
        let qa = digits_value(a.drop_first()) as int;
        let qb = digits_value(b.drop_first()) as int;
        vstd::arithmetic::div_mod::lemma_fundamental_div_mod_converse(v, 4294967296, qa, a[0] as int);
        vstd::arithmetic::div_mod::lemma_fundamental_div_mod_converse(v, 4294967296, qb, b[0] as int);
        if a.len() > 1 {
            assert(a.drop_first().last() == a.last());
        }
        if b.len() > 1 {
            assert(b.drop_first().last() == b.last());
        }
        lemma_digits_unique(a.drop_first(), b.drop_first());
        assert(a =~= b) by {
            assert forall|i: int| 0 <= i < a.len() implies a[i] == b[i] by {
                if i > 0 {
                    assert(a[i] == a.drop_first()[i - 1]);
                    assert(b[i] == b.drop_first()[i - 1]);
                }
            }
        }
    }
}

impl Integer {
    #[verifier::type_invariant]
    closed spec fn well_formed(self) -> bool {
        &&& canonical_digits(self.magnitude@)
        &&& self.negative ==> self.magnitude@.len() > 0
    }

    /// Zero.
    pub fn zero() -> (r: Integer)
        ensures
            r@ == 0,
    {
        Integer { negative: false, magnitude: Vec::new() }
    }

    /// The integer of a machine integer.
    #[verifier::external_body]
    pub(crate) fn from_i64(x: i64) -> (r: Integer)
        ensures
            r@ == x as int,
    {
        let (s, d) = BigInt::from(x).to_u32_digits();
        Integer { negative: match s { Sign::Minus => true, _ => false }, magnitude: d }
    }

    /// Whether two integers are equal.
    pub fn equals(&self, other: &Integer) -> (r: bool)
        ensures
            r == (self@ == other@),
    {
        proof {
            use_type_invariant(self);
            use_type_invariant(other);
        }
        if self.negative != other.negative {
            proof {
                if self@ == other@ {
                    if self.negative {
                        lemma_canonical_nonempty_positive(self.magnitude@);
                    } else {
                        lemma_canonical_nonempty_positive(other.magnitude@);
                    }
                }
            }
            return false;
        }
        if self.magnitude.len() != other.magnitude.len() {
            proof {
                if self@ == other@ {
                    lemma_digits_unique(self.magnitude@, other.magnitude@);
                }
            }
            return false;
        }
        let mut i: usize = 0;
        while i < self.magnitude.len()
            invariant
                i <= self.magnitude@.len(),
                self.magnitude@.len() == other.magnitude@.len(),
                canonical_digits(self.magnitude@),
                canonical_digits(other.magnitude@),
                self.negative == other.negative,
                forall|j: int| 0 <= j < i ==> self.magnitude@[j] == other.magnitude@[j],
            decreases self.magnitude@.len() - i,
        {
            if self.magnitude[i] != other.magnitude[i] {
                proof {
                    if self@ == other@ {
                        lemma_digits_unique(self.magnitude@, other.magnitude@);
                    }
                }
                return false;
            }
            i += 1;
        }
        assert(self.magnitude@ =~= other.magnitude@);
        true
    }

    /// A copy of this integer.
    pub fn duplicate(&self) -> (r: Integer)
        ensures
            r@ == self@,
    {
        proof {
            use_type_invariant(self);
        }
        let mut digits: Vec<u32> = Vec::new();
        let mut i: usize = 0;
        while i < self.magnitude.len()
            invariant
                i <= self.magnitude@.len(),
                digits@ == self.magnitude@.subrange(0, i as int),
            decreases self.magnitude@.len() - i,
        {
            digits.push(self.magnitude[i]);
            i += 1;
        }
        assert(digits@ =~= self.magnitude@);
        Integer { negative: self.negative, magnitude: digits }
    }

    /// The sum of two integers (`BigInt` addition).
    #[verifier::external_body]
    pub(crate) fn add(&self, other: &Integer) -> (r: Integer)
        ensures
            r@ == self@ + other@,
    {
        let x = BigInt::from_slice(match self.negative { true => Sign::Minus, false => Sign::Plus }, &self.magnitude);
        let y = BigInt::from_slice(match other.negative { true => Sign::Minus, false => Sign::Plus }, &other.magnitude);
        let (s, d) = (x + y).to_u32_digits();
        Integer { negative: match s { Sign::Minus => true, _ => false }, magnitude: d }
    }

    /// The difference of two integers (`BigInt` subtraction).
    #[verifier::external_body]
    pub(crate) fn sub(&self, other: &Integer) -> (r: Integer)
        ensures
            r@ == self@ - other@,
    {
        let x = BigInt::from_slice(match self.negative { true => Sign::Minus, false => Sign::Plus }, &self.magnitude);
        let y = BigInt::from_slice(match other.negative { true => Sign::Minus, false => Sign::Plus }, &other.magnitude);
        let (s, d) = (x - y).to_u32_digits();
        Integer { negative: match s { Sign::Minus => true, _ => false }, magnitude: d }
    }

    /// The product of two integers (`BigInt` multiplication).
    #[verifier::external_body]
    pub(crate) fn mul(&self, other: &Integer) -> (r: Integer)
        ensures
            r@ == self@ * other@,
    {
        let x = BigInt::from_slice(match self.negative { true => Sign::Minus, false => Sign::Plus }, &self.magnitude);
        let y = BigInt::from_slice(match other.negative { true => Sign::Minus, false => Sign::Plus }, &other.magnitude);
        let (s, d) = (x * y).to_u32_digits();
        Integer { negative: match s { Sign::Minus => true, _ => false }, magnitude: d }
    }

    /// The quotient of two integers, rounded toward zero (`BigInt` division).
    #[verifier::external_body]
    pub(crate) fn div(&self, other: &Integer) -> (r: Integer)
        requires
            other@ != 0,
        ensures
            r@ == trunc_div(self@, other@),
    {
        let x = BigInt::from_slice(match self.negative { true => Sign::Minus, false => Sign::Plus }, &self.magnitude);
        let y = BigInt::from_slice(match other.negative { true => Sign::Minus, false => Sign::Plus }, &other.magnitude);
        let (s, d) = (x / y).to_u32_digits();
        Integer { negative: match s { Sign::Minus => true, _ => false }, magnitude: d }
    }

    /// Whether this integer is less than the other (`BigInt` order).
    #[verifier::external_body]
    pub(crate) fn less_than(&self, other: &Integer) -> (r: bool)
        ensures
            r == (self@ < other@),
    {
        let x = BigInt::from_slice(match self.negative { true => Sign::Minus, false => Sign::Plus }, &self.magnitude);
        let y = BigInt::from_slice(match other.negative { true => Sign::Minus, false => Sign::Plus }, &other.magnitude);
        x < y
    }

    /// The decimal notation of this integer (`BigInt`'s `Display`).
    #[verifier::external_body]
    pub(crate) fn to_decimal(&self) -> (r: String)
        ensures
            r@ == int_decimal(self@),
    {
        let x = BigInt::from_slice(match self.negative { true => Sign::Minus, false => Sign::Plus }, &self.magnitude);
        x.to_string()
    }

    /// The integer written by a decimal literal (`BigInt`'s `FromStr`).
    #[verifier::external_body]
    pub(crate) fn from_decimal(s: &str) -> (r: Integer)
        requires
            is_integer_literal(s@),
        ensures
            r@ == integer_literal_value(s@),
    {
        let (sign, d) = <BigInt as std::str::FromStr>::from_str(s).unwrap().to_u32_digits();
        Integer { negative: match sign { Sign::Minus => true, _ => false }, magnitude: d }
    }

    /// The integer of a machine integer.
    pub fn new(x: i64) -> (r: Integer)
        ensures
            r@ == x as int,
    {
        Integer::from_i64(x)
    }

    /// The decimal notation of the integer, with `-` before a negative one.
    pub fn to_string(&self) -> (r: String)
        ensures
            r@ == int_decimal(self@),
    {
        self.to_decimal()
    }

    /// The integer that `s` writes as an optional `+` or `-` followed by
    /// decimal digits; `None` where `s` is not written so.
    pub fn parse(s: &str) -> (r: Option<Integer>)
        ensures
            match r {
                Some(i) => is_integer_literal(s@) && i@ == integer_literal_value(s@),
                None => !is_integer_literal(s@),
            },
    {
        let text = String::from_str(s);
        if is_integer_literal_exec(&text) {
            Some(Integer::from_decimal(s))
        } else {
            None
        }
    }
}

} // verus!
