//! Generation of fresh names.
use crate::integer::{digit_char, nat_decimal};
use crate::text::concat2;
use vstd::prelude::*;
use vstd::string::StringExecFns;

verus! {

fn digit_text(d: u64) -> (r: &'static str)
    requires
        d < 10,
    ensures
        r@ == seq![digit_char(d as nat)],
{
    proof {
        reveal_strlit("0");
        reveal_strlit("1");
        reveal_strlit("2");
        reveal_strlit("3");
        reveal_strlit("4");
        reveal_strlit("5");
        reveal_strlit("6");
        reveal_strlit("7");
        reveal_strlit("8");
        reveal_strlit("9");
    }
    let r = if d == 0 {
        "0"
    } else if d == 1 {
        "1"
    } else if d == 2 {
        "2"
    } else if d == 3 {
        "3"
    } else if d == 4 {
        "4"
    } else if d == 5 {
        "5"
    } else if d == 6 {
        "6"
    } else if d == 7 {
        "7"
    } else if d == 8 {
        "8"
    } else {
        "9"
    };
    assert(r@ =~= seq![digit_char(d as nat)]);
    r
}

/// The decimal notation of a machine natural number.
pub fn decimal_text(n: u64) -> (r: String)
    ensures
        r@ == nat_decimal(n as nat),
    decreases n,
{
    if n < 10 {
        String::from_str(digit_text(n))
    } else {
        let mut s = decimal_text(n / 10);
        s.append(digit_text(n % 10));
        s
    }
}

/// Generates fresh names made of a fixed prefix followed by a running counter.
pub struct NameGenerator {
    prefix: String,
    counter: i64,
}

impl NameGenerator {
    /// The prefix of the generated names.
    pub closed spec fn prefix_view(&self) -> Seq<char> {
        self.prefix@
    }

    /// The number that the next generated name ends with.
    pub closed spec fn counter_view(&self) -> int {
        self.counter as int
    }

    #[verifier::type_invariant]
    closed spec fn counter_not_negative(self) -> bool {
        self.counter >= 0
    }

    /// A generator whose first name is `prefix` followed by `0`.
    pub fn new(prefix: &str) -> (r: Self)
        ensures
            r.prefix_view() == prefix@,
            r.counter_view() == 0,
    {
        NameGenerator { prefix: String::from_str(prefix), counter: 0 }
    }

    /// The prefix followed by the counter in decimal; the counter then goes up by one.
    pub fn generate_name(&mut self) -> (r: String)
        requires
            old(self).counter_view() < i64::MAX,
        ensures
            r@ == old(self).prefix_view() + nat_decimal(old(self).counter_view() as nat),
            final(self).prefix_view() == old(self).prefix_view(),
            final(self).counter_view() == old(self).counter_view() + 1,
    {
        proof {
            use_type_invariant(&*self);
        }
        let digits = decimal_text(self.counter as u64);
        let name = concat2(self.prefix.as_str(), digits.as_str());
        self.counter = self.counter + 1;
        name
    }
}

} // verus!
