use differential_formula::integer::Integer;
use differential_formula::term::{AtomEnum, AtomicTerm};

#[test]
fn integer_atom_prints_in_decimal() {
    let t = AtomicTerm::gen_atom_term(AtomEnum::Int(Integer::new(-42)));
    assert_eq!(t.to_string(), "-42");
}
