//! The Formula grammar: comments, names, types, terms, expressions and
//! constraints, read from text.
//!
//! Each reader takes the text and gives back, on success, what is left of the
//! text after the part it read, together with what it read.
use crate::integer::{integer_literal_value, is_digit_char, is_integer_literal, lemma_nat_decimal_value, nat_decimal, Integer};
use crate::term::{atom_text, bool_text, AtomEnum, AtomView, AtomicTerm, TermView};
use crate::text::{copy_str, join_text};
use vstd::prelude::*;
use vstd::string::{StrSliceExecFns, StringExecFns};

verus! {

pub open spec fn is_alpha(c: char) -> bool {
    ('a' <= c && c <= 'z') || ('A' <= c && c <= 'Z')
}

pub open spec fn is_digit(c: char) -> bool {
    '0' <= c && c <= '9'
}

pub open spec fn is_alnum(c: char) -> bool {
    is_alpha(c) || is_digit(c)
}

/// Space and tab.
pub open spec fn is_space(c: char) -> bool {
    c == ' ' || c == '\t'
}

/// Space, tab, carriage return and line feed.
pub open spec fn is_multispace(c: char) -> bool {
    c == ' ' || c == '\t' || c == '\r' || c == '\n'
}

/// The end of the longest run of characters satisfying `p` from `i`.
pub open spec fn scan(s: Seq<char>, i: int, p: spec_fn(char) -> bool) -> int
    decreases s.len() - i,
{
    if 0 <= i < s.len() && p(s[i]) {
        scan(s, i + 1, p)
    } else {
        i
    }
}

pub proof fn lemma_scan(s: Seq<char>, i: int, p: spec_fn(char) -> bool)
    ensures
        scan(s, i, p) >= i,
        0 <= i <= s.len() ==> scan(s, i, p) <= s.len(),
        forall|k: int| i <= k < scan(s, i, p) ==> p(#[trigger] s[k]),
        0 <= scan(s, i, p) < s.len() ==> !p(s[scan(s, i, p)]),
    decreases s.len() - i,
{
    if 0 <= i < s.len() && p(s[i]) {
        lemma_scan(s, i + 1, p);
    }
}

/// The kinds of characters that the readers skip over in runs.
pub open spec fn in_class(kind: u8, c: char) -> bool {
    if kind == 0 {
        is_space(c)
    } else if kind == 1 {
        is_multispace(c)
    } else if kind == 2 {
        c != '\n'
    } else if kind == 3 {
        is_alnum(c)
    } else if kind == 4 {
        is_alnum(c) || c == '_'
    } else if kind == 5 {
        c == '\''
    } else if kind == 6 {
        is_digit(c)
    } else {
        c != '"'
    }
}

pub open spec fn class(kind: u8) -> spec_fn(char) -> bool {
    |c: char| in_class(kind, c)
}

/// The end of the longest run of spaces and tabs from `i`.
pub open spec fn space0(s: Seq<char>, i: int) -> int {
    scan(s, i, class(0))
}

/// The end of the longest run of white space from `i`.
pub open spec fn multispace0(s: Seq<char>, i: int) -> int {
    scan(s, i, class(1))
}

/// The end of the longest run of characters from `i` that are not a line feed.
pub open spec fn until_newline(s: Seq<char>, i: int) -> int {
    scan(s, i, class(2))
}

/// The end of the longest run of letters and digits from `i`.
pub open spec fn alnum0(s: Seq<char>, i: int) -> int {
    scan(s, i, class(3))
}

/// The end of the longest run of letters, digits and underscores from `i`.
pub open spec fn word0(s: Seq<char>, i: int) -> int {
    scan(s, i, class(4))
}

/// The end of the longest run of quote marks `'` from `i`.
pub open spec fn quotes0(s: Seq<char>, i: int) -> int {
    scan(s, i, class(5))
}

/// The end of the longest run of decimal digits from `i`.
pub open spec fn digits0(s: Seq<char>, i: int) -> int {
    scan(s, i, class(6))
}

/// The end of the longest run of characters other than `"` from `i`.
pub open spec fn string_end(s: Seq<char>, i: int) -> int {
    scan(s, i, class(7))
}

/// Whether the text `lit` starts at `i`.
pub open spec fn has_tag(s: Seq<char>, i: int, lit: Seq<char>) -> bool {
    0 <= i && i + lit.len() <= s.len() && s.subrange(i, i + lit.len()) == lit
}

/// A comment: `//`, then anything up to the next line feed, which ends it.
pub open spec fn spec_comment(s: Seq<char>, i: int) -> Option<int> {
    if has_tag(s, i, "//"@) {
        let e = until_newline(s, i + 2);
        if e < s.len() {
            Some(e + 1)
        } else {
            None
        }
    } else {
        None
    }
}

/// The end of the longest run of comments and white space from `i`.
pub open spec fn spec_skip(s: Seq<char>, i: int) -> int
    decreases s.len() - i,
{
    if 0 <= i <= s.len() {
        match spec_comment(s, i) {
            Some(e) => if e > i { spec_skip(s, e) } else { i },
            None => if i < s.len() && is_multispace(s[i]) {
                spec_skip(s, i + 1)
            } else {
                i
            },
        }
    } else {
        i
    }
}

/// A name: a letter followed by letters and digits.
pub open spec fn spec_id(s: Seq<char>, i: int) -> Option<int> {
    if 0 <= i < s.len() && is_alpha(s[i]) {
        Some(alnum0(s, i + 1))
    } else {
        None
    }
}

/// A variable name: `_`, or a letter followed by letters, digits and
/// underscores, and then quote marks.
pub open spec fn spec_varname(s: Seq<char>, i: int) -> Option<int> {
    if 0 <= i < s.len() && s[i] == '_' {
        Some(i + 1)
    } else if 0 <= i < s.len() && is_alpha(s[i]) {
        Some(quotes0(s, word0(s, i + 1)))
    } else {
        None
    }
}

/// Names separated by dots, as many as follow one another; gives the names and
/// the end.
pub open spec fn dotted_ids(s: Seq<char>, i: int) -> (Seq<Seq<char>>, int)
    decreases s.len() - i,
{
    if 0 <= i < s.len() && s[i] == '.' {
        match spec_id(s, i + 1) {
            Some(e) => {
                proof {
                    lemma_scan(s, i + 2, class(3));
                }
                let rest = dotted_ids(s, e);
                (seq![s.subrange(i + 1, e)] + rest.0, rest.1)
            },
            None => (Seq::empty(), i),
        }
    } else {
        (Seq::empty(), i)
    }
}

/// A type name: names separated by dots, e.g. `left.Node`.
pub open spec fn spec_typename(s: Seq<char>, i: int) -> Option<(Seq<Seq<char>>, int)> {
    match spec_id(s, i) {
        Some(e) => {
            let rest = dotted_ids(s, e);
            Some((seq![s.subrange(i, e)] + rest.0, rest.1))
        },
        None => None,
    }
}

/// The type named by dotted names, known only by that name.
pub open spec fn type_of_names(names: Seq<Seq<char>>) -> crate::type_system::TypeView {
    crate::type_system::TypeView::TypeId(join_text(names, "."@))
}

/// A labelled type name `label : Type`, or a type name alone.
pub open spec fn spec_tagged_typename(s: Seq<char>, i: int) -> Option<(Option<Seq<char>>, Seq<Seq<char>>, int)> {
    let tagged = match spec_id(s, i) {
        Some(e) => {
            let c = space0(s, e);
            if 0 <= c < s.len() && s[c] == ':' {
                match spec_typename(s, space0(s, c + 1)) {
                    Some((names, f)) => Some((Some(s.subrange(i, e)), names, f)),
                    None => None,
                }
            } else {
                None
            }
        },
        None => None,
    };
    match tagged {
        Some(r) => Some(r),
        None => match spec_typename(s, i) {
            Some((names, f)) => Some((None, names, f)),
            None => None,
        },
    }
}

/// A variable: a variable name, and, after a dot, fragments separated by dots.
pub open spec fn spec_variable(s: Seq<char>, i: int) -> Option<(TermView, int)> {
    match spec_varname(s, i) {
        Some(e) => if 0 <= e < s.len() && s[e] == '.' {
            match spec_id(s, e + 1) {
                Some(f) => {
                    let rest = dotted_ids(s, f);
                    Some((TermView::Variable(s.subrange(i, e), seq![s.subrange(e + 1, f)] + rest.0), rest.1))
                },
                None => Some((TermView::Variable(s.subrange(i, e), Seq::empty()), e + 1)),
            }
        } else {
            Some((TermView::Variable(s.subrange(i, e), Seq::empty()), e))
        },
        None => None,
    }
}

/// The end of an optional `+` or `-` at `i`.
pub open spec fn sign0(s: Seq<char>, i: int) -> int {
    if 0 <= i < s.len() && (s[i] == '+' || s[i] == '-') {
        i + 1
    } else {
        i
    }
}

/// The end of a number in floating-point notation at `i`: an optional sign,
/// digits with an optional dot and more digits, or a dot and digits, and an
/// optional exponent.
pub open spec fn float_end(s: Seq<char>, i: int) -> Option<int> {
    let a = sign0(s, i);
    let mantissa = if digits0(s, a) > a {
        let d = digits0(s, a);
        if 0 <= d < s.len() && s[d] == '.' {
            Some(digits0(s, d + 1))
        } else {
            Some(d)
        }
    } else if 0 <= a < s.len() && s[a] == '.' && digits0(s, a + 1) > a + 1 {
        Some(digits0(s, a + 1))
    } else {
        None
    };
    match mantissa {
        Some(m) => if 0 <= m < s.len() && (s[m] == 'e' || s[m] == 'E') && digits0(s, sign0(s, m + 1)) > sign0(s, m + 1) {
            Some(digits0(s, sign0(s, m + 1)))
        } else {
            Some(m)
        },
        None => None,
    }
}

/// An atom: a number (an integer when the number is written as one), `true` or
/// `false`, or a string between double quotes.
pub open spec fn spec_atom(s: Seq<char>, i: int) -> Option<(AtomView, int)> {
    match float_end(s, i) {
        Some(e) => {
            let text = s.subrange(i, e);
            if is_integer_literal(text) {
                Some((AtomView::Int(integer_literal_value(text)), e))
            } else {
                Some((AtomView::Float(text), e))
            }
        },
        None => if has_tag(s, i, "true"@) {
            Some((AtomView::Bool(true), i + 4))
        } else if has_tag(s, i, "false"@) {
            Some((AtomView::Bool(false), i + 5))
        } else if 0 <= i < s.len() && s[i] == '"' {
            let e = string_end(s, i + 1);
            if e < s.len() {
                Some((AtomView::Str(s.subrange(i + 1, e)), e + 1))
            } else {
                None
            }
        } else {
            None
        },
    }
}


fn in_class_exec(kind: u8, c: char) -> (r: bool)
    ensures
        r == in_class(kind, c),
{
    if kind == 0 {
        c == ' ' || c == '\t'
    } else if kind == 1 {
        c == ' ' || c == '\t' || c == '\r' || c == '\n'
    } else if kind == 2 {
        c != '\n'
    } else if kind == 3 {
        ('a' <= c && c <= 'z') || ('A' <= c && c <= 'Z') || ('0' <= c && c <= '9')
    } else if kind == 4 {
        ('a' <= c && c <= 'z') || ('A' <= c && c <= 'Z') || ('0' <= c && c <= '9') || c == '_'
    } else if kind == 5 {
        c == '\''
    } else if kind == 6 {
        '0' <= c && c <= '9'
    } else {
        c != '"'
    }
}

/// The text being read, also held as its characters.
pub struct Input<'a> {
    text: &'a str,
    chars: Vec<char>,
}

impl<'a> Input<'a> {
    pub closed spec fn view_chars(&self) -> Seq<char> {
        self.chars@
    }

    pub closed spec fn wf(&self) -> bool {
        self.chars@ == self.text@
    }

    /// The input of a text.
    pub fn new(text: &'a str) -> (r: Input<'a>)
        ensures
            r.wf(),
            r.view_chars() == text@,
    {
        let n = text.unicode_len();
        let mut chars: Vec<char> = Vec::new();
        let mut i: usize = 0;
        while i < n
            invariant
                i <= n,
                n == text@.len(),
                chars@ == text@.subrange(0, i as int),
            decreases n - i,
        {
            chars.push(text.get_char(i));
            i += 1;
        }
        assert(chars@ =~= text@);
        Input { text, chars }
    }

    /// The number of characters.
    pub fn len(&self) -> (r: usize)
        ensures
            r == self.view_chars().len(),
    {
        self.chars.len()
    }

    /// The character at `i`.
    pub fn at(&self, i: usize) -> (r: char)
        requires
            i < self.view_chars().len(),
        ensures
            r == self.view_chars()[i as int],
    {
        self.chars[i]
    }

    /// The characters from `a` to `b` as a string.
    pub fn slice(&self, a: usize, b: usize) -> (r: String)
        requires
            self.wf(),
            a <= b <= self.view_chars().len(),
        ensures
            r@ == self.view_chars().subrange(a as int, b as int),
    {
        String::from_str(self.text.substring_char(a, b))
    }

    /// The end of the longest run of characters of the given kind from `i`.
    pub fn scan_class(&self, i: usize, kind: u8) -> (r: usize)
        requires
            i <= self.view_chars().len(),
        ensures
            r == scan(self.view_chars(), i as int, class(kind)),
            i <= r <= self.view_chars().len(),
    {
        let mut j = i;
        while j < self.chars.len() && in_class_exec(kind, self.chars[j])
            invariant
                i <= j <= self.chars@.len(),
                scan(self.chars@, i as int, class(kind)) == scan(self.chars@, j as int, class(kind)),
            decreases self.chars@.len() - j,
        {
            j += 1;
        }
        j
    }

    /// Whether the text `lit` starts at `i`.
    pub fn has_tag(&self, i: usize, lit: &str) -> (r: bool)
        requires
            i <= self.view_chars().len(),
        ensures
            r == has_tag(self.view_chars(), i as int, lit@),
    {
        let n = lit.unicode_len();
        if n > self.chars.len() - i {
            return false;
        }
        let total = self.chars.len();
        let mut k: usize = 0;
        while k < n
            invariant
                k <= n,
                n == lit@.len(),
                total == self.chars@.len(),
                i + n <= self.chars@.len(),
                forall|j: int| 0 <= j < k ==> self.chars@[i + j] == lit@[j],
            decreases n - k,
        {
            if self.chars[i + k] != lit.get_char(k) {
                assert(self.chars@.subrange(i as int, i + n)[k as int] != lit@[k as int]);
                return false;
            }
            k += 1;
        }
        assert(self.chars@.subrange(i as int, i + n) =~= lit@);
        true
    }
}


/// Texts by their views.
pub open spec fn strings_view(v: Seq<String>) -> Seq<Seq<char>> {
    v.map_values(|x: String| x@)
}

impl<'a> Input<'a> {
    pub fn read_comment(&self, i: usize) -> (r: Option<usize>)
        requires
            i <= self.view_chars().len(),
        ensures
            match r {
                Some(e) => spec_comment(self.view_chars(), i as int) == Some(e as int) && e <= self.view_chars().len(),
                None => spec_comment(self.view_chars(), i as int) is None,
            },
    {
        proof {
            reveal_strlit("//");
        }
        let n = self.chars.len();
        if !self.has_tag(i, "//") {
            return None;
        }
        let e = self.scan_class(i + 2, 2);
        if e < self.chars.len() {
            proof {
                lemma_scan(self.view_chars(), i + 2, class(2));
            }
            Some(e + 1)
        } else {
            None
        }
    }

    pub fn read_skip(&self, i: usize) -> (r: usize)
        requires
            i <= self.view_chars().len(),
        ensures
            r == spec_skip(self.view_chars(), i as int),
            i <= r <= self.view_chars().len(),
    {
        let mut j = i;
        while j <= self.chars.len()
            invariant
                i <= j <= self.chars@.len(),
                spec_skip(self.chars@, i as int) == spec_skip(self.chars@, j as int),
            decreases self.chars@.len() - j,
        {
            match self.read_comment(j) {
                Some(e) => {
                    proof {
                        lemma_scan(self.view_chars(), j + 2, class(2));
                    }
                    j = e;
                },
                None => {
                    if j < self.chars.len() && in_class_exec(1, self.chars[j]) {
                        j = j + 1;
                    } else {
                        return j;
                    }
                },
            }
        }
        j
    }

    pub fn read_id(&self, i: usize) -> (r: Option<usize>)
        requires
            i <= self.view_chars().len(),
        ensures
            match r {
                Some(e) => spec_id(self.view_chars(), i as int) == Some(e as int) && i < e <= self.view_chars().len(),
                None => spec_id(self.view_chars(), i as int) is None,
            },
    {
        if i < self.chars.len() && is_alpha_exec(self.chars[i]) {
            Some(self.scan_class(i + 1, 3))
        } else {
            None
        }
    }

    pub fn read_varname(&self, i: usize) -> (r: Option<usize>)
        requires
            i <= self.view_chars().len(),
        ensures
            match r {
                Some(e) => spec_varname(self.view_chars(), i as int) == Some(e as int) && i < e <= self.view_chars().len(),
                None => spec_varname(self.view_chars(), i as int) is None,
            },
    {
        if i < self.chars.len() && self.chars[i] == '_' {
            Some(i + 1)
        } else if i < self.chars.len() && is_alpha_exec(self.chars[i]) {
            let w = self.scan_class(i + 1, 4);
            Some(self.scan_class(w, 5))
        } else {
            None
        }
    }

    pub fn read_dotted_ids(&self, i: usize) -> (r: (Vec<String>, usize))
        requires
            self.wf(),
            i <= self.view_chars().len(),
        ensures
            (strings_view(r.0@), r.1 as int) == dotted_ids(self.view_chars(), i as int),
            i <= r.1 <= self.view_chars().len(),
    {
        let mut names: Vec<String> = Vec::new();
        let mut j = i;
        let ghost total = dotted_ids(self.view_chars(), i as int);
        assert(strings_view(names@) =~= Seq::<Seq<char>>::empty());
        while j < self.chars.len() && self.chars[j] == '.'
            invariant
                self.wf(),
                i <= j <= self.chars@.len(),
                total == dotted_ids(self.view_chars(), i as int),
                total == (strings_view(names@) + dotted_ids(self.view_chars(), j as int).0, dotted_ids(self.view_chars(), j as int).1),
            decreases self.chars@.len() - j,
        {
            match self.read_id(j + 1) {
                Some(e) => {
                    let ghost before = strings_view(names@);
                    names.push(self.slice(j + 1, e));
                    proof {
                        assert(strings_view(names@) =~= before.push(self.view_chars().subrange(j + 1, e as int)));
                        assert(strings_view(names@) + dotted_ids(self.view_chars(), e as int).0 =~= before + (seq![self.view_chars().subrange(j + 1, e as int)] + dotted_ids(self.view_chars(), e as int).0));
                    }
                    j = e;
                },
                None => {
                    assert(dotted_ids(self.view_chars(), j as int).0 =~= Seq::<Seq<char>>::empty());
                    assert(strings_view(names@) + Seq::<Seq<char>>::empty() =~= strings_view(names@));
                    return (names, j);
                },
            }
        }
        assert(strings_view(names@) + Seq::<Seq<char>>::empty() =~= strings_view(names@));
        (names, j)
    }

    pub fn read_typename(&self, i: usize) -> (r: Option<(Vec<String>, usize)>)
        requires
            self.wf(),
            i <= self.view_chars().len(),
        ensures
            match r {
                Some((names, e)) => spec_typename(self.view_chars(), i as int) == Some((strings_view(names@), e as int)) && i < e <= self.view_chars().len(),
                None => spec_typename(self.view_chars(), i as int) is None,
            },
    {
        match self.read_id(i) {
            Some(e) => {
                let first = self.slice(i, e);
                let (rest, f) = self.read_dotted_ids(e);
                let mut names: Vec<String> = Vec::new();
                names.push(first);
                let mut rest = rest;
                let ghost first_v = names@;
                let ghost rest_v = rest@;
                names.append(&mut rest);
                assert(names@ == first_v + rest_v);
                assert(strings_view(names@) =~= seq![self.view_chars().subrange(i as int, e as int)] + strings_view(rest_v));
                Some((names, f))
            },
            None => None,
        }
    }

    pub fn read_tagged_typename(&self, i: usize) -> (r: Option<(Option<String>, Vec<String>, usize)>)
        requires
            self.wf(),
            i <= self.view_chars().len(),
        ensures
            match r {
                Some((tag, names, e)) => spec_tagged_typename(self.view_chars(), i as int) == Some((
                    match tag { Some(t) => Some(t@), None => None },
                    strings_view(names@),
                    e as int,
                )) && i < e <= self.view_chars().len(),
                None => spec_tagged_typename(self.view_chars(), i as int) is None,
            },
    {
        match self.read_id(i) {
            Some(e) => {
                let c = self.scan_class(e, 0);
                if c < self.chars.len() && self.chars[c] == ':' {
                    let d = self.scan_class(c + 1, 0);
                    match self.read_typename(d) {
                        Some((names, f)) => {
                            return Some((Some(self.slice(i, e)), names, f));
                        },
                        None => {},
                    }
                }
            },
            None => {},
        }
        match self.read_typename(i) {
            Some((names, f)) => Some((None, names, f)),
            None => None,
        }
    }

    pub fn read_variable(&self, i: usize) -> (r: Option<(AtomicTerm, usize)>)
        requires
            self.wf(),
            i <= self.view_chars().len(),
        ensures
            match r {
                Some((t, e)) => spec_variable(self.view_chars(), i as int) == Some((t@, e as int)) && i < e <= self.view_chars().len(),
                None => spec_variable(self.view_chars(), i as int) is None,
            },
    {
        match self.read_varname(i) {
            Some(e) => {
                let root = self.slice(i, e);
                if e < self.chars.len() && self.chars[e] == '.' {
                    match self.read_id(e + 1) {
                        Some(f) => {
                            let first = self.slice(e + 1, f);
                            let (rest, g) = self.read_dotted_ids(f);
                            let mut frags: Vec<String> = Vec::new();
                            frags.push(first);
                            let mut rest = rest;
                            let ghost first_v = frags@;
                            let ghost rest_v = rest@;
                            frags.append(&mut rest);
                            assert(frags@ == first_v + rest_v);
                            assert(crate::term::texts_view(frags@) =~= seq![self.view_chars().subrange(e + 1, f as int)] + strings_view(rest_v));
                            Some((AtomicTerm::gen_raw_variable_term(root, frags), g))
                        },
                        None => {
                            let t = AtomicTerm::gen_raw_variable_term(root, Vec::new());
                            assert(crate::term::texts_view(Seq::<String>::empty()) =~= Seq::empty());
                            Some((t, e + 1))
                        },
                    }
                } else {
                    let t = AtomicTerm::gen_raw_variable_term(root, Vec::new());
                    assert(crate::term::texts_view(Seq::<String>::empty()) =~= Seq::empty());
                    Some((t, e))
                }
            },
            None => None,
        }
    }

    pub fn read_sign(&self, i: usize) -> (r: usize)
        requires
            i <= self.view_chars().len(),
        ensures
            r == sign0(self.view_chars(), i as int),
            i <= r <= self.view_chars().len(),
    {
        if i < self.chars.len() && (self.chars[i] == '+' || self.chars[i] == '-') {
            i + 1
        } else {
            i
        }
    }

    pub fn read_float_end(&self, i: usize) -> (r: Option<usize>)
        requires
            i <= self.view_chars().len(),
        ensures
            match r {
                Some(e) => float_end(self.view_chars(), i as int) == Some(e as int) && i < e <= self.view_chars().len(),
                None => float_end(self.view_chars(), i as int) is None,
            },
    {
        let a = self.read_sign(i);
        let d = self.scan_class(a, 6);
        let m = if d > a {
            if d < self.chars.len() && self.chars[d] == '.' {
                self.scan_class(d + 1, 6)
            } else {
                d
            }
        } else if a < self.chars.len() && self.chars[a] == '.' {
            let f = self.scan_class(a + 1, 6);
            if f > a + 1 {
                f
            } else {
                return None;
            }
        } else {
            return None;
        };
        if m < self.chars.len() && (self.chars[m] == 'e' || self.chars[m] == 'E') {
            let b = self.read_sign(m + 1);
            let g = self.scan_class(b, 6);
            if g > b {
                return Some(g);
            }
        }
        Some(m)
    }

    pub fn read_atom(&self, i: usize) -> (r: Option<(AtomEnum, usize)>)
        requires
            self.wf(),
            i <= self.view_chars().len(),
        ensures
            match r {
                Some((a, e)) => spec_atom(self.view_chars(), i as int) == Some((a@, e as int)) && i < e <= self.view_chars().len(),
                None => spec_atom(self.view_chars(), i as int) is None,
            },
    {
        proof {
            reveal_strlit("true");
            reveal_strlit("false");
        }
        let n = self.chars.len();
        match self.read_float_end(i) {
            Some(e) => {
                let text = self.slice(i, e);
                if is_integer_literal_exec(&text) {
                    Some((AtomEnum::Int(Integer::from_decimal(text.as_str())), e))
                } else {
                    Some((AtomEnum::Float(text), e))
                }
            },
            None => {
                if self.has_tag(i, "true") {
                    Some((AtomEnum::Bool(true), i + 4))
                } else if self.has_tag(i, "false") {
                    Some((AtomEnum::Bool(false), i + 5))
                } else if i < self.chars.len() && self.chars[i] == '"' {
                    let e = self.scan_class(i + 1, 7);
                    if e < self.chars.len() {
                        Some((AtomEnum::Str(self.slice(i + 1, e)), e + 1))
                    } else {
                        None
                    }
                } else {
                    None
                }
            },
        }
    }
}

fn is_alpha_exec(c: char) -> (r: bool)
    ensures
        r == is_alpha(c),
{
    ('a' <= c && c <= 'z') || ('A' <= c && c <= 'Z')
}

pub(crate) fn is_integer_literal_exec(t: &String) -> (r: bool)
    ensures
        r == is_integer_literal(t@),
{
    let s = t.as_str();
    let n = s.unicode_len();
    if n == 0 {
        return false;
    }
    let first = s.get_char(0);
    let start: usize = if first == '-' || first == '+' { 1 } else { 0 };
    if start == 1 && n == 1 {
        return false;
    }
    let mut k = start;
    while k < n
        invariant
            start <= k <= n,
            n == s@.len(),
            s@ == t@,
            n > start,
            start == (if s@[0] == '-' || s@[0] == '+' { 1int } else { 0int }),
            forall|j: int| start <= j < k ==> crate::integer::is_digit_char(#[trigger] s@[j]),
        decreases n - k,
    {
        let c = s.get_char(k);
        if !('0' <= c && c <= '9') {
            proof {
                assert(c == s@[k as int]);
                if start == 1 {
                    assert(s@.drop_first()[k - 1] == s@[k as int]);
                    assert(!crate::integer::is_digit_char(s@.drop_first()[k - 1]));
                    assert(!crate::integer::all_digits(s@.drop_first()));
                } else {
                    assert(!crate::integer::is_digit_char(s@[k as int]));
                    assert(!crate::integer::all_digits(s@));
                }
                assert(s@ == t@);
            }
            return false;
        }
        k += 1;
    }
    proof {
        if start == 1 {
            assert forall|j: int| 0 <= j < s@.drop_first().len() implies crate::integer::is_digit_char(#[trigger] s@.drop_first()[j]) by {
                assert(s@.drop_first()[j] == s@[j + 1]);
            }
        }
    }
    true
}


/// `%name`, read as a variable.
pub open spec fn spec_param_id(s: Seq<char>, i: int) -> Option<(TermView, int)> {
    if 0 <= i < s.len() && s[i] == '%' {
        match spec_id(s, i + 1) {
            Some(e) => Some((TermView::Variable(s.subrange(i + 1, e), Seq::empty()), e)),
            None => None,
        }
    } else {
        None
    }
}

/// Where what follows an optional `name is ` prefix starts.
pub open spec fn alias_end(s: Seq<char>, i: int) -> int {
    match spec_id(s, i) {
        Some(e) => {
            let a = multispace0(s, e);
            if has_tag(s, a, "is"@) {
                multispace0(s, a + 2)
            } else {
                i
            }
        },
        None => i,
    }
}

/// A term: a composite term, an atom or a variable.
pub open spec fn spec_term(s: Seq<char>, i: int) -> Option<(TermView, int)>
    decreases s.len() - i, 1int,
{
    match spec_composite(s, i) {
        Some(r) => Some(r),
        None => match spec_atom(s, i) {
            Some((a, e)) => Some((TermView::Atom(a), e)),
            None => spec_variable(s, i),
        },
    }
}

/// A composite term: an optional `name is ` prefix, a type name, and arguments
/// separated by commas between brackets. The prefix is not kept.
pub open spec fn spec_composite(s: Seq<char>, i: int) -> Option<(TermView, int)>
    decreases s.len() - i, 0int,
{
    let j = alias_end(s, i);
    match spec_typename(s, j) {
        Some((names, k)) => {
            if 0 <= k < s.len() && s[k] == '(' && k + 1 > i {
                let args = composite_args(s, k + 1);
                let m = args.1;
                if 0 <= m < s.len() && s[m] == ')' {
                    Some((TermView::Composite(type_of_names(names), args.0), m + 1))
                } else {
                    None
                }
            } else {
                None
            }
        },
        None => None,
    }
}

/// An argument of a composite term, with spaces around it: a term or `%name`.
pub open spec fn composite_arg(s: Seq<char>, i: int) -> Option<(TermView, int)>
    decreases s.len() - i, 2int,
{
    let a = space0(s, i);
    if 0 <= i <= a <= s.len() {
        match spec_term(s, a) {
            Some((t, e)) => Some((t, space0(s, e))),
            None => match spec_param_id(s, a) {
                Some((t, e)) => Some((t, space0(s, e))),
                None => None,
            },
        }
    } else {
        None
    }
}

/// Arguments of a composite term separated by commas, possibly none.
pub open spec fn composite_args(s: Seq<char>, i: int) -> (Seq<TermView>, int)
    decreases s.len() - i, 4int,
{
    match composite_arg(s, i) {
        Some((t, e)) => if i < e <= s.len() {
            let more = more_args(s, e);
            (seq![t] + more.0, more.1)
        } else {
            (Seq::empty(), i)
        },
        None => (Seq::empty(), i),
    }
}

/// Further arguments, each after a comma.
pub open spec fn more_args(s: Seq<char>, i: int) -> (Seq<TermView>, int)
    decreases s.len() - i, 3int,
{
    if 0 <= i < s.len() && s[i] == ',' {
        match composite_arg(s, i + 1) {
            Some((t, e)) => if i < e <= s.len() {
                let more = more_args(s, e);
                (seq![t] + more.0, more.1)
            } else {
                (Seq::empty(), i)
            },
            None => (Seq::empty(), i),
        }
    } else {
        (Seq::empty(), i)
    }
}


pub open spec fn terms_of(v: Seq<AtomicTerm>) -> Seq<TermView> {
    v.map_values(|t: AtomicTerm| t@)
}

pub fn type_of_name_list(names: &Vec<String>) -> (r: crate::type_system::RawType)
    ensures
        r@ == type_of_names(strings_view(names@)),
{
    let joined = crate::text::join(names, ".");
    assert(names@.map_values(|p: String| p@) =~= strings_view(names@));
    crate::type_system::RawType::TypeId(joined)
}

impl<'a> Input<'a> {
    pub fn read_param_id(&self, i: usize) -> (r: Option<(AtomicTerm, usize)>)
        requires
            self.wf(),
            i <= self.view_chars().len(),
        ensures
            match r {
                Some((t, e)) => spec_param_id(self.view_chars(), i as int) == Some((t@, e as int)) && i < e <= self.view_chars().len(),
                None => spec_param_id(self.view_chars(), i as int) is None,
            },
    {
        if i < self.chars.len() && self.chars[i] == '%' {
            match self.read_id(i + 1) {
                Some(e) => {
                    let t = AtomicTerm::gen_raw_variable_term(self.slice(i + 1, e), Vec::new());
                    assert(crate::term::texts_view(Seq::<String>::empty()) =~= Seq::empty());
                    Some((t, e))
                },
                None => None,
            }
        } else {
            None
        }
    }

    pub fn read_alias_end(&self, i: usize) -> (r: usize)
        requires
            i <= self.view_chars().len(),
        ensures
            r == alias_end(self.view_chars(), i as int),
            i <= r <= self.view_chars().len(),
    {
        proof {
            reveal_strlit("is");
        }
        let n = self.chars.len();
        match self.read_id(i) {
            Some(e) => {
                let a = self.scan_class(e, 1);
                if self.has_tag(a, "is") {
                    self.scan_class(a + 2, 1)
                } else {
                    i
                }
            },
            None => i,
        }
    }

    /// Read a term at `i`.
    pub fn read_term(&self, i: usize) -> (r: Option<(AtomicTerm, usize)>)
        requires
            self.wf(),
            i <= self.view_chars().len(),
        ensures
            match r {
                Some((t, e)) => spec_term(self.view_chars(), i as int) == Some((t@, e as int)) && e <= self.view_chars().len(),
                None => spec_term(self.view_chars(), i as int) is None,
            },
        decreases self.view_chars().len() - i, 1int,
    {
        match self.read_composite(i) {
            Some(r) => Some(r),
            None => match self.read_atom(i) {
                Some((a, e)) => Some((AtomicTerm::gen_atom_term(a), e)),
                None => self.read_variable(i),
            },
        }
    }

    /// Read a composite term at `i`.
    pub fn read_composite(&self, i: usize) -> (r: Option<(AtomicTerm, usize)>)
        requires
            self.wf(),
            i <= self.view_chars().len(),
        ensures
            match r {
                Some((t, e)) => spec_composite(self.view_chars(), i as int) == Some((t@, e as int)) && e <= self.view_chars().len(),
                None => spec_composite(self.view_chars(), i as int) is None,
            },
        decreases self.view_chars().len() - i, 0int,
    {
        let j = self.read_alias_end(i);
        match self.read_typename(j) {
            Some((names, k)) => {
                if k < self.chars.len() && self.chars[k] == '(' {
                    let (args, m) = self.read_composite_args(k + 1);
                    if m < self.chars.len() && self.chars[m] == ')' {
                        let sort = type_of_name_list(&names);
                        let t = AtomicTerm::Composite(crate::term::AtomicComposite::new(sort, args, None));
                        assert(t@->Composite_1 =~= composite_args(self.view_chars(), k + 1).0);
                        Some((t, m + 1))
                    } else {
                        None
                    }
                } else {
                    None
                }
            },
            None => None,
        }
    }

    pub fn read_composite_arg(&self, i: usize) -> (r: Option<(AtomicTerm, usize)>)
        requires
            self.wf(),
            i <= self.view_chars().len(),
        ensures
            match r {
                Some((t, e)) => composite_arg(self.view_chars(), i as int) == Some((t@, e as int)) && e <= self.view_chars().len(),
                None => composite_arg(self.view_chars(), i as int) is None,
            },
        decreases self.view_chars().len() - i, 2int,
    {
        let a = self.scan_class(i, 0);
        match self.read_term(a) {
            Some((t, e)) => Some((t, self.scan_class(e, 0))),
            None => match self.read_param_id(a) {
                Some((t, e)) => Some((t, self.scan_class(e, 0))),
                None => None,
            },
        }
    }

    pub fn read_composite_args(&self, i: usize) -> (r: (Vec<AtomicTerm>, usize))
        requires
            self.wf(),
            i <= self.view_chars().len(),
        ensures
            (terms_of(r.0@), r.1 as int) == composite_args(self.view_chars(), i as int),
            r.1 <= self.view_chars().len(),
        decreases self.view_chars().len() - i, 4int,
    {
        let mut out: Vec<AtomicTerm> = Vec::new();
        match self.read_composite_arg(i) {
            Some((t, e)) => {
                if !(i < e) {
                    assert(terms_of(out@) =~= Seq::<TermView>::empty());
                    return (out, i);
                }
                let ghost total = composite_args(self.view_chars(), i as int);
                out.push(t);
                let mut pos = e;
                assert(terms_of(out@) =~= seq![t@]);
                while pos < self.chars.len() && self.chars[pos] == ','
                    invariant
                        self.wf(),
                        i < pos <= self.chars@.len(),
                        total == composite_args(self.view_chars(), i as int),
                        total == (terms_of(out@) + more_args(self.view_chars(), pos as int).0, more_args(self.view_chars(), pos as int).1),
                    decreases self.chars@.len() - pos,
                {
                    match self.read_composite_arg(pos + 1) {
                        Some((t2, e2)) => {
                            if !(pos < e2) {
                                assert(terms_of(out@) + Seq::<TermView>::empty() =~= terms_of(out@));
                                return (out, pos);
                            }
                            let ghost before = terms_of(out@);
                            out.push(t2);
                            proof {
                                assert(terms_of(out@) =~= before.push(t2@));
                                assert(terms_of(out@) + more_args(self.view_chars(), e2 as int).0 =~= before + (seq![t2@] + more_args(self.view_chars(), e2 as int).0));
                            }
                            pos = e2;
                        },
                        None => {
                            assert(terms_of(out@) + Seq::<TermView>::empty() =~= terms_of(out@));
                            return (out, pos);
                        },
                    }
                }
                assert(terms_of(out@) + Seq::<TermView>::empty() =~= terms_of(out@));
                (out, pos)
            },
            None => {
                assert(terms_of(out@) =~= Seq::<TermView>::empty());
                (out, i)
            },
        }
    }
}

proof fn lemma_scan_to_end(s: Seq<char>, i: int, p: spec_fn(char) -> bool)
    requires
        0 <= i <= s.len(),
        forall|k: int| i <= k < s.len() ==> p(#[trigger] s[k]),
    ensures
        scan(s, i, p) == s.len(),
    decreases s.len() - i,
{
    if i < s.len() {
        lemma_scan_to_end(s, i + 1, p);
    }
}

/// Reading the printed form of an integer or a boolean atom gives that atom
/// back, and reads the whole text.
pub proof fn lemma_atoms_read_back(a: AtomView)
    requires
        a is Int || a is Bool,
    ensures
        spec_atom(atom_text(a), 0) == Some((a, atom_text(a).len() as int)),
{
    reveal_strlit("true");
    reveal_strlit("false");
    let s = atom_text(a);
    match a {
        AtomView::Int(n) => {
            let m: nat = if n < 0 { (-n) as nat } else { n as nat };
            lemma_nat_decimal_value(m);
            let ds = nat_decimal(m);
            let a0: int = if n < 0 { 1 } else { 0 };
            if n < 0 {
                assert(s == seq!['-'] + ds);
                assert(s.drop_first() =~= ds);
                assert(s[0] == '-');
            } else {
                assert(s == ds);
                assert(is_digit_char(ds[0]));
            }
            assert(sign0(s, 0) == a0);
            assert forall|k: int| a0 <= k < s.len() implies #[trigger] class(6)(s[k]) by {
                if n < 0 {
                    assert(s[k] == ds[k - 1]);
                }
                assert(is_digit_char(s[k]));
            }
            lemma_scan_to_end(s, a0, class(6));
            assert(digits0(s, a0) == s.len());
            assert(float_end(s, 0) == Some(s.len() as int));
            assert(s.subrange(0, s.len() as int) =~= s);
            assert(is_integer_literal(s));
            assert(integer_literal_value(s) == n);
        },
        AtomView::Bool(b) => {
            assert(s == bool_text(b));
            assert(s[0] == 't' || s[0] == 'f');
            assert(sign0(s, 0) == 0);
            assert(scan(s, 0, class(6)) == 0);
            assert(float_end(s, 0) is None);
            if b {
                assert(s.subrange(0, 4) =~= "true"@);
            } else {
                assert(!has_tag(s, 0, "true"@)) by {
                    assert(s.subrange(0, 4)[0] == 'f');
                }
                assert(s.subrange(0, 5) =~= "false"@);
            }
        },
        _ => {},
    }
}

/// A string between double quotes, with no double quote inside, reads as the
/// string atom of what stands between the quotes.
pub proof fn lemma_quoted_text_reads_as_string(t: Seq<char>)
    requires
        forall|k: int| 0 <= k < t.len() ==> t[k] != '"',
    ensures
        spec_atom(seq!['"'] + t + seq!['"'], 0) == Some((AtomView::Str(t), t.len() as int + 2)),
{
    reveal_strlit("true");
    reveal_strlit("false");
    let s = seq!['"'] + t + seq!['"'];
    assert(s[0] == '"');
    assert(sign0(s, 0) == 0);
    assert(scan(s, 0, class(6)) == 0);
    assert(float_end(s, 0) is None);
    assert(!has_tag(s, 0, "true"@)) by {
        if has_tag(s, 0, "true"@) {
            assert(s.subrange(0, 4)[0] == s[0]);
        }
    }
    assert(!has_tag(s, 0, "false"@)) by {
        if has_tag(s, 0, "false"@) {
            assert(s.subrange(0, 5)[0] == s[0]);
        }
    }
    lemma_scan(s, 1, class(7));
    assert forall|k: int| 1 <= k < t.len() + 1 implies #[trigger] class(7)(s[k]) by {
        assert(s[k] == t[k - 1]);
    }
    lemma_scan_upto(s, 1, t.len() as int + 1, class(7));
    assert(s[t.len() as int + 1] == '"');
    assert(string_end(s, 1) == t.len() + 1);
    assert(s.subrange(1, t.len() as int + 1) =~= t);
}

proof fn lemma_scan_upto(s: Seq<char>, i: int, e: int, p: spec_fn(char) -> bool)
    requires
        0 <= i <= e < s.len(),
        forall|k: int| i <= k < e ==> p(#[trigger] s[k]),
        !p(s[e]),
    ensures
        scan(s, i, p) == e,
    decreases e - i,
{
    if i < e {
        lemma_scan_upto(s, i + 1, e, p);
    }
}

} // verus!
