//! Collecting the distinct symbols of an expression in first-seen order.
use vstd::prelude::*;
use vstd::string::*;

verus! {

/// A symbol is one ASCII letter or digit.
pub open spec fn is_symbol_char(c: char) -> bool {
    ('a' <= c && c <= 'z') || ('A' <= c && c <= 'Z') || ('0' <= c && c <= '9')
}

/// The distinct symbols of `s`, in the order of their first appearance.
pub open spec fn distinct_symbols(s: Seq<char>) -> Seq<char>
    decreases s.len(),
{
    if s.len() == 0 {
        Seq::empty()
    } else {
        let seen = distinct_symbols(s.drop_last());
        let c = s.last();
        if is_symbol_char(c) && !seen.contains(c) {
            seen.push(c)
        } else {
            seen
        }
    }
}

/// The collected symbols are distinct, each occurs in `s`, and every symbol
/// character of `s` is among them.
pub proof fn lemma_distinct_symbols(s: Seq<char>)
    ensures
        distinct_symbols(s).no_duplicates(),
        forall|i: int|
            0 <= i < distinct_symbols(s).len() ==> is_symbol_char(#[trigger] distinct_symbols(s)[i])
                && s.contains(distinct_symbols(s)[i]),
        forall|i: int|
            0 <= i < s.len() && is_symbol_char(#[trigger] s[i]) ==> distinct_symbols(s).contains(
                s[i],
            ),
    decreases s.len(),
{
    if s.len() > 0 {
        let p = s.drop_last();
        lemma_distinct_symbols(p);
        let seen = distinct_symbols(p);
        assert forall|i: int| 0 <= i < distinct_symbols(s).len() implies is_symbol_char(
            #[trigger] distinct_symbols(s)[i],
        ) && s.contains(distinct_symbols(s)[i]) by {
            if i < seen.len() {
                let k = choose|k: int| 0 <= k < p.len() && p[k] == seen[i];
                assert(s[k] == seen[i]);
            } else {
                assert(s[s.len() - 1] == s.last());
            }
        }
        assert forall|i: int| 0 <= i < s.len() && is_symbol_char(#[trigger] s[i]) implies distinct_symbols(
            s,
        ).contains(s[i]) by {
            if i < s.len() - 1 {
                assert(p[i] == s[i]);
                let k = choose|k: int| 0 <= k < seen.len() && seen[k] == s[i];
                assert(distinct_symbols(s)[k] == s[i]);
            } else if !seen.contains(s.last()) {
                assert(distinct_symbols(s)[seen.len() as int] == s[i]);
            }
        }
    }
}

/// The characters of a string slice, one element per character.
pub fn chars_of(s: &str) -> (r: Vec<char>)
    ensures
        r@ == s@,
{
    let n = s.unicode_len();
    let mut r: Vec<char> = Vec::new();
    let mut i: usize = 0;
    while i < n
        invariant
            n == s@.len(),
            i <= n,
            r@ == s@.subrange(0, i as int),
        decreases n - i,
    {
        r.push(s.get_char(i));
        i = i + 1;
        assert(r@ =~= s@.subrange(0, i as int));
    }
    assert(r@ =~= s@);
    r
}

/// The symbols collected so far, each once, in first-seen order.
pub struct BoolDict {
    pub tokens: Vec<char>,
}

impl BoolDict {
    /// Records `c` if it is a symbol not yet collected.
    pub fn add(&mut self, c: char)
        ensures
            final(self).tokens@ == (if is_symbol_char(c) && !old(self).tokens@.contains(c) {
                old(self).tokens@.push(c)
            } else {
                old(self).tokens@
            }),
    {
        if is_symbol(c) && !contains_char(&self.tokens, c) {
            self.tokens.push(c);
        }
    }
}

/// Whether `c` is a symbol character.
pub fn is_symbol(c: char) -> (r: bool)
    ensures
        r == is_symbol_char(c),
{
    ('a' <= c && c <= 'z') || ('A' <= c && c <= 'Z') || ('0' <= c && c <= '9')
}

/// Whether `v` holds `c`.
pub fn contains_char(v: &Vec<char>, c: char) -> (r: bool)
    ensures
        r == v@.contains(c),
{
    let mut i: usize = 0;
    while i < v.len()
        invariant
            i <= v@.len(),
            forall|k: int| 0 <= k < i ==> v@[k] != c,
        decreases v@.len() - i,
    {
        if v[i] == c {
            return true;
        }
        i = i + 1;
    }
    false
}

/// Collects the distinct symbols of an expression in first-seen order;
/// every other character is ignored.
pub fn lexer(expression: &str) -> (dict: BoolDict)
    ensures
        dict.tokens@ == distinct_symbols(expression@),
        dict.tokens@.no_duplicates(),
        forall|i: int|
            0 <= i < dict.tokens@.len() ==> is_symbol_char(#[trigger] dict.tokens@[i])
                && expression@.contains(dict.tokens@[i]),
        forall|i: int|
            0 <= i < expression@.len() && is_symbol_char(#[trigger] expression@[i])
                ==> dict.tokens@.contains(expression@[i]),
{
    let chars = chars_of(expression);
    let mut bool_dict = BoolDict { tokens: Vec::new() };
    let mut i: usize = 0;
    while i < chars.len()
        invariant
            chars@ == expression@,
            i <= chars@.len(),
            bool_dict.tokens@ == distinct_symbols(chars@.subrange(0, i as int)),
        decreases chars@.len() - i,
    {
        bool_dict.add(chars[i]);
        proof {
            let next = chars@.subrange(0, i + 1);
            assert(next.drop_last() =~= chars@.subrange(0, i as int));
        }
        i = i + 1;
    }
    assert(chars@.subrange(0, i as int) =~= expression@);
    proof {
        lemma_distinct_symbols(expression@);
    }
    bool_dict
}

} // verus!
