//! The token model: classified characters and sequences of them.
//!
//! The escaping pass turns raw text into a sequence of tokens, so that a `$`
//! or `%` that has already been recognised (or deliberately escaped) keeps
//! that status across later re-scans.

use vstd::prelude::*;

verus! {

broadcast use vstd::seq_lib::group_seq_properties;

/// An invocation marker, a variable marker, or a plain character.
#[derive(Debug, Clone, Copy, PartialEq, Eq, Structural)]
pub enum Character {
    /// The marker for a line invocation.
    Dollar,
    /// The marker for a variable substitution.
    Percent,
    /// A plain or escaped character.
    Char(char),
}

/// A vector of `Character`s, the input and output of most functions here.
#[derive(Debug, Clone, PartialEq, Eq)]
pub struct CharVec(pub Vec<Character>);

impl View for CharVec {
    type V = Seq<Character>;

    open spec fn view(&self) -> Seq<Character> {
        self.0@
    }
}

/// The plain glyph a token stands for: markers collapse to `$` and `%`.
pub open spec fn glyph(t: Character) -> char {
    match t {
        Character::Dollar => '$',
        Character::Percent => '%',
        Character::Char(c) => c,
    }
}

/// Plain rendering of a token sequence: every token becomes its glyph.
pub open spec fn plain_text(ts: Seq<Character>) -> Seq<char> {
    Seq::new(ts.len(), |i: int| glyph(ts[i]))
}

/// Display rendering of one token: markers collapse to their glyph, while a
/// literal `$` or `%` is re-escaped so a fresh escaping pass recovers it.
pub open spec fn shown(t: Character) -> Seq<char> {
    match t {
        Character::Dollar => seq!['$'],
        Character::Percent => seq!['%'],
        Character::Char(c) => if c == '$' {
            seq!['\\'].push('$')
        } else if c == '%' {
            seq!['\\'].push('%')
        } else {
            seq![c]
        },
    }
}

/// Display rendering of a token sequence.
pub open spec fn shown_text(ts: Seq<Character>) -> Seq<char>
    decreases ts.len(),
{
    if ts.len() == 0 {
        Seq::empty()
    } else {
        shown(ts[0]) + shown_text(ts.skip(1))
    }
}

/// The literal token carrying a character.
///
/// Kept opaque so reasoning goes through its one revealed equation.
#[verifier::opaque]
pub open spec fn lit_of(c: char) -> Character {
    Character::Char(c)
}

/// Raw text taken verbatim: every character becomes a literal token.
pub open spec fn as_literals(s: Seq<char>) -> Seq<Character> {
    Seq::new(s.len(), |i: int| lit_of(s[i]))
}

/// Relies on `String`'s `FromIterator<char>` implementation: collecting
/// characters yields the string holding exactly those characters in order.
#[verifier::external_body]
pub(crate) fn chars_to_string(v: &Vec<char>) -> (r: String)
    ensures
        r@ == v@,
{
    v.iter().collect()
}

/// Collects the characters of a string slice into a vector.
pub(crate) fn str_to_chars(s: &str) -> (r: Vec<char>)
    ensures
        r@ == s@,
{
    let n = s.unicode_len();
    let mut r: Vec<char> = Vec::new();
    let mut i: usize = 0;
    while i < n
        invariant
            i <= n,
            n == s@.len(),
            r@ == s@.subrange(0, i as int),
        decreases n - i,
    {
        r.push(s.get_char(i));
        i = i + 1;
        proof {
            assert(r@ =~= s@.subrange(0, i as int));
        }
    }
    proof {
        assert(s@.subrange(0, n as int) =~= s@);
    }
    r
}

/// Tags every character of the suffix `v[i..]` as a literal token.
pub(crate) fn literals_from(v: &Vec<char>, i: usize) -> (r: Vec<Character>)
    requires
        i <= v@.len(),
    ensures
        r@ == as_literals(v@.skip(i as int)),
{
    let n = v.len();
    let mut r: Vec<Character> = Vec::new();
    let mut k = i;
    while k < n
        invariant
            i <= k <= n,
            n == v@.len(),
            r@ == as_literals(v@.subrange(i as int, k as int)),
        decreases n - k,
    {
        let c = v[k];
        r.push(Character::Char(c));
        k = k + 1;
        proof {
            reveal(lit_of);
            assert(lit_of(c) == Character::Char(c));
            assert(r@ =~= as_literals(v@.subrange(i as int, k as int)));
        }
    }
    proof {
        assert(v@.subrange(i as int, n as int) =~= v@.skip(i as int));
        assert(r@ =~= as_literals(v@.skip(i as int)));
    }
    r
}

impl CharVec {
    /// Convert the `CharVec` into production-ready output.
    ///
    /// This reverts all `Dollar`s and `Percent`s into their chars.
    pub fn output(&self) -> (r: String)
        ensures
            r@ == plain_text(self@),
    {
        let chars = plain_chars_from(&self.0, 0);
        proof {
            assert(self.0@.skip(0) =~= self.0@);
        }
        chars_to_string(&chars)
    }
}

/// Plain rendering of the token suffix `v[i..]` as characters.
pub(crate) fn plain_chars_from(v: &Vec<Character>, i: usize) -> (r: Vec<char>)
    requires
        i <= v@.len(),
    ensures
        r@ == plain_text(v@.skip(i as int)),
    decreases v@.len() - i,
{
    if i == v.len() {
        let r: Vec<char> = Vec::new();
        proof {
            assert(v@.skip(i as int).len() == 0);
            assert(plain_text(v@.skip(i as int)).len() == 0);
            assert(r@ =~= plain_text(v@.skip(i as int)));
        }
        r
    } else {
        let mut r: Vec<char> = Vec::new();
        let g = match v[i] {
            Character::Dollar => '$',
            Character::Percent => '%',
            Character::Char(c) => c,
        };
        r.push(g);
        let mut rest = plain_chars_from(v, i + 1);
        r.append(&mut rest);
        proof {
            let suff = v@.skip(i as int);
            assert(plain_text(suff).len() == suff.len());
            assert forall|j: int| 0 <= j < r@.len() implies r@[j] == plain_text(suff)[j] by {
                assert(plain_text(suff)[j] == glyph(suff[j]));
                if j == 0 {
                    assert(suff[0] == v@[i as int]);
                } else {
                    assert(r@[j] == plain_text(v@.skip(i + 1))[j - 1]);
                    assert(plain_text(v@.skip(i + 1))[j - 1] == glyph(v@.skip(i + 1)[j - 1]));
                    assert(v@.skip(i + 1)[j - 1] == suff[j]);
                }
            }
            assert(r@ =~= plain_text(suff));
        }
        r
    }
}

/// Display rendering of the token suffix `v[i..]` as characters.
pub(crate) fn shown_chars_from(v: &Vec<Character>, i: usize) -> (r: Vec<char>)
    requires
        i <= v@.len(),
    ensures
        r@ == shown_text(v@.skip(i as int)),
    decreases v@.len() - i,
{
    if i == v.len() {
        let r: Vec<char> = Vec::new();
        proof {
            assert(r@ =~= shown_text(v@.skip(i as int)));
        }
        r
    } else {
        let mut r: Vec<char> = Vec::new();
        match v[i] {
            Character::Dollar => r.push('$'),
            Character::Percent => r.push('%'),
            Character::Char(c) => {
                if c == '$' {
                    r.push('\\');
                    r.push('$');
                } else if c == '%' {
                    r.push('\\');
                    r.push('%');
                } else {
                    r.push(c);
                }
            },
        }
        let mut rest = shown_chars_from(v, i + 1);
        r.append(&mut rest);
        proof {
            assert(v@.skip(i as int).skip(1) =~= v@.skip(i + 1));
            assert(r@ =~= shown_text(v@.skip(i as int)));
        }
        r
    }
}

/// The view of each token vector, in order.
pub open spec fn tok_views(vs: Seq<CharVec>) -> Seq<Seq<Character>> {
    Seq::new(vs.len(), |i: int| vs[i]@)
}

/// Whether `p` is a prefix of `s`.
pub open spec fn has_prefix<T>(s: Seq<T>, p: Seq<T>) -> bool {
    p.len() <= s.len() && s.subrange(0, p.len() as int) == p
}

/// Splits a token sequence on a separator token; the separator belongs to no
/// piece, and a sequence without it is one piece.
pub open spec fn split_toks(s: Seq<Character>, sep: Character) -> Seq<Seq<Character>>
    decreases s.len(),
{
    if s.len() == 0 {
        seq![Seq::empty()]
    } else if s[0] == sep {
        seq![Seq::empty()] + split_toks(s.skip(1), sep)
    } else {
        let rest = split_toks(s.skip(1), sep);
        seq![seq![s[0]] + rest[0]] + rest.skip(1)
    }
}

/// A copy of the tokens `v[from..to]`.
pub(crate) fn copy_toks_range(v: &Vec<Character>, from: usize, to: usize) -> (r: Vec<Character>)
    requires
        from <= to <= v@.len(),
    ensures
        r@ == v@.subrange(from as int, to as int),
{
    let mut r: Vec<Character> = Vec::new();
    let mut i: usize = from;
    while i < to
        invariant
            from <= i <= to <= v@.len(),
            r@ == v@.subrange(from as int, i as int),
        decreases to - i,
    {
        r.push(v[i]);
        i = i + 1;
        proof {
            assert(r@ =~= v@.subrange(from as int, i as int));
        }
    }
    r
}

/// Whether the tokens of `p` open the tokens of `v`.
pub(crate) fn starts_with_toks(v: &Vec<Character>, p: &Vec<Character>) -> (r: bool)
    ensures
        r == has_prefix(v@, p@),
{
    let m = p.len();
    let n = v.len();
    if n < m {
        return false;
    }
    let mut j: usize = 0;
    while j < m
        invariant
            j <= m,
            m == p@.len(),
            m <= n,
            n == v@.len(),
            forall|k: int| 0 <= k < j ==> v@[k] == p@[k],
        decreases m - j,
    {
        if v[j] != p[j] {
            proof {
                assert(v@.subrange(0, p@.len() as int)[j as int] != p@[j as int]);
            }
            return false;
        }
        j = j + 1;
    }
    proof {
        assert(v@.subrange(0, p@.len() as int) =~= p@);
    }
    true
}

/// Whether the characters of `p` open the characters of `v`.
pub(crate) fn starts_with_chars(v: &Vec<char>, p: &Vec<char>) -> (r: bool)
    ensures
        r == has_prefix(v@, p@),
{
    let m = p.len();
    let n = v.len();
    if n < m {
        return false;
    }
    let mut j: usize = 0;
    while j < m
        invariant
            j <= m,
            m == p@.len(),
            m <= n,
            n == v@.len(),
            forall|k: int| 0 <= k < j ==> v@[k] == p@[k],
        decreases m - j,
    {
        if v[j] != p[j] {
            proof {
                assert(v@.subrange(0, p@.len() as int)[j as int] != p@[j as int]);
            }
            return false;
        }
        j = j + 1;
    }
    proof {
        assert(v@.subrange(0, p@.len() as int) =~= p@);
    }
    true
}

/// Splits the token suffix `v[i..]` on `sep`.
pub(crate) fn split_toks_from(v: &Vec<Character>, i: usize, sep: Character) -> (r: Vec<CharVec>)
    requires
        i <= v@.len(),
    ensures
        tok_views(r@) == split_toks(v@.skip(i as int), sep),
        r@.len() >= 1,
    decreases v@.len() - i,
{
    let ghost suff = v@.skip(i as int);
    if i == v.len() {
        let mut r: Vec<CharVec> = Vec::new();
        r.push(CharVec(Vec::new()));
        proof {
            assert(tok_views(r@) =~~= split_toks(suff, sep));
        }
        r
    } else if v[i] == sep {
        let mut rest = split_toks_from(v, i + 1, sep);
        rest.insert(0, CharVec(Vec::new()));
        proof {
            assert(suff.skip(1) =~= v@.skip(i + 1));
            assert(tok_views(rest@) =~~= split_toks(suff, sep));
        }
        rest
    } else {
        let mut rest = split_toks_from(v, i + 1, sep);
        let ghost old_views = tok_views(rest@);
        let mut first = rest.remove(0);
        first.0.insert(0, v[i]);
        rest.insert(0, first);
        proof {
            assert(suff.skip(1) =~= v@.skip(i + 1));
            assert(first@ =~= seq![suff[0]] + old_views[0]);
            assert(tok_views(rest@) =~~= split_toks(suff, sep));
        }
        rest
    }
}




} // verus!
