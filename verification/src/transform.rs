//! The transform engine: comment stripping, the character-escaping pass that
//! turns raw text into tokens, and literal variable substitution.

use vstd::prelude::*;

use crate::character::{
    chars_to_string, shown_chars_from, shown_text, str_to_chars, CharVec, Character,
};
use crate::types::{AssocSeq, Context};

verus! {

broadcast use vstd::seq_lib::group_seq_properties;

// ---------------------------------------------------------------------------
// The escaping pass
// ---------------------------------------------------------------------------

/// One left-to-right scan of raw text, with `start` telling whether the scan
/// stands at the beginning of a line.
///
/// A `\` consumes the next character: `\$` and `\%` become the literal glyph
/// alone, anything else keeps both characters literally. An unescaped `$`
/// becomes the line marker exactly at line starts; an unescaped `%` always
/// becomes the variable marker. The line-start flag is set again exactly
/// when the character the step consumed last is a newline.
pub open spec fn escaped_from(s: Seq<char>, start: bool) -> Seq<Character>
    decreases s.len(),
{
    if s.len() == 0 {
        Seq::empty()
    } else if s[0] == '\\' {
        if s.len() == 1 {
            seq![Character::Char('\\')]
        } else if s[1] == '$' {
            seq![Character::Char('$')] + escaped_from(s.skip(2), false)
        } else if s[1] == '%' {
            seq![Character::Char('%')] + escaped_from(s.skip(2), false)
        } else {
            seq![Character::Char('\\')].push(Character::Char(s[1])) + escaped_from(
                s.skip(2),
                s[1] == '\n',
            )
        }
    } else if s[0] == '$' {
        seq![if start { Character::Dollar } else { Character::Char('$') }]
            + escaped_from(s.skip(1), false)
    } else if s[0] == '%' {
        seq![Character::Percent] + escaped_from(s.skip(1), false)
    } else {
        seq![Character::Char(s[0])] + escaped_from(s.skip(1), s[0] == '\n')
    }
}

/// The escaping pass over a whole text, beginning at a line start.
pub open spec fn escaped(s: Seq<char>) -> Seq<Character> {
    escaped_from(s, true)
}

/// Escapes the suffix `v[i..]`, with `start` the line-start state there.
pub(crate) fn escape_chars_from(v: &Vec<char>, i: usize, start: bool) -> (r: Vec<Character>)
    requires
        i <= v@.len(),
    ensures
        r@ == escaped_from(v@.skip(i as int), start),
    decreases v@.len() - i,
{
    let ghost suff = v@.skip(i as int);
    if i == v.len() {
        let r: Vec<Character> = Vec::new();
        proof {
            assert(r@ =~= escaped_from(suff, start));
        }
        r
    } else {
        let c = v[i];
        proof {
            assert(suff[0] == c);
        }
        let mut r: Vec<Character> = Vec::new();
        if c == '\\' {
            if i + 1 == v.len() {
                r.push(Character::Char('\\'));
                proof {
                    assert(suff.len() == 1);
                    assert(r@ =~= escaped_from(suff, start));
                }
                return r;
            }
            let d = v[i + 1];
            proof {
                assert(suff.len() >= 2);
                assert(suff[1] == d);
            }
            if d == '$' {
                r.push(Character::Char('$'));
            } else if d == '%' {
                r.push(Character::Char('%'));
            } else {
                r.push(Character::Char('\\'));
                r.push(Character::Char(d));
            }
            let mut rest = escape_chars_from(v, i + 2, d == '\n');
            proof {
                assert(suff.skip(2) =~= v@.skip(i + 2));
                if d == '$' {
                    assert(escaped_from(suff, start) == seq![Character::Char('$')]
                        + escaped_from(suff.skip(2), false));
                } else if d == '%' {
                    assert(escaped_from(suff, start) == seq![Character::Char('%')]
                        + escaped_from(suff.skip(2), false));
                } else {
                    assert(escaped_from(suff, start) == seq![Character::Char('\\')].push(
                        Character::Char(d),
                    ) + escaped_from(suff.skip(2), d == '\n'));
                }
            }
            r.append(&mut rest);
            proof {
                assert(r@ =~= escaped_from(suff, start));
            }
            r
        } else {
            if c == '$' {
                r.push(if start { Character::Dollar } else { Character::Char('$') });
            } else if c == '%' {
                r.push(Character::Percent);
            } else {
                r.push(Character::Char(c));
            }
            let mut rest = escape_chars_from(v, i + 1, c == '\n');
            proof {
                assert(suff.skip(1) =~= v@.skip(i + 1));
                if c == '$' {
                    assert(escaped_from(suff, start) == seq![
                        if start {
                            Character::Dollar
                        } else {
                            Character::Char('$')
                        },
                    ] + escaped_from(suff.skip(1), false));
                } else if c == '%' {
                    assert(escaped_from(suff, start) == seq![Character::Percent]
                        + escaped_from(suff.skip(1), false));
                } else {
                    assert(escaped_from(suff, start) == seq![Character::Char(c)]
                        + escaped_from(suff.skip(1), c == '\n'));
                }
            }
            r.append(&mut rest);
            proof {
                assert(r@ =~= escaped_from(suff, start));
            }
            r
        }
    }
}

/// Perform the escaping pass on a string.
///
/// Unescaped `%` is turned into `Character::Percent`, as is `$` at the start
/// of a line into `Character::Dollar`.
pub fn substitute(s: &str) -> (r: CharVec)
    ensures
        r@ == escaped(s@),
{
    let v = str_to_chars(s);
    let toks = escape_chars_from(&v, 0, true);
    proof {
        assert(v@.skip(0) =~= s@);
    }
    CharVec(toks)
}

// ---------------------------------------------------------------------------
// Comment stripping
// ---------------------------------------------------------------------------

/// Splits on a separator; the separator itself belongs to no piece, and a
/// text without it is one piece.
pub open spec fn split_chars(s: Seq<char>, sep: char) -> Seq<Seq<char>>
    decreases s.len(),
{
    if s.len() == 0 {
        seq![Seq::empty()]
    } else if s[0] == sep {
        seq![Seq::empty()] + split_chars(s.skip(1), sep)
    } else {
        let rest = split_chars(s.skip(1), sep);
        seq![seq![s[0]] + rest[0]] + rest.skip(1)
    }
}

/// One line as the standard line iterator sees it: a trailing carriage
/// return is dropped.
pub open spec fn strip_cr(l: Seq<char>) -> Seq<char> {
    if l.len() > 0 && l[l.len() - 1] == '\r' {
        l.drop_last()
    } else {
        l
    }
}

/// `strip_cr` applied to every line.
pub open spec fn strip_cr_all(ls: Seq<Seq<char>>) -> Seq<Seq<char>>
    decreases ls.len(),
{
    if ls.len() == 0 {
        Seq::empty()
    } else {
        seq![strip_cr(ls[0])] + strip_cr_all(ls.skip(1))
    }
}

/// `strip_cr` applied to every line but the last, which no newline ended.
pub open spec fn strip_cr_most(ls: Seq<Seq<char>>) -> Seq<Seq<char>>
    decreases ls.len(),
{
    if ls.len() == 0 {
        Seq::empty()
    } else if ls.len() == 1 {
        seq![ls[0]]
    } else {
        seq![strip_cr(ls[0])] + strip_cr_most(ls.skip(1))
    }
}

/// The lines `ls`, a carriage return stripped from each line that a
/// newline ended: from every one when the text closed with a newline, from
/// all but the last otherwise.
pub open spec fn cr_stripped(ls: Seq<Seq<char>>, closed: bool) -> Seq<Seq<char>> {
    if closed {
        strip_cr_all(ls)
    } else {
        strip_cr_most(ls)
    }
}

/// The lines of a text as the standard line iterator yields them: split on
/// newline, one optional final newline ends the last line rather than
/// opening an empty one, and a line ended by a newline loses a carriage
/// return standing right before it.
pub open spec fn lines_of(s: Seq<char>) -> Seq<Seq<char>> {
    if s.len() == 0 {
        Seq::empty()
    } else if s[s.len() - 1] == '\n' {
        strip_cr_all(split_chars(s.drop_last(), '\n'))
    } else {
        strip_cr_most(split_chars(s, '\n'))
    }
}

/// Whether a line is a comment: it begins with `$$`.
pub open spec fn is_comment(l: Seq<char>) -> bool {
    l.len() >= 2 && l[0] == '$' && l[1] == '$'
}

/// The lines that are not comments, in order.
pub open spec fn keep_lines(ls: Seq<Seq<char>>) -> Seq<Seq<char>>
    decreases ls.len(),
{
    if ls.len() == 0 {
        Seq::empty()
    } else if is_comment(ls[0]) {
        keep_lines(ls.skip(1))
    } else {
        seq![ls[0]] + keep_lines(ls.skip(1))
    }
}

/// Lines rejoined by a single newline between each.
pub open spec fn join_lines(ls: Seq<Seq<char>>) -> Seq<char>
    decreases ls.len(),
{
    if ls.len() == 0 {
        Seq::empty()
    } else if ls.len() == 1 {
        ls[0]
    } else {
        ls[0] + seq!['\n'] + join_lines(ls.skip(1))
    }
}

/// Comment stripping over a whole text: every line beginning with `$$` is
/// removed, the rest are rejoined by newline.
pub open spec fn decommented(s: Seq<char>) -> Seq<char> {
    join_lines(keep_lines(lines_of(s)))
}

/// The view of each piece, in order.
pub open spec fn views_of(vs: Seq<Vec<char>>) -> Seq<Seq<char>> {
    Seq::new(vs.len(), |i: int| vs[i]@)
}

/// Splits the suffix `v[i..]` on `sep`.
pub(crate) fn split_chars_from(v: &Vec<char>, i: usize, sep: char) -> (r: Vec<Vec<char>>)
    requires
        i <= v@.len(),
    ensures
        views_of(r@) == split_chars(v@.skip(i as int), sep),
        r@.len() >= 1,
    decreases v@.len() - i,
{
    let ghost suff = v@.skip(i as int);
    if i == v.len() {
        let mut r: Vec<Vec<char>> = Vec::new();
        r.push(Vec::new());
        proof {
            assert(views_of(r@) =~~= split_chars(suff, sep));
        }
        r
    } else if v[i] == sep {
        let mut rest = split_chars_from(v, i + 1, sep);
        rest.insert(0, Vec::new());
        proof {
            assert(suff.skip(1) =~= v@.skip(i + 1));
            assert(views_of(rest@) =~~= split_chars(suff, sep));
        }
        rest
    } else {
        let mut rest = split_chars_from(v, i + 1, sep);
        let ghost old_views = views_of(rest@);
        let mut first = rest.remove(0);
        first.insert(0, v[i]);
        rest.insert(0, first);
        proof {
            assert(suff.skip(1) =~= v@.skip(i + 1));
            assert(first@ =~= seq![suff[0]] + old_views[0]);
            assert(views_of(rest@) =~~= split_chars(suff, sep));
        }
        rest
    }
}

/// Strips carriage returns as `cr_stripped` says, drops comment lines,
/// and rejoins the rest, over the lines `ls[i..]` already split on
/// newline. `closed` says whether a final newline ended the last line. The
/// flag of the result says whether any line survived, which decides
/// whether a joining newline is owed.
pub(crate) fn clean_and_join_from(ls: &Vec<Vec<char>>, i: usize, closed: bool) -> (r: (
    Vec<char>,
    bool,
))
    requires
        i <= ls@.len(),
    ensures
        r.0@ == join_lines(keep_lines(cr_stripped(views_of(ls@).skip(i as int), closed))),
        r.1 == (keep_lines(cr_stripped(views_of(ls@).skip(i as int), closed)).len() > 0),
    decreases ls@.len() - i,
{
    let ghost suff = views_of(ls@).skip(i as int);
    let ghost target = cr_stripped(suff, closed);
    if i == ls.len() {
        let r: Vec<char> = Vec::new();
        proof {
            assert(suff =~= Seq::<Seq<char>>::empty());
            assert(r@ =~= join_lines(keep_lines(target)));
        }
        return (r, false);
    }
    // The current line, with a trailing carriage return dropped only where
    // a newline ended the line.
    let line = &ls[i];
    let last_line = i + 1 == ls.len();
    let strip_here = closed || !last_line;
    let stop: usize = if strip_here && line.len() > 0 && line[line.len() - 1] == '\r' {
        line.len() - 1
    } else {
        line.len()
    };
    let mut cur: Vec<char> = Vec::new();
    let mut j: usize = 0;
    while j < stop
        invariant
            j <= stop,
            stop <= line@.len(),
            cur@ == line@.subrange(0, j as int),
        decreases stop - j,
    {
        cur.push(line[j]);
        j = j + 1;
        proof {
            assert(cur@ =~= line@.subrange(0, j as int));
        }
    }
    proof {
        assert(suff[0] == views_of(ls@)[i as int]);
        assert(views_of(ls@)[i as int] == line@);
        if strip_here {
            assert(line@.subrange(0, stop as int) =~= strip_cr(line@));
        } else {
            assert(line@.subrange(0, stop as int) =~= line@);
        }
        assert(cur@ == (if strip_here {
            strip_cr(line@)
        } else {
            line@
        }));
    }
    let comment = cur.len() >= 2 && cur[0] == '$' && cur[1] == '$';
    let (mut rest, any) = clean_and_join_from(ls, i + 1, closed);
    let ghost tail_target = cr_stripped(suff.skip(1), closed);
    proof {
        assert(suff.skip(1) =~= views_of(ls@).skip(i + 1));
        assert(target =~= seq![cur@] + tail_target);
    }
    let ghost kept = keep_lines(target);
    let ghost tail_kept = keep_lines(tail_target);
    if comment {
        proof {
            assert(kept =~= tail_kept);
        }
        (rest, any)
    } else {
        proof {
            assert(kept =~= seq![cur@] + tail_kept);
        }
        if !any {
            proof {
                assert(kept.len() == 1);
                assert(kept[0] == cur@);
                assert(cur@ =~= join_lines(kept));
            }
            (cur, true)
        } else {
            let mut out = cur;
            out.push('\n');
            out.append(&mut rest);
            proof {
                assert(kept.len() >= 2);
                assert(kept.skip(1) =~= tail_kept);
                assert(out@ =~= join_lines(kept));
            }
            (out, true)
        }
    }
}

/// Strip the comments from a string.
///
/// A comment is a line starting with `$$`.
pub fn decomment(s: &str) -> (r: String)
    ensures
        r@ == decommented(s@),
{
    let v = str_to_chars(s);
    let cleaned = decomment_chars(&v);
    chars_to_string(&cleaned)
}

/// The characters of raw text `s`, decommented, as a vector.
pub(crate) fn decomment_chars(v: &Vec<char>) -> (r: Vec<char>)
    ensures
        r@ == decommented(v@),
{
    if v.len() == 0 {
        let empty: Vec<char> = Vec::new();
        proof {
            assert(empty@ =~= decommented(v@));
        }
        return empty;
    }
    let closed = v[v.len() - 1] == '\n';
    let mut body: Vec<char> = Vec::new();
    let stop: usize = if closed {
        v.len() - 1
    } else {
        v.len()
    };
    let mut j: usize = 0;
    while j < stop
        invariant
            j <= stop,
            stop <= v@.len(),
            body@ == v@.subrange(0, j as int),
        decreases stop - j,
    {
        body.push(v[j]);
        j = j + 1;
        proof {
            assert(body@ =~= v@.subrange(0, j as int));
        }
    }
    proof {
        if v@[v@.len() - 1] == '\n' {
            assert(body@ =~= v@.drop_last());
        } else {
            assert(body@ =~= v@);
        }
    }
    let pieces = split_chars_from(&body, 0, '\n');
    proof {
        assert(body@.skip(0) =~= body@);
    }
    let (joined, _) = clean_and_join_from(&pieces, 0, closed);
    proof {
        assert(views_of(pieces@).skip(0) =~= views_of(pieces@));
    }
    joined
}

// ---------------------------------------------------------------------------
// Literal replacement and variable substitution
// ---------------------------------------------------------------------------

/// Every occurrence of `pat` in `s` replaced by `val`, leftmost first and
/// without overlap, as the standard string replacement does it.
pub open spec fn replaced(s: Seq<char>, pat: Seq<char>, val: Seq<char>) -> Seq<char>
    decreases s.len(),
{
    if pat.len() == 0 || s.len() < pat.len() {
        s
    } else if s.subrange(0, pat.len() as int) == pat {
        val + replaced(s.skip(pat.len() as int), pat, val)
    } else {
        seq![s[0]] + replaced(s.skip(1), pat, val)
    }
}

/// A variable name between its `%` markers, the text a substitution looks
/// for.
pub open spec fn marker_wrapped(k: Seq<char>) -> Seq<char> {
    seq!['%'] + k + seq!['%']
}

/// One variable substituted: the tokens are rendered for display, `%name%`
/// is replaced literally by the value, and the result is escaped afresh.
pub open spec fn subst_step(ts: Seq<Character>, k: Seq<char>, v: Seq<char>) -> Seq<Character> {
    escaped(replaced(shown_text(ts), marker_wrapped(k), v))
}

/// All variables of the context substituted, in definition order. Text a
/// substitution inserts is scanned only by the variables after it.
pub open spec fn substituted(ts: Seq<Character>, es: AssocSeq) -> Seq<Character>
    decreases es.len(),
{
    if es.len() == 0 {
        ts
    } else {
        substituted(subst_step(ts, es[0].0, es[0].1), es.skip(1))
    }
}

/// A copy of `s[from..to]`.
pub(crate) fn copy_range(s: &Vec<char>, from: usize, to: usize) -> (r: Vec<char>)
    requires
        from <= to <= s@.len(),
    ensures
        r@ == s@.subrange(from as int, to as int),
{
    let mut r: Vec<char> = Vec::new();
    let mut i: usize = from;
    while i < to
        invariant
            from <= i <= to <= s@.len(),
            r@ == s@.subrange(from as int, i as int),
        decreases to - i,
    {
        r.push(s[i]);
        i = i + 1;
        proof {
            assert(r@ =~= s@.subrange(from as int, i as int));
        }
    }
    r
}

/// Whether `pat` occurs in `s` exactly at position `i`.
pub(crate) fn match_at(s: &Vec<char>, pat: &Vec<char>, i: usize) -> (r: bool)
    requires
        i <= s@.len(),
    ensures
        r == (i + pat@.len() <= s@.len() && s@.subrange(
            i as int,
            i + pat@.len(),
        ) == pat@),
{
    let m = pat.len();
    let n = s.len();
    if n - i < m {
        return false;
    }
    let mut j: usize = 0;
    while j < m
        invariant
            j <= m,
            m == pat@.len(),
            n == s@.len(),
            i + m <= n,
            forall|k: int| 0 <= k < j ==> s@[i + k] == pat@[k],
        decreases m - j,
    {
        if s[i + j] != pat[j] {
            proof {
                assert(s@.subrange(i as int, i + pat@.len())[j as int] != pat@[j as int]);
            }
            return false;
        }
        j = j + 1;
    }
    proof {
        assert(s@.subrange(i as int, i + pat@.len()) =~= pat@);
    }
    true
}

/// Replacement over the suffix `s[i..]`.
pub(crate) fn replace_from(s: &Vec<char>, pat: &Vec<char>, val: &Vec<char>, i: usize) -> (r: Vec<
    char,
>)
    requires
        pat@.len() > 0,
        i <= s@.len(),
    ensures
        r@ == replaced(s@.skip(i as int), pat@, val@),
    decreases s@.len() - i,
{
    let ghost suff = s@.skip(i as int);
    let m = pat.len();
    if s.len() - i < m {
        let r = copy_range(s, i, s.len());
        proof {
            assert(r@ =~= suff);
        }
        r
    } else if match_at(s, pat, i) {
        let mut r = copy_range(val, 0, val.len());
        let mut rest = replace_from(s, pat, val, i + m);
        proof {
            assert(r@ =~= val@);
            assert(suff.subrange(0, pat@.len() as int) =~= s@.subrange(i as int, i + pat@.len()));
            assert(suff.skip(pat@.len() as int) =~= s@.skip(i + m));
        }
        r.append(&mut rest);
        proof {
            assert(r@ =~= replaced(suff, pat@, val@));
        }
        r
    } else {
        let mut r: Vec<char> = Vec::new();
        r.push(s[i]);
        let mut rest = replace_from(s, pat, val, i + 1);
        proof {
            assert(suff.subrange(0, pat@.len() as int) =~= s@.subrange(i as int, i + pat@.len()));
            assert(suff.skip(1) =~= s@.skip(i + 1));
            assert(suff[0] == s@[i as int]);
        }
        r.append(&mut rest);
        proof {
            assert(r@ =~= replaced(suff, pat@, val@));
        }
        r
    }
}

/// Find and perform variable substitutions.
///
/// Each variable in turn is looked for as literal `%name%` text in the
/// display rendering; the replaced text is then escaped afresh.
pub fn substitute_variables(s: CharVec, vars: &Context) -> (r: CharVec)
    ensures
        r@ == substituted(s@, vars@),
{
    let ghost orig = s@;
    let n = vars.len();
    let mut cur = s;
    let mut i: usize = 0;
    while i < n
        invariant
            i <= n,
            n == vars@.len(),
            substituted(orig, vars@) == substituted(cur@, vars@.skip(i as int)),
        decreases n - i,
    {
        let ghost before = cur@;
        let (k, v) = vars.entry(i);
        let kc = str_to_chars(k.as_str());
        let vc = str_to_chars(v.as_str());
        let mut pat: Vec<char> = Vec::new();
        pat.push('%');
        let mut kc_mid = kc;
        pat.append(&mut kc_mid);
        pat.push('%');
        let rendered = shown_chars_from(&cur.0, 0);
        proof {
            assert(pat@ =~= marker_wrapped(vars@[i as int].0));
            assert(cur.0@.skip(0) =~= before);
        }
        let rep = replace_from(&rendered, &pat, &vc, 0);
        proof {
            assert(rendered@.skip(0) =~= rendered@);
        }
        let esc = escape_chars_from(&rep, 0, true);
        proof {
            assert(rep@.skip(0) =~= rep@);
        }
        cur = CharVec(esc);
        i = i + 1;
        proof {
            assert(cur@ == subst_step(before, vars@[i - 1].0, vars@[i - 1].1));
            assert(vars@.skip(i - 1)[0] == vars@[i - 1]);
            assert(vars@.skip(i - 1).skip(1) =~= vars@.skip(i as int));
            assert(substituted(before, vars@.skip(i - 1)) == substituted(
                cur@,
                vars@.skip(i as int),
            ));
        }
    }
    proof {
        assert(vars@.skip(n as int) =~= Seq::<(Seq<char>, Seq<char>)>::empty());
    }
    cur
}

// ---------------------------------------------------------------------------
// Identifier validation
// ---------------------------------------------------------------------------

/// The characters a variable name may hold: letters, digits, underscore.
pub open spec fn is_name_char(c: char) -> bool {
    c == '_' || (('a' as u32) <= (c as u32) && (c as u32) <= ('z' as u32)) || (('A' as u32) <= (
    c as u32) && (c as u32) <= ('Z' as u32)) || (('0' as u32) <= (c as u32) && (c as u32) <= (
    '9' as u32))
}

/// Whether a token is a literal name character; markers never are.
pub open spec fn is_name_token(t: Character) -> bool {
    match t {
        Character::Char(c) => is_name_char(c),
        _ => false,
    }
}

/// Whether a token sequence is a pure identifier.
pub open spec fn valid_name(ts: Seq<Character>) -> bool {
    forall|i: int| 0 <= i < ts.len() ==> is_name_token(ts[i])
}

/// Checks that every token of `v` is a literal name character.
pub(crate) fn check_name(v: &Vec<Character>) -> (r: bool)
    ensures
        r == valid_name(v@),
{
    let n = v.len();
    let mut i: usize = 0;
    while i < n
        invariant
            i <= n,
            n == v@.len(),
            forall|j: int| 0 <= j < i ==> is_name_token(v@[j]),
        decreases n - i,
    {
        let ok = match v[i] {
            Character::Char(c) => {
                let u = c as u32;
                u == ('_' as u32) || (('a' as u32) <= u && u <= ('z' as u32)) || (('A' as u32) <= u
                    && u <= ('Z' as u32)) || (('0' as u32) <= u && u <= ('9' as u32))
            },
            _ => false,
        };
        if !ok {
            proof {
                assert(!is_name_token(v@[i as int]));
            }
            return false;
        }
        i = i + 1;
    }
    true
}


} // verus!
