//! The directive handlers: definition, concatenation, stringification, and
//! the embedding of another file.

use vstd::prelude::*;

use crate::character::{
    as_literals, chars_to_string, plain_chars_from, plain_text, shown_chars_from, shown_text,
    str_to_chars, tok_views, CharVec, Character,
};
use crate::transform::{
    check_name, escape_chars_from, escaped, substitute_variables, substituted, valid_name,
};
use crate::types::{assoc_find, assoc_put, err_model, AssocSeq, Context, ErrModel, Fs, MacroError};

verus! {

broadcast use vstd::seq_lib::group_seq_properties;

// ---------------------------------------------------------------------------
// Shared delimiter resolution
// ---------------------------------------------------------------------------

/// The context key configuring the opening stringify delimiter.
pub open spec fn open_key() -> Seq<char> {
    seq![
        'O',
        'P',
        'E',
        'N',
        'I',
        'N',
        'G',
        '_',
        'S',
        'T',
        'R',
        'I',
        'N',
        'G',
        'I',
        'F',
        'Y',
        '_',
        'D',
        'E',
        'L',
        'I',
        'M',
        'I',
        'T',
        'E',
        'R',
    ]
}

/// The context key configuring the closing stringify delimiter.
pub open spec fn close_key() -> Seq<char> {
    seq![
        'C',
        'L',
        'O',
        'S',
        'I',
        'N',
        'G',
        '_',
        'S',
        'T',
        'R',
        'I',
        'N',
        'G',
        'I',
        'F',
        'Y',
        '_',
        'D',
        'E',
        'L',
        'I',
        'M',
        'I',
        'T',
        'E',
        'R',
    ]
}

/// The resolved delimiter pair: both configured values where both are
/// defined, a plain double quote on each side otherwise.
pub open spec fn delims(ctx: AssocSeq) -> (Seq<char>, Seq<char>) {
    match (assoc_find(ctx, open_key()), assoc_find(ctx, close_key())) {
        (Some(o), Some(c)) => (o, c),
        _ => (seq!['"'], seq!['"']),
    }
}

/// Looks both delimiter keys up in the context.
pub(crate) fn resolve_delims(vars: &Context) -> (r: (Vec<char>, Vec<char>))
    ensures
        r.0@ == delims(vars@).0,
        r.1@ == delims(vars@).1,
{
    let ok = "OPENING_STRINGIFY_DELIMITER";
    let ck = "CLOSING_STRINGIFY_DELIMITER";
    proof {
        reveal_strlit("OPENING_STRINGIFY_DELIMITER");
        reveal_strlit("CLOSING_STRINGIFY_DELIMITER");
        assert(ok@ =~= open_key());
        assert(ck@ =~= close_key());
    }
    let o = vars.get(ok);
    if let Some(ov) = o {
        let oc = str_to_chars(ov.as_str());
        if let Some(cv) = vars.get(ck) {
            let cc = str_to_chars(cv.as_str());
            return (oc, cc);
        }
    }
    let mut d1: Vec<char> = Vec::new();
    d1.push('"');
    let mut d2: Vec<char> = Vec::new();
    d2.push('"');
    proof {
        assert(d1@ =~= seq!['"']);
        assert(d2@ =~= seq!['"']);
    }
    (d1, d2)
}

// ---------------------------------------------------------------------------
// Token rewriting used by the handlers
// ---------------------------------------------------------------------------

/// Arguments joined with one space between each.
pub open spec fn join_toks(xs: Seq<Seq<Character>>) -> Seq<Character>
    decreases xs.len(),
{
    if xs.len() == 0 {
        Seq::empty()
    } else if xs.len() == 1 {
        xs[0]
    } else {
        xs[0] + seq![Character::Char(' ')] + join_toks(xs.skip(1))
    }
}

/// The rescan concatenation applies: markers fall back to their literal
/// glyph, a backslash carries the following token through verbatim, and a
/// bare double quote is dropped.
pub open spec fn strip_quotes(ts: Seq<Character>) -> Seq<Character>
    decreases ts.len(),
{
    if ts.len() == 0 {
        Seq::empty()
    } else if ts[0] == Character::Dollar {
        seq![Character::Char('$')] + strip_quotes(ts.skip(1))
    } else if ts[0] == Character::Percent {
        seq![Character::Char('%')] + strip_quotes(ts.skip(1))
    } else if ts[0] == Character::Char('\\') {
        if ts.len() == 1 {
            Seq::empty()
        } else {
            seq![ts[0]].push(ts[1]) + strip_quotes(ts.skip(2))
        }
    } else if ts[0] == Character::Char('"') {
        strip_quotes(ts.skip(1))
    } else {
        seq![ts[0]] + strip_quotes(ts.skip(1))
    }
}

/// Stringified content: every literal newline or double quote gains a
/// leading backslash; everything else, markers too, passes through.
pub open spec fn quote_escaped(ts: Seq<Character>) -> Seq<Character>
    decreases ts.len(),
{
    if ts.len() == 0 {
        Seq::empty()
    } else if ts[0] == Character::Char('\n') || ts[0] == Character::Char('"') {
        seq![Character::Char('\\')].push(ts[0]) + quote_escaped(ts.skip(1))
    } else {
        seq![ts[0]] + quote_escaped(ts.skip(1))
    }
}

/// Joins the arguments `args[i..]` with one space between each.
pub(crate) fn join_args_from(args: &Vec<CharVec>, i: usize) -> (r: Vec<Character>)
    requires
        i <= args@.len(),
    ensures
        r@ == join_toks(tok_views(args@).skip(i as int)),
    decreases args@.len() - i,
{
    let ghost suff = tok_views(args@).skip(i as int);
    if i == args.len() {
        let r: Vec<Character> = Vec::new();
        proof {
            assert(r@ =~= join_toks(suff));
        }
        r
    } else if i + 1 == args.len() {
        let r = crate::character::copy_toks_range(&args[i].0, 0, args[i].0.len());
        proof {
            assert(r@ =~= suff[0]);
            assert(suff.len() == 1);
        }
        r
    } else {
        let mut r = crate::character::copy_toks_range(&args[i].0, 0, args[i].0.len());
        r.push(Character::Char(' '));
        let mut rest = join_args_from(args, i + 1);
        proof {
            assert(suff.skip(1) =~= tok_views(args@).skip(i + 1));
            assert(r@ =~= suff[0] + seq![Character::Char(' ')]);
        }
        r.append(&mut rest);
        proof {
            assert(r@ =~= join_toks(suff));
        }
        r
    }
}

/// The rescan of `v[i..]` that concatenation applies.
pub(crate) fn strip_quotes_from(v: &Vec<Character>, i: usize) -> (r: Vec<Character>)
    requires
        i <= v@.len(),
    ensures
        r@ == strip_quotes(v@.skip(i as int)),
    decreases v@.len() - i,
{
    let ghost suff = v@.skip(i as int);
    if i == v.len() {
        let r: Vec<Character> = Vec::new();
        proof {
            assert(r@ =~= strip_quotes(suff));
        }
        return r;
    }
    let t = v[i];
    proof {
        assert(suff[0] == t);
    }
    match t {
        Character::Dollar => {
            let mut r: Vec<Character> = Vec::new();
            r.push(Character::Char('$'));
            let mut rest = strip_quotes_from(v, i + 1);
            r.append(&mut rest);
            proof {
                assert(suff.skip(1) =~= v@.skip(i + 1));
                assert(r@ =~= strip_quotes(suff));
            }
            r
        },
        Character::Percent => {
            let mut r: Vec<Character> = Vec::new();
            r.push(Character::Char('%'));
            let mut rest = strip_quotes_from(v, i + 1);
            r.append(&mut rest);
            proof {
                assert(suff.skip(1) =~= v@.skip(i + 1));
                assert(r@ =~= strip_quotes(suff));
            }
            r
        },
        Character::Char(ch) => {
            if ch == '\\' {
                if i + 1 == v.len() {
                    let r: Vec<Character> = Vec::new();
                    proof {
                        assert(suff.len() == 1);
                        assert(r@ =~= strip_quotes(suff));
                    }
                    return r;
                }
                let mut r: Vec<Character> = Vec::new();
                r.push(t);
                r.push(v[i + 1]);
                let mut rest = strip_quotes_from(v, i + 2);
                proof {
                    assert(suff.len() >= 2);
                    assert(suff[1] == v@[i + 1]);
                    assert(suff.skip(2) =~= v@.skip(i + 2));
                    assert(r@ =~= seq![suff[0]].push(suff[1]));
                }
                r.append(&mut rest);
                proof {
                    assert(r@ =~= strip_quotes(suff));
                }
                r
            } else if ch == '"' {
                let rest = strip_quotes_from(v, i + 1);
                proof {
                    assert(suff.skip(1) =~= v@.skip(i + 1));
                    assert(rest@ =~= strip_quotes(suff));
                }
                rest
            } else {
                let mut r: Vec<Character> = Vec::new();
                r.push(t);
                let mut rest = strip_quotes_from(v, i + 1);
                r.append(&mut rest);
                proof {
                    assert(suff.skip(1) =~= v@.skip(i + 1));
                    assert(r@ =~= strip_quotes(suff));
                }
                r
            }
        },
    }
}

/// The stringify escape over `v[i..]`.
pub(crate) fn quote_escape_from(v: &Vec<Character>, i: usize) -> (r: Vec<Character>)
    requires
        i <= v@.len(),
    ensures
        r@ == quote_escaped(v@.skip(i as int)),
    decreases v@.len() - i,
{
    let ghost suff = v@.skip(i as int);
    if i == v.len() {
        let r: Vec<Character> = Vec::new();
        proof {
            assert(r@ =~= quote_escaped(suff));
        }
        return r;
    }
    let t = v[i];
    proof {
        assert(suff[0] == t);
    }
    let mut r: Vec<Character> = Vec::new();
    let escape = match t {
        Character::Char(ch) => ch == '\n' || ch == '"',
        _ => false,
    };
    if escape {
        r.push(Character::Char('\\'));
    }
    r.push(t);
    let mut rest = quote_escape_from(v, i + 1);
    proof {
        assert(suff.skip(1) =~= v@.skip(i + 1));
        if escape {
            assert(r@ =~= seq![Character::Char('\\')].push(suff[0]));
        } else {
            assert(r@ =~= seq![suff[0]]);
        }
    }
    r.append(&mut rest);
    proof {
        assert(r@ =~= quote_escaped(suff));
    }
    r
}

// ---------------------------------------------------------------------------
// The handlers
// ---------------------------------------------------------------------------

/// What `concat` does: joins the arguments after the name with single
/// spaces, substitutes variables, rescans the result dropping bare double
/// quotes, wraps it in the escaped resolved delimiters, and binds the name
/// to the plain rendering.
pub open spec fn concat_model(args: Seq<Seq<Character>>, ctx: AssocSeq) -> (Result<
    Seq<Character>,
    ErrModel,
>, AssocSeq) {
    if args.len() < 2 {
        (Err(ErrModel::ArgCount(2, args.len() as int)), ctx)
    } else {
        let joined = join_toks(args.skip(1));
        let stripped = strip_quotes(substituted(joined, ctx));
        let value = escaped(delims(ctx).0) + stripped + escaped(delims(ctx).1);
        if !valid_name(args[0]) {
            (Err(ErrModel::BadName(shown_text(args[0]))), ctx)
        } else {
            (Ok(Seq::empty()), assoc_put(ctx, plain_text(args[0]), plain_text(value)))
        }
    }
}

/// What the concrete result of a handler must be for the model's result.
pub open spec fn matches_model(
    got: Result<CharVec, MacroError>,
    want: Result<Seq<Character>, ErrModel>,
) -> bool {
    match got {
        Ok(cv) => want == Ok::<Seq<Character>, ErrModel>(cv@),
        Err(e) => want == Err::<Seq<Character>, ErrModel>(err_model(e)),
    }
}

/// Execute a `concat` macro.
pub fn concat_macro(args: Vec<CharVec>, vars: &mut Context) -> (result: Result<
    CharVec,
    MacroError,
>)
    ensures
        final(vars)@ == concat_model(tok_views(args@), old(vars)@).1,
        matches_model(result, concat_model(tok_views(args@), old(vars)@).0),
{
    if args.len() < 2 {
        return Err(MacroError::ExpectedNArgs(2, args.len()));
    }
    let joined = join_args_from(&args, 1);
    let subbed = substitute_variables(CharVec(joined), vars);
    let stripped = strip_quotes_from(&subbed.0, 0);
    proof {
        assert(subbed.0@.skip(0) =~= subbed@);
    }
    let (o, c) = resolve_delims(vars);
    let mut value = escape_chars_from(&o, 0, true);
    proof {
        assert(o@.skip(0) =~= o@);
    }
    let mut mid = stripped;
    value.append(&mut mid);
    let mut tail = escape_chars_from(&c, 0, true);
    proof {
        assert(c@.skip(0) =~= c@);
    }
    value.append(&mut tail);
    if !check_name(&args[0].0) {
        let shown = shown_chars_from(&args[0].0, 0);
        proof {
            assert(args[0].0@.skip(0) =~= tok_views(args@)[0]);
        }
        return Err(MacroError::InvalidArg(chars_to_string(&shown)));
    }
    let key = plain_chars_from(&args[0].0, 0);
    let valc = plain_chars_from(&value, 0);
    proof {
        assert(args[0].0@.skip(0) =~= tok_views(args@)[0]);
        assert(value@.skip(0) =~= value@);
        assert(value@ == escaped(delims(old(vars)@).0) + strip_quotes(
            substituted(join_toks(tok_views(args@).skip(1)), old(vars)@),
        ) + escaped(delims(old(vars)@).1));
    }
    vars.insert(chars_to_string(&key), chars_to_string(&valc));
    let r = CharVec(Vec::new());
    proof {
        assert(r@ =~= Seq::<Character>::empty());
    }
    Ok(r)
}

/// What `define` does: validates the name and binds it to the substituted
/// body's plain rendering.
pub open spec fn define_model(args: Seq<Seq<Character>>, ctx: AssocSeq) -> (Result<
    Seq<Character>,
    ErrModel,
>, AssocSeq) {
    if args.len() != 2 {
        (Err(ErrModel::ArgCount(2, args.len() as int)), ctx)
    } else if !valid_name(args[0]) {
        (Err(ErrModel::BadName(shown_text(args[0]))), ctx)
    } else {
        (
            Ok(Seq::empty()),
            assoc_put(ctx, plain_text(args[0]), plain_text(substituted(args[1], ctx))),
        )
    }
}

/// Execute a `define` macro.
pub fn define_macro(args: Vec<CharVec>, vars: &mut Context) -> (result: Result<
    CharVec,
    MacroError,
>)
    ensures
        final(vars)@ == define_model(tok_views(args@), old(vars)@).1,
        matches_model(result, define_model(tok_views(args@), old(vars)@).0),
{
    if args.len() != 2 {
        return Err(MacroError::ExpectedNArgs(2, args.len()));
    }
    if !check_name(&args[0].0) {
        let shown = shown_chars_from(&args[0].0, 0);
        proof {
            assert(args[0].0@.skip(0) =~= tok_views(args@)[0]);
        }
        return Err(MacroError::InvalidArg(chars_to_string(&shown)));
    }
    let mut args = args;
    let body = match args.pop() {
        Some(b) => b,
        None => {
            return Err(MacroError::ExpectedNArgs(2, 0));
        },
    };
    let name = match args.pop() {
        Some(n) => n,
        None => {
            return Err(MacroError::ExpectedNArgs(2, 0));
        },
    };
    let subbed = substitute_variables(body, vars);
    let key = plain_chars_from(&name.0, 0);
    let valc = plain_chars_from(&subbed.0, 0);
    proof {
        assert(name.0@.skip(0) =~= name@);
        assert(subbed.0@.skip(0) =~= subbed@);
    }
    vars.insert(chars_to_string(&key), chars_to_string(&valc));
    let r = CharVec(Vec::new());
    proof {
        assert(r@ =~= Seq::<Character>::empty());
    }
    Ok(r)
}

/// What embedding a file does: one path argument, processed recursively
/// with the shared context and one budget step spent.
pub open spec fn embed_model(
    fs: AssocSeq,
    args: Seq<Seq<Character>>,
    ctx: AssocSeq,
    fuel: nat,
) -> (Result<Seq<Character>, ErrModel>, AssocSeq)
    decreases fuel, 0int, 0int, 0int,
{
    if args.len() != 1 {
        (Err(ErrModel::ArgCount(1, args.len() as int)), ctx)
    } else if fuel == 0 {
        (Err(ErrModel::DepthLimit), ctx)
    } else {
        crate::run_model(fs, shown_text(args[0]), ctx, (fuel - 1) as nat)
    }
}

/// Execute the macro that embeds another file in place.
pub fn embed_macro(args: Vec<CharVec>, vars: &mut Context, fs: &Fs, fuel: u64) -> (result: Result<
    CharVec,
    MacroError,
>)
    ensures
        final(vars)@ == embed_model(fs@, tok_views(args@), old(vars)@, fuel as nat).1,
        matches_model(result, embed_model(fs@, tok_views(args@), old(vars)@, fuel as nat).0),
    decreases fuel, 0int, 0int, 0int,
{
    if args.len() != 1 {
        return Err(MacroError::ExpectedNArgs(1, args.len()));
    }
    if fuel == 0 {
        return Err(MacroError::RecursionLimit);
    }
    let path = shown_chars_from(&args[0].0, 0);
    proof {
        assert(args[0].0@.skip(0) =~= tok_views(args@)[0]);
    }
    crate::process_chars(fs, &path, vars, fuel - 1)
}

/// What `stringify` does: validates the name, processes the path
/// recursively, escapes newlines and double quotes in the result, wraps it
/// in the resolved delimiters taken literally, and binds the name.
pub open spec fn stringify_model(
    fs: AssocSeq,
    args: Seq<Seq<Character>>,
    ctx: AssocSeq,
    fuel: nat,
) -> (Result<Seq<Character>, ErrModel>, AssocSeq)
    decreases fuel, 0int, 0int, 0int,
{
    if args.len() != 2 {
        (Err(ErrModel::ArgCount(2, args.len() as int)), ctx)
    } else if !valid_name(args[0]) {
        (Err(ErrModel::BadName(shown_text(args[0]))), ctx)
    } else if fuel == 0 {
        (Err(ErrModel::DepthLimit), ctx)
    } else {
        let run = crate::run_model(fs, shown_text(args[1]), ctx, (fuel - 1) as nat);
        match run.0 {
            Err(e) => (Err(e), run.1),
            Ok(d) => {
                let value = as_literals(delims(run.1).0) + quote_escaped(d) + as_literals(
                    delims(run.1).1,
                );
                (Ok(Seq::empty()), assoc_put(run.1, plain_text(args[0]), plain_text(value)))
            },
        }
    }
}

/// Execute a `stringify` macro.
pub fn stringify_macro(args: Vec<CharVec>, vars: &mut Context, fs: &Fs, fuel: u64) -> (result:
    Result<CharVec, MacroError>)
    ensures
        final(vars)@ == stringify_model(fs@, tok_views(args@), old(vars)@, fuel as nat).1,
        matches_model(result, stringify_model(fs@, tok_views(args@), old(vars)@, fuel as nat).0),
    decreases fuel, 0int, 0int, 0int,
{
    if args.len() != 2 {
        return Err(MacroError::ExpectedNArgs(2, args.len()));
    }
    if !check_name(&args[0].0) {
        let shown = shown_chars_from(&args[0].0, 0);
        proof {
            assert(args[0].0@.skip(0) =~= tok_views(args@)[0]);
        }
        return Err(MacroError::InvalidArg(chars_to_string(&shown)));
    }
    if fuel == 0 {
        return Err(MacroError::RecursionLimit);
    }
    let path = shown_chars_from(&args[1].0, 0);
    proof {
        assert(args[1].0@.skip(0) =~= tok_views(args@)[1]);
    }
    let data = match crate::process_chars(fs, &path, vars, fuel - 1) {
        Ok(d) => d,
        Err(e) => {
            return Err(e);
        },
    };
    let (o, c) = resolve_delims(vars);
    let mut value = crate::character::literals_from(&o, 0);
    let mut mid = quote_escape_from(&data.0, 0);
    let mut tail = crate::character::literals_from(&c, 0);
    proof {
        assert(o@.skip(0) =~= o@);
        assert(c@.skip(0) =~= c@);
        assert(data.0@.skip(0) =~= data@);
    }
    value.append(&mut mid);
    value.append(&mut tail);
    let key = plain_chars_from(&args[0].0, 0);
    let valc = plain_chars_from(&value, 0);
    proof {
        assert(args[0].0@.skip(0) =~= tok_views(args@)[0]);
        assert(value@.skip(0) =~= value@);
    }
    vars.insert(chars_to_string(&key), chars_to_string(&valc));
    let r = CharVec(Vec::new());
    proof {
        assert(r@ =~= Seq::<Character>::empty());
    }
    Ok(r)
}

} // verus!
