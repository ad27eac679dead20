//! A line-oriented text preprocessor.
//!
//! Files that open with the header line `$PREP enable` are scanned for
//! directives: variable definition, embedding of other files,
//! stringification and concatenation. All other files pass through
//! untouched. Text in flight is held as a sequence of classified tokens so
//! that escape state survives the repeated re-scans the directive handlers
//! perform.
//!
//! The engine itself performs no input or output: the files a run may read
//! are handed in as an [`types::Fs`] value, and a recursion budget bounds
//! how deeply embedded files may nest.

use vstd::prelude::*;

pub mod character;
pub mod laws;
pub mod macros;
pub mod transform;
pub mod types;

use character::{
    as_literals, chars_to_string, copy_toks_range, has_prefix, literals_from, shown_chars_from,
    shown_text, split_toks, split_toks_from, starts_with_chars, starts_with_toks, str_to_chars,
    tok_views, CharVec, Character,
};
use macros::{
    concat_macro, concat_model, define_macro, define_model, embed_macro, embed_model,
    matches_model, stringify_macro, stringify_model,
};
use transform::{
    copy_range, decomment_chars, decommented, escape_chars_from, escaped, substitute_variables,
    substituted,
};
use types::{assoc_find, AssocSeq, Context, ErrModel, Fs, MacroError};

verus! {

broadcast use vstd::seq_lib::group_seq_properties;

// ---------------------------------------------------------------------------
// Directive syntax
// ---------------------------------------------------------------------------

/// The header line that switches a file from pass-through to processing.
pub open spec fn header_text() -> Seq<char> {
    seq!['$', 'P', 'R', 'E', 'P', ' ', 'e', 'n', 'a', 'b', 'l', 'e', '\n']
}

/// The characters every directive line carries after its marker.
pub open spec fn prep_chars() -> Seq<char> {
    seq!['P', 'R', 'E', 'P', ' ']
}

/// The token pattern opening a directive line: the line marker, `PREP `,
/// and the directive word.
pub open spec fn dir_pattern(word: Seq<char>) -> Seq<Character> {
    seq![Character::Dollar] + as_literals(prep_chars() + word)
}

/// The directive word that truncates processing.
pub open spec fn word_disable() -> Seq<char> {
    seq!['d', 'i', 's', 'a', 'b', 'l', 'e']
}

/// The directive word that embeds another file.
pub open spec fn word_embed() -> Seq<char> {
    seq!['i', 'n', 'c', 'l', 'u', 'd', 'e']
}

/// The directive word that concatenates values.
pub open spec fn word_concat() -> Seq<char> {
    seq!['c', 'o', 'n', 'c', 'a', 't']
}

/// The directive word that stringifies a file.
pub open spec fn word_stringify() -> Seq<char> {
    seq!['s', 't', 'r', 'i', 'n', 'g', 'i', 'f', 'y']
}

/// The directive word that defines a variable.
pub open spec fn word_define() -> Seq<char> {
    seq!['d', 'e', 'f', 'i', 'n', 'e']
}

/// The index of the first occurrence of `t`, or `ts.len()` if none.
pub open spec fn find_tok(ts: Seq<Character>, t: Character) -> int
    decreases ts.len(),
{
    if ts.len() == 0 {
        0
    } else if ts[0] == t {
        0
    } else {
        1 + find_tok(ts.skip(1), t)
    }
}

/// If the first `i` tokens differ from `t`, searching from the front and
/// searching from position `i` agree.
pub proof fn lemma_find_tok_from(ts: Seq<Character>, t: Character, i: int)
    requires
        0 <= i <= ts.len(),
        forall|j: int| 0 <= j < i ==> ts[j] != t,
    ensures
        find_tok(ts, t) == i + find_tok(ts.skip(i), t),
    decreases i,
{
    if i > 0 {
        assert(ts[0] != t);
        lemma_find_tok_from(ts.skip(1), t, i - 1);
        assert(ts.skip(1).skip(i - 1) =~= ts.skip(i));
        assert forall|j: int| 0 <= j < i - 1 implies ts.skip(1)[j] != t by {
            assert(ts.skip(1)[j] == ts[j + 1]);
        }
    }
}

/// The position of the first separator space in `v`, or its length.
pub(crate) fn find_space(v: &Vec<Character>) -> (r: usize)
    ensures
        r as int == find_tok(v@, Character::Char(' ')),
        r <= v@.len(),
        r < v@.len() ==> v@[r as int] == Character::Char(' '),
    decreases v@.len(),
{
    let n = v.len();
    let mut i: usize = 0;
    while i < n
        invariant
            i <= n,
            n == v@.len(),
            forall|j: int| 0 <= j < i ==> v@[j] != Character::Char(' '),
        decreases n - i,
    {
        if v[i] == Character::Char(' ') {
            proof {
                lemma_find_tok_from(v@, Character::Char(' '), i as int);
            }
            return i;
        }
        i = i + 1;
    }
    proof {
        lemma_find_tok_from(v@, Character::Char(' '), n as int);
        assert(v@.skip(n as int) =~= Seq::<Character>::empty());
    }
    n
}

/// The characters of a directive word, for building patterns.
fn word_chars(which: u8) -> (r: Vec<char>)
    ensures
        which == 0 ==> r@ == word_disable(),
        which == 1 ==> r@ == word_embed().push(' '),
        which == 2 ==> r@ == word_concat().push(' '),
        which == 3 ==> r@ == word_stringify().push(' '),
        which == 4 ==> r@ == word_define().push(' '),
        which >= 5 ==> r@ == Seq::<char>::empty(),
{
    let mut r: Vec<char> = Vec::new();
    if which == 0 {
        r.push('d');
        r.push('i');
        r.push('s');
        r.push('a');
        r.push('b');
        r.push('l');
        r.push('e');
        proof {
            assert(r@ =~= word_disable());
        }
    } else if which == 1 {
        r.push('i');
        r.push('n');
        r.push('c');
        r.push('l');
        r.push('u');
        r.push('d');
        r.push('e');
        r.push(' ');
        proof {
            assert(r@ =~= word_embed().push(' '));
        }
    } else if which == 2 {
        r.push('c');
        r.push('o');
        r.push('n');
        r.push('c');
        r.push('a');
        r.push('t');
        r.push(' ');
        proof {
            assert(r@ =~= word_concat().push(' '));
        }
    } else if which == 3 {
        r.push('s');
        r.push('t');
        r.push('r');
        r.push('i');
        r.push('n');
        r.push('g');
        r.push('i');
        r.push('f');
        r.push('y');
        r.push(' ');
        proof {
            assert(r@ =~= word_stringify().push(' '));
        }
    } else if which == 4 {
        r.push('d');
        r.push('e');
        r.push('f');
        r.push('i');
        r.push('n');
        r.push('e');
        r.push(' ');
        proof {
            assert(r@ =~= word_define().push(' '));
        }
    }
    r
}

/// The full token pattern of a directive line opening.
fn dir_pattern_vec(word: &Vec<char>) -> (r: Vec<Character>)
    ensures
        r@ == dir_pattern(word@),
{
    let mut chars: Vec<char> = Vec::new();
    chars.push('P');
    chars.push('R');
    chars.push('E');
    chars.push('P');
    chars.push(' ');
    let mut w = copy_range(word, 0, word.len());
    proof {
        assert(w@ =~= word@);
    }
    chars.append(&mut w);
    proof {
        assert(chars@ =~= prep_chars() + word@);
    }
    let lits = literals_from(&chars, 0);
    proof {
        assert(chars@.skip(0) =~= chars@);
    }
    let mut r: Vec<Character> = Vec::new();
    r.push(Character::Dollar);
    let mut l = lits;
    r.append(&mut l);
    proof {
        assert(r@ =~= dir_pattern(word@));
    }
    r
}

/// The header line as characters.
fn header_vec() -> (r: Vec<char>)
    ensures
        r@ == header_text(),
{
    let mut r: Vec<char> = Vec::new();
    r.push('$');
    r.push('P');
    r.push('R');
    r.push('E');
    r.push('P');
    r.push(' ');
    r.push('e');
    r.push('n');
    r.push('a');
    r.push('b');
    r.push('l');
    r.push('e');
    r.push('\n');
    proof {
        assert(r@ =~= header_text());
    }
    r
}

// ---------------------------------------------------------------------------
// The directive engine
// ---------------------------------------------------------------------------

/// What processing a file yields, and the context it leaves behind.
///
/// A missing path fails; a file without the header passes through as
/// literal tokens; otherwise the header is stripped, comments are removed,
/// the text is escaped, split into lines and dispatched line by line. An
/// exhausted nesting budget fails.
pub open spec fn run_model(fs: AssocSeq, path: Seq<char>, ctx: AssocSeq, fuel: nat) -> (Result<
    Seq<Character>,
    ErrModel,
>, AssocSeq)
    decreases fuel, 1int, 0int, 0int,
{
    if fuel == 0 {
        (Err(ErrModel::DepthLimit), ctx)
    } else {
        match assoc_find(fs, path) {
            None => (Err(ErrModel::ReadFail(path)), ctx),
            Some(text) => {
                if !has_prefix(text, header_text()) {
                    (Ok(as_literals(text)), ctx)
                } else {
                    let lines = split_toks(
                        escaped(decommented(text.skip(header_text().len() as int))),
                        Character::Char('\n'),
                    );
                    let run = lines_model(fs, lines, 0, ctx, fuel);
                    match run.0 {
                        Err(e) => (Err(e), run.1),
                        Ok(out) => (
                            Ok(
                                if out.len() == 0 {
                                    out
                                } else {
                                    out.skip(1)
                                },
                            ),
                            run.1,
                        ),
                    }
                }
            },
        }
    }
}

/// Dispatch of the lines `lines[i..]`, first match deciding: truncation,
/// embedding, concatenation, stringification, definition, an unknown
/// directive, or plain substitution. Every emitted chunk is preceded by one
/// newline token; the caller drops the very first.
pub open spec fn lines_model(
    fs: AssocSeq,
    lines: Seq<Seq<Character>>,
    i: int,
    ctx: AssocSeq,
    fuel: nat,
) -> (Result<Seq<Character>, ErrModel>, AssocSeq)
    decreases fuel, 0int, lines.len() - i, 1int,
{
    if i < 0 || i >= lines.len() {
        (Ok(Seq::empty()), ctx)
    } else {
        let line = lines[i];
        if has_prefix(line, dir_pattern(word_disable())) {
            (Ok(Seq::empty()), ctx)
        } else if has_prefix(line, dir_pattern(word_embed().push(' '))) {
            let args = split_toks(
                line.skip(dir_pattern(word_embed().push(' ')).len() as int),
                Character::Char(' '),
            );
            let step = embed_model(fs, args, ctx, fuel);
            match step.0 {
                Err(e) => (Err(e), step.1),
                Ok(d) => emit_then(
                    substituted(d, step.1),
                    lines_model(fs, lines, i + 1, step.1, fuel),
                ),
            }
        } else if has_prefix(line, dir_pattern(word_concat().push(' '))) {
            let args = split_toks(
                line.skip(dir_pattern(word_concat().push(' ')).len() as int),
                Character::Char(' '),
            );
            let step = concat_model(args, ctx);
            match step.0 {
                Err(e) => (Err(e), step.1),
                Ok(d) => lines_model(fs, lines, i + 1, step.1, fuel),
            }
        } else if has_prefix(line, dir_pattern(word_stringify().push(' '))) {
            let args = split_toks(
                line.skip(dir_pattern(word_stringify().push(' ')).len() as int),
                Character::Char(' '),
            );
            let step = stringify_model(fs, args, ctx, fuel);
            match step.0 {
                Err(e) => (Err(e), step.1),
                Ok(d) => lines_model(fs, lines, i + 1, step.1, fuel),
            }
        } else if has_prefix(line, dir_pattern(word_define().push(' '))) {
            let rest = line.skip(dir_pattern(word_define().push(' ')).len() as int);
            let sp = find_tok(rest, Character::Char(' '));
            if sp >= rest.len() {
                (Err(ErrModel::ArgCount(2, 0)), ctx)
            } else {
                let args = seq![rest.subrange(0, sp), rest.skip(sp + 1)];
                let step = define_model(args, ctx);
                match step.0 {
                    Err(e) => (Err(e), step.1),
                    Ok(d) => emit_then(
                        substituted(d, step.1),
                        lines_model(fs, lines, i + 1, step.1, fuel),
                    ),
                }
            }
        } else if has_prefix(line, dir_pattern(Seq::empty())) {
            let cmd = line.skip(dir_pattern(Seq::empty()).len() as int);
            (Err(ErrModel::BadDirective(shown_text(cmd))), ctx)
        } else {
            emit_then(substituted(line, ctx), lines_model(fs, lines, i + 1, ctx, fuel))
        }
    }
}

/// One chunk emitted with its newline prefix, followed by whatever the
/// rest of the lines yield.
pub open spec fn emit_then(
    chunk: Seq<Character>,
    rest: (Result<Seq<Character>, ErrModel>, AssocSeq),
) -> (Result<Seq<Character>, ErrModel>, AssocSeq) {
    match rest.0 {
        Err(e) => (Err(e), rest.1),
        Ok(out) => (Ok(seq![Character::Char('\n')] + chunk + out), rest.1),
    }
}

/// Processes the file under `path`, with the path already as characters.
pub(crate) fn process_chars(fs: &Fs, path: &Vec<char>, vars: &mut Context, fuel: u64) -> (result:
    Result<CharVec, MacroError>)
    ensures
        final(vars)@ == run_model(fs@, path@, old(vars)@, fuel as nat).1,
        matches_model(result, run_model(fs@, path@, old(vars)@, fuel as nat).0),
    decreases fuel, 1int, 0int, 0int,
{
    if fuel == 0 {
        return Err(MacroError::RecursionLimit);
    }
    let text = match fs.read(path) {
        Some(t) => t,
        None => {
            return Err(MacroError::IoError(chars_to_string(path)));
        },
    };
    let chars = str_to_chars(text.as_str());
    let hdr = header_vec();
    if !starts_with_chars(&chars, &hdr) {
        let lits = literals_from(&chars, 0);
        proof {
            assert(chars@.skip(0) =~= chars@);
        }
        let r = CharVec(lits);
        return Ok(r);
    }
    let rest = copy_range(&chars, hdr.len(), chars.len());
    proof {
        assert(rest@ =~= chars@.skip(header_text().len() as int));
    }
    let clean = decomment_chars(&rest);
    let esc = escape_chars_from(&clean, 0, true);
    proof {
        assert(clean@.skip(0) =~= clean@);
    }
    let lines = split_toks_from(&esc, 0, Character::Char('\n'));
    proof {
        assert(esc@.skip(0) =~= esc@);
    }
    let out = run_lines(fs, &lines, 0, vars, fuel);
    match out {
        Err(e) => Err(e),
        Ok(cv) => {
            if cv.0.len() == 0 {
                Ok(cv)
            } else {
                let trimmed = copy_toks_range(&cv.0, 1, cv.0.len());
                proof {
                    assert(trimmed@ =~= cv@.skip(1));
                }
                Ok(CharVec(trimmed))
            }
        },
    }
}

/// Dispatches the lines `lines[i..]`, sharing the context with every
/// handler, and returns their emitted output, each chunk preceded by one
/// newline token.
#[verifier::rlimit(60)]
pub(crate) fn run_lines(fs: &Fs, lines: &Vec<CharVec>, i: usize, vars: &mut Context, fuel: u64) -> (result:
    Result<CharVec, MacroError>)
    requires
        i <= lines@.len(),
    ensures
        final(vars)@ == lines_model(fs@, tok_views(lines@), i as int, old(vars)@, fuel as nat).1,
        matches_model(
            result,
            lines_model(fs@, tok_views(lines@), i as int, old(vars)@, fuel as nat).0,
        ),
    decreases fuel, 0int, lines@.len() - i, 1int,
{
    let ghost lv = tok_views(lines@);
    let ghost ctx0 = old(vars)@;
    let ghost lm = lines_model(fs@, lv, i as int, ctx0, fuel as nat);
    if i == lines.len() {
        let r = CharVec(Vec::new());
        proof {
            assert(r@ =~= Seq::<Character>::empty());
        }
        return Ok(r);
    }
    let line = &lines[i];
    proof {
        assert(lv[i as int] == line@);
    }
    let wd = word_chars(0);
    let pd = dir_pattern_vec(&wd);
    if starts_with_toks(&line.0, &pd) {
        let r = CharVec(Vec::new());
        proof {
            assert(r@ =~= Seq::<Character>::empty());
        }
        return Ok(r);
    }
    let we = word_chars(1);
    let pe = dir_pattern_vec(&we);
    if starts_with_toks(&line.0, &pe) {
        let ghost pat = dir_pattern(word_embed().push(' '));
        let rest = copy_toks_range(&line.0, pe.len(), line.0.len());
        proof {
            assert(rest@ =~= line@.skip(pat.len() as int));
        }
        let args = split_toks_from(&rest, 0, Character::Char(' '));
        let ghost argv = tok_views(args@);
        proof {
            assert(rest@.skip(0) =~= rest@);
            assert(argv == split_toks(lv[i as int].skip(pat.len() as int), Character::Char(' ')));
        }
        let ghost step_m = embed_model(fs@, argv, ctx0, fuel as nat);
        let d = match embed_macro(args, vars, fs, fuel) {
            Ok(d) => d,
            Err(e) => {
                return Err(e);
            },
        };
        let sub = substitute_variables(d, vars);
        let tail = match run_lines(fs, lines, i + 1, vars, fuel) {
            Ok(t) => t,
            Err(e) => {
                return Err(e);
            },
        };
        let mut out: Vec<Character> = Vec::new();
        out.push(Character::Char('\n'));
        let mut s0 = sub.0;
        out.append(&mut s0);
        let mut t0 = tail.0;
        out.append(&mut t0);
        proof {
            assert(out@ =~= seq![Character::Char('\n')] + sub@ + tail@);
        }
        return Ok(CharVec(out));
    }
    let wc = word_chars(2);
    let pc = dir_pattern_vec(&wc);
    if starts_with_toks(&line.0, &pc) {
        let ghost pat = dir_pattern(word_concat().push(' '));
        let rest = copy_toks_range(&line.0, pc.len(), line.0.len());
        proof {
            assert(rest@ =~= line@.skip(pat.len() as int));
        }
        let args = split_toks_from(&rest, 0, Character::Char(' '));
        let ghost argv = tok_views(args@);
        proof {
            assert(rest@.skip(0) =~= rest@);
            assert(argv == split_toks(lv[i as int].skip(pat.len() as int), Character::Char(' ')));
        }
        match concat_macro(args, vars) {
            Ok(_) => {},
            Err(e) => {
                return Err(e);
            },
        }
        return run_lines(fs, lines, i + 1, vars, fuel);
    }
    let ws = word_chars(3);
    let ps = dir_pattern_vec(&ws);
    if starts_with_toks(&line.0, &ps) {
        let ghost pat = dir_pattern(word_stringify().push(' '));
        let rest = copy_toks_range(&line.0, ps.len(), line.0.len());
        proof {
            assert(rest@ =~= line@.skip(pat.len() as int));
        }
        let args = split_toks_from(&rest, 0, Character::Char(' '));
        let ghost argv = tok_views(args@);
        proof {
            assert(rest@.skip(0) =~= rest@);
            assert(argv == split_toks(lv[i as int].skip(pat.len() as int), Character::Char(' ')));
        }
        match stringify_macro(args, vars, fs, fuel) {
            Ok(_) => {},
            Err(e) => {
                return Err(e);
            },
        }
        return run_lines(fs, lines, i + 1, vars, fuel);
    }
    let wf = word_chars(4);
    let pf = dir_pattern_vec(&wf);
    if starts_with_toks(&line.0, &pf) {
        let ghost pat = dir_pattern(word_define().push(' '));
        let rest = copy_toks_range(&line.0, pf.len(), line.0.len());
        proof {
            assert(rest@ =~= line@.skip(pat.len() as int));
        }
        let sp = find_space(&rest);
        if sp == rest.len() {
            return Err(MacroError::ExpectedNArgs(2, 0));
        }
        let name = copy_toks_range(&rest, 0, sp);
        let body = copy_toks_range(&rest, sp + 1, rest.len());
        let mut args: Vec<CharVec> = Vec::new();
        args.push(CharVec(name));
        args.push(CharVec(body));
        let ghost argv = tok_views(args@);
        proof {
            let restv = lv[i as int].skip(pat.len() as int);
            let spg = find_tok(restv, Character::Char(' '));
            assert(argv =~~= seq![restv.subrange(0, spg), restv.skip(spg + 1)]);
        }
        let d = match define_macro(args, vars) {
            Ok(d) => d,
            Err(e) => {
                return Err(e);
            },
        };
        let sub = substitute_variables(d, vars);
        let tail = match run_lines(fs, lines, i + 1, vars, fuel) {
            Ok(t) => t,
            Err(e) => {
                return Err(e);
            },
        };
        let mut out: Vec<Character> = Vec::new();
        out.push(Character::Char('\n'));
        let mut s0 = sub.0;
        out.append(&mut s0);
        let mut t0 = tail.0;
        out.append(&mut t0);
        proof {
            assert(out@ =~= seq![Character::Char('\n')] + sub@ + tail@);
        }
        return Ok(CharVec(out));
    }
    let wu = word_chars(5);
    let pu = dir_pattern_vec(&wu);
    if starts_with_toks(&line.0, &pu) {
        let ghost pat = dir_pattern(Seq::<char>::empty());
        let cmd = copy_toks_range(&line.0, pu.len(), line.0.len());
        proof {
            assert(cmd@ =~= line@.skip(pat.len() as int));
        }
        let shown = shown_chars_from(&cmd, 0);
        proof {
            assert(cmd@.skip(0) =~= cmd@);
        }
        return Err(MacroError::UnknownCommand(chars_to_string(&shown)));
    }
    let plain = copy_toks_range(&line.0, 0, line.0.len());
    proof {
        assert(plain@ =~= line@);
    }
    let sub = substitute_variables(CharVec(plain), vars);
    let tail = match run_lines(fs, lines, i + 1, vars, fuel) {
        Ok(t) => t,
        Err(e) => {
            return Err(e);
        },
    };
    let mut out: Vec<Character> = Vec::new();
    out.push(Character::Char('\n'));
    let mut s0 = sub.0;
    out.append(&mut s0);
    let mut t0 = tail.0;
    out.append(&mut t0);
    proof {
        assert(out@ =~= seq![Character::Char('\n')] + sub@ + tail@);
    }
    Ok(CharVec(out))
}

/// Process a file from the store fully, with the shared variable context.
///
/// If the file does not start with `$PREP enable`, returns an unmodified
/// buffer. `fuel` bounds how deeply embedded files may nest; when it runs
/// out the whole call fails.
pub fn process_file(path: &str, vars: &mut Context, fs: &Fs, fuel: u64) -> (result: Result<
    CharVec,
    MacroError,
>)
    ensures
        final(vars)@ == run_model(fs@, path@, old(vars)@, fuel as nat).1,
        matches_model(result, run_model(fs@, path@, old(vars)@, fuel as nat).0),
{
    let p = str_to_chars(path);
    process_chars(fs, &p, vars, fuel)
}


} // verus!
