//! Properties of the engine that hold for every input, stated and proved
//! once for all callers.

use vstd::prelude::*;

use crate::character::{as_literals, glyph, has_prefix, lit_of, plain_text, split_toks, Character};
use crate::macros::{embed_model, strip_quotes};
use crate::transform::{escaped_from, substituted};
use crate::types::{assoc_find, AssocSeq, ErrModel};
use crate::{
    dir_pattern, emit_then, header_text, lines_model, run_model, word_disable, word_embed,
};

verus! {

broadcast use vstd::seq_lib::group_seq_properties;

/// Literal tokens render back to exactly the characters they were made of.
pub proof fn lemma_plain_of_literals(s: Seq<char>)
    ensures
        plain_text(as_literals(s)) == s,
{
    assert forall|i: int| 0 <= i < s.len() implies plain_text(as_literals(s))[i] == s[i] by {
        reveal(lit_of);
        assert(as_literals(s)[i] == lit_of(s[i]));
        assert(glyph(lit_of(s[i])) == s[i]);
    }
    assert(plain_text(as_literals(s)) =~= s);
}

/// Pass-through: a file that does not open with the enabling header is
/// emitted byte-identical to its content, and the context is left
/// untouched.
pub proof fn lemma_pass_through(
    fs: AssocSeq,
    path: Seq<char>,
    ctx: AssocSeq,
    fuel: nat,
    content: Seq<char>,
)
    requires
        fuel >= 1,
        assoc_find(fs, path) == Some(content),
        !has_prefix(content, header_text()),
    ensures
        run_model(fs, path, ctx, fuel) == (
            Ok::<Seq<Character>, ErrModel>(as_literals(content)),
            ctx,
        ),
        plain_text(as_literals(content)) == content,
{
    lemma_plain_of_literals(content);
}

/// Escape round trip: text holding no `$`, `%` or `\` survives the
/// escaping pass and the plain rendering unchanged, from any scan state.
pub proof fn lemma_escape_round_trip(s: Seq<char>, start: bool)
    requires
        forall|i: int| 0 <= i < s.len() ==> s[i] != '$' && s[i] != '%' && s[i] != '\\',
    ensures
        plain_text(escaped_from(s, start)) == s,
    decreases s.len(),
{
    if s.len() > 0 {
        assert forall|i: int| 0 <= i < s.skip(1).len() implies s.skip(1)[i] != '$' && s.skip(1)[i]
            != '%' && s.skip(1)[i] != '\\' by {
            assert(s.skip(1)[i] == s[i + 1]);
        }
        lemma_escape_round_trip(s.skip(1), s[0] == '\n');
        let tail = escaped_from(s.skip(1), s[0] == '\n');
        let h = lit_of(s[0]);
        reveal(lit_of);
        assert(escaped_from(s, start) == seq![h] + tail);
        assert forall|i: int| 0 <= i < s.len() implies plain_text(escaped_from(s, start))[i]
            == s[i] by {
            reveal(lit_of);
            if i == 0 {
                assert(glyph(h) == s[0]);
            } else {
                assert((seq![h] + tail)[i] == tail[i - 1]);
                assert(glyph(tail[i - 1]) == plain_text(tail)[i - 1]);
            }
        }
        assert(plain_text(escaped_from(s, start)) =~= s);
    }
}

/// An escaped `\$` or `\%` always becomes the literal glyph, wherever it
/// stands: the position in the text fixes only the line-start flag, and
/// the pair yields `Literal(c)` for either value of it.
pub proof fn lemma_escaped_pair_literal(c: char, rest: Seq<char>, start: bool)
    requires
        c == '$' || c == '%',
    ensures
        escaped_from(seq!['\\'].push(c) + rest, start) == seq![Character::Char(c)] + escaped_from(
            rest,
            false,
        ),
        plain_text(seq![Character::Char(c)] + escaped_from(rest, false)) == seq![c] + plain_text(
            escaped_from(rest, false),
        ),
{
    let s = seq!['\\'].push(c) + rest;
    assert(s.len() >= 2);
    assert(s[0] == '\\');
    assert(s[1] == c);
    assert(s.skip(2) =~= rest);
    assert((seq![Character::Char(c)] + escaped_from(rest, false)).skip(1) =~= escaped_from(
        rest,
        false,
    ));
    assert(plain_text(seq![Character::Char(c)] + escaped_from(rest, false)) =~= seq![c]
        + plain_text(escaped_from(rest, false)));
}

/// Every double quote the concat rescan leaves stands right after the
/// backslash that carried it through; a bare one is gone.
pub proof fn lemma_strip_quotes_guarded(ts: Seq<Character>)
    ensures
        forall|i: int|
            0 <= i < strip_quotes(ts).len() && #[trigger] strip_quotes(ts)[i] == Character::Char(
                '"',
            ) ==> i > 0 && strip_quotes(ts)[i - 1] == Character::Char('\\'),
    decreases ts.len(),
{
    let r = strip_quotes(ts);
    if ts.len() == 0 {
    } else if ts[0] == Character::Char('\\') && ts.len() >= 2 {
        lemma_strip_quotes_guarded(ts.skip(2));
        let rest = strip_quotes(ts.skip(2));
        assert(r =~= seq![ts[0]].push(ts[1]) + rest);
        assert forall|i: int|
            0 <= i < r.len() && #[trigger] r[i] == Character::Char('"') implies i > 0 && r[i - 1]
            == Character::Char('\\') by {
            if i >= 2 {
                assert(r[i] == rest[i - 2]);
                assert(rest[i - 2] == Character::Char('"'));
                assert(i - 2 > 0 && rest[i - 3] == Character::Char('\\'));
                assert(r[i - 1] == rest[i - 3]);
            }
        }
    } else if ts[0] == Character::Char('\\') {
    } else {
        lemma_strip_quotes_guarded(ts.skip(1));
        let rest = strip_quotes(ts.skip(1));
        let keep = ts[0] != Character::Char('"');
        if keep {
            let head = if ts[0] == Character::Dollar {
                Character::Char('$')
            } else if ts[0] == Character::Percent {
                Character::Char('%')
            } else {
                ts[0]
            };
            assert(r =~= seq![head] + rest);
            assert(head != Character::Char('"'));
            assert forall|i: int|
                0 <= i < r.len() && #[trigger] r[i] == Character::Char('"') implies i > 0 && r[i
                - 1] == Character::Char('\\') by {
                assert(i >= 1);
                assert(r[i] == rest[i - 1]);
                assert(i - 1 > 0 && rest[i - 2] == Character::Char('\\'));
                assert(r[i - 1] == rest[i - 2]);
            }
        }
    }
}

/// Arguments that hold no backslash token keep no double quote at all
/// after the concat rescan.
pub proof fn lemma_strip_quotes_total(ts: Seq<Character>)
    requires
        forall|i: int| 0 <= i < ts.len() ==> ts[i] != Character::Char('\\'),
    ensures
        forall|i: int|
            0 <= i < strip_quotes(ts).len() ==> strip_quotes(ts)[i] != Character::Char('"'),
    decreases ts.len(),
{
    let r = strip_quotes(ts);
    if ts.len() > 0 {
        assert forall|i: int| 0 <= i < ts.skip(1).len() implies ts.skip(1)[i] != Character::Char(
            '\\',
        ) by {
            assert(ts.skip(1)[i] == ts[i + 1]);
        }
        lemma_strip_quotes_total(ts.skip(1));
        let rest = strip_quotes(ts.skip(1));
        if ts[0] != Character::Char('"') {
            let head = if ts[0] == Character::Dollar {
                Character::Char('$')
            } else if ts[0] == Character::Percent {
                Character::Char('%')
            } else {
                ts[0]
            };
            assert(r =~= seq![head] + rest);
            assert forall|i: int| 0 <= i < r.len() implies r[i] != Character::Char('"') by {
                if i >= 1 {
                    assert(r[i] == rest[i - 1]);
                }
            }
        }
    }
}

/// Cross-file visibility: when a line embeds another file and the
/// embedding succeeds, the context it leaves behind, definitions made
/// inside that file included, is the very context every later line of the
/// embedding file is processed with.
pub proof fn lemma_embed_context_visible(
    fs: AssocSeq,
    lines: Seq<Seq<Character>>,
    i: int,
    ctx: AssocSeq,
    fuel: nat,
)
    requires
        0 <= i < lines.len(),
        !has_prefix(lines[i], dir_pattern(word_disable())),
        has_prefix(lines[i], dir_pattern(word_embed().push(' '))),
    ensures
        ({
            let args = split_toks(
                lines[i].skip(dir_pattern(word_embed().push(' ')).len() as int),
                Character::Char(' '),
            );
            let step = embed_model(fs, args, ctx, fuel);
            step.0 matches Ok(d) ==> lines_model(fs, lines, i, ctx, fuel) == emit_then(
                substituted(d, step.1),
                lines_model(fs, lines, i + 1, step.1, fuel),
            )
        }),
{
}



} // verus!
