//! The style mini-language.
//!
//! A style specification is a whitespace-separated sequence of tokens, folded
//! left to right into a [`StyleAttributes`] value.  A token may switch one of
//! the four boolean attributes on, set the foreground or background color
//! (`fg:`/`bg:` prefix, bare colors target the foreground), or nullify the
//! whole specification (`none`, or any unrecognized token).  Within one
//! channel the last token wins; once the result is nullified the remaining
//! tokens are never inspected.

use vstd::prelude::*;

use crate::color::ColorValue;
use crate::color::spec_resolve;
use crate::color::resolve_chars;
use crate::text::is_space;
use crate::text::lower;
use crate::text::lower_char;
use crate::text::lemma_lower_char_idempotent;
use crate::text::lemma_lower_char_space;
use crate::text::space_char;
use crate::text::str_chars;
use crate::text::to_lower;
use crate::text::chars_eq_str;
use crate::text::chars_range;

verus! {

/// A normalized set of visual attributes: four boolean flags and an optional
/// color per channel.  The default value (all flags off, no colors) is the
/// explicit no-op style.
#[derive(Clone, Copy, Debug, PartialEq, Eq)]
pub struct StyleAttributes {
    pub bold: bool,
    pub italic: bool,
    pub underline: bool,
    pub dimmed: bool,
    pub foreground: Option<ColorValue>,
    pub background: Option<ColorValue>,
}

/// The empty style: all flags off, both channels unset.
pub open spec fn empty_style() -> StyleAttributes {
    StyleAttributes {
        bold: false,
        italic: false,
        underline: false,
        dimmed: false,
        foreground: None,
        background: None,
    }
}

impl Default for StyleAttributes {
    /// The empty style.
    fn default() -> (r: Self)
        ensures
            r == empty_style(),
    {
        StyleAttributes {
            bold: false,
            italic: false,
            underline: false,
            dimmed: false,
            foreground: None,
            background: None,
        }
    }
}

/// The longest separator-free prefix of `s`: the first token, when `s`
/// starts with one.
pub open spec fn take_token(s: Seq<char>) -> Seq<char>
    decreases s.len(),
{
    if s.len() == 0 || is_space(s[0]) {
        Seq::empty()
    } else {
        seq![s[0]] + take_token(s.drop_first())
    }
}

/// What remains of `s` after its first token.
pub open spec fn skip_token(s: Seq<char>) -> Seq<char>
    decreases s.len(),
{
    if s.len() == 0 || is_space(s[0]) {
        s
    } else {
        skip_token(s.drop_first())
    }
}

/// The first token and the rest partition the input.
pub proof fn lemma_token_split(s: Seq<char>)
    ensures
        take_token(s).len() + skip_token(s).len() == s.len(),
    decreases s.len(),
{
    if s.len() == 0 || is_space(s[0]) {
    } else {
        lemma_token_split(s.drop_first());
    }
}

/// If the first `j` characters are not separators and position `j` is a
/// separator (or the end), then the first token is exactly those `j`
/// characters.
pub proof fn lemma_token_prefix(s: Seq<char>, j: int)
    requires
        0 <= j <= s.len(),
        forall|k: int| 0 <= k < j ==> !is_space(s[k]),
        j == s.len() || is_space(s[j]),
    ensures
        take_token(s) == s.subrange(0, j),
        skip_token(s) == s.subrange(j, s.len() as int),
    decreases j,
{
    if j == 0 {
        assert(take_token(s) =~= s.subrange(0, 0));
        assert(skip_token(s) =~= s.subrange(0, s.len() as int));
    } else {
        let d = s.drop_first();
        lemma_token_prefix(d, j - 1);
        assert(take_token(s) =~= s.subrange(0, j)) by {
            assert(d.subrange(0, j - 1) =~= s.subrange(1, j));
            assert(take_token(s) == seq![s[0]] + take_token(d));
        }
        assert(skip_token(s) =~= s.subrange(j, s.len() as int)) by {
            assert(d.subrange(j - 1, d.len() as int) =~= s.subrange(j, s.len() as int));
        }
    }
}

/// The tokens of a specification string: the separator-delimited words, in
/// order.  A blank string has no tokens.
pub open spec fn tokenize(s: Seq<char>) -> Seq<Seq<char>>
    decreases s.len(),
    via tokenize_decreases
{
    if s.len() == 0 {
        Seq::empty()
    } else if is_space(s[0]) {
        tokenize(s.drop_first())
    } else {
        seq![take_token(s)] + tokenize(skip_token(s))
    }
}

#[via_fn]
proof fn tokenize_decreases(s: Seq<char>) {
    if s.len() > 0 && !is_space(s[0]) {
        lemma_token_split(s);
    }
}

/// Whether `t` starts with `p`.
pub open spec fn has_prefix(t: Seq<char>, p: Seq<char>) -> bool {
    t.len() >= p.len() && t.subrange(0, p.len() as int) == p
}

/// The body of a token: the lower-cased token with a leading channel prefix
/// (`fg:` or `bg:`) stripped.
pub open spec fn token_body(raw: Seq<char>) -> Seq<char> {
    let t = lower(raw);
    if has_prefix(t, "fg:"@) || has_prefix(t, "bg:"@) {
        t.skip(3)
    } else {
        t
    }
}

/// Whether the token addresses the background channel; bare tokens address
/// the foreground.
pub open spec fn token_targets_background(raw: Seq<char>) -> bool {
    let t = lower(raw);
    !has_prefix(t, "fg:"@) && has_prefix(t, "bg:"@)
}

/// The five reserved token bodies, which are never read as colors.
pub open spec fn is_keyword(body: Seq<char>) -> bool {
    body == "underline"@ || body == "bold"@ || body == "italic"@ || body == "dimmed"@ || body
        == "none"@
}

/// The effect of one token body on an accumulated style: a flag keyword
/// switches its flag on, `none` nullifies, a color overwrites the targeted
/// channel, and anything else nullifies.
pub open spec fn apply_body(st: StyleAttributes, body: Seq<char>, to_bg: bool) -> Option<
    StyleAttributes,
> {
    if body == "underline"@ {
        Some(StyleAttributes { underline: true, ..st })
    } else if body == "bold"@ {
        Some(StyleAttributes { bold: true, ..st })
    } else if body == "italic"@ {
        Some(StyleAttributes { italic: true, ..st })
    } else if body == "dimmed"@ {
        Some(StyleAttributes { dimmed: true, ..st })
    } else if body == "none"@ {
        None
    } else {
        match spec_resolve(body) {
            Some(c) => Some(
                if to_bg {
                    StyleAttributes { background: Some(c), ..st }
                } else {
                    StyleAttributes { foreground: Some(c), ..st }
                },
            ),
            None => None,
        }
    }
}

/// The effect of one raw token on an accumulated style.
pub open spec fn apply_token(st: StyleAttributes, raw: Seq<char>) -> Option<StyleAttributes> {
    apply_body(st, token_body(raw), token_targets_background(raw))
}

/// Folds tokens left to right from a starting style; a nullified
/// accumulator stays nullified and later tokens are not consulted.
pub open spec fn fold_from(st: StyleAttributes, toks: Seq<Seq<char>>) -> Option<StyleAttributes>
    decreases toks.len(),
{
    if toks.len() == 0 {
        Some(st)
    } else {
        match apply_token(st, toks[0]) {
            Some(s2) => fold_from(s2, toks.drop_first()),
            None => None,
        }
    }
}

/// What `fold` returns for a specification string: its tokens folded onto
/// the empty style.
pub open spec fn spec_fold(s: Seq<char>) -> Option<StyleAttributes> {
    fold_from(empty_style(), tokenize(s))
}

/// Splits a character sequence into its whitespace-delimited tokens.
pub fn split_tokens(s: &Vec<char>) -> (r: Vec<Vec<char>>)
    ensures
        r@.len() == tokenize(s@).len(),
        forall|k: int| 0 <= k < r@.len() ==> r@[k]@ == tokenize(s@)[k],
{
    let n = s.len();
    let mut r: Vec<Vec<char>> = Vec::new();
    proof {
        assert(s@.subrange(0, n as int) =~= s@);
    }
    let mut i: usize = 0;
    while i < n
        invariant
            n == s@.len(),
            i <= n,
            r@.len() + tokenize(s@.subrange(i as int, n as int)).len() == tokenize(s@).len(),
            forall|k: int| 0 <= k < r@.len() ==> r@[k]@ == tokenize(s@)[k],
            forall|k: int|
                0 <= k < tokenize(s@.subrange(i as int, n as int)).len() ==> tokenize(
                    s@.subrange(i as int, n as int),
                )[k] == tokenize(s@)[r@.len() + k],
        decreases n - i,
    {
        if space_char(s[i]) {
            proof {
                let sub = s@.subrange(i as int, n as int);
                assert(sub[0] == s@[i as int]);
                assert(sub.drop_first() =~= s@.subrange(i + 1, n as int));
            }
            i = i + 1;
        } else {
            let mut j: usize = i + 1;
            while j < n && !(s[j] == ' ' || s[j] == '\t' || s[j] == '\n' || s[j] == '\r' || s[j]
                == '\u{b}' || s[j] == '\u{c}')
                invariant
                    n == s@.len(),
                    i < j <= n,
                    forall|k: int| i <= k < j ==> !is_space(s@[k]),
                decreases n - j,
            {
                j = j + 1;
            }
            let tok = chars_range(s, i, j);
            proof {
                let sub = s@.subrange(i as int, n as int);
                assert(sub[0] == s@[i as int]);
                assert forall|k: int| 0 <= k < j - i implies !is_space(sub[k]) by {
                    assert(sub[k] == s@[i + k]);
                }
                if j < n {
                    assert(sub[j - i] == s@[j as int]);
                }
                lemma_token_prefix(sub, j - i);
                assert(take_token(sub) =~= s@.subrange(i as int, j as int));
                assert(skip_token(sub) =~= s@.subrange(j as int, n as int));
                assert(tokenize(sub) == seq![take_token(sub)] + tokenize(skip_token(sub)));
                assert(tokenize(sub)[0] == take_token(sub));
                assert forall|k: int|
                    0 <= k < tokenize(s@.subrange(j as int, n as int)).len() implies tokenize(
                    s@.subrange(j as int, n as int),
                )[k] == tokenize(sub)[k + 1] by {}
            }
            r.push(tok);
            i = j;
        }
    }
    proof {
        assert(s@.subrange(n as int, n as int) =~= Seq::<char>::empty());
    }
    r
}

/// The effect of one raw token on the accumulated style.
fn apply_style_token(st: &StyleAttributes, raw: &Vec<char>) -> (r: Option<StyleAttributes>)
    ensures
        r == apply_token(*st, raw@),
{
    let t = to_lower(raw);
    let ghost tv = t@;
    let fg = t.len() >= 3 && t[0] == 'f' && t[1] == 'g' && t[2] == ':';
    let bg = t.len() >= 3 && t[0] == 'b' && t[1] == 'g' && t[2] == ':';
    proof {
        reveal_strlit("fg:");
        reveal_strlit("bg:");
        assert(has_prefix(tv, "fg:"@) == fg) by {
            if fg {
                assert(tv.subrange(0, 3) =~= "fg:"@);
            }
            if has_prefix(tv, "fg:"@) {
                assert(tv[0] == tv.subrange(0, 3)[0]);
                assert(tv[1] == tv.subrange(0, 3)[1]);
                assert(tv[2] == tv.subrange(0, 3)[2]);
            }
        }
        assert(has_prefix(tv, "bg:"@) == bg) by {
            if bg {
                assert(tv.subrange(0, 3) =~= "bg:"@);
            }
            if has_prefix(tv, "bg:"@) {
                assert(tv[0] == tv.subrange(0, 3)[0]);
                assert(tv[1] == tv.subrange(0, 3)[1]);
                assert(tv[2] == tv.subrange(0, 3)[2]);
            }
        }
    }
    let to_bg = !fg && bg;
    let body: Vec<char> = if fg || bg {
        let len = t.len();
        chars_range(&t, 3, len)
    } else {
        t
    };
    proof {
        assert(body@ == token_body(raw@)) by {
            if fg || bg {
                assert(tv.subrange(3, tv.len() as int) =~= tv.skip(3));
            }
        }
        assert(to_bg == token_targets_background(raw@));
    }
    if chars_eq_str(&body, "underline") {
        let mut s2 = *st;
        s2.underline = true;
        Some(s2)
    } else if chars_eq_str(&body, "bold") {
        let mut s2 = *st;
        s2.bold = true;
        Some(s2)
    } else if chars_eq_str(&body, "italic") {
        let mut s2 = *st;
        s2.italic = true;
        Some(s2)
    } else if chars_eq_str(&body, "dimmed") {
        let mut s2 = *st;
        s2.dimmed = true;
        Some(s2)
    } else if chars_eq_str(&body, "none") {
        None
    } else {
        match resolve_chars(&body) {
            Some(c) => {
                let mut s2 = *st;
                if to_bg {
                    s2.background = Some(c);
                } else {
                    s2.foreground = Some(c);
                }
                Some(s2)
            },
            None => None,
        }
    }
}

/// Parses a whole style specification: tokenizes it and folds the tokens
/// onto the empty style.  A malformed specification yields `None`, never an
/// error and never a partial style; once a token nullifies the result the
/// remaining tokens are not examined.
pub fn fold(style_string: &str) -> (r: Option<StyleAttributes>)
    ensures
        r == spec_fold(style_string@),
{
    let chars = str_chars(style_string);
    let tokens = split_tokens(&chars);
    let ghost toks = tokenize(chars@);
    let mut st = StyleAttributes::default();
    proof {
        assert(toks.skip(0) =~= toks);
    }
    let mut i: usize = 0;
    while i < tokens.len()
        invariant
            tokens@.len() == toks.len(),
            forall|k: int| 0 <= k < toks.len() ==> tokens@[k]@ == toks[k],
            i <= toks.len(),
            fold_from(st, toks.skip(i as int)) == fold_from(empty_style(), toks),
            fold_from(empty_style(), toks) == spec_fold(style_string@),
        decreases toks.len() - i,
    {
        let next = apply_style_token(&st, &tokens[i]);
        proof {
            let rest = toks.skip(i as int);
            assert(rest[0] == toks[i as int]);
            assert(rest.drop_first() =~= toks.skip(i + 1));
        }
        match next {
            Some(s2) => {
                st = s2;
                i = i + 1;
            },
            None => {
                proof {
                    let rest = toks.skip(i as int);
                    assert(rest.len() > 0);
                    assert(apply_token(st, rest[0]) is None);
                    assert(fold_from(st, rest) is None);
                }
                return None;
            },
        }
    }
    proof {
        assert(toks.skip(toks.len() as int) =~= Seq::<Seq<char>>::empty());
    }
    Some(st)
}

/// Folding distributes over splitting the token list: the first part is
/// folded first, and the second part continues from its result, or is
/// ignored when the first part already nullified the style.
pub proof fn lemma_fold_split(st: StyleAttributes, a: Seq<Seq<char>>, b: Seq<Seq<char>>)
    ensures
        fold_from(st, a + b) == (match fold_from(st, a) {
            Some(s2) => fold_from(s2, b),
            None => None,
        }),
    decreases a.len(),
{
    if a.len() == 0 {
        assert(a + b =~= b);
    } else {
        assert((a + b)[0] == a[0]);
        match apply_token(st, a[0]) {
            Some(s2) => {
                assert((a + b).drop_first() =~= a.drop_first() + b);
                lemma_fold_split(s2, a.drop_first(), b);
            },
            None => {},
        }
    }
}

/// The fail-fast law: once a prefix of the token list nullifies the style,
/// the whole list does, whatever follows — the remaining tokens are never
/// consulted, well-formed or not.
pub proof fn lemma_fold_short_circuit(st: StyleAttributes, a: Seq<Seq<char>>, b: Seq<Seq<char>>)
    requires
        fold_from(st, a) is None,
    ensures
        fold_from(st, a + b) is None,
{
    lemma_fold_split(st, a, b);
}

/// A token appended to a specification acts last: the fold of the longer
/// list is the fold of the shorter one with the extra token applied on top.
pub proof fn lemma_fold_push(st: StyleAttributes, toks: Seq<Seq<char>>, t: Seq<char>)
    ensures
        fold_from(st, toks.push(t)) == (match fold_from(st, toks) {
            Some(s2) => apply_token(s2, t),
            None => None,
        }),
{
    assert(toks.push(t) =~= toks + seq![t]);
    lemma_fold_split(st, toks, seq![t]);
    match fold_from(st, toks) {
        Some(s2) => {
            assert(seq![t][0] == t);
            match apply_token(s2, t) {
                Some(s3) => {
                    assert(seq![t].drop_first() =~= Seq::<Seq<char>>::empty());
                    assert(fold_from(s3, seq![t].drop_first()) == Some(s3));
                },
                None => {},
            }
        },
        None => {},
    }
}

/// A color token overwrites exactly its targeted channel and leaves every
/// other attribute alone; together with [`lemma_fold_push`] this is the
/// last-one-wins law for a channel.
pub proof fn lemma_color_token_overwrites(st: StyleAttributes, raw: Seq<char>, c: ColorValue)
    requires
        !is_keyword(token_body(raw)),
        spec_resolve(token_body(raw)) == Some(c),
    ensures
        apply_token(st, raw) == Some(
            if token_targets_background(raw) {
                StyleAttributes { background: Some(c), ..st }
            } else {
                StyleAttributes { foreground: Some(c), ..st }
            },
        ),
{
}

/// A flag keyword switches exactly its own flag on and leaves every other
/// attribute alone — so a repeated flag is idempotent — and `none`
/// nullifies whatever was accumulated; together with
/// [`lemma_color_token_overwrites`] this covers the effect of every
/// recognized token on every channel.
pub proof fn lemma_flag_token_sets(st: StyleAttributes, raw: Seq<char>)
    ensures
        token_body(raw) == "bold"@ ==> apply_token(st, raw) == Some(
            StyleAttributes { bold: true, ..st },
        ),
        token_body(raw) == "italic"@ ==> apply_token(st, raw) == Some(
            StyleAttributes { italic: true, ..st },
        ),
        token_body(raw) == "underline"@ ==> apply_token(st, raw) == Some(
            StyleAttributes { underline: true, ..st },
        ),
        token_body(raw) == "dimmed"@ ==> apply_token(st, raw) == Some(
            StyleAttributes { dimmed: true, ..st },
        ),
        token_body(raw) == "none"@ ==> apply_token(st, raw) is None,
{
    reveal_strlit("bold");
    reveal_strlit("italic");
    reveal_strlit("underline");
    reveal_strlit("dimmed");
    reveal_strlit("none");
}

/// Lower-casing a character sequence twice is the same as doing it once.
pub proof fn lemma_lower_idempotent(s: Seq<char>)
    ensures
        lower(lower(s)) == lower(s),
{
    assert forall|i: int| 0 <= i < s.len() implies lower(lower(s))[i] == lower(s)[i] by {
        lemma_lower_char_idempotent(s[i]);
    }
    assert(lower(lower(s)) =~= lower(s));
}

/// Lower-casing distributes over concatenation.
proof fn lemma_lower_concat(a: Seq<char>, b: Seq<char>)
    ensures
        lower(a + b) == lower(a) + lower(b),
{
    assert forall|i: int| 0 <= i < a.len() + b.len() implies lower(a + b)[i] == (lower(a) + lower(
        b,
    ))[i] by {
        if i < a.len() {
            assert((a + b)[i] == a[i]);
        } else {
            assert((a + b)[i] == b[i - a.len()]);
        }
    }
    assert(lower(a + b) =~= lower(a) + lower(b));
}

/// Lower-casing commutes with splitting off the first token, because it
/// never changes which characters are separators.
proof fn lemma_lower_take_skip(s: Seq<char>)
    ensures
        take_token(lower(s)) == lower(take_token(s)),
        skip_token(lower(s)) == lower(skip_token(s)),
    decreases s.len(),
{
    if s.len() == 0 {
        assert(lower(s) =~= Seq::<char>::empty());
        assert(lower(take_token(s)) =~= Seq::<char>::empty());
    } else {
        lemma_lower_char_space(s[0]);
        assert(lower(s)[0] == lower_char(s[0]));
        if is_space(s[0]) {
            assert(take_token(lower(s)) =~= lower(take_token(s)));
        } else {
            let d = s.drop_first();
            lemma_lower_take_skip(d);
            assert(lower(s).drop_first() =~= lower(d));
            assert(take_token(lower(s)) == seq![lower_char(s[0])] + take_token(lower(d)));
            assert(take_token(s) == seq![s[0]] + take_token(d));
            lemma_lower_concat(seq![s[0]], take_token(d));
            assert(lower(seq![s[0]]) =~= seq![lower_char(s[0])]);
            assert(skip_token(lower(s)) == skip_token(lower(d)));
        }
    }
}

/// Tokenizing a lower-cased string gives the lower-cased tokens of the
/// original string.
proof fn lemma_tokenize_lower(s: Seq<char>)
    ensures
        tokenize(lower(s)) == tokenize(s).map_values(|t: Seq<char>| lower(t)),
    decreases s.len(),
{
    let m = |t: Seq<char>| lower(t);
    if s.len() == 0 {
        assert(lower(s) =~= Seq::<char>::empty());
        assert(tokenize(s).map_values(m) =~= Seq::<Seq<char>>::empty());
    } else {
        lemma_lower_char_space(s[0]);
        assert(lower(s)[0] == lower_char(s[0]));
        if is_space(s[0]) {
            let d = s.drop_first();
            lemma_tokenize_lower(d);
            assert(lower(s).drop_first() =~= lower(d));
            assert(tokenize(lower(s)) == tokenize(lower(d)));
        } else {
            lemma_token_split(s);
            lemma_lower_take_skip(s);
            lemma_tokenize_lower(skip_token(s));
            assert(tokenize(lower(s)) == seq![take_token(lower(s))] + tokenize(
                skip_token(lower(s)),
            ));
            assert(tokenize(s) == seq![take_token(s)] + tokenize(skip_token(s)));
            assert(tokenize(lower(s)) =~= tokenize(s).map_values(m)) by {
                assert forall|k: int| 0 <= k < tokenize(lower(s)).len() implies tokenize(
                    lower(s),
                )[k] == m(tokenize(s)[k]) by {
                    if k == 0 {
                    } else {
                        assert(tokenize(lower(s))[k] == tokenize(skip_token(lower(s)))[k - 1]);
                        assert(tokenize(skip_token(s)).map_values(m)[k - 1] == m(
                            tokenize(skip_token(s))[k - 1],
                        ));
                        assert(tokenize(s)[k] == tokenize(skip_token(s))[k - 1]);
                    }
                }
            }
        }
    }
}

/// Lower-casing a token does not change its effect: a token's effect is
/// defined on its lower-cased form, and lower-casing is idempotent.
pub proof fn lemma_apply_token_lower(st: StyleAttributes, raw: Seq<char>)
    ensures
        apply_token(st, lower(raw)) == apply_token(st, raw),
{
    lemma_lower_idempotent(raw);
}

/// Folding lower-cased tokens is the same as folding the originals.
proof fn lemma_fold_from_map_lower(st: StyleAttributes, toks: Seq<Seq<char>>)
    ensures
        fold_from(st, toks.map_values(|t: Seq<char>| lower(t))) == fold_from(st, toks),
    decreases toks.len(),
{
    let m = |t: Seq<char>| lower(t);
    if toks.len() == 0 {
        assert(toks.map_values(m) =~= Seq::<Seq<char>>::empty());
    } else {
        assert(toks.map_values(m)[0] == lower(toks[0]));
        lemma_apply_token_lower(st, toks[0]);
        match apply_token(st, toks[0]) {
            Some(s2) => {
                lemma_fold_from_map_lower(s2, toks.drop_first());
                assert(toks.map_values(m).drop_first() =~= toks.drop_first().map_values(m));
            },
            None => {},
        }
    }
}

/// The case-insensitivity law: a style specification means the same in any
/// letter case.
pub proof fn lemma_fold_case_insensitive(s: Seq<char>)
    ensures
        spec_fold(lower(s)) == spec_fold(s),
{
    lemma_tokenize_lower(s);
    lemma_fold_from_map_lower(empty_style(), tokenize(s));
}

} // verus!
