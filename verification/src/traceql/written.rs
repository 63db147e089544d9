//! Laws of the words of TraceQL: what is written is what is read.
use super::ast::{AttrScope, FieldOp, FieldView};
use super::lexer::{
    digits_end, in_word, is_duration, numeral_end, quoted_text, raw_text, token_at, tokens_advance,
    tokens_from, tokens_of, unit_end, word_end, word_field, TokenView,
};
use crate::text::{begins_with, white_space};
use vstd::prelude::*;

verus! {

/// Whether some text writes a character between quotes: the character itself, unless it is
/// a quote or a backslash; a backslash and one of these; or a backslash and a letter for a
/// line feed, a tabulator or a carriage return.
pub open spec fn writes(c: char, piece: Seq<char>) -> bool {
    ||| c != '"' && c != '\\' && piece == seq![c]
    ||| c == '"' && piece == seq!['\\', '"']
    ||| c == '\\' && piece == seq!['\\', '\\']
    ||| c == '\n' && piece == seq!['\\', 'n']
    ||| c == '\t' && piece == seq!['\\', 't']
    ||| c == '\r' && piece == seq!['\\', 'r']
}

/// Whether pieces of text write the characters of a text, one by one.
pub open spec fn all_written(w: Seq<char>, pieces: Seq<Seq<char>>) -> bool {
    pieces.len() == w.len() && forall|i: int|
        0 <= i < w.len() ==> writes(w[i], #[trigger] pieces[i])
}

/// Whether a text stands at a place of another.
pub open spec fn stands_at(s: Seq<char>, i: int, part: Seq<char>) -> bool {
    0 <= i && i + part.len() <= s.len() && s.subrange(i, i + part.len()) == part
}

proof fn standing_parts(s: Seq<char>, i: int, a: Seq<char>, b: Seq<char>)
    requires
        stands_at(s, i, a + b),
    ensures
        stands_at(s, i, a),
        stands_at(s, i + a.len(), b),
        forall|k: int| 0 <= k < a.len() ==> s[i + k] == #[trigger] a[k],
        forall|k: int| 0 <= k < b.len() ==> s[i + a.len() + k] == #[trigger] b[k],
{
    let t = s.subrange(i, i + (a + b).len());
    assert forall|k: int| 0 <= k < a.len() implies s[i + k] == #[trigger] a[k] by {
        assert(t[k] == (a + b)[k]);
    }
    assert forall|k: int| 0 <= k < b.len() implies s[i + a.len() + k] == #[trigger] b[k] by {
        assert(t[a.len() + k] == (a + b)[a.len() + k]);
    }
    assert(s.subrange(i, i + a.len()) =~= a);
    assert(s.subrange(i + a.len(), i + a.len() + b.len()) =~= b);
}

proof fn pieces_are_read(
    s: Seq<char>,
    i: int,
    read: Seq<char>,
    w: Seq<char>,
    pieces: Seq<Seq<char>>,
)
    requires
        all_written(w, pieces),
        stands_at(s, i, pieces.flatten() + seq!['"']),
    ensures
        quoted_text(s, i, read) == Some((read + w, i + pieces.flatten().len() + 1)),
    decreases w.len(),
{
    standing_parts(s, i, pieces.flatten(), seq!['"']);
    if w.len() == 0 {
        assert(pieces.flatten() =~= Seq::<char>::empty());
        assert(seq!['"'][0] == '"');
        assert(s[i] == '"');
        assert(read + w =~= read);
    } else {
        let (piece, rest) = (pieces[0], pieces.drop_first());
        assert(pieces.flatten() == piece + rest.flatten());
        assert(pieces.flatten() + seq!['"'] =~= piece + (rest.flatten() + seq!['"']));
        standing_parts(s, i, piece, rest.flatten() + seq!['"']);
        assert(writes(w[0], piece));
        assert(s[i] == piece[0]);
        if piece.len() > 1 {
            assert(s[i + 1] == piece[1]);
        }
        assert(all_written(w.drop_first(), rest)) by {
            assert forall|k: int| 0 <= k < rest.len() implies writes(
                w.drop_first()[k],
                #[trigger] rest[k],
            ) by {
                assert(rest[k] == pieces[k + 1]);
            }
        }
        pieces_are_read(s, i + piece.len(), read.push(w[0]), w.drop_first(), rest);
        assert(read.push(w[0]) + w.drop_first() =~= read + w);
    }
}

/// A quote, a text with an escape for each quote and backslash, and a quote are read as
/// exactly one token, the string that the text is, which ends behind the closing quote.
/// Where it stands, and what stands around it, makes no difference.
pub proof fn quoted_strings_are_read(
    s: Seq<char>,
    i: int,
    w: Seq<char>,
    pieces: Seq<Seq<char>>,
)
    requires
        all_written(w, pieces),
        stands_at(s, i, seq!['"'] + pieces.flatten() + seq!['"']),
    ensures
        token_at(s, i) == Some(
            (TokenView::Operand(FieldView::Str(w)), i + pieces.flatten().len() + 2),
        ),
{
    let rest = pieces.flatten() + seq!['"'];
    assert(seq!['"'] + pieces.flatten() + seq!['"'] =~= seq!['"'] + rest);
    standing_parts(s, i, seq!['"'], rest);
    assert(seq!['"'][0] == '"');
    assert(s[i + 0] == '"');
    pieces_are_read(s, i + 1, Seq::empty(), w, pieces);
    assert(Seq::<char>::empty() + w =~= w);
}

proof fn characters_write_themselves(w: Seq<char>)
    requires
        forall|k: int| 0 <= k < w.len() ==> (#[trigger] w[k]) != '"' && w[k] != '\\',
    ensures
        all_written(w, w.map_values(|c: char| seq![c])),
        w.map_values(|c: char| seq![c]).flatten() == w,
    decreases w.len(),
{
    let pieces = w.map_values(|c: char| seq![c]);
    if w.len() == 0 {
        assert(pieces.flatten() =~= w);
    } else {
        let rest = w.drop_first();
        assert(pieces.drop_first() =~= rest.map_values(|c: char| seq![c]));
        assert forall|k: int| 0 <= k < rest.len() implies (#[trigger] rest[k]) != '"' && rest[k]
            != '\\' by {
            assert(rest[k] == w[k + 1]);
        }
        characters_write_themselves(rest);
        assert(pieces.flatten() == seq![w[0]] + rest);
        assert(seq![w[0]] + rest =~= w);
    }
}

/// A text without a quote and without a backslash, between quotes, is read as exactly that
/// text, white space and all.
pub proof fn plain_strings_are_read(s: Seq<char>, i: int, w: Seq<char>)
    requires
        forall|k: int| 0 <= k < w.len() ==> (#[trigger] w[k]) != '"' && w[k] != '\\',
        stands_at(s, i, seq!['"'] + w + seq!['"']),
    ensures
        token_at(s, i) == Some((TokenView::Operand(FieldView::Str(w)), i + w.len() + 2)),
{
    characters_write_themselves(w);
    quoted_strings_are_read(s, i, w, w.map_values(|c: char| seq![c]));
}

proof fn raw_characters_are_read(s: Seq<char>, i: int, read: Seq<char>, w: Seq<char>)
    requires
        forall|k: int| 0 <= k < w.len() ==> (#[trigger] w[k]) != '`',
        stands_at(s, i, w + seq!['`']),
    ensures
        raw_text(s, i, read) == Some((read + w, i + w.len() + 1)),
    decreases w.len(),
{
    standing_parts(s, i, w, seq!['`']);
    if w.len() == 0 {
        assert(seq!['`'][0] == '`');
        assert(s[i] == '`');
        assert(read + w =~= read);
    } else {
        let rest = w.drop_first();
        assert(w[0] == s[i + 0]);
        assert(w + seq!['`'] =~= seq![w[0]] + (rest + seq!['`']));
        standing_parts(s, i, seq![w[0]], rest + seq!['`']);
        assert forall|k: int| 0 <= k < rest.len() implies (#[trigger] rest[k]) != '`' by {
            assert(rest[k] == w[k + 1]);
        }
        raw_characters_are_read(s, i + 1, read.push(w[0]), rest);
        assert(read.push(w[0]) + rest =~= read + w);
    }
}

/// A text without a backquote, between backquotes, is read as exactly that text.
pub proof fn raw_strings_are_read(s: Seq<char>, i: int, w: Seq<char>)
    requires
        forall|k: int| 0 <= k < w.len() ==> (#[trigger] w[k]) != '`',
        stands_at(s, i, seq!['`'] + w + seq!['`']),
    ensures
        token_at(s, i) == Some((TokenView::Operand(FieldView::Str(w)), i + w.len() + 2)),
{
    assert(seq!['`'] + w + seq!['`'] =~= seq!['`'] + (w + seq!['`']));
    standing_parts(s, i, seq!['`'], w + seq!['`']);
    assert(seq!['`'][0] == '`');
    assert(s[i + 0] == '`');
    raw_characters_are_read(s, i + 1, Seq::empty(), w);
    assert(Seq::<char>::empty() + w =~= w);
}

/// Whether a text is of decimal digits, at least one.
pub open spec fn is_digits(d: Seq<char>) -> bool {
    d.len() > 0 && forall|k: int| 0 <= k < d.len() ==> '0' <= #[trigger] d[k] && d[k] <= '9'
}

/// Whether a text is a numeral: digits, and possibly a point with digits behind it.
pub open spec fn is_numeral(w: Seq<char>, whole: Seq<char>, rest: Seq<char>) -> bool {
    &&& w == whole + rest
    &&& is_digits(whole)
    &&& rest.len() == 0 || (rest[0] == '.' && is_digits(rest.skip(1)))
}

proof fn digits_end_where_they_end(s: Seq<char>, i: int, j: int)
    requires
        0 <= i <= j <= s.len(),
        forall|k: int| i <= k < j ==> '0' <= #[trigger] s[k] && s[k] <= '9',
        j == s.len() || !('0' <= s[j] && s[j] <= '9'),
    ensures
        digits_end(s, i) == j,
    decreases j - i,
{
    if i < j {
        assert('0' <= s[i] && s[i] <= '9');
        digits_end_where_they_end(s, i + 1, j);
    }
}

proof fn numerals_end_where_they_end(
    s: Seq<char>,
    i: int,
    w: Seq<char>,
    whole: Seq<char>,
    rest: Seq<char>,
)
    requires
        is_numeral(w, whole, rest),
        stands_at(s, i, w),
        i + w.len() == s.len() || (s[i + w.len()] != '.' && !('0' <= s[i + w.len()] && s[i
            + w.len()] <= '9')),
    ensures
        numeral_end(s, i) == i + w.len(),
{
    let j = i + whole.len();
    standing_parts(s, i, whole, rest);
    assert forall|k: int| i <= k < j implies '0' <= #[trigger] s[k] && s[k] <= '9' by {
        assert(whole[k - i] == s[i + (k - i)]);
    }
    if rest.len() == 0 {
        assert(w =~= whole);
        digits_end_where_they_end(s, i, j);
    } else {
        assert(s[j + 0] == rest[0]);
        digits_end_where_they_end(s, i, j);
        let e = j + rest.len();
        assert forall|k: int| j + 1 <= k < e implies '0' <= #[trigger] s[k] && s[k] <= '9' by {
            assert(rest[k - j] == s[j + (k - j)]);
            assert(rest.skip(1)[k - j - 1] == rest[k - j]);
        }
        digits_end_where_they_end(s, j + 1, e);
    }
}

/// Whether a text is a unit of time.
pub open spec fn is_unit(u: Seq<char>) -> bool {
    ||| u == seq!['n', 's']
    ||| u == seq!['u', 's']
    ||| u == seq!['µ', 's']
    ||| u == seq!['m', 's']
    ||| u == seq!['s']
    ||| u == seq!['m']
    ||| u == seq!['h']
}

/// A numeral with a unit of time: its digits, what stands behind them, and the unit.
pub type Amount = (Seq<char>, Seq<char>, Seq<char>);

/// Whether amounts of time are numerals with units.
pub open spec fn are_amounts(a: Seq<Amount>) -> bool {
    forall|i: int|
        0 <= i < a.len() ==> is_numeral((#[trigger] a[i]).0 + a[i].1, a[i].0, a[i].1) && is_unit(
            a[i].2,
        )
}

/// The text of amounts of time.
pub open spec fn amounts_text(a: Seq<Amount>) -> Seq<char> {
    a.map_values(|x: Amount| x.0 + x.1 + x.2).flatten()
}

proof fn amounts_are_a_duration(s: Seq<char>, i: int, a: Seq<Amount>)
    requires
        a.len() > 0,
        are_amounts(a),
        stands_at(s, i, amounts_text(a)),
        i + amounts_text(a).len() == s.len(),
    ensures
        is_duration(s, i),
    decreases a.len(),
{
    let (x, rest) = (a[0], a.drop_first());
    let all = a.map_values(|x: Amount| x.0 + x.1 + x.2);
    let num = x.0 + x.1;
    let tail = amounts_text(rest);
    assert(all.drop_first() =~= rest.map_values(|x: Amount| x.0 + x.1 + x.2));
    assert(amounts_text(a) == (num + x.2) + tail);
    assert(amounts_text(a) =~= num + (x.2 + tail));
    standing_parts(s, i, num, x.2 + tail);
    standing_parts(s, i + num.len(), x.2, tail);
    let n = i + num.len();
    assert(is_unit(x.2));
    assert(s[n + 0] == x.2[0]);
    if x.2.len() > 1 {
        assert(s[n + 1] == x.2[1]);
    }
    numerals_end_where_they_end(s, i, num, x.0, x.1);
    let u = n + x.2.len();
    if rest.len() == 0 {
        assert(tail =~= Seq::<char>::empty());
    } else {
        let y = rest[0];
        assert(y == a[1]);
        let rest_all = rest.map_values(|x: Amount| x.0 + x.1 + x.2);
        assert(tail == rest_all[0] + rest_all.drop_first().flatten());
        assert(rest_all[0] =~= y.0 + (y.1 + y.2));
        assert(tail[0] == y.0[0]);
        assert(s[u + 0] == tail[0]);
        assert('0' <= y.0[0] && y.0[0] <= '9');
        assert(are_amounts(rest)) by {
            assert forall|k: int| 0 <= k < rest.len() implies is_numeral(
                (#[trigger] rest[k]).0 + rest[k].1,
                rest[k].0,
                rest[k].1,
            ) && is_unit(rest[k].2) by {
                assert(rest[k] == a[k + 1]);
            }
        }
        amounts_are_a_duration(s, u, rest);
    }
    assert(unit_end(s, n) == u);
}

/// Whether a character is one of those that names are usually made of.
pub open spec fn is_plain(c: char) -> bool {
    ('a' <= c && c <= 'z') || ('A' <= c && c <= 'Z') || ('0' <= c && c <= '9') || c == '_' || c
        == '.' || c == '-' || c == '/' || c == ':'
}

/// Whether a text is of characters that names are usually made of, at least one.
pub open spec fn is_name(w: Seq<char>) -> bool {
    w.len() > 0 && forall|k: int| 0 <= k < w.len() ==> is_plain(#[trigger] w[k])
}

/// What stands before the path of an attribute.
pub open spec fn scope_text(scope: AttrScope) -> Seq<char> {
    match scope {
        AttrScope::Unscoped => "."@,
        AttrScope::Span => "span."@,
        AttrScope::Resource => "resource."@,
        AttrScope::Event => "event."@,
        AttrScope::Instrumentation => "instrumentation."@,
        AttrScope::Link => "link."@,
        AttrScope::Parent => "parent."@,
    }
}

/// A string between quotes, with an escape for each quote and backslash.
pub open spec fn string_text(w: Seq<char>) -> Seq<char> {
    seq!['"'] + w.map_values(
        |c: char|
            if c == '"' || c == '\\' {
                seq!['\\', c]
            } else {
                seq![c]
            },
    ).flatten() + seq!['"']
}

/// The text of a field.
pub open spec fn field_text(f: FieldView) -> Seq<char> {
    match f {
        FieldView::Str(w) => string_text(w),
        FieldView::Bool(b) => if b {
            "true"@
        } else {
            "false"@
        },
        FieldView::Attr { scope, path } => scope_text(scope) + path,
        FieldView::Intrinsic(w) => w,
        FieldView::Num(w) => w,
        FieldView::Duration(w) => w,
    }
}

/// A text with a sign before it, where there is one.
pub open spec fn signed(negative: bool, w: Seq<char>) -> Seq<char> {
    if negative {
        seq!['-'] + w
    } else {
        w
    }
}

/// Whether a text is a number: a numeral, possibly with a sign.
pub open spec fn is_number(w: Seq<char>) -> bool {
    exists|negative: bool, whole: Seq<char>, rest: Seq<char>|
        w == #[trigger] signed(negative, whole + rest) && is_numeral(whole + rest, whole, rest)
}

/// Whether a text is a duration: amounts of time, at least one, possibly with a sign.
pub open spec fn is_span(w: Seq<char>) -> bool {
    exists|negative: bool, a: Seq<Amount>|
        a.len() > 0 && are_amounts(a) && w == #[trigger] signed(negative, amounts_text(a))
}

/// Whether a field is one that can be written: every string, every Boolean, an attribute
/// with a name, a name without a dot that begins with a letter or an underscore and is no
/// Boolean, a number, and a duration.
pub open spec fn is_writable(f: FieldView) -> bool {
    match f {
        FieldView::Str(_) => true,
        FieldView::Bool(_) => true,
        FieldView::Attr { scope, path } => is_name(path),
        FieldView::Intrinsic(w) => is_name(w) && (('a' <= w[0] && w[0] <= 'z') || ('A' <= w[0]
            && w[0] <= 'Z') || w[0] == '_') && !w.contains('.') && w != "true"@ && w != "false"@,
        FieldView::Num(w) => is_number(w),
        FieldView::Duration(w) => is_span(w),
    }
}

proof fn names_are_words(w: Seq<char>)
    requires
        forall|k: int| 0 <= k < w.len() ==> is_plain(#[trigger] w[k]),
    ensures
        forall|k: int| 0 <= k < w.len() ==> in_word(#[trigger] w[k]),
{
}

proof fn words_end_where_they_end(s: Seq<char>, i: int, w: Seq<char>)
    requires
        stands_at(s, i, w),
        forall|k: int| 0 <= k < w.len() ==> in_word(#[trigger] w[k]),
        i + w.len() == s.len() || !in_word(s[i + w.len()]),
    ensures
        word_end(s, i) == i + w.len(),
    decreases w.len(),
{
    if w.len() > 0 {
        let rest = w.drop_first();
        assert(w =~= seq![w[0]] + rest);
        standing_parts(s, i, seq![w[0]], rest);
        assert(s[i + 0] == seq![w[0]][0]);
        assert forall|k: int| 0 <= k < rest.len() implies in_word(#[trigger] rest[k]) by {
            assert(rest[k] == w[k + 1]);
        }
        words_end_where_they_end(s, i + 1, rest);
    }
}

/// What is known of the prefixes of attributes.
proof fn scopes_differ()
    ensures
        "."@ == seq!['.'],
        "span."@ == seq!['s', 'p', 'a', 'n', '.'],
        "resource."@ == seq!['r', 'e', 's', 'o', 'u', 'r', 'c', 'e', '.'],
        "event."@ == seq!['e', 'v', 'e', 'n', 't', '.'],
        "instrumentation."@.len() == 16,
        "instrumentation."@[0] == 'i',
        "link."@ == seq!['l', 'i', 'n', 'k', '.'],
        "parent."@ == seq!['p', 'a', 'r', 'e', 'n', 't', '.'],
        forall|k: int|
            0 <= k < 16 ==> is_plain(#[trigger] "instrumentation."@[k]),
        "instrumentation."@[15] == '.',
        "true"@ == seq!['t', 'r', 'u', 'e'],
        "false"@ == seq!['f', 'a', 'l', 's', 'e'],
{
    reveal_strlit(".");
    reveal_strlit("span.");
    reveal_strlit("resource.");
    reveal_strlit("event.");
    reveal_strlit("instrumentation.");
    reveal_strlit("link.");
    reveal_strlit("parent.");
    reveal_strlit("true");
    reveal_strlit("false");
    assert("."@ =~= seq!['.']);
    assert("span."@ =~= seq!['s', 'p', 'a', 'n', '.']);
    assert("resource."@ =~= seq!['r', 'e', 's', 'o', 'u', 'r', 'c', 'e', '.']);
    assert("event."@ =~= seq!['e', 'v', 'e', 'n', 't', '.']);
    assert("link."@ =~= seq!['l', 'i', 'n', 'k', '.']);
    assert("parent."@ =~= seq!['p', 'a', 'r', 'e', 'n', 't', '.']);
    assert("true"@ =~= seq!['t', 'r', 'u', 'e']);
    assert("false"@ =~= seq!['f', 'a', 'l', 's', 'e']);
}

proof fn attributes_are_words(scope: AttrScope, path: Seq<char>)
    requires
        is_name(path),
    ensures
        word_field(scope_text(scope) + path) == Some(FieldView::Attr { scope, path }),
        forall|k: int|
            0 <= k < (scope_text(scope) + path).len() ==> in_word(
                #[trigger] (scope_text(scope) + path)[k],
            ),
{
    let prefix = scope_text(scope);
    let w = prefix + path;
    scopes_differ();
    assert(prefix.len() > 0);
    assert forall|k: int| 0 <= k < w.len() implies in_word(#[trigger] w[k]) by {
        if k < prefix.len() {
            assert(w[k] == prefix[k]);
            assert(is_plain(prefix[k]));
        } else {
            assert(w[k] == path[k - prefix.len()]);
        }
    }
    assert(w[0] == prefix[0]);
    assert(w.skip(prefix.len() as int) =~= path);
    assert(w.subrange(0, prefix.len() as int) =~= prefix);
    assert(w[prefix.len() - 1] == '.');
    assert(w != "true"@) by {
        if w == "true"@ {
            assert(w[prefix.len() - 1] == "true"@[prefix.len() - 1]);
        }
    }
    assert(w != "false"@) by {
        if w == "false"@ {
            assert(w[prefix.len() - 1] == "false"@[prefix.len() - 1]);
        }
    }
    assert forall|other: AttrScope|
        #![trigger scope_text(other)]
        scope_text(other)[0] != prefix[0] implies !begins_with(w, scope_text(other)) by {
        if begins_with(w, scope_text(other)) {
            assert(w.subrange(0, scope_text(other).len() as int)[0] == w[0]);
        }
    }
    assert(scope_text(AttrScope::Unscoped)[0] == '.');
    assert(scope_text(AttrScope::Span)[0] == 's');
    assert(scope_text(AttrScope::Resource)[0] == 'r');
    assert(scope_text(AttrScope::Event)[0] == 'e');
    assert(scope_text(AttrScope::Instrumentation)[0] == 'i');
    assert(scope_text(AttrScope::Link)[0] == 'l');
    assert(scope_text(AttrScope::Parent)[0] == 'p');
}

proof fn numbers_are_words(w: Seq<char>)
    requires
        is_number(w),
    ensures
        word_field(w) == Some(FieldView::Num(w)),
        w.len() > 0,
        forall|k: int| 0 <= k < w.len() ==> in_word(#[trigger] w[k]),
{
    let (negative, whole, rest) = choose|negative: bool, whole: Seq<char>, rest: Seq<char>|
        w == #[trigger] signed(negative, whole + rest) && is_numeral(whole + rest, whole, rest);
    let num = whole + rest;
    let at: int = if negative {
        1
    } else {
        0
    };
    scopes_differ();
    assert(num[0] == whole[0]);
    assert(w[at] == num[0]);
    assert(w.subrange(at, w.len() as int) =~= num);
    numerals_end_where_they_end(w, at, num, whole, rest);
    assert forall|k: int| 0 <= k < w.len() implies is_plain(#[trigger] w[k]) by {
        if k >= at {
            let j = k - at;
            assert(w[k] == num[j]);
            if j < whole.len() {
                assert(num[j] == whole[j]);
            } else {
                assert(num[j] == rest[j - whole.len()]);
                if j > whole.len() {
                    assert(rest.skip(1)[j - whole.len() - 1] == rest[j - whole.len()]);
                }
            }
        }
    }
    names_are_words(w);
    assert(w != "true"@ && w != "false"@) by {
        assert("true"@[0] == 't' && "false"@[0] == 'f');
    }
}

proof fn amounts_are_plain(a: Seq<Amount>)
    requires
        are_amounts(a),
    ensures
        forall|k: int|
            0 <= k < amounts_text(a).len() ==> in_word(#[trigger] amounts_text(a)[k]),
        a.len() > 0 ==> amounts_text(a).len() > 1 && '0' <= amounts_text(a)[0]
            && amounts_text(a)[0] <= '9',
    decreases a.len(),
{
    if a.len() > 0 {
        let (x, rest) = (a[0], a.drop_first());
        let all = a.map_values(|x: Amount| x.0 + x.1 + x.2);
        assert(all.drop_first() =~= rest.map_values(|x: Amount| x.0 + x.1 + x.2));
        let head = x.0 + x.1 + x.2;
        assert(amounts_text(a) == head + amounts_text(rest));
        assert forall|k: int| 0 <= k < rest.len() implies is_numeral(
            (#[trigger] rest[k]).0 + rest[k].1,
            rest[k].0,
            rest[k].1,
        ) && is_unit(rest[k].2) by {
            assert(rest[k] == a[k + 1]);
        }
        amounts_are_plain(rest);
        assert(head[0] == x.0[0]);
        assert(is_unit(x.2));
        assert forall|k: int| 0 <= k < amounts_text(a).len() implies in_word(
            #[trigger] amounts_text(a)[k],
        ) by {
            let n = x.0.len();
            let m = n + x.1.len();
            if k < n {
                assert(amounts_text(a)[k] == x.0[k]);
            } else if k < m {
                assert(amounts_text(a)[k] == x.1[k - n]);
                if k > n {
                    assert(x.1.skip(1)[k - n - 1] == x.1[k - n]);
                }
            } else if k < head.len() {
                assert(amounts_text(a)[k] == x.2[k - m]);
            } else {
                assert(amounts_text(a)[k] == amounts_text(rest)[k - head.len()]);
            }
        }
    }
}

proof fn no_number_is_a_duration(s: Seq<char>, i: int, a: Seq<Amount>)
    requires
        a.len() > 0,
        are_amounts(a),
        stands_at(s, i, amounts_text(a)),
        i + amounts_text(a).len() == s.len(),
    ensures
        numeral_end(s, i) < s.len(),
{
    let (x, rest) = (a[0], a.drop_first());
    let all = a.map_values(|x: Amount| x.0 + x.1 + x.2);
    let num = x.0 + x.1;
    let tail = all.drop_first().flatten();
    assert(amounts_text(a) =~= num + (x.2 + tail));
    standing_parts(s, i, num, x.2 + tail);
    assert(is_unit(x.2));
    assert((x.2 + tail)[0] == x.2[0]);
    assert(s[i + num.len() + 0] == (x.2 + tail)[0]);
    numerals_end_where_they_end(s, i, num, x.0, x.1);
}

proof fn durations_are_words(w: Seq<char>)
    requires
        is_span(w),
    ensures
        word_field(w) == Some(FieldView::Duration(w)),
        w.len() > 0,
        forall|k: int| 0 <= k < w.len() ==> in_word(#[trigger] w[k]),
{
    let (negative, a) = choose|negative: bool, a: Seq<Amount>|
        a.len() > 0 && are_amounts(a) && w == #[trigger] signed(negative, amounts_text(a));
    let t = amounts_text(a);
    let at: int = if negative {
        1
    } else {
        0
    };
    scopes_differ();
    amounts_are_plain(a);
    assert(w[at] == t[0]);
    assert(w.subrange(at, w.len() as int) =~= t);
    amounts_are_a_duration(w, at, a);
    no_number_is_a_duration(w, at, a);
    assert forall|k: int| 0 <= k < w.len() implies in_word(#[trigger] w[k]) by {
        if k >= at {
            assert(w[k] == t[k - at]);
        }
    }
    assert(w != "true"@ && w != "false"@) by {
        assert("true"@[0] == 't' && "false"@[0] == 'f');
    }
}

proof fn intrinsics_are_words(w: Seq<char>)
    requires
        is_writable(FieldView::Intrinsic(w)),
    ensures
        word_field(w) == Some(FieldView::Intrinsic(w)),
        forall|k: int| 0 <= k < w.len() ==> in_word(#[trigger] w[k]),
{
    scopes_differ();
    names_are_words(w);
    assert forall|scope: AttrScope| !begins_with(w, #[trigger] scope_text(scope)) by {
        let prefix = scope_text(scope);
        if begins_with(w, prefix) {
            let k = prefix.len() - 1;
            assert(prefix[k] == '.');
            assert(w.subrange(0, prefix.len() as int)[k] == w[k]);
            assert(w.contains(w[k]));
        }
    }
    assert(!begins_with(w, scope_text(AttrScope::Unscoped)));
    assert(!begins_with(w, scope_text(AttrScope::Span)));
    assert(!begins_with(w, scope_text(AttrScope::Resource)));
    assert(!begins_with(w, scope_text(AttrScope::Event)));
    assert(!begins_with(w, scope_text(AttrScope::Instrumentation)));
    assert(!begins_with(w, scope_text(AttrScope::Link)));
    assert(!begins_with(w, scope_text(AttrScope::Parent)));
}

proof fn words_are_tokens(s: Seq<char>, i: int, w: Seq<char>)
    requires
        w.len() > 0,
        stands_at(s, i, w),
        forall|k: int| 0 <= k < w.len() ==> in_word(#[trigger] w[k]),
        i + w.len() == s.len() || !in_word(s[i + w.len()]),
        word_field(w) is Some,
    ensures
        token_at(s, i) == Some((TokenView::Operand(word_field(w)->0), i + w.len())),
{
    words_end_where_they_end(s, i, w);
    assert(s.subrange(i, i + w.len())[0] == s[i]);
    assert(in_word(w[0]));
}

proof fn booleans_are_words(b: bool)
    ensures
        word_field(field_text(FieldView::Bool(b))) == Some(FieldView::Bool(b)),
        field_text(FieldView::Bool(b)).len() > 0,
        forall|k: int|
            0 <= k < field_text(FieldView::Bool(b)).len() ==> in_word(
                #[trigger] field_text(FieldView::Bool(b))[k],
            ),
{
    scopes_differ();
    assert("true"@.len() == 4 && "false"@.len() == 5);
    let w = field_text(FieldView::Bool(b));
    assert forall|k: int| 0 <= k < w.len() implies in_word(#[trigger] w[k]) by {
        assert(is_plain(w[k]));
    }
}

/// A field that can be written is read as itself, where a character follows that cannot
/// stand in a word, or nothing.
pub proof fn written_fields_are_tokens(s: Seq<char>, i: int, f: FieldView)
    requires
        is_writable(f),
        stands_at(s, i, field_text(f)),
        i + field_text(f).len() == s.len() || !in_word(s[i + field_text(f).len()]),
    ensures
        token_at(s, i) == Some((TokenView::Operand(f), i + field_text(f).len())),
{
    match f {
        FieldView::Str(w) => {
            let pieces = w.map_values(
                |c: char|
                    if c == '"' || c == '\\' {
                        seq!['\\', c]
                    } else {
                        seq![c]
                    },
            );
            quoted_strings_are_read(s, i, w, pieces);
        },
        FieldView::Bool(b) => {
            booleans_are_words(b);
            words_are_tokens(s, i, field_text(f));
        },
        FieldView::Attr { scope, path } => {
            attributes_are_words(scope, path);
            words_are_tokens(s, i, field_text(f));
        },
        FieldView::Intrinsic(w) => {
            intrinsics_are_words(w);
            words_are_tokens(s, i, w);
        },
        FieldView::Num(w) => {
            numbers_are_words(w);
            words_are_tokens(s, i, w);
        },
        FieldView::Duration(w) => {
            durations_are_words(w);
            words_are_tokens(s, i, w);
        },
    }
}

/// The text of a comparison.
pub open spec fn comparison_text(op: FieldOp) -> Seq<char> {
    match op {
        FieldOp::Eq => seq!['='],
        FieldOp::Neq => seq!['!', '='],
        FieldOp::Re => seq!['=', '~'],
        FieldOp::Nre => seq!['!', '~'],
        FieldOp::Gt => seq!['>'],
        FieldOp::Gte => seq!['>', '='],
        FieldOp::Lt => seq!['<'],
        FieldOp::Lte => seq!['<', '='],
    }
}

/// The text of a token.
pub open spec fn token_text(t: TokenView) -> Seq<char> {
    match t {
        TokenView::OpenBrace => seq!['{'],
        TokenView::CloseBrace => seq!['}'],
        TokenView::OpenParen => seq!['('],
        TokenView::CloseParen => seq![')'],
        TokenView::And => seq!['&', '&'],
        TokenView::Or => seq!['|', '|'],
        TokenView::Descendant => seq!['>', '>'],
        TokenView::Ancestor => seq!['<', '<'],
        TokenView::Compare(op) => comparison_text(op),
        TokenView::Operand(f) => field_text(f),
    }
}

/// Whether a token can be written.
pub open spec fn can_be_written(t: TokenView) -> bool {
    t matches TokenView::Operand(f) ==> is_writable(f)
}

/// Whether a text is white space, at least one character of it.
pub open spec fn is_gap(g: Seq<char>) -> bool {
    g.len() > 0 && forall|k: int| 0 <= k < g.len() ==> white_space(#[trigger] g[k])
}

/// The text of tokens, with white space behind each of them.
pub open spec fn spaced(t: Seq<TokenView>, gaps: Seq<Seq<char>>) -> Seq<char>
    decreases t.len(),
{
    if t.len() == 0 {
        Seq::empty()
    } else {
        token_text(t[0]) + (gaps[0] + spaced(t.drop_first(), gaps.drop_first()))
    }
}

proof fn written_tokens_are_tokens(s: Seq<char>, i: int, t: TokenView)
    requires
        can_be_written(t),
        stands_at(s, i, token_text(t)),
        i + token_text(t).len() < s.len(),
        white_space(s[i + token_text(t).len()]),
    ensures
        token_at(s, i) == Some((t, i + token_text(t).len())),
{
    match t {
        TokenView::Operand(f) => {
            written_fields_are_tokens(s, i, f);
        },
        _ => {
            let w = token_text(t);
            let part = s.subrange(i, i + w.len());
            assert(part[0] == s[i]);
            if w.len() > 1 {
                assert(part[1] == s[i + 1]);
            }
        },
    }
}

proof fn fields_are_not_empty(f: FieldView)
    requires
        is_writable(f),
    ensures
        field_text(f).len() > 0,
        !white_space(field_text(f)[0]),
{
    match f {
        FieldView::Str(w) => {},
        FieldView::Bool(b) => booleans_are_words(b),
        FieldView::Attr { scope, path } => attributes_are_words(scope, path),
        FieldView::Intrinsic(w) => intrinsics_are_words(w),
        FieldView::Num(w) => numbers_are_words(w),
        FieldView::Duration(w) => durations_are_words(w),
    }
    if !(f is Str) {
        let w = field_text(f);
        assert(w.len() > 0) by {
            if let FieldView::Attr { scope, path } = f {
                assert(path.len() > 0);
            }
        }
        assert(in_word(w[0]));
    }
}

proof fn gaps_are_skipped(s: Seq<char>, i: int, j: int, read: Seq<TokenView>)
    requires
        0 <= i <= j <= s.len(),
        forall|k: int| i <= k < j ==> white_space(#[trigger] s[k]),
    ensures
        tokens_from(s, i, read) == tokens_from(s, j, read),
    decreases j - i,
{
    if i < j {
        assert(white_space(s[i]));
        gaps_are_skipped(s, i + 1, j, read);
    }
}

proof fn spaced_tokens_are_read(
    s: Seq<char>,
    i: int,
    read: Seq<TokenView>,
    t: Seq<TokenView>,
    gaps: Seq<Seq<char>>,
)
    requires
        gaps.len() == t.len(),
        forall|k: int| 0 <= k < t.len() ==> can_be_written(#[trigger] t[k]),
        forall|k: int| 0 <= k < gaps.len() ==> is_gap(#[trigger] gaps[k]),
        stands_at(s, i, spaced(t, gaps)),
        i + spaced(t, gaps).len() == s.len(),
    ensures
        tokens_from(s, i, read) == Some(read + t),
    decreases t.len(),
{
    if t.len() == 0 {
        assert(read + t =~= read);
    } else {
        let (w, gap) = (token_text(t[0]), gaps[0]);
        let (rest, rest_gaps) = (t.drop_first(), gaps.drop_first());
        let tail = spaced(rest, rest_gaps);
        standing_parts(s, i, w, gap + tail);
        let e = i + w.len();
        standing_parts(s, e, gap, tail);
        assert(is_gap(gap));
        assert(s[e + 0] == gap[0]);
        assert(can_be_written(t[0]));
        written_tokens_are_tokens(s, i, t[0]);
        if let TokenView::Operand(f) = t[0] {
            fields_are_not_empty(f);
        }
        assert(w.len() > 0);
        assert(s[i + 0] == w[0]);
        tokens_advance(s, i);
        assert(tokens_from(s, i, read) == tokens_from(s, e, read.push(t[0])));
        assert forall|k: int| e <= k < e + gap.len() implies white_space(#[trigger] s[k]) by {
            assert(s[e + (k - e)] == gap[k - e]);
        }
        gaps_are_skipped(s, e, e + gap.len(), read.push(t[0]));
        assert forall|k: int| 0 <= k < rest.len() implies can_be_written(#[trigger] rest[k]) by {
            assert(rest[k] == t[k + 1]);
        }
        assert forall|k: int| 0 <= k < rest_gaps.len() implies is_gap(#[trigger] rest_gaps[k]) by {
            assert(rest_gaps[k] == gaps[k + 1]);
        }
        spaced_tokens_are_read(s, e + gap.len(), read.push(t[0]), rest, rest_gaps);
        assert(read.push(t[0]) + rest =~= read + t);
    }
}

/// Tokens that are written with some white space before them and between them are read as
/// themselves, however much white space it is.
pub proof fn written_tokens_are_read_back(
    lead: Seq<char>,
    t: Seq<TokenView>,
    gaps: Seq<Seq<char>>,
)
    requires
        forall|k: int| 0 <= k < lead.len() ==> white_space(#[trigger] lead[k]),
        gaps.len() == t.len(),
        forall|k: int| 0 <= k < t.len() ==> can_be_written(#[trigger] t[k]),
        forall|k: int| 0 <= k < gaps.len() ==> is_gap(#[trigger] gaps[k]),
    ensures
        tokens_of(lead + spaced(t, gaps)) == Some(t),
{
    let s = lead + spaced(t, gaps);
    let n = lead.len() as int;
    assert(s.subrange(n, n + spaced(t, gaps).len()) =~= spaced(t, gaps));
    gaps_are_skipped(s, 0, n, Seq::empty());
    spaced_tokens_are_read(s, n, Seq::empty(), t, gaps);
    assert(Seq::<TokenView>::empty() + t =~= t);
}

} // verus!
