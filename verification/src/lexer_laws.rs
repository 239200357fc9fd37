//! How the text of filters and paths falls into tokens.

use crate::filter;
use crate::filter::{CompareOp, ErrorModel, TokenModel};
use crate::number;
use crate::text;
use vstd::prelude::*;

verus! {

/// Whether no word and no number goes on with `c`: a blank, a bracket, a colon or a quote.
pub open spec fn separates(c: char) -> bool {
    c == ' ' || c == '\t' || c == '\n' || c == '\r' || c == '(' || c == ')' || c == '[' || c == ']'
        || c == ':' || c == '"'
}

proof fn lemma_digits_shift(a: Seq<char>, s: Seq<char>, i: int)
    requires
        0 <= i,
    ensures
        number::digits_end(a + s, a.len() + i) == a.len() + number::digits_end(s, i),
    decreases s.len() - i,
{
    if i < s.len() {
        assert((a + s)[a.len() + i] == s[i]);
        if number::is_digit(s[i]) {
            lemma_digits_shift(a, s, i + 1);
        }
    }
}

proof fn lemma_word_shift(a: Seq<char>, s: Seq<char>, i: int)
    requires
        0 <= i,
    ensures
        filter::word_end(a + s, a.len() + i) == a.len() + filter::word_end(s, i),
    decreases s.len() - i,
{
    if i < s.len() {
        assert((a + s)[a.len() + i] == s[i]);
        if filter::continues_word(s[i]) {
            lemma_word_shift(a, s, i + 1);
        }
    }
}

proof fn lemma_string_shift(a: Seq<char>, s: Seq<char>, i: int)
    requires
        0 <= i,
    ensures
        filter::string_at(a + s, a.len() + i) == (match filter::string_at(s, i) {
            Some((content, end)) => Some((content, a.len() + end)),
            None => None,
        }),
    decreases s.len() - i,
{
    if i < s.len() {
        assert((a + s)[a.len() + i] == s[i]);
        lemma_string_shift(a, s, i + 1);
        if i + 1 < s.len() {
            assert((a + s)[a.len() + i + 1] == s[i + 1]);
            lemma_string_shift(a, s, i + 2);
        }
    }
}

proof fn lemma_number_bounds(s: Seq<char>, i: int)
    requires
        0 <= i < s.len(),
        filter::starts_number(s, i),
    ensures
        i < filter::integer_part_end(s, i) <= filter::fraction_end(s, i) <= filter::number_end(s, i)
            <= s.len(),
        filter::has_exponent(s, i) ==> filter::fraction_end(s, i) < filter::exponent_start(s, i)
            <= filter::number_end(s, i),
{
    let start = if s[i] == '-' {
        i + 1
    } else {
        i
    };
    number::lemma_digits_end(s, start + 1);
    let whole = filter::integer_part_end(s, i);
    if whole < s.len() {
        number::lemma_digits_end(s, whole + 1);
    }
    let fraction = filter::fraction_end(s, i);
    if fraction < s.len() {
        number::lemma_digits_end(s, filter::exponent_start(s, i));
    }
}

proof fn lemma_number_shift(a: Seq<char>, s: Seq<char>, i: int)
    requires
        0 <= i < s.len(),
        filter::starts_number(s, i),
    ensures
        filter::number_end(a + s, a.len() + i) == a.len() + filter::number_end(s, i),
        filter::number_complete(a + s, a.len() + i) == filter::number_complete(s, i),
{
    let n = a.len() as int;
    let t = a + s;
    lemma_number_bounds(s, i);
    assert(t[n + i] == s[i]);
    lemma_digits_shift(
        a,
        s,
        if s[i] == '-' {
            i + 1
        } else {
            i
        },
    );
    let whole = filter::integer_part_end(s, i);
    assert(filter::integer_part_end(t, n + i) == n + whole);
    if whole < s.len() {
        assert(t[n + whole] == s[whole]);
        lemma_digits_shift(a, s, whole + 1);
    }
    let fraction = filter::fraction_end(s, i);
    assert(filter::fraction_end(t, n + i) == n + fraction);
    if fraction < s.len() {
        assert(t[n + fraction] == s[fraction]);
        if fraction + 1 < s.len() {
            assert(t[n + fraction + 1] == s[fraction + 1]);
        }
        assert(filter::exponent_start(t, n + i) == n + filter::exponent_start(s, i));
        lemma_digits_shift(a, s, filter::exponent_start(s, i));
    }
}

proof fn lemma_word_bounds(s: Seq<char>, i: int)
    requires
        0 <= i <= s.len(),
    ensures
        i <= filter::word_end(s, i) <= s.len(),
    decreases s.len() - i,
{
    if i < s.len() && filter::continues_word(s[i]) {
        lemma_word_bounds(s, i + 1);
    }
}

proof fn lemma_token_shift(a: Seq<char>, s: Seq<char>, i: int)
    requires
        0 <= i < s.len(),
    ensures
        filter::token_at(a + s, a.len() + i) == (match filter::token_at(s, i) {
            Ok((token, end)) => Ok((token, a.len() + end)),
            Err(e) => Err(e),
        }),
{
    let n = a.len() as int;
    let t = a + s;
    assert(t[n + i] == s[i]);
    if i + 1 < s.len() {
        assert(t[n + i + 1] == s[i + 1]);
    }
    lemma_string_shift(a, s, i + 1);
    lemma_word_shift(a, s, i + 1);
    lemma_word_bounds(s, i + 1);
    assert(t.subrange(n + i, n + filter::word_end(s, i + 1)) =~= s.subrange(
        i,
        filter::word_end(s, i + 1),
    ));
    if filter::starts_number(s, i) {
        lemma_number_shift(a, s, i);
        lemma_number_bounds(s, i);
        assert(t.subrange(n + i, n + filter::number_end(s, i)) =~= s.subrange(
            i,
            filter::number_end(s, i),
        ));
    }
}

proof fn lemma_tokens_shift(a: Seq<char>, s: Seq<char>, i: int)
    requires
        0 <= i <= s.len(),
    ensures
        filter::tokens_from(a + s, a.len() + i) == filter::tokens_from(s, i),
    decreases s.len() - i,
{
    if i < s.len() {
        assert((a + s)[a.len() + i] == s[i]);
        if filter::is_blank(s[i]) {
            lemma_tokens_shift(a, s, i + 1);
        } else {
            lemma_token_shift(a, s, i);
            filter::lemma_token_end(s, i);
            if let Ok((_, end)) = filter::token_at(s, i) {
                lemma_tokens_shift(a, s, end);
            }
        }
    }
}

proof fn lemma_digits_prefix(x: Seq<char>, z: Seq<char>, i: int)
    requires
        0 <= i <= x.len(),
        z.len() > 0 ==> separates(z[0]),
    ensures
        number::digits_end(x + z, i) == number::digits_end(x, i),
    decreases x.len() - i,
{
    if i < x.len() {
        assert((x + z)[i] == x[i]);
        lemma_digits_prefix(x, z, i + 1);
    } else if z.len() > 0 {
        assert((x + z)[i] == z[0]);
    }
}

proof fn lemma_word_prefix(x: Seq<char>, z: Seq<char>, i: int)
    requires
        0 <= i <= x.len(),
        z.len() > 0 ==> separates(z[0]),
    ensures
        filter::word_end(x + z, i) == filter::word_end(x, i),
    decreases x.len() - i,
{
    if i < x.len() {
        assert((x + z)[i] == x[i]);
        lemma_word_prefix(x, z, i + 1);
    } else if z.len() > 0 {
        assert((x + z)[i] == z[0]);
    }
}

proof fn lemma_string_prefix(x: Seq<char>, z: Seq<char>, i: int)
    requires
        0 <= i,
        filter::string_at(x, i) is Some,
    ensures
        filter::string_at(x + z, i) == filter::string_at(x, i),
    decreases x.len() - i,
{
    assert((x + z)[i] == x[i]);
    if x[i] != '"' {
        if x[i] == '\\' && i + 1 < x.len() {
            assert((x + z)[i + 1] == x[i + 1]);
            lemma_string_prefix(x, z, i + 2);
        } else {
            lemma_string_prefix(x, z, i + 1);
        }
    }
}

proof fn lemma_number_prefix(x: Seq<char>, z: Seq<char>, i: int)
    requires
        0 <= i < x.len(),
        z.len() > 0 ==> separates(z[0]),
        filter::starts_number(x, i),
        filter::number_complete(x, i),
    ensures
        filter::number_end(x + z, i) == filter::number_end(x, i),
        filter::number_complete(x + z, i),
{
    let t = x + z;
    lemma_number_bounds(x, i);
    assert(t[i] == x[i]);
    lemma_digits_prefix(
        x,
        z,
        if x[i] == '-' {
            i + 1
        } else {
            i
        },
    );
    let whole = filter::integer_part_end(x, i);
    assert(filter::integer_part_end(t, i) == whole);
    if whole < x.len() {
        assert(t[whole] == x[whole]);
        lemma_digits_prefix(x, z, whole + 1);
    } else if z.len() > 0 {
        assert(t[whole] == z[0]);
    }
    let fraction = filter::fraction_end(x, i);
    assert(filter::fraction_end(t, i) == fraction);
    if fraction < x.len() {
        assert(t[fraction] == x[fraction]);
        if fraction + 1 < x.len() {
            assert(t[fraction + 1] == x[fraction + 1]);
        } else if z.len() > 0 {
            assert(t[fraction + 1] == z[0]);
        }
        lemma_digits_prefix(x, z, filter::exponent_start(x, i));
    } else if z.len() > 0 {
        assert(t[fraction] == z[0]);
    }
}

proof fn lemma_token_prefix(x: Seq<char>, z: Seq<char>, i: int)
    requires
        0 <= i < x.len(),
        z.len() > 0 ==> separates(z[0]),
        filter::token_at(x, i) is Ok,
    ensures
        filter::token_at(x + z, i) == filter::token_at(x, i),
{
    let t = x + z;
    assert(t[i] == x[i]);
    if i + 1 < x.len() {
        assert(t[i + 1] == x[i + 1]);
    } else if z.len() > 0 {
        assert(t[i + 1] == z[0]);
    }
    if filter::punctuation(x[i]) is Some {
    } else if x[i] == '"' {
        lemma_string_prefix(x, z, i + 1);
    } else if filter::starts_number(x, i) {
        lemma_number_prefix(x, z, i);
        lemma_number_bounds(x, i);
        assert(t.subrange(i, filter::number_end(x, i)) =~= x.subrange(
            i,
            filter::number_end(x, i),
        ));
    } else {
        lemma_word_prefix(x, z, i + 1);
        lemma_word_bounds(x, i + 1);
        assert(t.subrange(i, filter::word_end(x, i + 1)) =~= x.subrange(
            i,
            filter::word_end(x, i + 1),
        ));
    }
}

proof fn lemma_pieces_from(x: Seq<char>, z: Seq<char>, i: int)
    requires
        0 <= i <= x.len(),
        z.len() > 0 ==> separates(z[0]),
        filter::tokens_from(x, i) is Ok,
    ensures
        filter::tokens_from(x + z, i) == (match filter::lexed(z) {
            Ok(rest) => Ok(filter::tokens_from(x, i)->Ok_0 + rest),
            Err(e) => Err(e),
        }),
    decreases x.len() - i,
{
    if i == x.len() {
        lemma_tokens_shift(x, z, 0);
        if let Ok(rest) = filter::lexed(z) {
            assert(filter::tokens_from(x, i)->Ok_0 + rest =~= rest);
        }
    } else {
        assert((x + z)[i] == x[i]);
        if filter::is_blank(x[i]) {
            lemma_pieces_from(x, z, i + 1);
        } else {
            lemma_token_prefix(x, z, i);
            filter::lemma_token_end(x, i);
            if let Ok((token, end)) = filter::token_at(x, i) {
                lemma_pieces_from(x, z, end);
                if let Ok(rest) = filter::lexed(z) {
                    assert(seq![token] + (filter::tokens_from(x, end)->Ok_0 + rest) =~= seq![token]
                        + filter::tokens_from(x, end)->Ok_0 + rest);
                }
            }
        }
    }
}

/// Text is read piece by piece: a text followed by one that begins with a blank, a bracket, a colon
/// or a quote gives the tokens of the first and then those of the second.
pub proof fn law_text_is_read_piece_by_piece(x: Seq<char>, z: Seq<char>)
    requires
        filter::lexed(x) is Ok,
        z.len() > 0 ==> separates(z[0]),
    ensures
        filter::lexed(x + z) == (match filter::lexed(z) {
            Ok(rest) => Ok(filter::lexed(x)->Ok_0 + rest),
            Err(e) => Err(e),
        }),
{
    lemma_pieces_from(x, z, 0);
}

/// Blanks before a text do not matter.
pub proof fn law_blanks_do_not_matter(c: char, z: Seq<char>)
    requires
        c == ' ' || c == '\t' || c == '\n' || c == '\r',
    ensures
        filter::lexed(seq![c] + z) == filter::lexed(z),
{
    lemma_tokens_shift(seq![c], z, 0);
    assert((seq![c] + z)[0] == c);
}

/// Brackets, dots and colons are tokens of their own, whatever follows.
pub proof fn law_punctuation_stands_alone(c: char, z: Seq<char>, t: Seq<TokenModel>)
    requires
        filter::lexed(z) == Ok::<Seq<TokenModel>, ErrorModel>(t),
    ensures
        c == '(' ==> filter::lexed(seq![c] + z) == Ok::<_, ErrorModel>(
            seq![TokenModel::LParen] + t,
        ),
        c == ')' ==> filter::lexed(seq![c] + z) == Ok::<_, ErrorModel>(
            seq![TokenModel::RParen] + t,
        ),
        c == '[' ==> filter::lexed(seq![c] + z) == Ok::<_, ErrorModel>(
            seq![TokenModel::LBracket] + t,
        ),
        c == ']' ==> filter::lexed(seq![c] + z) == Ok::<_, ErrorModel>(
            seq![TokenModel::RBracket] + t,
        ),
        c == '.' ==> filter::lexed(seq![c] + z) == Ok::<_, ErrorModel>(seq![TokenModel::Dot] + t),
        c == ':' ==> filter::lexed(seq![c] + z) == Ok::<_, ErrorModel>(seq![TokenModel::Colon] + t),
{
    lemma_tokens_shift(seq![c], z, 0);
    let s = seq![c] + z;
    assert(s[0] == c);
    if filter::punctuation(c) is Some {
        assert(filter::token_at(s, 0) == Ok::<(TokenModel, int), ErrorModel>(
            (filter::punctuation(c)->0, 1),
        ));
        assert(filter::tokens_from(s, 1) == Ok::<Seq<TokenModel>, ErrorModel>(t));
    }
}

/// Whether a text has the shape of a word: a letter, `_`, `$` or `/`, then letters, digits, `-`, `_`
/// and `/`.
pub open spec fn is_word(s: Seq<char>) -> bool {
    &&& s.len() > 0
    &&& ('a' <= s[0] && s[0] <= 'z') || ('A' <= s[0] && s[0] <= 'Z') || s[0] == '_' || s[0] == '$'
        || s[0] == '/'
    &&& forall|i: int|
        #![trigger s[i]]
        0 < i < s.len() ==> ('a' <= s[i] && s[i] <= 'z') || ('A' <= s[i] && s[i] <= 'Z') || ('0'
            <= s[i] && s[i] <= '9') || s[i] == '-' || s[i] == '_' || s[i] == '/'
}

proof fn lemma_whole_word(s: Seq<char>, i: int)
    requires
        is_word(s),
        0 < i <= s.len(),
    ensures
        filter::word_end(s, i) == s.len(),
    decreases s.len() - i,
{
    if i < s.len() {
        assert(filter::continues_word(s[i]));
        lemma_whole_word(s, i + 1);
    }
}

/// A word is read as one token.
pub proof fn lemma_word_lexed(s: Seq<char>)
    requires
        is_word(s),
    ensures
        filter::lexed(s) == Ok::<Seq<TokenModel>, ErrorModel>(seq![filter::word_token(s)]),
{
    lemma_whole_word(s, 1);
    assert(s.subrange(0, s.len() as int) =~= s);
    assert(filter::token_at(s, 0) == Ok::<(TokenModel, int), ErrorModel>(
        (filter::word_token(s), s.len() as int),
    ));
    assert(filter::tokens_from(s, s.len() as int) == Ok::<Seq<TokenModel>, ErrorModel>(
        Seq::empty(),
    ));
    assert(seq![filter::word_token(s)] + Seq::empty() =~= seq![filter::word_token(s)]);
}

proof fn lemma_keywords_differ()
    ensures
        "and"@ =~= seq!['a', 'n', 'd'],
        "or"@ =~= seq!['o', 'r'],
        "not"@ =~= seq!['n', 'o', 't'],
        "pr"@ =~= seq!['p', 'r'],
        "eq"@ =~= seq!['e', 'q'],
        "ne"@ =~= seq!['n', 'e'],
        "co"@ =~= seq!['c', 'o'],
        "sw"@ =~= seq!['s', 'w'],
        "ew"@ =~= seq!['e', 'w'],
        "gt"@ =~= seq!['g', 't'],
        "ge"@ =~= seq!['g', 'e'],
        "lt"@ =~= seq!['l', 't'],
        "le"@ =~= seq!['l', 'e'],
        "true"@ =~= seq!['t', 'r', 'u', 'e'],
        "false"@ =~= seq!['f', 'a', 'l', 's', 'e'],
        "null"@ =~= seq!['n', 'u', 'l', 'l'],
{
    reveal_strlit("and");
    reveal_strlit("or");
    reveal_strlit("not");
    reveal_strlit("pr");
    reveal_strlit("eq");
    reveal_strlit("ne");
    reveal_strlit("co");
    reveal_strlit("sw");
    reveal_strlit("ew");
    reveal_strlit("gt");
    reveal_strlit("ge");
    reveal_strlit("lt");
    reveal_strlit("le");
    reveal_strlit("true");
    reveal_strlit("false");
    reveal_strlit("null");
}

/// The token of each keyword, by its text in small letters; `None` for a text that is no keyword.
pub open spec fn keyword(w: Seq<char>) -> Option<TokenModel> {
    if w == seq!['a', 'n', 'd'] {
        Some(TokenModel::And)
    } else if w == seq!['o', 'r'] {
        Some(TokenModel::Or)
    } else if w == seq!['n', 'o', 't'] {
        Some(TokenModel::Not)
    } else if w == seq!['p', 'r'] {
        Some(TokenModel::Pr)
    } else if w == seq!['e', 'q'] {
        Some(TokenModel::CompareOp(CompareOp::Eq))
    } else if w == seq!['n', 'e'] {
        Some(TokenModel::CompareOp(CompareOp::Ne))
    } else if w == seq!['c', 'o'] {
        Some(TokenModel::CompareOp(CompareOp::Co))
    } else if w == seq!['s', 'w'] {
        Some(TokenModel::CompareOp(CompareOp::Sw))
    } else if w == seq!['e', 'w'] {
        Some(TokenModel::CompareOp(CompareOp::Ew))
    } else if w == seq!['g', 't'] {
        Some(TokenModel::CompareOp(CompareOp::Gt))
    } else if w == seq!['g', 'e'] {
        Some(TokenModel::CompareOp(CompareOp::Ge))
    } else if w == seq!['l', 't'] {
        Some(TokenModel::CompareOp(CompareOp::Lt))
    } else if w == seq!['l', 'e'] {
        Some(TokenModel::CompareOp(CompareOp::Le))
    } else if w == seq!['t', 'r', 'u', 'e'] {
        Some(TokenModel::True)
    } else if w == seq!['f', 'a', 'l', 's', 'e'] {
        Some(TokenModel::False)
    } else if w == seq!['n', 'u', 'l', 'l'] {
        Some(TokenModel::Null)
    } else {
        None
    }
}

/// Keywords are read in any case of their letters; every other word is a name, and keeps its case.
pub proof fn law_words_are_keywords_or_names(s: Seq<char>)
    requires
        is_word(s),
    ensures
        filter::lexed(s) == Ok::<Seq<TokenModel>, ErrorModel>(
            seq![
                match keyword(text::ascii_lower(s)) {
                    Some(token) => token,
                    None => TokenModel::Ident(s),
                },
            ],
        ),
{
    lemma_word_lexed(s);
    lemma_keywords_differ();
}

/// A character that begins no token is refused by itself.
pub proof fn law_other_characters_are_refused(c: char, z: Seq<char>)
    requires
        !separates(c),
        c != '.',
        !('0' <= c && c <= '9'),
        !('a' <= c && c <= 'z'),
        !('A' <= c && c <= 'Z'),
        c != '_' && c != '$' && c != '/',
        c == '-' && z.len() > 0 ==> !('0' <= z[0] && z[0] <= '9'),
    ensures
        filter::lexed(seq![c] + z) == Err::<Seq<TokenModel>, ErrorModel>(
            ErrorModel::UnexpectedToken(seq![c]),
        ),
{
    let s = seq![c] + z;
    assert(s[0] == c);
    if z.len() > 0 {
        assert(s[1] == z[0]);
    }
}

/// How a character is written inside a string literal.
pub open spec fn escaped(c: char) -> Seq<char> {
    if c == '"' {
        seq!['\\', '"']
    } else if c == '\\' {
        seq!['\\', '\\']
    } else if c == '/' {
        seq!['\\', '/']
    } else if c == '\n' {
        seq!['\\', 'n']
    } else if c == '\t' {
        seq!['\\', 't']
    } else if c == '\r' {
        seq!['\\', 'r']
    } else {
        seq![c]
    }
}

/// How a text is written inside a string literal.
pub open spec fn escaped_text(v: Seq<char>) -> Seq<char>
    decreases v.len(),
{
    if v.len() == 0 {
        Seq::empty()
    } else {
        escaped(v[0]) + escaped_text(v.skip(1))
    }
}

proof fn lemma_string_read(a: Seq<char>, v: Seq<char>)
    ensures
        filter::string_at(a + (escaped_text(v) + seq!['"']), a.len() as int) == Some(
            (v, (a.len() + escaped_text(v).len() + 1) as int),
        ),
    decreases v.len(),
{
    let s = a + (escaped_text(v) + seq!['"']);
    let n = a.len() as int;
    if v.len() == 0 {
        assert(s[n] == '"');
        assert(v =~= Seq::empty());
    } else {
        let c = v[0];
        let e = escaped(c);
        let more = escaped_text(v.skip(1)) + seq!['"'];
        lemma_string_read(a + e, v.skip(1));
        assert((a + e) + more =~= s);
        assert(s[n] == e[0]);
        if e.len() == 2 {
            assert(s[n + 1] == e[1]);
            assert(filter::unescaped(e[1]) =~= seq![c]);
        }
        assert(seq![c] + v.skip(1) =~= v);
    }
}

/// A text that is written as a string literal is read back, every escape undone.
pub proof fn law_written_strings_are_read_back(v: Seq<char>)
    ensures
        filter::lexed(seq!['"'] + (escaped_text(v) + seq!['"'])) == Ok::<Seq<TokenModel>, ErrorModel>(
            seq![TokenModel::String(v)],
        ),
{
    let s = seq!['"'] + (escaped_text(v) + seq!['"']);
    lemma_string_read(seq!['"'], v);
    assert(s[0] == '"');
    assert(filter::token_at(s, 0) == Ok::<(TokenModel, int), ErrorModel>(
        (TokenModel::String(v), s.len() as int),
    ));
    assert(filter::tokens_from(s, s.len() as int) == Ok::<Seq<TokenModel>, ErrorModel>(
        Seq::empty(),
    ));
    assert(seq![TokenModel::String(v)] + Seq::empty() =~= seq![TokenModel::String(v)]);
}

/// A backslash before any other character is kept, together with the character; characters that
/// need no escape stand for themselves, line breaks too.
pub proof fn law_unknown_escapes_are_kept(c: char)
    ensures
        c != '"' && c != '\\' && c != '/' && c != 'n' && c != 't' && c != 'r' ==> filter::lexed(
            seq!['"', '\\', c, '"'],
        ) == Ok::<Seq<TokenModel>, ErrorModel>(seq![TokenModel::String(seq!['\\', c])]),
        c != '"' && c != '\\' ==> filter::lexed(seq!['"', c, '"']) == Ok::<_, ErrorModel>(
            seq![TokenModel::String(seq![c])],
        ),
{
    let s = seq!['"', '\\', c, '"'];
    if c != '"' && c != '\\' && c != '/' && c != 'n' && c != 't' && c != 'r' {
        assert(filter::string_at(s, 3) == Some((Seq::<char>::empty(), 4int)));
        assert(filter::unescaped(c) + Seq::empty() =~= seq!['\\', c]);
        assert(filter::string_at(s, 1) == Some((seq!['\\', c], 4int)));
        assert(filter::token_at(s, 0) == Ok::<(TokenModel, int), ErrorModel>(
            (TokenModel::String(seq!['\\', c]), 4),
        ));
        assert(filter::tokens_from(s, 4) == Ok::<Seq<TokenModel>, ErrorModel>(Seq::empty()));
        assert(seq![TokenModel::String(seq!['\\', c])] + Seq::empty() =~= seq![
            TokenModel::String(seq!['\\', c]),
        ]);
    }
    let r = seq!['"', c, '"'];
    if c != '"' && c != '\\' {
        assert(filter::string_at(r, 2) == Some((Seq::<char>::empty(), 3int)));
        assert(seq![c] + Seq::empty() =~= seq![c]);
        assert(filter::string_at(r, 1) == Some((seq![c], 3int)));
        assert(filter::token_at(r, 0) == Ok::<(TokenModel, int), ErrorModel>(
            (TokenModel::String(seq![c]), 3),
        ));
        assert(filter::tokens_from(r, 3) == Ok::<Seq<TokenModel>, ErrorModel>(Seq::empty()));
        assert(seq![TokenModel::String(seq![c])] + Seq::empty() =~= seq![
            TokenModel::String(seq![c]),
        ]);
    }
}

/// Whether a text is made of digits.
pub open spec fn are_digits(s: Seq<char>) -> bool {
    forall|i: int| #![trigger s[i]] 0 <= i < s.len() ==> '0' <= s[i] && s[i] <= '9'
}

/// The text of a number literal: a sign or none, digits, a dot and digits or none, an exponent or
/// none.
pub open spec fn number_text(
    sign: Seq<char>,
    whole: Seq<char>,
    fraction: Option<Seq<char>>,
    exponent: Option<(char, Seq<char>, Seq<char>)>,
) -> Seq<char> {
    sign + whole + (match fraction {
        Some(d) => seq!['.'] + d,
        None => Seq::empty(),
    }) + (match exponent {
        Some((marker, s, d)) => seq![marker] + s + d,
        None => Seq::empty(),
    })
}

/// Whether the parts make a number literal.
pub open spec fn are_number_parts(
    sign: Seq<char>,
    whole: Seq<char>,
    fraction: Option<Seq<char>>,
    exponent: Option<(char, Seq<char>, Seq<char>)>,
) -> bool {
    &&& sign == Seq::<char>::empty() || sign == seq!['-']
    &&& whole.len() > 0
    &&& are_digits(whole)
    &&& fraction matches Some(d) ==> are_digits(d)
    &&& exponent matches Some((marker, s, d)) ==> {
        &&& marker == 'e' || marker == 'E'
        &&& s == Seq::<char>::empty() || s == seq!['+'] || s == seq!['-']
        &&& d.len() > 0
        &&& are_digits(d)
    }
}

/// A run of digits ends where they do.
pub proof fn lemma_digits_run(s: Seq<char>, i: int, end: int)
    requires
        0 <= i <= end <= s.len(),
        forall|k: int| i <= k < end ==> number::is_digit(#[trigger] s[k]),
        end < s.len() ==> !number::is_digit(s[end]),
    ensures
        number::digits_end(s, i) == end,
    decreases end - i,
{
    if i < end {
        lemma_digits_run(s, i + 1, end);
    }
}

/// A number literal is read as one token that keeps its text.
pub proof fn law_number_literals_are_one_token(
    sign: Seq<char>,
    whole: Seq<char>,
    fraction: Option<Seq<char>>,
    exponent: Option<(char, Seq<char>, Seq<char>)>,
)
    requires
        are_number_parts(sign, whole, fraction, exponent),
    ensures
        ({
            let s = number_text(sign, whole, fraction, exponent);
            filter::lexed(s) == Ok::<Seq<TokenModel>, ErrorModel>(
                seq![TokenModel::Number(filter::literal_bits(s), s)],
            )
        }),
{
    let s = number_text(sign, whole, fraction, exponent);
    let a: int = sign.len() as int;
    let b: int = a + whole.len();
    let c: int = match fraction {
        Some(d) => b + 1 + d.len(),
        None => b,
    };
    assert forall|k: int| a <= k < b implies number::is_digit(#[trigger] s[k]) by {
        assert(s[k] == whole[k - a]);
    }
    assert(s[a] == whole[0]);
    if sign.len() > 0 {
        assert(s[0] == '-');
    }
    if let Some(d) = fraction {
        assert(s[b] == '.');
        assert forall|k: int| b + 1 <= k < c implies number::is_digit(#[trigger] s[k]) by {
            assert(s[k] == d[k - (b + 1)]);
        }
    }
    if let Some((marker, e, d)) = exponent {
        assert(s[c] == marker);
        let start: int = c + 1 + e.len();
        assert forall|k: int| start <= k < s.len() implies number::is_digit(#[trigger] s[k]) by {
            assert(s[k] == d[k - start]);
        }
        assert(s[start] == d[0]);
        if e.len() > 0 {
            assert(s[c + 1] == e[0]);
        }
        lemma_digits_run(s, start, s.len() as int);
    }
    lemma_digits_run(s, a, b);
    assert(filter::integer_part_end(s, 0) == b);
    if fraction is Some {
        lemma_digits_run(s, b + 1, c);
    }
    assert(filter::fraction_end(s, 0) == c);
    assert(filter::number_end(s, 0) == s.len());
    assert(s.subrange(0, s.len() as int) =~= s);
    let token = TokenModel::Number(filter::literal_bits(s), s);
    assert(filter::token_at(s, 0) == Ok::<(TokenModel, int), ErrorModel>((token, s.len() as int)));
    assert(filter::tokens_from(s, s.len() as int) == Ok::<Seq<TokenModel>, ErrorModel>(
        Seq::empty(),
    ));
    assert(seq![token] + Seq::empty() =~= seq![token]);
}

/// A number literal stands for the double nearest to it, and for the infinity of its sign where no
/// finite double is.
pub proof fn law_number_literals_have_their_nearest_double(s: Seq<char>)
    requires
        s.len() > 0,
    ensures
        number::nearest_double(s) matches Some(bits) ==> filter::literal_bits(s) == bits,
        number::nearest_double(s) is None ==> filter::literal_bits(s) == (if s[0] == '-' {
            0xfff0_0000_0000_0000u64
        } else {
            0x7ff0_0000_0000_0000u64
        }),
{
}

/// A string literal without its closing quote, and a number whose exponent has no digits, are
/// refused as such.
pub proof fn law_broken_literals_are_refused(v: Seq<char>, sign: Seq<char>, whole: Seq<char>, marker: char)
    requires
        forall|i: int|
            #![trigger v[i]]
            0 <= i < v.len() ==> v[i] != '"' && v[i] != '\\',
        are_number_parts(sign, whole, None, None),
        marker == 'e' || marker == 'E',
    ensures
        filter::lexed(seq!['"'] + v) == Err::<Seq<TokenModel>, _>(ErrorModel::UnterminatedString),
        filter::lexed(sign + whole + seq![marker]) == Err::<Seq<TokenModel>, _>(
            ErrorModel::InvalidNumber(sign + whole + seq![marker]),
        ),
{
    let q = seq!['"'] + v;
    assert(q[0] == '"');
    lemma_no_quote(q, 1);
    let s = sign + whole + seq![marker];
    let a: int = sign.len() as int;
    let b: int = a + whole.len();
    assert forall|k: int| a <= k < b implies number::is_digit(#[trigger] s[k]) by {
        assert(s[k] == whole[k - a]);
    }
    assert(s[a] == whole[0]);
    if sign.len() > 0 {
        assert(s[0] == '-');
    }
    assert(s[b] == marker);
    lemma_digits_run(s, a, b);
    assert(filter::integer_part_end(s, 0) == b);
    assert(filter::fraction_end(s, 0) == b);
    assert(filter::number_end(s, 0) == s.len());
    assert(s.subrange(0, s.len() as int) =~= s);
}

proof fn lemma_no_quote(s: Seq<char>, i: int)
    requires
        1 <= i <= s.len(),
        forall|k: int|
            #![trigger s[k]]
            1 <= k < s.len() ==> s[k] != '"' && s[k] != '\\',
    ensures
        filter::string_at(s, i) is None,
    decreases s.len() - i,
{
    if i < s.len() {
        lemma_no_quote(s, i + 1);
    }
}

} // verus!
