//! Attribute paths that are written out and read again.

use crate::filter;
use crate::filter::{ErrorModel, FilterModel, PatchPathModel, PathModel, TokenModel};
use crate::number;
use crate::text;
use vstd::prelude::*;

verus! {

/// Whether a text is a plain name: one word of the filter language that is no keyword.
pub open spec fn is_name(s: Seq<char>) -> bool {
    &&& s.len() > 0
    &&& filter::starts_word(s[0])
    &&& forall|i: int| 0 < i < s.len() ==> filter::continues_word(#[trigger] s[i])
    &&& filter::word_token(s) is Ident
}

/// Whether a text is one number literal, such as the version in a schema URN.
pub open spec fn is_number_literal(s: Seq<char>) -> bool {
    &&& s.len() > 0
    &&& filter::starts_number(s, 0)
    &&& filter::number_end(s, 0) == s.len()
    &&& filter::number_complete(s, 0)
}

/// Whether texts can be the segments of a schema URN: a name first, then names and numbers.
pub open spec fn are_uri_segments(segments: Seq<Seq<char>>) -> bool {
    &&& segments.len() > 0
    &&& is_name(segments[0])
    &&& forall|i: int|
        0 < i < segments.len() ==> is_name(#[trigger] segments[i]) || is_number_literal(segments[i])
}

/// Whether a schema URN is made of names and numbers with `:` between each two.
pub open spec fn is_plain_uri(uri: Seq<char>) -> bool {
    exists|segments: Seq<Seq<char>>| #[trigger]
        are_uri_segments(segments) && uri == filter::colon_joined(segments)
}

/// Whether an attribute path is made of plain names and, where it has one, a plain schema URN.
pub open spec fn is_written_plainly(path: PathModel) -> bool {
    &&& is_name(path.attr_name)
    &&& path.sub_attr matches Some(sub) ==> is_name(sub)
    &&& path.schema_uri matches Some(uri) ==> is_plain_uri(uri)
}

/// The token of a segment.
spec fn segment_token(s: Seq<char>) -> TokenModel {
    if is_name(s) {
        TokenModel::Ident(s)
    } else {
        TokenModel::Number(filter::literal_bits(s), s)
    }
}

/// Segments, each behind a `:`.
spec fn colon_text(segments: Seq<Seq<char>>) -> Seq<char>
    decreases segments.len(),
{
    if segments.len() == 0 {
        Seq::empty()
    } else {
        seq![':'] + segments[0] + colon_text(segments.skip(1))
    }
}

/// The tokens of segments, each behind a colon.
spec fn colon_tokens(segments: Seq<Seq<char>>) -> Seq<TokenModel>
    decreases segments.len(),
{
    if segments.len() == 0 {
        Seq::empty()
    } else {
        seq![TokenModel::Colon, segment_token(segments[0])] + colon_tokens(segments.skip(1))
    }
}

proof fn lemma_colon_text_push(segments: Seq<Seq<char>>, last: Seq<char>)
    ensures
        colon_text(segments.push(last)) == colon_text(segments) + (seq![':'] + last),
    decreases segments.len(),
{
    if segments.len() == 0 {
        assert(segments.push(last).skip(1) =~= Seq::empty());
        assert(colon_text(Seq::empty()) =~= Seq::empty());
        assert(segments.push(last)[0] == last);
        assert(colon_text(segments.push(last)) =~= colon_text(segments) + (seq![':'] + last));
    } else {
        lemma_colon_text_push(segments.skip(1), last);
        assert(segments.push(last).skip(1) =~= segments.skip(1).push(last));
        assert(colon_text(segments.push(last)) =~= colon_text(segments) + (seq![':'] + last));
    }
}

proof fn lemma_joined_from_front(segments: Seq<Seq<char>>)
    requires
        segments.len() > 0,
    ensures
        filter::colon_joined(segments) == segments[0] + colon_text(segments.skip(1)),
    decreases segments.len(),
{
    if segments.len() == 1 {
        assert(segments[0] + colon_text(segments.skip(1)) =~= segments[0]);
    } else {
        reveal_strlit(":");
        assert(":"@ =~= seq![':']);
        lemma_joined_from_front(segments.drop_last());
        lemma_colon_text_push(segments.drop_last().skip(1), segments.last());
        assert(segments.drop_last().skip(1).push(segments.last()) =~= segments.skip(1));
        assert(filter::colon_joined(segments) =~= segments[0] + colon_text(segments.skip(1)));
    }
}

proof fn lemma_word_end_at(s: Seq<char>, i: int, end: int)
    requires
        0 <= i <= end <= s.len(),
        forall|k: int| i <= k < end ==> filter::continues_word(#[trigger] s[k]),
        end < s.len() ==> !filter::continues_word(s[end]),
    ensures
        filter::word_end(s, i) == end,
    decreases end - i,
{
    if i < end {
        lemma_word_end_at(s, i + 1, end);
    }
}

/// A name that nothing goes on with is read as one token.
proof fn lemma_name_token(s: Seq<char>, i: int, name: Seq<char>)
    requires
        is_name(name),
        text::occurs_at(s, name, i),
        i + name.len() < s.len() ==> !filter::continues_word(s[i + name.len()]),
    ensures
        filter::token_at(s, i) == Ok::<(TokenModel, int), ErrorModel>(
            (TokenModel::Ident(name), i + name.len()),
        ),
        !filter::is_blank(s[i]),
{
    let end = i + name.len();
    assert forall|k: int| 0 <= k < name.len() implies #[trigger] s[i + k] == name[k] by {
        assert(s.subrange(i, end)[k] == s[i + k]);
    }
    assert(s[i] == s[i + 0]);
    assert forall|k: int| i + 1 <= k < end implies filter::continues_word(#[trigger] s[k]) by {
        assert(s[i + (k - i)] == name[k - i]);
    }
    lemma_word_end_at(s, i + 1, end);
    assert(s.subrange(i, end) == name);
}

proof fn lemma_digits_shift(s: Seq<char>, i: int, literal: Seq<char>, k: int)
    requires
        text::occurs_at(s, literal, i),
        0 <= k <= literal.len(),
        i + literal.len() < s.len() ==> !number::is_digit(s[i + literal.len()]),
    ensures
        number::digits_end(s, i + k) == i + number::digits_end(literal, k),
        k <= number::digits_end(literal, k) <= literal.len(),
    decreases literal.len() - k,
{
    if k < literal.len() {
        assert(s.subrange(i, i + literal.len())[k] == s[i + k]);
        lemma_digits_shift(s, i, literal, k + 1);
    }
}

/// A number literal before a `:` is read as one token.
proof fn lemma_number_token(s: Seq<char>, i: int, literal: Seq<char>)
    requires
        is_number_literal(literal),
        text::occurs_at(s, literal, i),
        i + literal.len() < s.len(),
        s[i + literal.len()] == ':',
    ensures
        filter::token_at(s, i) == Ok::<(TokenModel, int), ErrorModel>(
            (TokenModel::Number(filter::literal_bits(literal), literal), i + literal.len()),
        ),
        !filter::is_blank(s[i]),
{
    let n = literal.len() as int;
    assert forall|k: int| 0 <= k < n implies #[trigger] s[i + k] == literal[k] by {
        assert(s.subrange(i, i + n)[k] == s[i + k]);
    }
    assert(s[i] == s[i + 0]);
    let start: int = if literal[0] == '-' {
        1
    } else {
        0
    };
    lemma_digits_shift(s, i, literal, start);
    let whole = filter::integer_part_end(literal, 0);
    assert(filter::integer_part_end(s, i) == i + whole);
    if whole < n {
        assert(s[i + whole] == literal[whole]);
        lemma_digits_shift(s, i, literal, whole + 1);
    }
    let fraction = filter::fraction_end(literal, 0);
    assert(filter::fraction_end(s, i) == i + fraction);
    if fraction < n {
        assert(s[i + fraction] == literal[fraction]);
        if fraction + 1 < n {
            assert(s[i + (fraction + 1)] == literal[fraction + 1]);
        }
        let exponent = filter::exponent_start(literal, 0);
        assert(filter::exponent_start(s, i) == i + exponent);
        lemma_digits_shift(s, i, literal, exponent);
    }
    assert(filter::number_end(s, i) == i + n);
    if literal[0] == '-' {
        assert(s[i + 1] == literal[1]);
    }
    assert(s.subrange(i, i + n) == literal);
}

/// Whether segments can stand behind a name in a path: names and numbers, a name last.
spec fn are_tail_segments(segments: Seq<Seq<char>>) -> bool {
    &&& forall|i: int|
        0 <= i < segments.len() ==> is_name(#[trigger] segments[i]) || is_number_literal(
            segments[i],
        )
    &&& segments.len() > 0 ==> is_name(segments.last())
}

proof fn lemma_colon_text_len(segments: Seq<Seq<char>>)
    ensures
        segments.len() > 0 ==> colon_text(segments).len() > 0 && colon_text(segments)[0] == ':',
{
}

proof fn lemma_segments_lexed(s: Seq<char>, i: int, segments: Seq<Seq<char>>, rest: Seq<TokenModel>)
    requires
        are_tail_segments(segments),
        text::occurs_at(s, colon_text(segments), i),
        i + colon_text(segments).len() < s.len() ==> !filter::continues_word(
            s[i + colon_text(segments).len()],
        ),
        filter::tokens_from(s, i + colon_text(segments).len()) == Ok::<Seq<TokenModel>, ErrorModel>(
            rest,
        ),
    ensures
        filter::tokens_from(s, i) == Ok::<Seq<TokenModel>, ErrorModel>(
            colon_tokens(segments) + rest,
        ),
    decreases segments.len(),
{
    if segments.len() == 0 {
        assert(colon_tokens(segments) + rest =~= rest);
    } else {
        let first = segments[0];
        let more = segments.skip(1);
        let all = colon_text(segments);
        let at = i + 1 + first.len();
        assert forall|k: int| 0 <= k < all.len() implies #[trigger] s[i + k] == all[k] by {
            assert(s.subrange(i, i + all.len())[k] == s[i + k]);
        }
        assert(all.len() == 1 + first.len() + colon_text(more).len());
        assert(s[i] == s[i + 0]);
        assert(s[i] == ':');
        assert(s.subrange(i + 1, i + 1 + first.len()) =~= first) by {
            assert forall|k: int| 0 <= k < first.len() implies #[trigger] s.subrange(
                i + 1,
                i + 1 + first.len(),
            )[k] == first[k] by {
                assert(s[i + (1 + k)] == all[1 + k]);
            }
        }
        assert(s.subrange(at, at + colon_text(more).len()) =~= colon_text(more)) by {
            assert forall|k: int| 0 <= k < colon_text(more).len() implies #[trigger] s.subrange(
                at,
                at + colon_text(more).len(),
            )[k] == colon_text(more)[k] by {
                assert(s[i + (1 + first.len() + k)] == all[1 + first.len() + k]);
            }
        }
        assert(text::occurs_at(s, colon_text(more), at));
        assert forall|k: int| 0 <= k < more.len() implies is_name(#[trigger] more[k])
            || is_number_literal(more[k]) by {
            assert(more[k] == segments[k + 1]);
        }
        if more.len() > 0 {
            assert(more.last() == segments.last());
            lemma_colon_text_len(more);
            assert(s.subrange(at, at + colon_text(more).len())[0] == s[at]);
            assert(s[at] == ':');
        } else {
            assert(segments.last() == first);
        }
        lemma_segments_lexed(s, at, more, rest);
        if is_name(first) {
            lemma_name_token(s, i + 1, first);
        } else {
            lemma_number_token(s, i + 1, first);
        }
        assert(filter::token_at(s, i) == Ok::<(TokenModel, int), ErrorModel>(
            (TokenModel::Colon, i + 1),
        ));
        assert(filter::tokens_from(s, i + 1) == Ok::<Seq<TokenModel>, ErrorModel>(
            seq![segment_token(first)] + (colon_tokens(more) + rest),
        ));
        assert(seq![TokenModel::Colon] + (seq![segment_token(first)] + (colon_tokens(more) + rest))
            =~= colon_tokens(segments) + rest);
    }
}

proof fn lemma_segments_parsed(
    t: Seq<TokenModel>,
    p: int,
    segments: Seq<Seq<char>>,
    before: Seq<Seq<char>>,
)
    requires
        0 <= p,
        p + 2 * segments.len() <= t.len(),
        t.subrange(p, p + 2 * segments.len()) == colon_tokens(segments),
        filter::nth_token(t, p + 2 * segments.len()) != Some(TokenModel::Colon),
    ensures
        filter::segments_at(t, p, before) == Ok::<(Seq<Seq<char>>, int), ErrorModel>(
            (before + segments, p + 2 * segments.len()),
        ),
    decreases segments.len(),
{
    if segments.len() == 0 {
        assert(before + segments =~= before);
    } else {
        let all = colon_tokens(segments);
        let more = segments.skip(1);
        assert(t.subrange(p, p + 2 * segments.len())[0] == t[p]);
        assert(t.subrange(p, p + 2 * segments.len())[1] == t[p + 1]);
        assert(t.subrange(p + 2, p + 2 + 2 * more.len()) =~= t.subrange(
            p,
            p + 2 * segments.len(),
        ).skip(2));
        assert(all.skip(2) =~= colon_tokens(more));
        lemma_segments_parsed(t, p + 2, more, before.push(segments[0]));
        assert(before.push(segments[0]) + more =~= before + segments);
    }
}

proof fn lemma_colon_tokens_len(segments: Seq<Seq<char>>)
    ensures
        colon_tokens(segments).len() == 2 * segments.len(),
    decreases segments.len(),
{
    if segments.len() > 0 {
        lemma_colon_tokens_len(segments.skip(1));
    }
}

/// The tokens of a path: its first segment, the others, and the sub-attribute.
spec fn path_tokens(
    first: Seq<char>,
    segments: Seq<Seq<char>>,
    sub_attr: Option<Seq<char>>,
) -> Seq<TokenModel> {
    seq![TokenModel::Ident(first)] + colon_tokens(segments) + (match sub_attr {
        Some(sub) => seq![TokenModel::Dot, TokenModel::Ident(sub)],
        None => Seq::empty(),
    })
}

/// The text of a path is read as its tokens, whatever stands behind it, as long as that does not
/// go on with the last name.
proof fn lemma_path_lexed(
    s: Seq<char>,
    first: Seq<char>,
    segments: Seq<Seq<char>>,
    sub_attr: Option<Seq<char>>,
    body: Seq<char>,
    rest: Seq<TokenModel>,
)
    requires
        is_name(first),
        are_tail_segments(segments),
        sub_attr matches Some(sub) ==> is_name(sub),
        body == first + colon_text(segments) + (match sub_attr {
            Some(sub) => seq!['.'] + sub,
            None => Seq::empty(),
        }),
        text::occurs_at(s, body, 0),
        body.len() < s.len() ==> !filter::continues_word(s[body.len() as int]),
        filter::tokens_from(s, body.len() as int) == Ok::<Seq<TokenModel>, ErrorModel>(rest),
    ensures
        filter::lexed(s) == Ok::<Seq<TokenModel>, ErrorModel>(
            path_tokens(first, segments, sub_attr) + rest,
        ),
{
    let n = first.len() as int;
    let colons = colon_text(segments);
    let end = n + colons.len();
    assert forall|k: int| 0 <= k < body.len() implies #[trigger] s[k] == body[k] by {
        assert(s.subrange(0, body.len() as int)[k] == s[k]);
    }
    assert(s.subrange(0, n) =~= first);
    assert(s.subrange(n, end) =~= colons);
    let behind = match sub_attr {
        Some(sub) => seq![TokenModel::Dot, TokenModel::Ident(sub)],
        None => Seq::empty(),
    };
    if let Some(sub) = sub_attr {
        assert(s[end] == '.');
        assert(s.subrange(end + 1, end + 1 + sub.len()) =~= sub);
        lemma_name_token(s, end + 1, sub);
        assert(filter::tokens_from(s, end + 1) == Ok::<Seq<TokenModel>, ErrorModel>(
            seq![TokenModel::Ident(sub)] + rest,
        ));
        assert(filter::token_at(s, end) == Ok::<(TokenModel, int), ErrorModel>(
            (TokenModel::Dot, end + 1),
        ));
        assert(seq![TokenModel::Dot] + (seq![TokenModel::Ident(sub)] + rest) =~= behind + rest);
    } else {
        assert(behind + rest =~= rest);
    }
    assert(filter::tokens_from(s, end) == Ok::<Seq<TokenModel>, ErrorModel>(behind + rest));
    lemma_segments_lexed(s, n, segments, behind + rest);
    lemma_colon_text_len(segments);
    if segments.len() > 0 {
        assert(s[n] == s.subrange(n, end)[0]);
    }
    lemma_name_token(s, 0, first);
    assert(seq![TokenModel::Ident(first)] + (colon_tokens(segments) + (behind + rest))
        =~= path_tokens(first, segments, sub_attr) + rest);
}

/// The tokens of a path are parsed as that path.
proof fn lemma_path_parsed(
    first: Seq<char>,
    segments: Seq<Seq<char>>,
    sub_attr: Option<Seq<char>>,
    rest: Seq<TokenModel>,
)
    requires
        rest.len() > 0 ==> rest[0] != TokenModel::Colon && rest[0] != TokenModel::Dot,
    ensures
        filter::path_at(path_tokens(first, segments, sub_attr) + rest, 0) == Ok::<
            (PathModel, int),
            ErrorModel,
        >(
            (
                filter::path_of(seq![first] + segments, sub_attr),
                path_tokens(first, segments, sub_attr).len() as int,
            ),
        ),
{
    let t = path_tokens(first, segments, sub_attr) + rest;
    lemma_colon_tokens_len(segments);
    let q: int = 1 + 2 * (segments.len() as int);
    assert(t.subrange(1, q) =~= colon_tokens(segments));
    match sub_attr {
        Some(sub) => {
            assert(t[q] == TokenModel::Dot);
            assert(t[q + 1] == TokenModel::Ident(sub));
        },
        None => {
            if rest.len() > 0 {
                assert(t[q] == rest[0]);
            }
        },
    }
    lemma_segments_parsed(t, 1, segments, seq![first]);
}

/// The first segment of a plain path and the others, the attribute's name being the last.
proof fn lemma_path_segments(path: PathModel) -> (r: (Seq<char>, Seq<Seq<char>>))
    requires
        is_written_plainly(path),
    ensures
        is_name(r.0),
        are_tail_segments(r.1),
        filter::path_of(seq![r.0] + r.1, path.sub_attr) == path,
        filter::path_text(path) == r.0 + colon_text(r.1) + (match path.sub_attr {
            Some(sub) => seq!['.'] + sub,
            None => Seq::empty(),
        }),
{
    reveal_strlit(".");
    reveal_strlit(":");
    assert("."@ =~= seq!['.']);
    assert(":"@ =~= seq![':']);
    let behind = match path.sub_attr {
        Some(sub) => seq!['.'] + sub,
        None => Seq::empty(),
    };
    match path.schema_uri {
        None => {
            let more = Seq::<Seq<char>>::empty();
            assert((seq![path.attr_name] + more).last() == path.attr_name);
            assert(filter::path_text(path) =~= path.attr_name + colon_text(more) + behind);
            (path.attr_name, more)
        },
        Some(uri) => {
            let segments = choose|segments: Seq<Seq<char>>| #[trigger]
                are_uri_segments(segments) && uri == filter::colon_joined(segments);
            let more = segments.skip(1).push(path.attr_name);
            lemma_joined_from_front(segments);
            lemma_colon_text_push(segments.skip(1), path.attr_name);
            assert((seq![segments[0]] + more).drop_last() =~= segments);
            assert((seq![segments[0]] + more).last() == path.attr_name);
            assert forall|i: int| 0 <= i < more.len() implies is_name(#[trigger] more[i])
                || is_number_literal(more[i]) by {
                if i < more.len() - 1 {
                    assert(more[i] == segments[i + 1]);
                }
            }
            assert(filter::path_text(path) =~= segments[0] + colon_text(more) + behind);
            (segments[0], more)
        },
    }
}

proof fn lemma_keyword_pr()
    ensures
        filter::word_token("pr"@) == TokenModel::Pr,
{
    reveal_strlit("pr");
    reveal_strlit("and");
    reveal_strlit("or");
    reveal_strlit("not");
    let w = text::ascii_lower("pr"@);
    assert(w =~= "pr"@);
    assert(w.len() == 2 && "and"@.len() == 3 && "not"@.len() == 3);
    assert(w[0] == 'p' && "or"@[0] == 'o');
}

proof fn lemma_presence_lexed(s: Seq<char>, n: int)
    requires
        0 <= n,
        s.len() == n + 3,
        s[n] == ' ',
        s[n + 1] == 'p',
        s[n + 2] == 'r',
    ensures
        filter::tokens_from(s, n) == Ok::<Seq<TokenModel>, ErrorModel>(seq![TokenModel::Pr]),
{
    lemma_keyword_pr();
    reveal_strlit("pr");
    assert(s.subrange(n + 1, n + 3) =~= "pr"@);
    lemma_word_end_at(s, n + 2, n + 3);
    assert(filter::token_at(s, n + 1) == Ok::<(TokenModel, int), ErrorModel>(
        (TokenModel::Pr, n + 3),
    ));
    assert(filter::tokens_from(s, n + 3) == Ok::<Seq<TokenModel>, ErrorModel>(Seq::empty()));
    assert(seq![TokenModel::Pr] + Seq::<TokenModel>::empty() =~= seq![TokenModel::Pr]);
    assert(filter::tokens_from(s, n + 1) == Ok::<Seq<TokenModel>, ErrorModel>(
        seq![TokenModel::Pr],
    ));
}

proof fn lemma_presence_parsed(t: Seq<TokenModel>, path: PathModel)
    requires
        t.len() > 1,
        t[0] is Ident,
        t[t.len() - 1] == TokenModel::Pr,
        filter::path_at(t, 0) == Ok::<(PathModel, int), ErrorModel>((path, t.len() - 1)),
    ensures
        filter::filter_of(t) == Ok::<FilterModel, ErrorModel>(FilterModel::Present(path)),
{
    let found = Ok::<(FilterModel, int), ErrorModel>((FilterModel::Present(path), t.len() as int));
    assert(filter::expression_at(t, 0, 0) == found);
    assert(filter::operand_at(t, 0, 0) == found);
    assert(filter::depth_of(FilterModel::Present(path)) == 0);
    assert(filter::and_from(t, t.len() as int, 0, FilterModel::Present(path)) == found);
    assert(filter::and_at(t, 0, 0) == found);
    assert(filter::or_from(t, t.len() as int, 0, FilterModel::Present(path)) == found);
    assert(filter::or_at(t, 0, 0) == found);
}

/// A plain attribute path that is written out and followed by ` pr` parses back to the presence
/// test of that path.
pub proof fn law_written_path_parses_back(path: PathModel)
    requires
        is_written_plainly(path),
    ensures
        filter::parsed(filter::path_text(path) + " pr"@) == Ok::<FilterModel, ErrorModel>(
            FilterModel::Present(path),
        ),
{
    let (first, segments) = lemma_path_segments(path);
    let body = filter::path_text(path);
    let s = body + " pr"@;
    let rest = seq![TokenModel::Pr];
    reveal_strlit(" pr");
    assert(s.subrange(0, body.len() as int) =~= body);
    lemma_presence_lexed(s, body.len() as int);
    lemma_path_lexed(s, first, segments, path.sub_attr, body, rest);
    lemma_path_parsed(first, segments, path.sub_attr, rest);
    let t = path_tokens(first, segments, path.sub_attr) + rest;
    assert(t[0] == TokenModel::Ident(first));
    lemma_presence_parsed(t, path);
}

/// A plain attribute path that is written out is read as tokens that all belong to it.
pub proof fn lemma_path_read(path: PathModel)
    requires
        is_written_plainly(path),
    ensures
        filter::lexed(filter::path_text(path)) is Ok,
        filter::path_at(filter::lexed(filter::path_text(path))->Ok_0, 0) == Ok::<
            (PathModel, int),
            ErrorModel,
        >((path, filter::lexed(filter::path_text(path))->Ok_0.len() as int)),
{
    let (first, segments) = lemma_path_segments(path);
    let s = filter::path_text(path);
    let rest = Seq::<TokenModel>::empty();
    assert(s.subrange(0, s.len() as int) =~= s);
    lemma_path_lexed(s, first, segments, path.sub_attr, s, rest);
    lemma_path_parsed(first, segments, path.sub_attr, rest);
}

/// A plain attribute path that is written out is read back as the target of a PATCH operation.
pub proof fn law_written_patch_path_parses_back(path: PathModel)
    requires
        is_written_plainly(path),
    ensures
        filter::parsed_patch_path(filter::path_text(path)) == Ok::<PatchPathModel, ErrorModel>(
            PatchPathModel { attr_path: path, value_filter: None, sub_attr_after_filter: None },
        ),
{
    let (first, segments) = lemma_path_segments(path);
    let s = filter::path_text(path);
    let rest = Seq::<TokenModel>::empty();
    assert(s.subrange(0, s.len() as int) =~= s);
    lemma_path_lexed(s, first, segments, path.sub_attr, s, rest);
    lemma_path_parsed(first, segments, path.sub_attr, rest);
    assert(path_tokens(first, segments, path.sub_attr) + rest =~= path_tokens(
        first,
        segments,
        path.sub_attr,
    ));
}

} // verus!
