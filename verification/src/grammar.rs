//! The filter grammar stated as rules, and the proof that the parser accepts exactly what the
//! rules derive within the depth limit.

use crate::filter::{FilterModel, PatchPathModel, PathModel, TokenModel, MAX_DEPTH};
use crate::filter;
use vstd::prelude::*;

verus! {

/// Whether the tokens from `p` to `q` are an identifier, then any number of colons each followed
/// by a segment.
pub open spec fn is_plain_path(t: Seq<TokenModel>, p: int, q: int) -> bool {
    &&& 0 <= p < q <= t.len()
    &&& (q - p) % 2 == 1
    &&& t[p] is Ident
    &&& forall|i: int|
        p < i < q ==> if (i - p) % 2 == 1 {
            #[trigger] t[i] == TokenModel::Colon
        } else {
            filter::segment_text(t[i]) is Some
        }
}

/// The segments of a plain path.
pub open spec fn plain_segments(t: Seq<TokenModel>, p: int, q: int) -> Seq<Seq<char>> {
    Seq::new(((q - p + 1) / 2) as nat, |i: int| filter::segment_text(t[p + 2 * i])->0)
}

/// `attrPath = [URI ":"] ATTRNAME *1subAttr`: the tokens from `p` to `q` spell `path`.
pub open spec fn spells_path(t: Seq<TokenModel>, p: int, q: int, path: PathModel) -> bool {
    ||| is_plain_path(t, p, q) && path == filter::path_of(plain_segments(t, p, q), None)
    ||| {
        &&& is_plain_path(t, p, q - 2)
        &&& q <= t.len()
        &&& t[q - 2] == TokenModel::Dot
        &&& t[q - 1] matches TokenModel::Ident(sub)
        &&& path == filter::path_of(plain_segments(t, p, q - 2), Some(sub))
    }
}

/// An `or` of `and`s: the tokens from `p` to `q` spell `f` with at most `n` groups around any part.
pub open spec fn spells_or(t: Seq<TokenModel>, p: int, q: int, f: FilterModel, n: int) -> bool
    decreases q - p, 4int,
{
    n >= 0 && 0 <= p < q <= t.len() && {
        ||| spells_and(t, p, q, f, n)
        ||| f matches FilterModel::Or(a, b) && exists|k: int|
            p < k < q - 1 && #[trigger] t[k] == TokenModel::Or && spells_or(t, p, k, *a, n)
                && spells_and(t, k + 1, q, *b, n)
    }
}

/// An `and` of operands.
pub open spec fn spells_and(t: Seq<TokenModel>, p: int, q: int, f: FilterModel, n: int) -> bool
    decreases q - p, 3int,
{
    0 <= p < q <= t.len() && {
        ||| spells_operand(t, p, q, f, n)
        ||| f matches FilterModel::And(a, b) && exists|k: int|
            p < k < q - 1 && #[trigger] t[k] == TokenModel::And && spells_and(t, p, k, *a, n)
                && spells_operand(t, k + 1, q, *b, n)
    }
}

/// `*1"not" "(" FILTER ")"`, or an expression over one attribute.
pub open spec fn spells_operand(t: Seq<TokenModel>, p: int, q: int, f: FilterModel, n: int) -> bool
    decreases q - p, 2int,
{
    0 <= p < q <= t.len() && {
        ||| f matches FilterModel::Not(a) && q - p > 3 && t[p] == TokenModel::Not && t[p + 1]
            == TokenModel::LParen && t[q - 1] == TokenModel::RParen && spells_or(
            t,
            p + 2,
            q - 1,
            *a,
            n - 1,
        )
        ||| q - p > 2 && t[p] == TokenModel::LParen && t[q - 1] == TokenModel::RParen && spells_or(
            t,
            p + 1,
            q - 1,
            f,
            n - 1,
        )
        ||| spells_expression(t, p, q, f, n)
    }
}

/// `attrExp` or `valuePath`.
pub open spec fn spells_expression(
    t: Seq<TokenModel>,
    p: int,
    q: int,
    f: FilterModel,
    n: int,
) -> bool
    decreases q - p, 1int,
{
    0 <= p < q <= t.len() && match f {
        FilterModel::Present(path) => t[q - 1] == TokenModel::Pr && spells_path(t, p, q - 1, path),
        FilterModel::Compare(path, op, value) => {
            &&& q - p > 2
            &&& t[q - 2] == TokenModel::CompareOp(op)
            &&& filter::comp_value_of(t[q - 1]) == Some(value)
            &&& spells_path(t, p, q - 2, path)
        },
        FilterModel::ValuePath(path, a) => t[q - 1] == TokenModel::RBracket && exists|k: int|
            p < k < q - 2 && #[trigger] t[k] == TokenModel::LBracket && spells_path(t, p, k, path)
                && spells_or(t, k + 1, q - 1, *a, n - 1),
        _ => false,
    }
}

proof fn lemma_segments_sound(t: Seq<TokenModel>, p: int, k: int)
    requires
        is_plain_path(t, p, k),
    ensures
        filter::segments_at(t, k, plain_segments(t, p, k)) matches Ok((segments, q))
            ==> is_plain_path(t, p, q) && segments == plain_segments(t, p, q) && k <= q
            && filter::nth_token(t, q) != Some(TokenModel::Colon),
    decreases t.len() - k,
{
    if filter::nth_token(t, k) == Some(TokenModel::Colon) {
        if let Some(token) = filter::nth_token(t, k + 1) {
            if let Some(segment) = filter::segment_text(token) {
                assert(plain_segments(t, p, k).push(segment) =~= plain_segments(t, p, k + 2));
                assert(is_plain_path(t, p, k + 2));
                lemma_segments_sound(t, p, k + 2);
            }
        }
    }
}

/// What the parser takes for an attribute path is one.
pub proof fn lemma_path_sound(t: Seq<TokenModel>, p: int)
    ensures
        filter::path_at(t, p) matches Ok((path, q)) ==> spells_path(t, p, q, path) && 0 <= p < q
            <= t.len(),
{
    filter::lemma_path_end(t, p);
    if let Some(TokenModel::Ident(first)) = filter::nth_token(t, p) {
        assert(is_plain_path(t, p, p + 1));
        assert(plain_segments(t, p, p + 1) =~= seq![first]);
        lemma_segments_sound(t, p, p + 1);
    }
}

proof fn lemma_or_sound(t: Seq<TokenModel>, p: int, d: int)
    requires
        0 <= p <= t.len(),
    ensures
        filter::or_at(t, p, d) matches Ok((f, q)) ==> spells_or(t, p, q, f, MAX_DEPTH - d)
            && filter::depth_of(f) <= MAX_DEPTH,
    decreases t.len() - p, 5int,
{
    if d <= MAX_DEPTH {
        lemma_and_sound(t, p, d);
        if let Ok((left, q)) = filter::and_at(t, p, d) {
            if p < q <= t.len() {
                lemma_or_from_sound(t, p, q, d, left);
            }
        }
    }
}

proof fn lemma_or_from_sound(t: Seq<TokenModel>, s: int, p: int, d: int, left: FilterModel)
    requires
        spells_or(t, s, p, left, MAX_DEPTH - d),
        filter::depth_of(left) <= MAX_DEPTH,
    ensures
        filter::or_from(t, p, d, left) matches Ok((f, q)) ==> spells_or(t, s, q, f, MAX_DEPTH - d)
            && filter::depth_of(f) <= MAX_DEPTH,
    decreases t.len() - p, 4int,
{
    if filter::nth_token(t, p) == Some(TokenModel::Or) {
        lemma_and_sound(t, p + 1, d);
        if let Ok((right, q)) = filter::and_at(t, p + 1, d) {
            let f = FilterModel::Or(Box::new(left), Box::new(right));
            if filter::depth_of(f) <= MAX_DEPTH && p < q <= t.len() {
                assert(t[p] == TokenModel::Or);
                assert(spells_or(t, s, q, f, MAX_DEPTH - d));
                lemma_or_from_sound(t, s, q, d, f);
            }
        }
    }
}

proof fn lemma_and_sound(t: Seq<TokenModel>, p: int, d: int)
    requires
        0 <= p <= t.len(),
    ensures
        filter::and_at(t, p, d) matches Ok((f, q)) ==> spells_and(t, p, q, f, MAX_DEPTH - d)
            && filter::depth_of(f) <= MAX_DEPTH,
    decreases t.len() - p, 3int,
{
    lemma_operand_sound(t, p, d);
    if let Ok((left, q)) = filter::operand_at(t, p, d) {
        if filter::depth_of(left) <= MAX_DEPTH && p < q <= t.len() {
            lemma_and_from_sound(t, p, q, d, left);
        }
    }
}

proof fn lemma_and_from_sound(t: Seq<TokenModel>, s: int, p: int, d: int, left: FilterModel)
    requires
        spells_and(t, s, p, left, MAX_DEPTH - d),
        filter::depth_of(left) <= MAX_DEPTH,
    ensures
        filter::and_from(t, p, d, left) matches Ok((f, q)) ==> spells_and(t, s, q, f, MAX_DEPTH - d)
            && filter::depth_of(f) <= MAX_DEPTH,
    decreases t.len() - p, 2int,
{
    if filter::nth_token(t, p) == Some(TokenModel::And) {
        lemma_operand_sound(t, p + 1, d);
        if let Ok((right, q)) = filter::operand_at(t, p + 1, d) {
            let f = FilterModel::And(Box::new(left), Box::new(right));
            if filter::depth_of(f) <= MAX_DEPTH && p < q <= t.len() {
                assert(t[p] == TokenModel::And);
                assert(spells_and(t, s, q, f, MAX_DEPTH - d));
                lemma_and_from_sound(t, s, q, d, f);
            }
        }
    }
}

proof fn lemma_operand_sound(t: Seq<TokenModel>, p: int, d: int)
    requires
        0 <= p <= t.len(),
    ensures
        filter::operand_at(t, p, d) matches Ok((f, q)) ==> spells_operand(
            t,
            p,
            q,
            f,
            MAX_DEPTH - d,
        ),
    decreases t.len() - p, 1int,
{
    if filter::nth_token(t, p) == Some(TokenModel::Not) {
        if filter::missing_at(t, p + 1, TokenModel::LParen) is None {
            lemma_or_sound(t, p + 2, d + 1);
        }
    } else if filter::nth_token(t, p) == Some(TokenModel::LParen) {
        lemma_or_sound(t, p + 1, d + 1);
    } else {
        lemma_expression_sound(t, p, d);
    }
}

proof fn lemma_expression_sound(t: Seq<TokenModel>, p: int, d: int)
    requires
        0 <= p <= t.len(),
    ensures
        filter::expression_at(t, p, d) matches Ok((f, q)) ==> spells_expression(
            t,
            p,
            q,
            f,
            MAX_DEPTH - d,
        ),
    decreases t.len() - p, 0int,
{
    lemma_path_sound(t, p);
    if let Ok((path, k)) = filter::path_at(t, p) {
        if filter::nth_token(t, k) == Some(TokenModel::LBracket) {
            lemma_or_sound(t, k + 1, d + 1);
            if let Ok((f, q)) = filter::expression_at(t, p, d) {
                assert(t[k] == TokenModel::LBracket);
            }
        }
    }
}

proof fn lemma_segments_complete(t: Seq<TokenModel>, p: int, k: int, q: int)
    requires
        is_plain_path(t, p, k),
        is_plain_path(t, p, q),
        k <= q,
        filter::nth_token(t, q) != Some(TokenModel::Colon),
    ensures
        filter::segments_at(t, k, plain_segments(t, p, k)) == Ok::<
            (Seq<Seq<char>>, int),
            filter::ErrorModel,
        >((plain_segments(t, p, q), q)),
    decreases q - k,
{
    if k < q {
        assert(t[k] == TokenModel::Colon);
        assert(k + 1 < q) by {
            if k + 1 == q {
                assert((q - p) % 2 == 0);
            }
        }
        let segment = filter::segment_text(t[k + 1])->0;
        assert(plain_segments(t, p, k).push(segment) =~= plain_segments(t, p, k + 2));
        assert(is_plain_path(t, p, k + 2));
        lemma_segments_complete(t, p, k + 2, q);
    }
}

proof fn lemma_path_complete(t: Seq<TokenModel>, p: int, q: int, path: PathModel)
    requires
        spells_path(t, p, q, path),
        filter::nth_token(t, q) != Some(TokenModel::Colon),
        filter::nth_token(t, q) != Some(TokenModel::Dot),
    ensures
        filter::path_at(t, p) == Ok::<(PathModel, int), filter::ErrorModel>((path, q)),
{
    let plain = is_plain_path(t, p, q) && path == filter::path_of(plain_segments(t, p, q), None);
    let end = if plain {
        q
    } else {
        q - 2
    };
    assert(is_plain_path(t, p, p + 1));
    if let TokenModel::Ident(first) = t[p] {
        assert(plain_segments(t, p, p + 1) =~= seq![first]);
    }
    lemma_segments_complete(t, p, p + 1, end);
}

/// What the parser reads at `p` when the tokens up to `q` spell `f`: the chain that goes on at `q`.
proof fn lemma_or_complete(t: Seq<TokenModel>, p: int, q: int, d: int, f: FilterModel)
    requires
        spells_or(t, p, q, f, MAX_DEPTH - d),
        filter::depth_of(f) <= MAX_DEPTH,
        filter::nth_token(t, q) != Some(TokenModel::And),
    ensures
        filter::or_at(t, p, d) == filter::or_from(t, q, d, f),
    decreases q - p, 4int,
{
    if spells_and(t, p, q, f, MAX_DEPTH - d) {
        lemma_and_complete(t, p, q, d, f);
    } else if let FilterModel::Or(a, b) = f {
        let k = choose|k: int|
            p < k < q - 1 && #[trigger] t[k] == TokenModel::Or && spells_or(
                t,
                p,
                k,
                *a,
                MAX_DEPTH - d,
            ) && spells_and(t, k + 1, q, *b, MAX_DEPTH - d);
        lemma_or_complete(t, p, k, d, *a);
        lemma_and_complete(t, k + 1, q, d, *b);
    }
}

proof fn lemma_and_complete(t: Seq<TokenModel>, p: int, q: int, d: int, f: FilterModel)
    requires
        spells_and(t, p, q, f, MAX_DEPTH - d),
        filter::depth_of(f) <= MAX_DEPTH,
    ensures
        filter::and_at(t, p, d) == filter::and_from(t, q, d, f),
    decreases q - p, 3int,
{
    if spells_operand(t, p, q, f, MAX_DEPTH - d) {
        lemma_operand_complete(t, p, q, d, f);
    } else if let FilterModel::And(a, b) = f {
        let k = choose|k: int|
            p < k < q - 1 && #[trigger] t[k] == TokenModel::And && spells_and(
                t,
                p,
                k,
                *a,
                MAX_DEPTH - d,
            ) && spells_operand(t, k + 1, q, *b, MAX_DEPTH - d);
        lemma_and_complete(t, p, k, d, *a);
        lemma_operand_complete(t, k + 1, q, d, *b);
    }
}

proof fn lemma_operand_complete(t: Seq<TokenModel>, p: int, q: int, d: int, f: FilterModel)
    requires
        spells_operand(t, p, q, f, MAX_DEPTH - d),
        filter::depth_of(f) <= MAX_DEPTH,
    ensures
        filter::operand_at(t, p, d) == Ok::<(FilterModel, int), filter::ErrorModel>((f, q)),
    decreases q - p, 2int,
{
    if t[p] == TokenModel::Not {
        if let FilterModel::Not(a) = f {
            lemma_or_complete(t, p + 2, q - 1, d + 1, *a);
        }
    } else if t[p] == TokenModel::LParen {
        lemma_or_complete(t, p + 1, q - 1, d + 1, f);
    } else {
        lemma_expression_complete(t, p, q, d, f);
    }
}

proof fn lemma_expression_complete(t: Seq<TokenModel>, p: int, q: int, d: int, f: FilterModel)
    requires
        spells_expression(t, p, q, f, MAX_DEPTH - d),
        filter::depth_of(f) <= MAX_DEPTH,
    ensures
        filter::expression_at(t, p, d) == Ok::<(FilterModel, int), filter::ErrorModel>((f, q)),
    decreases q - p, 1int,
{
    match f {
        FilterModel::Present(path) => {
            lemma_path_complete(t, p, q - 1, path);
        },
        FilterModel::Compare(path, op, value) => {
            lemma_path_complete(t, p, q - 2, path);
        },
        FilterModel::ValuePath(path, a) => {
            let k = choose|k: int|
                p < k < q - 2 && #[trigger] t[k] == TokenModel::LBracket && spells_path(
                    t,
                    p,
                    k,
                    path,
                ) && spells_or(t, k + 1, q - 1, *a, MAX_DEPTH - d - 1);
            lemma_path_complete(t, p, k, path);
            lemma_or_complete(t, k + 1, q - 1, d + 1, *a);
        },
        _ => {},
    }
}

/// The parser accepts exactly the grammar within the depth limit: a token sequence is parsed as
/// the filter `f` if and only if the rules derive it from `f` with no part inside more than
/// [`MAX_DEPTH`] groups, and `f` itself is no deeper than [`MAX_DEPTH`].
pub proof fn law_parser_is_the_grammar(t: Seq<TokenModel>, f: FilterModel)
    ensures
        filter::filter_of(t) == Ok::<FilterModel, filter::ErrorModel>(f) <==> (spells_or(
            t,
            0,
            t.len() as int,
            f,
            MAX_DEPTH as int,
        ) && filter::depth_of(f) <= MAX_DEPTH),
{
    lemma_or_sound(t, 0, 0);
    if spells_or(t, 0, t.len() as int, f, MAX_DEPTH as int) && filter::depth_of(f) <= MAX_DEPTH {
        lemma_or_complete(t, 0, t.len() as int, 0, f);
    }
}

/// `PATH = attrPath / valuePath [subAttr]`: the tokens are an attribute path, or an attribute path
/// without a sub-attribute, a filter in brackets and optionally a dot and a name.
pub open spec fn spells_patch_path(t: Seq<TokenModel>, path: PatchPathModel) -> bool {
    match path.value_filter {
        None => path.sub_attr_after_filter is None && spells_path(
            t,
            0,
            t.len() as int,
            path.attr_path,
        ),
        Some(f) => path.attr_path.sub_attr is None && exists|k: int, e: int|
            0 < k < e < t.len() && #[trigger] t[k] == TokenModel::LBracket && #[trigger] t[e]
                == TokenModel::RBracket && spells_path(t, 0, k, path.attr_path) && spells_or(
                t,
                k + 1,
                e,
                f,
                MAX_DEPTH - 1,
            ) && (match path.sub_attr_after_filter {
                None => t.len() == e + 1,
                Some(sub) => t.len() == e + 3 && t[e + 1] == TokenModel::Dot && t[e + 2]
                    == TokenModel::Ident(sub),
            }),
    }
}

proof fn lemma_patch_path_sound(t: Seq<TokenModel>)
    ensures
        filter::patch_path_of(t) matches Ok(path) ==> spells_patch_path(t, path) && (
        path.value_filter matches Some(f) ==> filter::depth_of(f) <= MAX_DEPTH),
{
    lemma_path_sound(t, 0);
    if let Ok((attr_path, k)) = filter::path_at(t, 0) {
        if filter::nth_token(t, k) == Some(TokenModel::LBracket) && attr_path.sub_attr is None {
            lemma_or_sound(t, k + 1, 1);
            if let Ok((f, e)) = filter::or_at(t, k + 1, 1) {
                if filter::missing_at(t, e, TokenModel::RBracket) is None {
                    assert(t[k] == TokenModel::LBracket && t[e] == TokenModel::RBracket);
                }
            }
        }
    }
}

proof fn lemma_patch_path_complete(t: Seq<TokenModel>, path: PatchPathModel)
    requires
        spells_patch_path(t, path),
        path.value_filter matches Some(f) ==> filter::depth_of(f) <= MAX_DEPTH,
    ensures
        filter::patch_path_of(t) == Ok::<PatchPathModel, filter::ErrorModel>(path),
{
    match path.value_filter {
        None => {
            lemma_path_complete(t, 0, t.len() as int, path.attr_path);
        },
        Some(f) => {
            let (k, e) = choose|k: int, e: int|
                0 < k < e < t.len() && #[trigger] t[k] == TokenModel::LBracket && #[trigger] t[e]
                    == TokenModel::RBracket && spells_path(t, 0, k, path.attr_path) && spells_or(
                    t,
                    k + 1,
                    e,
                    f,
                    MAX_DEPTH - 1,
                ) && (match path.sub_attr_after_filter {
                    None => t.len() == e + 1,
                    Some(sub) => t.len() == e + 3 && t[e + 1] == TokenModel::Dot && t[e + 2]
                        == TokenModel::Ident(sub),
                });
            lemma_path_complete(t, 0, k, path.attr_path);
            lemma_or_complete(t, k + 1, e, 1, f);
        },
    }
}

/// The tokens of a PATCH path are parsed exactly as the grammar has it: an attribute path alone, or
/// one without a sub-attribute, a filter in brackets that the `or` rule derives within the depth
/// limit, the brackets counting as one group, and optionally a dot and a name.
pub proof fn law_patch_paths_are_the_grammar(t: Seq<TokenModel>, path: PatchPathModel)
    ensures
        filter::patch_path_of(t) == Ok::<PatchPathModel, filter::ErrorModel>(path) <==> (
        spells_patch_path(t, path) && (path.value_filter matches Some(f) ==> filter::depth_of(f)
            <= MAX_DEPTH)),
{
    lemma_patch_path_sound(t);
    if spells_patch_path(t, path) && (path.value_filter matches Some(f) ==> filter::depth_of(f)
        <= MAX_DEPTH) {
        lemma_patch_path_complete(t, path);
    }
}

/// A filter within one group less than the limit is parsed in the brackets of a PATCH path exactly
/// as it is on its own: whatever spells the filter spells, between the brackets, its choice of
/// entries.
pub proof fn law_brackets_take_any_filter(
    t: Seq<TokenModel>,
    name: Seq<char>,
    f: FilterModel,
    sub: Option<Seq<char>>,
)
    requires
        spells_or(t, 0, t.len() as int, f, MAX_DEPTH - 1),
        filter::depth_of(f) <= MAX_DEPTH,
    ensures
        filter::filter_of(t) == Ok::<FilterModel, filter::ErrorModel>(f),
        filter::patch_path_of(
            seq![TokenModel::Ident(name), TokenModel::LBracket] + t + seq![TokenModel::RBracket] + (
            match sub {
                Some(s) => seq![TokenModel::Dot, TokenModel::Ident(s)],
                None => Seq::empty(),
            }),
        ) == Ok::<PatchPathModel, filter::ErrorModel>(
            PatchPathModel {
                attr_path: PathModel { schema_uri: None, attr_name: name, sub_attr: None },
                value_filter: Some(f),
                sub_attr_after_filter: sub,
            },
        ),
{
    lemma_spells_or_more(t, 0, t.len() as int, f, MAX_DEPTH - 1);
    law_parser_is_the_grammar(t, f);
    let n = t.len() as int;
    let front = seq![TokenModel::Ident(name), TokenModel::LBracket];
    let behind = match sub {
        Some(s) => seq![TokenModel::Dot, TokenModel::Ident(s)],
        None => Seq::empty(),
    };
    let u = front + t + seq![TokenModel::RBracket] + behind;
    let path = PatchPathModel {
        attr_path: PathModel { schema_uri: None, attr_name: name, sub_attr: None },
        value_filter: Some(f),
        sub_attr_after_filter: sub,
    };
    assert forall|i: int| 0 <= i < n implies t[i] == #[trigger] u[i + 2] by {}
    lemma_spells_or_shift(t, u, 2, 0, n, f, MAX_DEPTH - 1);
    assert(is_plain_path(u, 0, 1));
    assert(plain_segments(u, 0, 1) =~= seq![name]);
    assert(spells_path(u, 0, 1, path.attr_path));
    assert(u[1] == TokenModel::LBracket && u[n + 2] == TokenModel::RBracket);
    if sub is Some {
        assert(u[n + 3] == TokenModel::Dot);
    }
    assert(spells_patch_path(u, path));
    law_patch_paths_are_the_grammar(u, path);
}

/// Whether `u` holds, `by` places later, what `t` holds from `p` to `q`.
spec fn holds_later(t: Seq<TokenModel>, u: Seq<TokenModel>, by: int, p: int, q: int) -> bool {
    &&& 0 <= p <= q <= t.len()
    &&& 0 <= by
    &&& q + by <= u.len()
    &&& forall|i: int| p <= i < q ==> #[trigger] u[i + by] == t[i]
}

proof fn lemma_plain_path_shift(t: Seq<TokenModel>, u: Seq<TokenModel>, by: int, p: int, q: int)
    requires
        holds_later(t, u, by, p, q),
        is_plain_path(t, p, q),
    ensures
        is_plain_path(u, p + by, q + by),
        plain_segments(u, p + by, q + by) == plain_segments(t, p, q),
{
    assert(u[p + by] == t[p]);
    assert forall|i: int| p + by < i < q + by implies if (i - (p + by)) % 2 == 1 {
        #[trigger] u[i] == TokenModel::Colon
    } else {
        filter::segment_text(u[i]) is Some
    } by {
        assert(u[(i - by) + by] == t[i - by]);
    }
    assert forall|i: int| 0 <= i < plain_segments(t, p, q).len() implies #[trigger] plain_segments(
        u,
        p + by,
        q + by,
    )[i] == plain_segments(t, p, q)[i] by {
        assert(u[(p + 2 * i) + by] == t[p + 2 * i]);
    }
    assert(plain_segments(u, p + by, q + by) =~= plain_segments(t, p, q));
}

/// A path is spelled by the same tokens wherever they stand.
pub proof fn lemma_spells_path_shift(
    t: Seq<TokenModel>,
    u: Seq<TokenModel>,
    by: int,
    p: int,
    q: int,
    path: PathModel,
)
    requires
        0 <= p <= q <= t.len(),
        0 <= by,
        q + by <= u.len(),
        forall|i: int| p <= i < q ==> #[trigger] u[i + by] == t[i],
        spells_path(t, p, q, path),
    ensures
        spells_path(u, p + by, q + by, path),
{
    if is_plain_path(t, p, q) && path == filter::path_of(plain_segments(t, p, q), None) {
        lemma_plain_path_shift(t, u, by, p, q);
    } else {
        lemma_plain_path_shift(t, u, by, p, q - 2);
        assert(u[(q - 2) + by] == t[q - 2]);
        assert(u[(q - 1) + by] == t[q - 1]);
    }
}

proof fn lemma_spells_or_shift(
    t: Seq<TokenModel>,
    u: Seq<TokenModel>,
    by: int,
    p: int,
    q: int,
    f: FilterModel,
    n: int,
)
    requires
        holds_later(t, u, by, p, q),
        spells_or(t, p, q, f, n),
    ensures
        spells_or(u, p + by, q + by, f, n),
    decreases q - p, 4int,
{
    if spells_and(t, p, q, f, n) {
        lemma_spells_and_shift(t, u, by, p, q, f, n);
    } else if let FilterModel::Or(a, b) = f {
        let k = choose|k: int|
            p < k < q - 1 && #[trigger] t[k] == TokenModel::Or && spells_or(t, p, k, *a, n)
                && spells_and(t, k + 1, q, *b, n);
        lemma_spells_or_shift(t, u, by, p, k, *a, n);
        lemma_spells_and_shift(t, u, by, k + 1, q, *b, n);
        assert(u[k + by] == TokenModel::Or);
    }
}

proof fn lemma_spells_and_shift(
    t: Seq<TokenModel>,
    u: Seq<TokenModel>,
    by: int,
    p: int,
    q: int,
    f: FilterModel,
    n: int,
)
    requires
        holds_later(t, u, by, p, q),
        spells_and(t, p, q, f, n),
    ensures
        spells_and(u, p + by, q + by, f, n),
    decreases q - p, 3int,
{
    if spells_operand(t, p, q, f, n) {
        lemma_spells_operand_shift(t, u, by, p, q, f, n);
    } else if let FilterModel::And(a, b) = f {
        let k = choose|k: int|
            p < k < q - 1 && #[trigger] t[k] == TokenModel::And && spells_and(t, p, k, *a, n)
                && spells_operand(t, k + 1, q, *b, n);
        lemma_spells_and_shift(t, u, by, p, k, *a, n);
        lemma_spells_operand_shift(t, u, by, k + 1, q, *b, n);
        assert(u[k + by] == TokenModel::And);
    }
}

proof fn lemma_spells_operand_shift(
    t: Seq<TokenModel>,
    u: Seq<TokenModel>,
    by: int,
    p: int,
    q: int,
    f: FilterModel,
    n: int,
)
    requires
        holds_later(t, u, by, p, q),
        spells_operand(t, p, q, f, n),
    ensures
        spells_operand(u, p + by, q + by, f, n),
    decreases q - p, 2int,
{
    assert(u[p + by] == t[p]);
    assert(u[(q - 1) + by] == t[q - 1]);
    if spells_expression(t, p, q, f, n) {
        lemma_spells_expression_shift(t, u, by, p, q, f, n);
    } else if t[p] == TokenModel::LParen {
        lemma_spells_or_shift(t, u, by, p + 1, q - 1, f, n - 1);
    } else if let FilterModel::Not(a) = f {
        assert(u[(p + 1) + by] == t[p + 1]);
        lemma_spells_or_shift(t, u, by, p + 2, q - 1, *a, n - 1);
    }
}

proof fn lemma_spells_expression_shift(
    t: Seq<TokenModel>,
    u: Seq<TokenModel>,
    by: int,
    p: int,
    q: int,
    f: FilterModel,
    n: int,
)
    requires
        holds_later(t, u, by, p, q),
        spells_expression(t, p, q, f, n),
    ensures
        spells_expression(u, p + by, q + by, f, n),
    decreases q - p, 1int,
{
    assert(u[(q - 1) + by] == t[q - 1]);
    match f {
        FilterModel::Present(path) => {
            lemma_spells_path_shift(t, u, by, p, q - 1, path);
        },
        FilterModel::Compare(path, op, value) => {
            assert(u[(q - 2) + by] == t[q - 2]);
            lemma_spells_path_shift(t, u, by, p, q - 2, path);
        },
        FilterModel::ValuePath(path, a) => {
            let k = choose|k: int|
                p < k < q - 2 && #[trigger] t[k] == TokenModel::LBracket && spells_path(
                    t,
                    p,
                    k,
                    path,
                ) && spells_or(t, k + 1, q - 1, *a, n - 1);
            lemma_spells_path_shift(t, u, by, p, k, path);
            lemma_spells_or_shift(t, u, by, k + 1, q - 1, *a, n - 1);
            assert(u[k + by] == TokenModel::LBracket);
        },
        _ => {},
    }
}

/// What is spelled within `n` groups is spelled within one more.
proof fn lemma_spells_or_more(t: Seq<TokenModel>, p: int, q: int, f: FilterModel, n: int)
    requires
        spells_or(t, p, q, f, n),
    ensures
        spells_or(t, p, q, f, n + 1),
    decreases q - p, 4int,
{
    if spells_and(t, p, q, f, n) {
        lemma_spells_and_more(t, p, q, f, n);
    } else if let FilterModel::Or(a, b) = f {
        let k = choose|k: int|
            p < k < q - 1 && #[trigger] t[k] == TokenModel::Or && spells_or(t, p, k, *a, n)
                && spells_and(t, k + 1, q, *b, n);
        lemma_spells_or_more(t, p, k, *a, n);
        lemma_spells_and_more(t, k + 1, q, *b, n);
        assert(t[k] == TokenModel::Or);
    }
}

proof fn lemma_spells_and_more(t: Seq<TokenModel>, p: int, q: int, f: FilterModel, n: int)
    requires
        spells_and(t, p, q, f, n),
    ensures
        spells_and(t, p, q, f, n + 1),
    decreases q - p, 3int,
{
    if spells_operand(t, p, q, f, n) {
        lemma_spells_operand_more(t, p, q, f, n);
    } else if let FilterModel::And(a, b) = f {
        let k = choose|k: int|
            p < k < q - 1 && #[trigger] t[k] == TokenModel::And && spells_and(t, p, k, *a, n)
                && spells_operand(t, k + 1, q, *b, n);
        lemma_spells_and_more(t, p, k, *a, n);
        lemma_spells_operand_more(t, k + 1, q, *b, n);
        assert(t[k] == TokenModel::And);
    }
}

proof fn lemma_spells_operand_more(t: Seq<TokenModel>, p: int, q: int, f: FilterModel, n: int)
    requires
        spells_operand(t, p, q, f, n),
    ensures
        spells_operand(t, p, q, f, n + 1),
    decreases q - p, 2int,
{
    if spells_expression(t, p, q, f, n) {
        if let FilterModel::ValuePath(path, a) = f {
            let k = choose|k: int|
                p < k < q - 2 && #[trigger] t[k] == TokenModel::LBracket && spells_path(
                    t,
                    p,
                    k,
                    path,
                ) && spells_or(t, k + 1, q - 1, *a, n - 1);
            lemma_spells_or_more(t, k + 1, q - 1, *a, n - 1);
            assert(t[k] == TokenModel::LBracket);
        }
        assert(spells_expression(t, p, q, f, n + 1));
    } else if t[p] == TokenModel::LParen {
        lemma_spells_or_more(t, p + 1, q - 1, f, n - 1);
    } else if let FilterModel::Not(a) = f {
        lemma_spells_or_more(t, p + 2, q - 1, *a, n - 1);
    }
}

/// A closing parenthesis behind a filter is refused by its name, and a group that is not closed as
/// an unexpected end.
pub proof fn law_unbalanced_groups_are_refused(t: Seq<TokenModel>, f: FilterModel)
    requires
        spells_or(t, 0, t.len() as int, f, MAX_DEPTH - 1),
        filter::depth_of(f) <= MAX_DEPTH,
    ensures
        filter::filter_of(t + seq![TokenModel::RParen]) == Err::<FilterModel, _>(
            filter::ErrorModel::UnexpectedToken("RParen"@),
        ),
        filter::filter_of(seq![TokenModel::LParen] + t) == Err::<FilterModel, _>(
            filter::ErrorModel::UnexpectedEnd,
        ),
{
    let n = t.len() as int;
    let u = t + seq![TokenModel::RParen];
    lemma_spells_or_more(t, 0, n, f, MAX_DEPTH - 1);
    assert forall|i: int| 0 <= i < n implies #[trigger] u[i + 0] == t[i] by {}
    lemma_spells_or_shift(t, u, 0, 0, n, f, MAX_DEPTH as int);
    assert(u[n] == TokenModel::RParen);
    lemma_or_complete(u, 0, n, 0, f);
    let v = seq![TokenModel::LParen] + t;
    assert forall|i: int| 0 <= i < n implies #[trigger] v[i + 1] == t[i] by {}
    lemma_spells_or_shift(t, v, 1, 0, n, f, MAX_DEPTH - 1);
    assert(v[0] == TokenModel::LParen);
    lemma_or_complete(v, 1, n + 1, 1, f);
    assert(filter::operand_at(v, 0, 0) == Err::<(FilterModel, int), _>(
        filter::ErrorModel::UnexpectedEnd,
    ));
    assert(filter::and_at(v, 0, 0) == Err::<(FilterModel, int), _>(
        filter::ErrorModel::UnexpectedEnd,
    ));
}

/// A sub-attribute before a bracket is refused in a PATCH path.
pub proof fn law_brackets_follow_whole_attributes(
    name: Seq<char>,
    sub: Seq<char>,
    rest: Seq<TokenModel>,
)
    ensures
        filter::patch_path_of(
            seq![
                TokenModel::Ident(name),
                TokenModel::Dot,
                TokenModel::Ident(sub),
                TokenModel::LBracket,
            ] + rest,
        ) == Err::<PatchPathModel, _>(filter::ErrorModel::UnexpectedToken("LBracket"@)),
{
    let t = seq![
        TokenModel::Ident(name),
        TokenModel::Dot,
        TokenModel::Ident(sub),
        TokenModel::LBracket,
    ] + rest;
    assert(t[0] == TokenModel::Ident(name) && t[1] == TokenModel::Dot);
    assert(t[2] == TokenModel::Ident(sub) && t[3] == TokenModel::LBracket);
    assert(filter::segments_at(t, 1, seq![name]) == Ok::<(Seq<Seq<char>>, int), filter::ErrorModel>(
        (seq![name], 1),
    ));
}

/// No token sequence spells two filters within the depth limit: the grammar is unambiguous.
pub proof fn law_grammar_is_unambiguous(t: Seq<TokenModel>, f: FilterModel, g: FilterModel)
    requires
        spells_or(t, 0, t.len() as int, f, MAX_DEPTH as int),
        spells_or(t, 0, t.len() as int, g, MAX_DEPTH as int),
        filter::depth_of(f) <= MAX_DEPTH,
        filter::depth_of(g) <= MAX_DEPTH,
    ensures
        f == g,
{
    law_parser_is_the_grammar(t, f);
    law_parser_is_the_grammar(t, g);
}

/// Whatever text is parsed, the resulting filter is no deeper than [`MAX_DEPTH`].
pub proof fn law_parsed_depth_is_bounded(s: Seq<char>)
    ensures
        filter::parsed(s) matches Ok(f) ==> filter::depth_of(f) <= MAX_DEPTH,
        filter::parsed_patch_path(s) matches Ok(path) ==> (path.value_filter matches Some(f)
            ==> filter::depth_of(f) <= MAX_DEPTH),
{
    if let Ok(t) = filter::lexed(s) {
        lemma_or_sound(t, 0, 0);
        lemma_path_sound(t, 0);
        if let Ok((_, p)) = filter::path_at(t, 0) {
            if p < t.len() {
                lemma_or_sound(t, p + 1, 1);
            }
        }
    }
}

/// A parsed PATCH path never has both a dotted sub-attribute before a bracket and a filter in
/// brackets, and has a sub-attribute behind the bracket only where there is a bracket.
pub proof fn law_patch_path_is_unambiguous(s: Seq<char>)
    ensures
        filter::parsed_patch_path(s) matches Ok(path) ==> !(path.attr_path.sub_attr is Some
            && path.value_filter is Some) && (path.sub_attr_after_filter is Some
            ==> path.value_filter is Some),
{
}

} // verus!
