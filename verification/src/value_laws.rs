//! Texts, numbers, documents and pages: what the rest of the library rests on.

use crate::discovery;
use crate::json;
use crate::json::{Json, Number};
use crate::lexer_laws;
use crate::list_response;
use crate::list_response::Pagination;
use crate::number;
use crate::text;
use vstd::prelude::*;

verus! {

/// Folding case turns the capital letters of ASCII into small ones, each at its place, and touches
/// nothing else.
pub proof fn law_folding_touches_capitals_alone(s: Seq<char>, i: int)
    requires
        0 <= i < s.len(),
    ensures
        text::ascii_lower(s).len() == s.len(),
        'A' <= s[i] && s[i] <= 'Z' ==> text::ascii_lower(s)[i] as int - 'a' as int == s[i] as int
            - 'A' as int,
        !('A' <= s[i] && s[i] <= 'Z') ==> text::ascii_lower(s)[i] == s[i],
{
}

/// Folding case twice is folding it once.
pub proof fn law_folding_is_idempotent(s: Seq<char>)
    ensures
        text::ascii_lower(text::ascii_lower(s)) == text::ascii_lower(s),
{
    assert(text::ascii_lower(text::ascii_lower(s)) =~= text::ascii_lower(s));
}

/// The decimal text of a number is that of its tens followed by the digit of its ones; a negative
/// number is its opposite behind a minus sign.
pub proof fn law_decimal_text_has_place_values(n: nat, d: nat)
    requires
        d < 10,
    ensures
        number::integer_text(d as int).len() == 1,
        number::integer_text(d as int)[0] as int == '0' as int + d,
        n > 0 ==> number::integer_text((10 * n + d) as int) == number::integer_text(n as int)
            + number::integer_text(d as int),
        n > 0 ==> number::integer_text(-(n as int)) == seq!['-'] + number::integer_text(n as int),
{
    if n > 0 {
        assert((10 * n + d) / 10 == n && (10 * n + d) % 10 == d) by (nonlinear_arith)
            requires
                d < 10,
        ;
        assert(number::digits(n).push(number::digit_char(d)) =~= number::digits(n) + seq![
            number::digit_char(d),
        ]);
    }
}

/// Of the number literals, JSON has those without needless zeros in front and with digits behind
/// the point.
pub proof fn law_decimal_texts_are_plain_literals(
    sign: Seq<char>,
    whole: Seq<char>,
    fraction: Option<Seq<char>>,
    exponent: Option<(char, Seq<char>, Seq<char>)>,
)
    requires
        lexer_laws::are_number_parts(sign, whole, fraction, exponent),
    ensures
        number::is_decimal_text(lexer_laws::number_text(sign, whole, fraction, exponent)) <==> (
        whole.len() == 1 || whole[0] != '0') && (fraction matches Some(d) ==> d.len() > 0),
{
    let s = lexer_laws::number_text(sign, whole, fraction, exponent);
    let a: int = sign.len() as int;
    let b: int = a + whole.len();
    let c: int = match fraction {
        Some(d) => b + 1 + d.len(),
        None => b,
    };
    assert forall|k: int| a <= k < b implies number::is_digit(#[trigger] s[k]) by {
        assert(s[k] == whole[k - a]);
    }
    assert(s[a] == whole[0]);
    if sign.len() > 0 {
        assert(s[0] == '-');
    }
    if let Some(d) = fraction {
        assert(s[b] == '.');
        assert forall|k: int| b + 1 <= k < c implies number::is_digit(#[trigger] s[k]) by {
            assert(s[k] == d[k - (b + 1)]);
        }
    }
    if let Some((marker, e, d)) = exponent {
        assert(s[c] == marker);
        let start: int = c + 1 + e.len();
        assert forall|k: int| start <= k < s.len() implies number::is_digit(#[trigger] s[k]) by {
            assert(s[k] == d[k - start]);
        }
        assert(s[start] == d[0]);
        if e.len() > 0 {
            assert(s[c + 1] == e[0]);
        }
        lexer_laws::lemma_digits_run(s, start, s.len() as int);
    }
    lexer_laws::lemma_digits_run(s, a, b);
    if fraction is Some {
        lexer_laws::lemma_digits_run(s, b + 1, c);
    }
}

/// What is no double is the same as nothing but itself.
pub proof fn law_scalars_are_the_same_as_themselves(b: bool, s: Seq<char>, i: u64, n: i64, v: Json)
    ensures
        json::same_json(Json::Null, v) <==> v == Json::Null,
        json::same_json(Json::Bool(b), v) <==> v == Json::Bool(b),
        json::same_json(Json::String(s), v) <==> v == Json::String(s),
        json::same_json(Json::Number(Number::PosInt(i)), v) <==> v == Json::Number(
            Number::PosInt(i),
        ),
        json::same_json(Json::Number(Number::NegInt(n)), v) <==> v == Json::Number(
            Number::NegInt(n),
        ),
{
}

/// Being the same goes both ways.
pub proof fn law_being_the_same_goes_both_ways(a: Json, b: Json)
    ensures
        json::same_json(a, b) ==> json::same_json(b, a),
    decreases a,
{
    match (a, b) {
        (Json::Array(x), Json::Array(y)) => {
            if json::same_json(a, b) {
                assert forall|i: int| 0 <= i < y.len() implies json::same_json(
                    #[trigger] y[i],
                    x[i],
                ) by {
                    assert(decreases_to!(x => x[i]));
                    law_being_the_same_goes_both_ways(x[i], y[i]);
                }
            }
        },
        (Json::Object(x), Json::Object(y)) => {
            if json::same_json(a, b) {
                assert forall|i: int| 0 <= i < y.len() implies (#[trigger] y[i]).0 == x[i].0
                    && json::same_json(y[i].1, x[i].1) by {
                    assert(decreases_to!(x => x[i]));
                    assert(decreases_to!(x[i] => x[i].1));
                    assert(x[i].0 == y[i].0);
                    law_being_the_same_goes_both_ways(x[i].1, y[i].1);
                }
            }
        },
        _ => {},
    }
}

/// The document of a definition nests one level deeper than the deepest of its `subAttributes`, one
/// level where there are none in the list, and not at all without a list.
pub proof fn law_nesting_counts_levels(members: Seq<(Seq<char>, Json)>, items: Seq<Json>, i: int)
    ensures
        json::lookup(members, "subAttributes"@) is None ==> discovery::nesting(
            Json::Object(members),
        ) == 0,
        json::lookup(members, "subAttributes"@) == Some(Json::Array(items)) ==> {
            let n = discovery::nesting(Json::Object(members));
            &&& n >= 1
            &&& 0 <= i < items.len() ==> discovery::nesting(items[i]) < n
            &&& n == 1 || exists|k: int|
                0 <= k < items.len() && discovery::nesting(#[trigger] items[k]) == n - 1
        },
{
    if json::lookup(members, "subAttributes"@) == Some(Json::Array(items)) {
        lemma_deepest(items, i);
    }
}

proof fn lemma_deepest(items: Seq<Json>, i: int)
    ensures
        0 <= i < items.len() ==> discovery::nesting(items[i]) <= discovery::deepest(items),
        discovery::deepest(items) == 0 || exists|k: int|
            0 <= k < items.len() && discovery::nesting(#[trigger] items[k]) == discovery::deepest(
                items,
            ),
    decreases items.len(),
{
    if items.len() > 0 {
        let front = items.drop_last();
        lemma_deepest(front, i);
        assert(items[items.len() - 1] == items.last());
        if discovery::nesting(items.last()) <= discovery::deepest(front) && discovery::deepest(
            front,
        ) > 0 {
            let k = choose|k: int|
                0 <= k < front.len() && discovery::nesting(#[trigger] front[k])
                    == discovery::deepest(front);
            assert(items[k] == front[k]);
        }
        if 0 <= i < front.len() {
            assert(items[i] == front[i]);
        }
    }
}

/// A start that is asked for counts from 1 on, a count from 0 on; what is below is raised to that,
/// and what is left out is the first page without a bound.
pub proof fn law_pages_are_as_asked(start: Option<i64>, count: Option<i64>)
    ensures
        ({
            let p = list_response::requested(start, count);
            &&& start is None ==> p.start_index == 1
            &&& start matches Some(v) ==> p.start_index >= v && (v >= 1 ==> p.start_index == v) && (v
                < 1 ==> p.start_index == 1)
            &&& count is None <==> p.count is None
            &&& count matches Some(v) ==> p.count->0 >= v && (v >= 0 ==> p.count->0 == v) && (v < 0
                ==> p.count->0 == 0)
        }),
{
}

/// A capped count is the count that was asked for or the cap, whichever is less.
pub proof fn law_capped_counts_are_the_lesser(p: Pagination, max_count: u64)
    ensures
        p.count matches Some(c) ==> {
            let n = list_response::capped(p, max_count).count;
            n is Some && n->0 <= c && n->0 <= max_count && (n->0 == c || n->0 == max_count)
        },
        p.count is None ==> list_response::capped(p, max_count) == p,
{
}

} // verus!
