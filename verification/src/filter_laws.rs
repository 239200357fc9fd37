//! Filters that are written out and read again.

use crate::filter;
use crate::filter::{
    CompModel,
    CompareOp,
    ErrorModel,
    FilterModel,
    PatchPathModel,
    PathModel,
    TokenModel,
};
use crate::filter::MAX_DEPTH;
use crate::grammar;
use crate::lexer_laws;
use crate::path_laws;
use crate::text;
use vstd::prelude::*;

verus! {

/// How a comparison operator is written.
pub open spec fn op_text(op: CompareOp) -> Seq<char> {
    match op {
        CompareOp::Eq => seq!['e', 'q'],
        CompareOp::Ne => seq!['n', 'e'],
        CompareOp::Co => seq!['c', 'o'],
        CompareOp::Sw => seq!['s', 'w'],
        CompareOp::Ew => seq!['e', 'w'],
        CompareOp::Gt => seq!['g', 't'],
        CompareOp::Ge => seq!['g', 'e'],
        CompareOp::Lt => seq!['l', 't'],
        CompareOp::Le => seq!['l', 'e'],
    }
}

/// How a comparison value is written.
pub open spec fn value_text(v: CompModel) -> Seq<char> {
    match v {
        CompModel::True => seq!['t', 'r', 'u', 'e'],
        CompModel::False => seq!['f', 'a', 'l', 's', 'e'],
        CompModel::Null => seq!['n', 'u', 'l', 'l'],
        CompModel::Number(_, literal) => literal,
        CompModel::String(s) => seq!['"'] + (lexer_laws::escaped_text(s) + seq!['"']),
    }
}

/// A text, a word and a text, with blanks between.
pub open spec fn infix(x: Seq<char>, word: Seq<char>, y: Seq<char>) -> Seq<char> {
    x + (seq![' '] + (word + (seq![' '] + y)))
}

/// A text in parentheses.
pub open spec fn in_group(x: Seq<char>) -> Seq<char> {
    seq!['('] + (x + seq![')'])
}

/// A text in brackets.
pub open spec fn in_brackets(x: Seq<char>) -> Seq<char> {
    seq!['['] + (x + seq![']'])
}

/// A filter written out where an `or` may stand. Only what the grammar would group otherwise is put
/// in parentheses.
pub open spec fn or_text(f: FilterModel) -> Seq<char>
    decreases f, 2int,
{
    match f {
        FilterModel::Or(a, b) => infix(or_text(*a), seq!['o', 'r'], and_text(*b)),
        _ => and_text(f),
    }
}

/// A filter written out where an `and` may stand.
pub open spec fn and_text(f: FilterModel) -> Seq<char>
    decreases f, 1int,
{
    match f {
        FilterModel::And(a, b) => infix(and_text(*a), seq!['a', 'n', 'd'], operand_text(*b)),
        _ => operand_text(f),
    }
}

/// A filter written out where a single operand stands.
pub open spec fn operand_text(f: FilterModel) -> Seq<char>
    decreases f, 0int,
{
    match f {
        FilterModel::Or(a, b) => in_group(infix(or_text(*a), seq!['o', 'r'], and_text(*b))),
        FilterModel::And(a, b) => in_group(
            infix(and_text(*a), seq!['a', 'n', 'd'], operand_text(*b)),
        ),
        FilterModel::Not(a) => seq!['n', 'o', 't'] + (seq![' '] + in_group(or_text(*a))),
        FilterModel::Present(path) => filter::path_text(path) + (seq![' '] + seq!['p', 'r']),
        FilterModel::Compare(path, op, value) => infix(
            filter::path_text(path),
            op_text(op),
            value_text(value),
        ),
        FilterModel::ValuePath(path, a) => filter::path_text(path) + in_brackets(or_text(*a)),
    }
}

/// Whether a number is given by its literal and the bits that the literal stands for.
pub open spec fn is_written_number(bits: u64, literal: Seq<char>) -> bool {
    bits == filter::literal_bits(literal) && exists|
        sign: Seq<char>,
        whole: Seq<char>,
        fraction: Option<Seq<char>>,
        exponent: Option<(char, Seq<char>, Seq<char>)>,
    | #[trigger]
        lexer_laws::are_number_parts(sign, whole, fraction, exponent) && literal
            == lexer_laws::number_text(sign, whole, fraction, exponent)
}

/// Whether a filter can be written: its paths are plain, and its numbers have their literals.
pub open spec fn is_writable(f: FilterModel) -> bool
    decreases f,
{
    match f {
        FilterModel::Present(path) => path_laws::is_written_plainly(path),
        FilterModel::Compare(path, _, value) => path_laws::is_written_plainly(path) && (
        value matches CompModel::Number(bits, literal) ==> is_written_number(bits, literal)),
        FilterModel::And(a, b) => is_writable(*a) && is_writable(*b),
        FilterModel::Or(a, b) => is_writable(*a) && is_writable(*b),
        FilterModel::Not(a) => is_writable(*a),
        FilterModel::ValuePath(path, a) => path_laws::is_written_plainly(path) && is_writable(*a),
    }
}

// ---- The tokens of a written filter ----

spec fn path_tokens(path: PathModel) -> Seq<TokenModel> {
    filter::lexed(filter::path_text(path))->Ok_0
}

spec fn value_token(v: CompModel) -> TokenModel {
    match v {
        CompModel::True => TokenModel::True,
        CompModel::False => TokenModel::False,
        CompModel::Null => TokenModel::Null,
        CompModel::Number(bits, literal) => TokenModel::Number(bits, literal),
        CompModel::String(s) => TokenModel::String(s),
    }
}

spec fn infix_tokens(
    x: Seq<TokenModel>,
    token: TokenModel,
    y: Seq<TokenModel>,
) -> Seq<TokenModel> {
    x + (seq![token] + y)
}

spec fn or_tokens(f: FilterModel) -> Seq<TokenModel>
    decreases f, 2int,
{
    match f {
        FilterModel::Or(a, b) => infix_tokens(or_tokens(*a), TokenModel::Or, and_tokens(*b)),
        _ => and_tokens(f),
    }
}

spec fn and_tokens(f: FilterModel) -> Seq<TokenModel>
    decreases f, 1int,
{
    match f {
        FilterModel::And(a, b) => infix_tokens(
            and_tokens(*a),
            TokenModel::And,
            operand_tokens(*b),
        ),
        _ => operand_tokens(f),
    }
}

spec fn group_tokens(x: Seq<TokenModel>) -> Seq<TokenModel> {
    seq![TokenModel::LParen] + (x + seq![TokenModel::RParen])
}

spec fn bracket_tokens(x: Seq<TokenModel>) -> Seq<TokenModel> {
    seq![TokenModel::LBracket] + (x + seq![TokenModel::RBracket])
}

spec fn operand_tokens(f: FilterModel) -> Seq<TokenModel>
    decreases f, 0int,
{
    match f {
        FilterModel::Or(a, b) => group_tokens(
            infix_tokens(or_tokens(*a), TokenModel::Or, and_tokens(*b)),
        ),
        FilterModel::And(a, b) => group_tokens(
            infix_tokens(and_tokens(*a), TokenModel::And, operand_tokens(*b)),
        ),
        FilterModel::Not(a) => seq![TokenModel::Not] + group_tokens(or_tokens(*a)),
        FilterModel::Present(path) => path_tokens(path) + seq![TokenModel::Pr],
        FilterModel::Compare(path, op, value) => infix_tokens(
            path_tokens(path),
            TokenModel::CompareOp(op),
            seq![value_token(value)],
        ),
        FilterModel::ValuePath(path, a) => path_tokens(path) + bracket_tokens(or_tokens(*a)),
    }
}

/// Whether a text is read as the given tokens.
spec fn reads(x: Seq<char>, t: Seq<TokenModel>) -> bool {
    filter::lexed(x) == Ok::<Seq<TokenModel>, ErrorModel>(t)
}

proof fn lemma_nothing_reads()
    ensures
        reads(Seq::empty(), Seq::empty()),
{
}

proof fn lemma_mark_reads(c: char, token: TokenModel)
    requires
        c == ')' && token == TokenModel::RParen || c == ']' && token == TokenModel::RBracket,
    ensures
        reads(seq![c], seq![token]),
{
    lemma_nothing_reads();
    lexer_laws::law_punctuation_stands_alone(c, Seq::empty(), Seq::empty());
    assert(seq![c] + Seq::empty() =~= seq![c]);
    assert(seq![token] + Seq::empty() =~= seq![token]);
}

proof fn lemma_group_reads(x: Seq<char>, t: Seq<TokenModel>)
    requires
        reads(x, t),
    ensures
        reads(in_group(x), group_tokens(t)),
        reads(in_brackets(x), bracket_tokens(t)),
{
    lemma_mark_reads(')', TokenModel::RParen);
    lexer_laws::law_text_is_read_piece_by_piece(x, seq![')']);
    lexer_laws::law_punctuation_stands_alone('(', x + seq![')'], t + seq![TokenModel::RParen]);
    lemma_mark_reads(']', TokenModel::RBracket);
    lexer_laws::law_text_is_read_piece_by_piece(x, seq![']']);
    lexer_laws::law_punctuation_stands_alone('[', x + seq![']'], t + seq![TokenModel::RBracket]);
}

/// A text, a blank and another text are read one after the other.
proof fn lemma_blank_reads(
    x: Seq<char>,
    t: Seq<TokenModel>,
    y: Seq<char>,
    u: Seq<TokenModel>,
)
    requires
        reads(x, t),
        reads(y, u),
    ensures
        reads(x + (seq![' '] + y), t + u),
{
    lexer_laws::law_blanks_do_not_matter(' ', y);
    assert((seq![' '] + y)[0] == ' ');
    lexer_laws::law_text_is_read_piece_by_piece(x, seq![' '] + y);
}

proof fn lemma_infix_reads(
    x: Seq<char>,
    t: Seq<TokenModel>,
    word: Seq<char>,
    token: TokenModel,
    y: Seq<char>,
    u: Seq<TokenModel>,
)
    requires
        reads(x, t),
        reads(word, seq![token]),
        reads(y, u),
    ensures
        reads(infix(x, word, y), infix_tokens(t, token, u)),
{
    lemma_blank_reads(word, seq![token], y, u);
    lemma_blank_reads(x, t, word + (seq![' '] + y), seq![token] + u);
}

/// A keyword in small letters is read as its token.
proof fn lemma_keyword_reads(w: Seq<char>, token: TokenModel)
    requires
        w.len() > 0,
        forall|i: int| #![trigger w[i]] 0 <= i < w.len() ==> 'a' <= w[i] && w[i] <= 'z',
        lexer_laws::keyword(w) == Some(token),
    ensures
        reads(w, seq![token]),
{
    assert(text::ascii_lower(w) =~= w);
    lexer_laws::law_words_are_keywords_or_names(w);
}

proof fn lemma_op_reads(op: CompareOp)
    ensures
        reads(op_text(op), seq![TokenModel::CompareOp(op)]),
{
    let w = op_text(op);
    assert(w.len() == 2);
    assert(seq!['a', 'n', 'd'].len() == 3);
    assert(seq!['n', 'o', 't'].len() == 3);
    assert(seq!['o', 'r'][0] == 'o');
    assert(seq!['p', 'r'][0] == 'p');
    assert(seq!['e', 'q'][0] == 'e' && seq!['e', 'q'][1] == 'q');
    assert(seq!['n', 'e'][0] == 'n');
    assert(seq!['c', 'o'][0] == 'c');
    assert(seq!['s', 'w'][0] == 's');
    assert(seq!['e', 'w'][0] == 'e' && seq!['e', 'w'][1] == 'w');
    assert(seq!['g', 't'][0] == 'g' && seq!['g', 't'][1] == 't');
    assert(seq!['g', 'e'][0] == 'g' && seq!['g', 'e'][1] == 'e');
    assert(seq!['l', 't'][0] == 'l' && seq!['l', 't'][1] == 't');
    assert(seq!['l', 'e'][0] == 'l' && seq!['l', 'e'][1] == 'e');
    assert(lexer_laws::keyword(w) == Some(TokenModel::CompareOp(op)));
    lemma_keyword_reads(w, TokenModel::CompareOp(op));
}

proof fn lemma_words_read()
    ensures
        reads(seq!['o', 'r'], seq![TokenModel::Or]),
        reads(seq!['a', 'n', 'd'], seq![TokenModel::And]),
        reads(seq!['n', 'o', 't'], seq![TokenModel::Not]),
        reads(seq!['p', 'r'], seq![TokenModel::Pr]),
        reads(seq!['t', 'r', 'u', 'e'], seq![TokenModel::True]),
        reads(seq!['f', 'a', 'l', 's', 'e'], seq![TokenModel::False]),
        reads(seq!['n', 'u', 'l', 'l'], seq![TokenModel::Null]),
{
    let (or, and, not, pr) = (
        seq!['o', 'r'],
        seq!['a', 'n', 'd'],
        seq!['n', 'o', 't'],
        seq!['p', 'r'],
    );
    let (yes, no, null) = (
        seq!['t', 'r', 'u', 'e'],
        seq!['f', 'a', 'l', 's', 'e'],
        seq!['n', 'u', 'l', 'l'],
    );
    assert(or.len() == 2 && pr.len() == 2 && and.len() == 3 && not.len() == 3);
    assert(yes.len() == 4 && no.len() == 5 && null.len() == 4);
    assert(or[0] == 'o' && pr[0] == 'p' && and[0] == 'a' && not[0] == 'n');
    assert(yes[0] == 't' && null[0] == 'n');
    assert(seq!['e', 'q'].len() == 2 && seq!['n', 'e'].len() == 2 && seq!['c', 'o'].len() == 2);
    assert(seq!['s', 'w'].len() == 2 && seq!['e', 'w'].len() == 2 && seq!['g', 't'].len() == 2);
    assert(seq!['g', 'e'].len() == 2 && seq!['l', 't'].len() == 2 && seq!['l', 'e'].len() == 2);
    lemma_keyword_reads(or, TokenModel::Or);
    lemma_keyword_reads(and, TokenModel::And);
    lemma_keyword_reads(not, TokenModel::Not);
    lemma_keyword_reads(pr, TokenModel::Pr);
    lemma_keyword_reads(yes, TokenModel::True);
    lemma_keyword_reads(no, TokenModel::False);
    lemma_keyword_reads(null, TokenModel::Null);
}

proof fn lemma_value_reads(v: CompModel)
    requires
        v matches CompModel::Number(bits, literal) ==> is_written_number(bits, literal),
    ensures
        reads(value_text(v), seq![value_token(v)]),
{
    lemma_words_read();
    match v {
        CompModel::Number(bits, literal) => {
            let (sign, whole, fraction, exponent) = choose|
                sign: Seq<char>,
                whole: Seq<char>,
                fraction: Option<Seq<char>>,
                exponent: Option<(char, Seq<char>, Seq<char>)>,
            | #[trigger]
                lexer_laws::are_number_parts(sign, whole, fraction, exponent) && literal
                    == lexer_laws::number_text(sign, whole, fraction, exponent);
            lexer_laws::law_number_literals_are_one_token(sign, whole, fraction, exponent);
        },
        CompModel::String(s) => {
            lexer_laws::law_written_strings_are_read_back(s);
        },
        _ => {},
    }
}

proof fn lemma_or_reads(f: FilterModel)
    requires
        is_writable(f),
    ensures
        reads(or_text(f), or_tokens(f)),
    decreases f, 2int,
{
    if let FilterModel::Or(a, b) = f {
        lemma_words_read();
        lemma_or_reads(*a);
        lemma_and_reads(*b);
        lemma_infix_reads(
            or_text(*a),
            or_tokens(*a),
            seq!['o', 'r'],
            TokenModel::Or,
            and_text(*b),
            and_tokens(*b),
        );
    } else {
        lemma_and_reads(f);
    }
}

proof fn lemma_and_reads(f: FilterModel)
    requires
        is_writable(f),
    ensures
        reads(and_text(f), and_tokens(f)),
    decreases f, 1int,
{
    if let FilterModel::And(a, b) = f {
        lemma_words_read();
        lemma_and_reads(*a);
        lemma_operand_reads(*b);
        lemma_infix_reads(
            and_text(*a),
            and_tokens(*a),
            seq!['a', 'n', 'd'],
            TokenModel::And,
            operand_text(*b),
            operand_tokens(*b),
        );
    } else {
        lemma_operand_reads(f);
    }
}

proof fn lemma_operand_reads(f: FilterModel)
    requires
        is_writable(f),
    ensures
        reads(operand_text(f), operand_tokens(f)),
    decreases f, 0int,
{
    lemma_words_read();
    match f {
        FilterModel::Or(a, b) => {
            lemma_or_reads(*a);
            lemma_and_reads(*b);
            lemma_infix_reads(
                or_text(*a),
                or_tokens(*a),
                seq!['o', 'r'],
                TokenModel::Or,
                and_text(*b),
                and_tokens(*b),
            );
            lemma_group_reads(
                infix(or_text(*a), seq!['o', 'r'], and_text(*b)),
                infix_tokens(or_tokens(*a), TokenModel::Or, and_tokens(*b)),
            );
        },
        FilterModel::And(a, b) => {
            lemma_and_reads(*a);
            lemma_operand_reads(*b);
            lemma_infix_reads(
                and_text(*a),
                and_tokens(*a),
                seq!['a', 'n', 'd'],
                TokenModel::And,
                operand_text(*b),
                operand_tokens(*b),
            );
            lemma_group_reads(
                infix(and_text(*a), seq!['a', 'n', 'd'], operand_text(*b)),
                infix_tokens(and_tokens(*a), TokenModel::And, operand_tokens(*b)),
            );
        },
        FilterModel::Not(a) => {
            lemma_or_reads(*a);
            lemma_group_reads(or_text(*a), or_tokens(*a));
            lemma_blank_reads(
                seq!['n', 'o', 't'],
                seq![TokenModel::Not],
                in_group(or_text(*a)),
                group_tokens(or_tokens(*a)),
            );
        },
        FilterModel::Present(path) => {
            path_laws::lemma_path_read(path);
            lemma_blank_reads(
                filter::path_text(path),
                path_tokens(path),
                seq!['p', 'r'],
                seq![TokenModel::Pr],
            );
        },
        FilterModel::Compare(path, op, value) => {
            path_laws::lemma_path_read(path);
            lemma_op_reads(op);
            lemma_value_reads(value);
            lemma_infix_reads(
                filter::path_text(path),
                path_tokens(path),
                op_text(op),
                TokenModel::CompareOp(op),
                value_text(value),
                seq![value_token(value)],
            );
        },
        FilterModel::ValuePath(path, a) => {
            path_laws::lemma_path_read(path);
            lemma_or_reads(*a);
            lemma_group_reads(or_text(*a), or_tokens(*a));
            assert(in_brackets(or_text(*a))[0] == '[');
            lexer_laws::law_text_is_read_piece_by_piece(
                filter::path_text(path),
                in_brackets(or_text(*a)),
            );
        },
    }
}

// ---- The grammar of a written filter ----

/// Whether tokens stand in `t` from `p` on.
spec fn stands(t: Seq<TokenModel>, p: int, u: Seq<TokenModel>) -> bool {
    0 <= p && p + u.len() <= t.len() && t.subrange(p, p + u.len()) == u
}

proof fn lemma_split(t: Seq<TokenModel>, p: int, a: Seq<TokenModel>, b: Seq<TokenModel>)
    requires
        stands(t, p, a + b),
    ensures
        stands(t, p, a),
        stands(t, p + a.len(), b),
{
    let u = a + b;
    assert forall|i: int| 0 <= i < u.len() implies #[trigger] u[i] == t[p + i] by {
        assert(t.subrange(p, p + u.len())[i] == t[p + i]);
    }
    assert forall|i: int| 0 <= i < a.len() implies a[i] == #[trigger] t.subrange(
        p,
        p + a.len(),
    )[i] by {
        assert(u[i] == a[i]);
    }
    assert(t.subrange(p, p + a.len()) =~= a);
    let q = p + a.len();
    assert forall|i: int| 0 <= i < b.len() implies b[i] == #[trigger] t.subrange(
        q,
        q + b.len(),
    )[i] by {
        assert(u[a.len() + i] == b[i]);
    }
    assert(t.subrange(q, q + b.len()) =~= b);
}

proof fn lemma_one(t: Seq<TokenModel>, p: int, token: TokenModel)
    requires
        stands(t, p, seq![token]),
    ensures
        0 <= p < t.len(),
        t[p] == token,
{
    assert(t.subrange(p, p + 1)[0] == t[p]);
}

proof fn lemma_path_stands(t: Seq<TokenModel>, p: int, path: PathModel)
    requires
        path_laws::is_written_plainly(path),
        stands(t, p, path_tokens(path)),
    ensures
        grammar::spells_path(t, p, p + path_tokens(path).len(), path),
        path_tokens(path).len() > 0,
{
    let u = path_tokens(path);
    path_laws::lemma_path_read(path);
    grammar::lemma_path_sound(u, 0);
    assert forall|i: int| 0 <= i < u.len() implies #[trigger] t[i + p] == u[i] by {
        assert(t.subrange(p, p + u.len())[i] == t[p + i]);
    }
    grammar::lemma_spells_path_shift(u, t, p, 0, u.len() as int, path);
}

proof fn lemma_or_node_spelled(
    t: Seq<TokenModel>,
    p: int,
    f: FilterModel,
    a: FilterModel,
    b: FilterModel,
    n: int,
)
    requires
        f == FilterModel::Or(Box::new(a), Box::new(b)),
        is_writable(f),
        stands(t, p, infix_tokens(or_tokens(a), TokenModel::Or, and_tokens(b))),
        filter::depth_of(f) <= n,
    ensures
        grammar::spells_or(
            t,
            p,
            p + infix_tokens(or_tokens(a), TokenModel::Or, and_tokens(b)).len(),
            f,
            n,
        ),
    decreases f, 0int,
{
    let u = infix_tokens(or_tokens(a), TokenModel::Or, and_tokens(b));
    let k = p + or_tokens(a).len();
    let q = p + u.len();
    lemma_split(t, p, or_tokens(a), seq![TokenModel::Or] + and_tokens(b));
    lemma_split(t, k, seq![TokenModel::Or], and_tokens(b));
    lemma_one(t, k, TokenModel::Or);
    lemma_or_spelled(t, p, a, n);
    lemma_and_spelled(t, k + 1, b, n);
    assert(p < k < q - 1 && t[k] == TokenModel::Or);
}

proof fn lemma_and_node_spelled(
    t: Seq<TokenModel>,
    p: int,
    f: FilterModel,
    a: FilterModel,
    b: FilterModel,
    n: int,
)
    requires
        f == FilterModel::And(Box::new(a), Box::new(b)),
        is_writable(f),
        stands(t, p, infix_tokens(and_tokens(a), TokenModel::And, operand_tokens(b))),
        filter::depth_of(f) <= n,
    ensures
        grammar::spells_and(
            t,
            p,
            p + infix_tokens(and_tokens(a), TokenModel::And, operand_tokens(b)).len(),
            f,
            n,
        ),
    decreases f, 0int,
{
    let u = infix_tokens(and_tokens(a), TokenModel::And, operand_tokens(b));
    let k = p + and_tokens(a).len();
    let q = p + u.len();
    lemma_split(t, p, and_tokens(a), seq![TokenModel::And] + operand_tokens(b));
    lemma_split(t, k, seq![TokenModel::And], operand_tokens(b));
    lemma_one(t, k, TokenModel::And);
    lemma_and_spelled(t, p, a, n);
    lemma_operand_spelled(t, k + 1, b, n);
    assert(p < k < q - 1 && t[k] == TokenModel::And);
}

proof fn lemma_or_spelled(t: Seq<TokenModel>, p: int, f: FilterModel, n: int)
    requires
        is_writable(f),
        stands(t, p, or_tokens(f)),
        filter::depth_of(f) <= n,
    ensures
        grammar::spells_or(t, p, p + or_tokens(f).len(), f, n),
    decreases f, 3int,
{
    if let FilterModel::Or(a, b) = f {
        lemma_or_node_spelled(t, p, f, *a, *b, n);
    } else {
        lemma_and_spelled(t, p, f, n);
    }
}

proof fn lemma_and_spelled(t: Seq<TokenModel>, p: int, f: FilterModel, n: int)
    requires
        is_writable(f),
        stands(t, p, and_tokens(f)),
        filter::depth_of(f) <= n,
        f is Or ==> filter::depth_of(f) < n,
    ensures
        grammar::spells_and(t, p, p + and_tokens(f).len(), f, n),
    decreases f, 2int,
{
    if let FilterModel::And(a, b) = f {
        lemma_and_node_spelled(t, p, f, *a, *b, n);
    } else {
        lemma_operand_spelled(t, p, f, n);
    }
}

/// The tokens in a group, and where they stand.
proof fn lemma_group_stands(t: Seq<TokenModel>, p: int, u: Seq<TokenModel>)
    requires
        stands(t, p, group_tokens(u)),
    ensures
        t[p] == TokenModel::LParen,
        stands(t, p + 1, u),
        t[p + 1 + u.len()] == TokenModel::RParen,
{
    lemma_split(t, p, seq![TokenModel::LParen], u + seq![TokenModel::RParen]);
    lemma_one(t, p, TokenModel::LParen);
    lemma_split(t, p + 1, u, seq![TokenModel::RParen]);
    lemma_one(t, p + 1 + u.len(), TokenModel::RParen);
}

proof fn lemma_operand_spelled(t: Seq<TokenModel>, p: int, f: FilterModel, n: int)
    requires
        is_writable(f),
        stands(t, p, operand_tokens(f)),
        filter::depth_of(f) <= n,
        f is Or || f is And ==> filter::depth_of(f) < n,
    ensures
        grammar::spells_operand(t, p, p + operand_tokens(f).len(), f, n),
    decreases f, 1int,
{
    let q = p + operand_tokens(f).len();
    match f {
        FilterModel::Or(a, b) => {
            let u = infix_tokens(or_tokens(*a), TokenModel::Or, and_tokens(*b));
            lemma_group_stands(t, p, u);
            lemma_or_node_spelled(t, p + 1, f, *a, *b, n - 1);
            assert(q - 1 == p + 1 + u.len());
        },
        FilterModel::And(a, b) => {
            let u = infix_tokens(and_tokens(*a), TokenModel::And, operand_tokens(*b));
            lemma_group_stands(t, p, u);
            lemma_and_node_spelled(t, p + 1, f, *a, *b, n - 1);
            assert(q - 1 == p + 1 + u.len());
            assert(grammar::spells_or(t, p + 1, q - 1, f, n - 1));
        },
        FilterModel::Not(a) => {
            let u = or_tokens(*a);
            lemma_split(t, p, seq![TokenModel::Not], group_tokens(u));
            lemma_one(t, p, TokenModel::Not);
            lemma_group_stands(t, p + 1, u);
            lemma_or_spelled(t, p + 2, *a, n - 1);
            assert(q - 1 == p + 2 + u.len());
        },
        FilterModel::Present(path) => {
            lemma_split(t, p, path_tokens(path), seq![TokenModel::Pr]);
            lemma_path_stands(t, p, path);
            lemma_one(t, p + path_tokens(path).len(), TokenModel::Pr);
            assert(grammar::spells_expression(t, p, q, f, n));
        },
        FilterModel::Compare(path, op, value) => {
            let k = p + path_tokens(path).len();
            let last = seq![value_token(value)];
            lemma_split(t, p, path_tokens(path), seq![TokenModel::CompareOp(op)] + last);
            lemma_path_stands(t, p, path);
            lemma_split(t, k, seq![TokenModel::CompareOp(op)], last);
            lemma_one(t, k, TokenModel::CompareOp(op));
            lemma_one(t, k + 1, value_token(value));
            assert(q == k + 2);
            assert(grammar::spells_expression(t, p, q, f, n));
        },
        FilterModel::ValuePath(path, a) => {
            let k = p + path_tokens(path).len();
            let u = or_tokens(*a);
            lemma_split(t, p, path_tokens(path), bracket_tokens(u));
            lemma_path_stands(t, p, path);
            lemma_split(t, k, seq![TokenModel::LBracket], u + seq![TokenModel::RBracket]);
            lemma_one(t, k, TokenModel::LBracket);
            lemma_split(t, k + 1, u, seq![TokenModel::RBracket]);
            lemma_one(t, k + 1 + u.len(), TokenModel::RBracket);
            lemma_or_spelled(t, k + 1, *a, n - 1);
            assert(q - 1 == k + 1 + u.len());
            assert(t[k] == TokenModel::LBracket);
            assert(grammar::spells_expression(t, p, q, f, n));
        },
    }
}

/// A filter that is written out is parsed back, down to the depth limit: `or` binds weaker than
/// `and`, both group to the left, and parentheses are needed only where a filter goes against that.
pub proof fn law_written_filters_parse_back(f: FilterModel)
    requires
        is_writable(f),
        filter::depth_of(f) <= 32,
    ensures
        filter::parsed(or_text(f)) == Ok::<FilterModel, ErrorModel>(f),
{
    let t = or_tokens(f);
    lemma_or_reads(f);
    assert(t.subrange(0, t.len() as int) =~= t);
    lemma_or_spelled(t, 0, f, MAX_DEPTH as int);
    grammar::law_parser_is_the_grammar(t, f);
}

/// A PATCH path with a filter in brackets and perhaps a sub-attribute behind them is parsed back:
/// any filter can stand there that can stand alone one level deeper.
pub proof fn law_written_choices_parse_back(
    path: PathModel,
    f: FilterModel,
    sub: Option<Seq<char>>,
)
    requires
        path_laws::is_written_plainly(path),
        path.sub_attr is None,
        is_writable(f),
        filter::depth_of(f) < 32,
        sub matches Some(name) ==> path_laws::is_name(name),
    ensures
        filter::parsed_patch_path(
            filter::path_text(path) + in_brackets(or_text(f)) + (match sub {
                Some(name) => seq!['.'] + name,
                None => Seq::empty(),
            }),
        ) == Ok::<PatchPathModel, ErrorModel>(
            PatchPathModel {
                attr_path: path,
                value_filter: Some(f),
                sub_attr_after_filter: sub,
            },
        ),
{
    let behind = match sub {
        Some(name) => seq!['.'] + name,
        None => Seq::empty(),
    };
    let last = match sub {
        Some(name) => seq![TokenModel::Dot, TokenModel::Ident(name)],
        None => Seq::empty(),
    };
    if let Some(name) = sub {
        lexer_laws::law_words_are_keywords_or_names(name);
        lexer_laws::lemma_word_lexed(name);
        lexer_laws::law_punctuation_stands_alone('.', name, seq![TokenModel::Ident(name)]);
        assert(seq![TokenModel::Dot] + seq![TokenModel::Ident(name)] =~= last);
    }
    assert(reads(behind, last));
    // The part from the bracket on, and the whole.
    let u = or_tokens(f);
    lemma_or_reads(f);
    let close = seq![']'] + behind;
    lexer_laws::law_punctuation_stands_alone(']', behind, last);
    assert(close[0] == ']');
    lexer_laws::law_text_is_read_piece_by_piece(or_text(f), close);
    let tail = or_text(f) + close;
    let tail_tokens = u + (seq![TokenModel::RBracket] + last);
    lexer_laws::law_punctuation_stands_alone('[', tail, tail_tokens);
    let chosen = seq!['['] + tail;
    let chosen_tokens = seq![TokenModel::LBracket] + tail_tokens;
    assert(chosen[0] == '[');
    path_laws::lemma_path_read(path);
    lexer_laws::law_text_is_read_piece_by_piece(filter::path_text(path), chosen);
    let s = filter::path_text(path) + in_brackets(or_text(f)) + behind;
    assert(s =~= filter::path_text(path) + chosen);
    let t = path_tokens(path) + chosen_tokens;
    assert(reads(s, t));
    let k = path_tokens(path).len() as int;
    let e = k + 1 + u.len();
    assert(t.subrange(0, t.len() as int) =~= t);
    lemma_split(t, 0, path_tokens(path), chosen_tokens);
    lemma_path_stands(t, 0, path);
    lemma_split(t, k, seq![TokenModel::LBracket], tail_tokens);
    lemma_one(t, k, TokenModel::LBracket);
    lemma_split(t, k + 1, u, seq![TokenModel::RBracket] + last);
    lemma_split(t, e, seq![TokenModel::RBracket], last);
    lemma_one(t, e, TokenModel::RBracket);
    lemma_or_spelled(t, k + 1, f, MAX_DEPTH - 1);
    if let Some(name) = sub {
        assert(t.subrange(e + 1, e + 3)[0] == t[e + 1]);
        assert(t.subrange(e + 1, e + 3)[1] == t[e + 2]);
    }
    let found = PatchPathModel {
        attr_path: path,
        value_filter: Some(f),
        sub_attr_after_filter: sub,
    };
    assert(t[k] == TokenModel::LBracket && t[e] == TokenModel::RBracket);
    assert(grammar::spells_patch_path(t, found));
    grammar::law_patch_paths_are_the_grammar(t, found);
}

/// Groups inside each other beyond the depth limit are refused as too deep, whatever is inside.
pub proof fn law_deep_groups_are_refused(t: Seq<TokenModel>)
    requires
        t.len() > 32,
        forall|i: int| 0 <= i < 33 ==> #[trigger] t[i] == TokenModel::LParen,
    ensures
        filter::filter_of(t) == Err::<FilterModel, _>(ErrorModel::TooDeep),
{
    lemma_too_deep(t, 0);
}

proof fn lemma_too_deep(t: Seq<TokenModel>, d: int)
    requires
        t.len() > 32,
        forall|i: int| 0 <= i < 33 ==> #[trigger] t[i] == TokenModel::LParen,
        0 <= d <= 33,
    ensures
        filter::or_at(t, d, d) == Err::<(FilterModel, int), _>(ErrorModel::TooDeep),
    decreases 33 - d,
{
    if d < 33 {
        assert(t[d] == TokenModel::LParen);
        lemma_too_deep(t, d + 1);
        assert(filter::operand_at(t, d, d) == Err::<(FilterModel, int), _>(ErrorModel::TooDeep));
        assert(filter::and_at(t, d, d) == Err::<(FilterModel, int), _>(ErrorModel::TooDeep));
    }
}

} // verus!
