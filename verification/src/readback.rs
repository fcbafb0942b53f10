//! The reader undoes the writing down of an expression.
//!
//! An expression is written down as tokens: an atom as its text, a list as
//! the tokens of its items between brackets. Tokens are written down as text
//! with a blank after each. Reading that text gives the expression back, and
//! so does reading the text of the expression's rendering.

use crate::ast::ExprModel;
use crate::reader::{
    atom_spec, flush, is_digit, is_space, law_integer_round_trip, lemma_digits_round_trip,
    lex_state, lex_step, parse_spec, parse_state, parse_step, read_one_spec, read_spec,
    tokens_spec, Lexing, ReadError, TokenModel,
};
use crate::render::{
    bool_text, decimal, digits, lemma_render_expr_list, render_expr, render_exprs, render_items,
    FragmentModel,
};
use vstd::prelude::*;

verus! {

/// A character that can stand in an atom: no white space and no bracket.
pub open spec fn is_atom_char(c: char) -> bool {
    !is_space(c) && c != '(' && c != ')'
}

/// A text that the lexer takes for one atom.
pub open spec fn is_atom_text(text: Seq<char>) -> bool {
    text.len() > 0 && forall|i: int| 0 <= i < text.len() ==> is_atom_char(#[trigger] text[i])
}

/// A symbol that is read as itself: one atom that is no other kind of atom.
pub open spec fn plain_symbol(name: Seq<char>) -> bool {
    is_atom_text(name) && atom_spec(name) == Ok::<_, ReadError>(ExprModel::Symbol(name))
}

/// An expression that can be written down: it holds no float, and every
/// symbol in it is plain.
pub open spec fn plain(expr: ExprModel) -> bool
    decreases expr,
{
    match expr {
        ExprModel::Bool(_) => true,
        ExprModel::Integer(_) => true,
        ExprModel::Float(_) => false,
        ExprModel::Symbol(name) => plain_symbol(name),
        ExprModel::List(items) => forall|i: int|
            0 <= i < items.len() ==> plain(#[trigger] items[i]),
    }
}

/// The text of an atom.
pub open spec fn atom_text(expr: ExprModel) -> Seq<char> {
    match expr {
        ExprModel::Bool(b) => bool_text(b),
        ExprModel::Integer(i) => decimal(i as int),
        ExprModel::Symbol(name) => name,
        _ => Seq::empty(),
    }
}

/// Runs of tokens, one after the other.
pub open spec fn concat_tokens(parts: Seq<Seq<TokenModel>>) -> Seq<TokenModel>
    decreases parts.len(),
{
    if parts.len() == 0 {
        Seq::empty()
    } else {
        concat_tokens(parts.drop_last()) + parts.last()
    }
}

/// The tokens of the items of a list; empty for any other expression.
pub open spec fn item_tokens(expr: ExprModel) -> Seq<Seq<TokenModel>>
    decreases expr,
{
    match expr {
        ExprModel::List(items) => Seq::new(
            items.len(),
            |i: int|
                if 0 <= i < items.len() {
                    tokens_with(items[i], item_tokens(items[i]))
                } else {
                    Seq::empty()
                },
        ),
        _ => Seq::empty(),
    }
}

/// The tokens of an expression whose items, where it is a list, are written
/// down as `items`.
pub open spec fn tokens_with(expr: ExprModel, items: Seq<Seq<TokenModel>>) -> Seq<TokenModel> {
    match expr {
        ExprModel::List(_) => seq![TokenModel::Open] + concat_tokens(items) + seq![
            TokenModel::Close,
        ],
        _ => seq![TokenModel::Atom(atom_text(expr))],
    }
}

/// The tokens of an expression: an atom is one token, a list the tokens of
/// its items between an opening and a closing bracket.
pub open spec fn expr_tokens(expr: ExprModel) -> Seq<TokenModel> {
    tokens_with(expr, item_tokens(expr))
}

/// The tokens of each of a run of expressions.
pub open spec fn each_tokens(items: Seq<ExprModel>) -> Seq<Seq<TokenModel>> {
    Seq::new(items.len(), |i: int| expr_tokens(items[i]))
}

/// The tokens of a list are those of its items between brackets, and the
/// list is plain exactly when each item is.
pub proof fn lemma_list_tokens(items: Seq<ExprModel>)
    ensures
        expr_tokens(ExprModel::List(items)) == seq![TokenModel::Open] + concat_tokens(
            each_tokens(items),
        ) + seq![TokenModel::Close],
        plain(ExprModel::List(items)) <==> forall|i: int|
            0 <= i < items.len() ==> plain(#[trigger] items[i]),
        forall|i: int| 0 <= i < items.len() ==> decreases_to!(ExprModel::List(items) => #[trigger] items[i]),
{
    let whole = ExprModel::List(items);
    assert(decreases_to!(whole => whole->List_0));
    assert forall|i: int| 0 <= i < items.len() implies decreases_to!(whole => #[trigger] items[i]) by {
        assert(decreases_to!(items => items[i]));
    }
    assert(item_tokens(whole) =~= each_tokens(items));
}

/// The stack with one more item in the innermost open list.
pub open spec fn push_top(stack: Seq<Seq<ExprModel>>, expr: ExprModel) -> Seq<Seq<ExprModel>> {
    stack.drop_last().push(stack.last().push(expr))
}

/// The stack with more items in the innermost open list.
pub open spec fn extend_top(stack: Seq<Seq<ExprModel>>, items: Seq<ExprModel>) -> Seq<
    Seq<ExprModel>,
> {
    stack.drop_last().push(stack.last() + items)
}

/// The stack of the parser after more tokens, from a stack or a failure.
pub open spec fn parse_from(
    start: Result<Seq<Seq<ExprModel>>, ReadError>,
    tokens: Seq<TokenModel>,
) -> Result<Seq<Seq<ExprModel>>, ReadError>
    decreases tokens.len(),
{
    if tokens.len() == 0 {
        start
    } else {
        match parse_from(start, tokens.drop_last()) {
            Ok(stack) => parse_step(stack, tokens.last()),
            Err(error) => Err(error),
        }
    }
}

/// Parsing starts from one open list, the script, with no items.
pub proof fn lemma_parse_state(tokens: Seq<TokenModel>)
    ensures
        parse_state(tokens) == parse_from(Ok(seq![Seq::empty()]), tokens),
    decreases tokens.len(),
{
    if tokens.len() > 0 {
        lemma_parse_state(tokens.drop_last());
    }
}

/// Parsing two runs of tokens is parsing the second after the first.
pub proof fn lemma_parse_concat(
    start: Result<Seq<Seq<ExprModel>>, ReadError>,
    first: Seq<TokenModel>,
    second: Seq<TokenModel>,
)
    ensures
        parse_from(start, first + second) == parse_from(parse_from(start, first), second),
    decreases second.len(),
{
    if second.len() == 0 {
        assert(first + second =~= first);
    } else {
        lemma_parse_concat(start, first, second.drop_last());
        assert((first + second).drop_last() =~= first + second.drop_last());
        assert((first + second).last() == second.last());
    }
}

/// Parsing one token is one step of the parser.
pub proof fn lemma_parse_one(stack: Seq<Seq<ExprModel>>, token: TokenModel)
    ensures
        parse_from(Ok(stack), seq![token]) == parse_step(stack, token),
{
    let one = seq![token];
    assert(one.drop_last() =~= Seq::<TokenModel>::empty());
    assert(parse_from(Ok(stack), one.drop_last()) == Ok::<_, ReadError>(stack));
}

/// The text of a boolean or of an integer is read as that atom.
pub proof fn lemma_atom_read_back(expr: ExprModel)
    requires
        plain(expr),
        !(expr is List),
    ensures
        atom_spec(atom_text(expr)) == Ok::<_, ReadError>(expr),
{
    reveal_strlit("true");
    reveal_strlit("false");
    match expr {
        ExprModel::Bool(b) => {
            assert("false"@.len() == 5);
            assert("true"@.len() == 4);
        },
        ExprModel::Integer(i) => {
            law_integer_round_trip(i);
        },
        _ => {},
    }
}

/// Parsing the tokens of a plain expression adds the expression to the
/// innermost open list.
pub proof fn lemma_parse_expr(stack: Seq<Seq<ExprModel>>, expr: ExprModel)
    requires
        stack.len() >= 1,
        plain(expr),
    ensures
        parse_from(Ok(stack), expr_tokens(expr)) == Ok::<_, ReadError>(push_top(stack, expr)),
    decreases expr, 0nat,
{
    match expr {
        ExprModel::List(items) => {
            lemma_list_tokens(items);
            let open = seq![TokenModel::Open];
            let body = concat_tokens(each_tokens(items));
            let close = seq![TokenModel::Close];
            let opened = stack.push(Seq::empty());
            lemma_parse_one(stack, TokenModel::Open);
            assert(parse_from(Ok(stack), open) == Ok::<_, ReadError>(opened));
            assert(items.take(items.len() as int) =~= items);
            assert(each_tokens(items).take(items.len() as int) =~= each_tokens(items));
            lemma_parse_items(opened, items, items.len());
            let filled = extend_top(opened, items);
            assert(filled =~~= stack.push(items));
            lemma_parse_concat(Ok(stack), open, body);
            assert(parse_from(Ok(stack), open + body) == Ok::<_, ReadError>(filled));
            lemma_parse_concat(Ok(stack), open + body, close);
            lemma_parse_one(filled, TokenModel::Close);
            assert(filled.drop_last() =~~= stack);
            assert(filled.last() =~= items);
        },
        _ => {
            lemma_atom_read_back(expr);
            lemma_parse_one(stack, TokenModel::Atom(atom_text(expr)));
        },
    }
}

/// Parsing the tokens of the first `n` of a run of plain expressions adds
/// them to the innermost open list.
pub proof fn lemma_parse_items(stack: Seq<Seq<ExprModel>>, items: Seq<ExprModel>, n: nat)
    requires
        stack.len() >= 1,
        n <= items.len(),
        forall|i: int| 0 <= i < items.len() ==> plain(#[trigger] items[i]),
    ensures
        parse_from(Ok(stack), concat_tokens(each_tokens(items).take(n as int))) == Ok::<
            _,
            ReadError,
        >(extend_top(stack, items.take(n as int))),
    decreases items, n,
{
    let parts = each_tokens(items).take(n as int);
    if n == 0 {
        assert(parts =~= Seq::<Seq<TokenModel>>::empty());
        assert(extend_top(stack, items.take(0)) =~~= stack);
    } else {
        let before = (n - 1) as nat;
        lemma_parse_items(stack, items, before);
        assert(parts.drop_last() =~= each_tokens(items).take(before as int));
        assert(parts.last() == expr_tokens(items[before as int]));
        let sofar = extend_top(stack, items.take(before as int));
        assert(decreases_to!(items => items[before as int]));
        lemma_parse_expr(sofar, items[before as int]);
        lemma_parse_concat(Ok(stack), concat_tokens(parts.drop_last()), parts.last());
        assert(push_top(sofar, items[before as int]) =~~= extend_top(stack, items.take(n as int)));
    }
}

/// The tokens of a plain expression are parsed as that one expression.
pub proof fn law_parse_tokens(expr: ExprModel)
    requires
        plain(expr),
    ensures
        parse_spec(expr_tokens(expr)) == Ok::<_, ReadError>(seq![expr]),
{
    let start = seq![Seq::<ExprModel>::empty()];
    lemma_parse_state(expr_tokens(expr));
    lemma_parse_expr(start, expr);
    assert(push_top(start, expr) =~~= seq![seq![expr]]);
}

/// The text of a token.
pub open spec fn token_piece(token: TokenModel) -> Seq<char> {
    match token {
        TokenModel::Open => seq!['('],
        TokenModel::Close => seq![')'],
        TokenModel::Atom(text) => text,
    }
}

/// Tokens written down as text: each is followed by a blank.
pub open spec fn token_text(tokens: Seq<TokenModel>) -> Seq<char>
    decreases tokens.len(),
{
    if tokens.len() == 0 {
        Seq::empty()
    } else {
        token_text(tokens.drop_last()) + token_piece(tokens.last()) + seq![' ']
    }
}

/// Every atom among the tokens is a text that the lexer takes for one atom.
pub open spec fn lexable(tokens: Seq<TokenModel>) -> bool {
    forall|i: int|
        0 <= i < tokens.len() ==> ((#[trigger] tokens[i]) matches TokenModel::Atom(text)
            ==> is_atom_text(text))
}

/// The state of the lexer after more text.
pub open spec fn lex_from(state: Lexing, text: Seq<char>) -> Lexing
    decreases text.len(),
{
    if text.len() == 0 {
        state
    } else {
        lex_step(lex_from(state, text.drop_last()), text.last())
    }
}

/// Lexing starts with no tokens and no pending atom.
pub proof fn lemma_lex_state(text: Seq<char>)
    ensures
        lex_state(text) == lex_from(Lexing { tokens: Seq::empty(), pending: Seq::empty() }, text),
    decreases text.len(),
{
    if text.len() > 0 {
        lemma_lex_state(text.drop_last());
    }
}

/// Lexing two texts is lexing the second after the first.
pub proof fn lemma_lex_concat(state: Lexing, first: Seq<char>, second: Seq<char>)
    ensures
        lex_from(state, first + second) == lex_from(lex_from(state, first), second),
    decreases second.len(),
{
    if second.len() == 0 {
        assert(first + second =~= first);
    } else {
        lemma_lex_concat(state, first, second.drop_last());
        assert((first + second).drop_last() =~= first + second.drop_last());
        assert((first + second).last() == second.last());
    }
}

/// Lexing one character is one step of the lexer.
pub proof fn lemma_lex_one(state: Lexing, c: char)
    ensures
        lex_from(state, seq![c]) == lex_step(state, c),
{
    let one = seq![c];
    assert(one.drop_last() =~= Seq::<char>::empty());
    assert(lex_from(state, one.drop_last()) == state);
}

/// Characters of an atom are added to the pending atom.
pub proof fn lemma_lex_atom(state: Lexing, text: Seq<char>)
    requires
        forall|i: int| 0 <= i < text.len() ==> is_atom_char(#[trigger] text[i]),
    ensures
        lex_from(state, text) == (Lexing { tokens: state.tokens, pending: state.pending + text }),
    decreases text.len(),
{
    if text.len() == 0 {
        assert(state.pending + text =~= state.pending);
    } else {
        assert forall|i: int| 0 <= i < text.drop_last().len() implies is_atom_char(
            #[trigger] text.drop_last()[i],
        ) by {
            assert(text.drop_last()[i] == text[i]);
        }
        lemma_lex_atom(state, text.drop_last());
        assert(is_atom_char(text[text.len() - 1]));
        assert((state.pending + text.drop_last()).push(text.last()) =~= state.pending + text);
    }
}

/// The text of a token and the blank after it are lexed as that token.
pub proof fn lemma_lex_token(tokens: Seq<TokenModel>, token: TokenModel)
    requires
        token matches TokenModel::Atom(text) ==> is_atom_text(text),
    ensures
        lex_from(
            Lexing { tokens, pending: Seq::empty() },
            token_piece(token) + seq![' '],
        ) == (Lexing { tokens: tokens.push(token), pending: Seq::empty() }),
{
    let state = Lexing { tokens, pending: Seq::empty() };
    let piece = token_piece(token);
    lemma_lex_concat(state, piece, seq![' ']);
    lemma_lex_one(lex_from(state, piece), ' ');
    match token {
        TokenModel::Open => {
            lemma_lex_one(state, '(');
        },
        TokenModel::Close => {
            lemma_lex_one(state, ')');
        },
        TokenModel::Atom(text) => {
            lemma_lex_atom(state, text);
            assert(state.pending + text =~= text);
        },
    }
}

/// The text of lexable tokens is lexed as those tokens.
pub proof fn law_lex_tokens(tokens: Seq<TokenModel>)
    requires
        lexable(tokens),
    ensures
        lex_state(token_text(tokens)) == (Lexing { tokens, pending: Seq::empty() }),
        tokens_spec(token_text(tokens)) == tokens,
    decreases tokens.len(),
{
    let start = Lexing { tokens: Seq::empty(), pending: Seq::empty() };
    lemma_lex_state(token_text(tokens));
    if tokens.len() > 0 {
        let before = tokens.drop_last();
        assert forall|i: int| 0 <= i < before.len() implies ((#[trigger] before[i]) matches TokenModel::Atom(
            text,
        ) ==> is_atom_text(text)) by {
            assert(before[i] == tokens[i]);
        }
        law_lex_tokens(before);
        lemma_lex_state(token_text(before));
        let last = token_piece(tokens.last()) + seq![' '];
        assert(token_text(tokens) =~= token_text(before) + last);
        lemma_lex_concat(start, token_text(before), last);
        assert(tokens.last() == tokens[tokens.len() - 1]);
        lemma_lex_token(before, tokens.last());
        assert(before.push(tokens.last()) =~= tokens);
        assert(lex_from(start, token_text(before)) == (Lexing {
            tokens: before,
            pending: Seq::empty(),
        }));
        assert(lex_from(start, token_text(tokens)) == lex_from(
            lex_from(start, token_text(before)),
            last,
        ));
    } else {
        assert(tokens =~= Seq::<TokenModel>::empty());
    }
}

/// Two runs of lexable tokens are lexable one after the other.
pub proof fn lemma_lexable_concat(first: Seq<TokenModel>, second: Seq<TokenModel>)
    requires
        lexable(first),
        lexable(second),
    ensures
        lexable(first + second),
{
    let both = first + second;
    assert forall|i: int| 0 <= i < both.len() implies ((#[trigger] both[i]) matches TokenModel::Atom(
        text,
    ) ==> is_atom_text(text)) by {
        if i < first.len() {
            assert(both[i] == first[i]);
        } else {
            assert(both[i] == second[i - first.len()]);
        }
    }
}

/// The decimal text of an integer is one atom.
pub proof fn lemma_decimal_is_atom(i: int)
    ensures
        is_atom_text(decimal(i)),
{
    let text = decimal(i);
    if i < 0 {
        lemma_digits_round_trip((-i) as nat);
        let rest = digits((-i) as nat);
        assert forall|k: int| 0 <= k < text.len() implies is_atom_char(#[trigger] text[k]) by {
            if k > 0 {
                assert(text[k] == rest[k - 1]);
                assert(is_digit(rest[k - 1]));
            }
        }
    } else {
        lemma_digits_round_trip(i as nat);
        assert forall|k: int| 0 <= k < text.len() implies is_atom_char(#[trigger] text[k]) by {
            assert(is_digit(text[k]));
        }
    }
}

/// The tokens of a plain expression are lexable.
pub proof fn lemma_expr_lexable(expr: ExprModel)
    requires
        plain(expr),
    ensures
        lexable(expr_tokens(expr)),
    decreases expr, 0nat,
{
    match expr {
        ExprModel::List(items) => {
            lemma_list_tokens(items);
            assert(each_tokens(items).take(items.len() as int) =~= each_tokens(items));
            lemma_items_lexable(items, items.len());
            let open = seq![TokenModel::Open];
            let close = seq![TokenModel::Close];
            lemma_lexable_concat(open, concat_tokens(each_tokens(items)));
            lemma_lexable_concat(open + concat_tokens(each_tokens(items)), close);
        },
        ExprModel::Bool(b) => {
            reveal_strlit("true");
            reveal_strlit("false");
            assert(is_atom_text(bool_text(b)));
        },
        ExprModel::Integer(i) => {
            lemma_decimal_is_atom(i as int);
        },
        _ => {},
    }
}

/// The tokens of the first `n` of a run of plain expressions are lexable.
pub proof fn lemma_items_lexable(items: Seq<ExprModel>, n: nat)
    requires
        n <= items.len(),
        forall|i: int| 0 <= i < items.len() ==> plain(#[trigger] items[i]),
    ensures
        lexable(concat_tokens(each_tokens(items).take(n as int))),
    decreases items, n,
{
    let parts = each_tokens(items).take(n as int);
    if n == 0 {
        assert(parts =~= Seq::<Seq<TokenModel>>::empty());
    } else {
        let before = (n - 1) as nat;
        lemma_items_lexable(items, before);
        assert(parts.drop_last() =~= each_tokens(items).take(before as int));
        assert(parts.last() == expr_tokens(items[before as int]));
        assert(decreases_to!(items => items[before as int]));
        lemma_expr_lexable(items[before as int]);
        lemma_lexable_concat(concat_tokens(parts.drop_last()), parts.last());
    }
}

/// A plain expression, written down as tokens and those as text, is read
/// back as itself.
pub proof fn law_read_back(expr: ExprModel)
    requires
        plain(expr),
    ensures
        read_spec(token_text(expr_tokens(expr))) == Ok::<_, ReadError>(seq![expr]),
        read_one_spec(token_text(expr_tokens(expr))) == Ok::<_, ReadError>(expr),
{
    lemma_expr_lexable(expr);
    law_lex_tokens(expr_tokens(expr));
    law_parse_tokens(expr);
}

/// The characters of a fragment; a float has none here.
pub open spec fn fragment_text(fragment: FragmentModel) -> Seq<char> {
    match fragment {
        FragmentModel::Text(text) => text,
        FragmentModel::Float(_) => Seq::empty(),
    }
}

/// The characters of a rendering: those of its fragments, one after the
/// other.
pub open spec fn flat_text(fragments: Seq<FragmentModel>) -> Seq<char>
    decreases fragments.len(),
{
    if fragments.len() == 0 {
        Seq::empty()
    } else {
        flat_text(fragments.drop_last()) + fragment_text(fragments.last())
    }
}

/// The characters of two renderings are those of the first, then those of
/// the second.
pub proof fn lemma_flat_concat(first: Seq<FragmentModel>, second: Seq<FragmentModel>)
    ensures
        flat_text(first + second) == flat_text(first) + flat_text(second),
    decreases second.len(),
{
    if second.len() == 0 {
        assert(first + second =~= first);
        assert(flat_text(first) + flat_text(second) =~= flat_text(first));
    } else {
        lemma_flat_concat(first, second.drop_last());
        assert((first + second).drop_last() =~= first + second.drop_last());
        assert((first + second).last() == second.last());
        assert(flat_text(first + second) =~= flat_text(first) + flat_text(second));
    }
}

/// The characters of a rendering of one fragment are those of the fragment.
pub proof fn lemma_flat_one(fragment: FragmentModel)
    ensures
        flat_text(seq![fragment]) == fragment_text(fragment),
{
    let one = seq![fragment];
    assert(one.drop_last() =~= Seq::<FragmentModel>::empty());
    assert(flat_text(one.drop_last()) =~= Seq::<char>::empty());
    assert(flat_text(one) =~= fragment_text(fragment));
}

/// The state of the lexer after the rendering of an expression, from a state
/// with the given tokens and no pending atom.
pub open spec fn lexed(tokens: Seq<TokenModel>, expr: ExprModel) -> Lexing {
    if expr is List {
        Lexing { tokens: tokens + expr_tokens(expr), pending: Seq::empty() }
    } else {
        Lexing { tokens, pending: atom_text(expr) }
    }
}

/// The text of an atom of a plain expression is one atom.
pub proof fn lemma_atom_text(expr: ExprModel)
    requires
        plain(expr),
        !(expr is List),
    ensures
        is_atom_text(atom_text(expr)),
{
    match expr {
        ExprModel::Bool(b) => {
            reveal_strlit("true");
            reveal_strlit("false");
            assert(is_atom_text(bool_text(b)));
        },
        ExprModel::Integer(i) => {
            lemma_decimal_is_atom(i as int);
        },
        _ => {},
    }
}

/// Lexing the rendering of a plain expression yields its tokens; the atom of
/// a rendering that is one atom is still pending.
pub proof fn lemma_lex_rendering(tokens: Seq<TokenModel>, expr: ExprModel)
    requires
        plain(expr),
    ensures
        lex_from(Lexing { tokens, pending: Seq::empty() }, flat_text(render_expr(expr))) == lexed(
            tokens,
            expr,
        ),
    decreases expr, 0nat,
{
    let start = Lexing { tokens, pending: Seq::empty() };
    match expr {
        ExprModel::List(items) => {
            reveal_strlit("(");
            reveal_strlit(")");
            lemma_render_expr_list(items);
            lemma_list_tokens(items);
            let open = seq![FragmentModel::Text("("@)];
            let close = seq![FragmentModel::Text(")"@)];
            let body = render_items(render_exprs(items));
            lemma_flat_concat(open, body);
            lemma_flat_concat(open + body, close);
            lemma_flat_one(FragmentModel::Text("("@));
            lemma_flat_one(FragmentModel::Text(")"@));
            assert("("@ =~= seq!['(']);
            assert(")"@ =~= seq![')']);
            lemma_lex_concat(start, seq!['('], flat_text(body));
            lemma_lex_concat(start, seq!['('] + flat_text(body), seq![')']);
            lemma_lex_one(start, '(');
            let opened = tokens.push(TokenModel::Open);
            assert(render_exprs(items).take(items.len() as int) =~= render_exprs(items));
            assert(each_tokens(items).take(items.len() as int) =~= each_tokens(items));
            lemma_lex_items(opened, items, items.len());
            let inside = Lexing {
                tokens: opened + concat_tokens(each_tokens(items)),
                pending: Seq::empty(),
            };
            lemma_lex_one(inside, ')');
            assert(inside.tokens.push(TokenModel::Close) =~= tokens + expr_tokens(expr));
        },
        _ => {
            lemma_atom_text(expr);
            lemma_flat_one(render_expr(expr)[0]);
            assert(render_expr(expr) =~= seq![render_expr(expr)[0]]);
            lemma_lex_atom(start, atom_text(expr));
            assert(start.pending + atom_text(expr) =~= atom_text(expr));
        },
    }
}

/// Lexing the rendering of a plain expression and a blank yields its tokens.
pub proof fn lemma_lex_item(tokens: Seq<TokenModel>, expr: ExprModel)
    requires
        plain(expr),
    ensures
        lex_from(
            Lexing { tokens, pending: Seq::empty() },
            flat_text(render_expr(expr)) + seq![' '],
        ) == (Lexing { tokens: tokens + expr_tokens(expr), pending: Seq::empty() }),
    decreases expr, 1nat,
{
    let start = Lexing { tokens, pending: Seq::empty() };
    lemma_lex_rendering(tokens, expr);
    lemma_lex_concat(start, flat_text(render_expr(expr)), seq![' ']);
    lemma_lex_one(lexed(tokens, expr), ' ');
    if !(expr is List) {
        lemma_atom_text(expr);
        assert(tokens.push(TokenModel::Atom(atom_text(expr))) =~= tokens + expr_tokens(expr));
    }
}

/// Lexing the renderings of the first `n` of a run of plain expressions, each
/// followed by a blank, yields their tokens.
pub proof fn lemma_lex_items(tokens: Seq<TokenModel>, items: Seq<ExprModel>, n: nat)
    requires
        n <= items.len(),
        forall|i: int| 0 <= i < items.len() ==> plain(#[trigger] items[i]),
    ensures
        lex_from(
            Lexing { tokens, pending: Seq::empty() },
            flat_text(render_items(render_exprs(items).take(n as int))),
        ) == (Lexing {
            tokens: tokens + concat_tokens(each_tokens(items).take(n as int)),
            pending: Seq::empty(),
        }),
    decreases items, n,
{
    let start = Lexing { tokens, pending: Seq::empty() };
    let rendered = render_exprs(items).take(n as int);
    let parts = each_tokens(items).take(n as int);
    if n == 0 {
        assert(rendered =~= Seq::<Seq<FragmentModel>>::empty());
        assert(parts =~= Seq::<Seq<TokenModel>>::empty());
        assert(flat_text(render_items(rendered)) =~= Seq::<char>::empty());
        assert(tokens + concat_tokens(parts) =~= tokens);
    } else {
        reveal_strlit(" ");
        let before = (n - 1) as nat;
        let item = items[before as int];
        lemma_lex_items(tokens, items, before);
        assert(rendered.drop_last() =~= render_exprs(items).take(before as int));
        assert(rendered.last() == render_expr(item));
        assert(parts.drop_last() =~= each_tokens(items).take(before as int));
        assert(parts.last() == expr_tokens(item));
        let earlier = render_items(rendered.drop_last());
        let blank = seq![FragmentModel::Text(" "@)];
        lemma_flat_concat(earlier, render_expr(item));
        lemma_flat_concat(earlier + render_expr(item), blank);
        lemma_flat_one(FragmentModel::Text(" "@));
        assert(" "@ =~= seq![' ']);
        let text = flat_text(render_expr(item)) + seq![' '];
        assert(flat_text(render_items(rendered)) =~= flat_text(earlier) + text);
        lemma_lex_concat(start, flat_text(earlier), text);
        assert(decreases_to!(items => item));
        lemma_lex_item(tokens + concat_tokens(parts.drop_last()), item);
        assert(tokens + concat_tokens(parts.drop_last()) + expr_tokens(item) =~= tokens
            + concat_tokens(parts));
    }
}

/// The text of the rendering of a plain expression is read back as the
/// expression.
pub proof fn law_rendering_read_back(expr: ExprModel)
    requires
        plain(expr),
    ensures
        read_one_spec(flat_text(render_expr(expr))) == Ok::<_, ReadError>(expr),
{
    let text = flat_text(render_expr(expr));
    lemma_lex_state(text);
    lemma_lex_rendering(Seq::empty(), expr);
    if !(expr is List) {
        lemma_atom_text(expr);
    }
    assert(tokens_spec(text) =~= expr_tokens(expr));
    law_parse_tokens(expr);
}

} // verus!
