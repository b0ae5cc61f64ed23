//! The movetext tokenizer: turns raw text into a sequence of lexemes, each
//! tagged with a [`TokenType`].
//!
//! The specification is a character-level state machine: [`lex_step`] says
//! what one input character does to the tokenizer state, [`lex_run`] folds it
//! over the input, and [`spec_tokenize`] flushes the final pending lexeme.
//! [`tokenize`] is proved to produce exactly that token sequence.

use vstd::prelude::*;
use vstd::string::StrSliceExecFns;
use crate::strutil::push_char;
use crate::strutil::str_eq;
use crate::strutil::is_digit_char;
use crate::strutil::digit_val;
use crate::strutil::digits_val;

verus! {

/// The side to move: White or Black.
#[derive(Debug, Eq, PartialEq, Clone, Copy, Structural)]
pub enum Side {
    White,
    Black,
}

/// The side opposite to `s`.
pub open spec fn spec_other_side(s: Side) -> Side {
    match s {
        Side::White => Side::Black,
        Side::Black => Side::White,
    }
}

pub fn other_side(s: &Side) -> (r: Side)
    ensures
        r == spec_other_side(*s),
{
    match s {
        Side::White => Side::Black,
        Side::Black => Side::White,
    }
}

/// Outcome carried by a result token: `1-0`, `1/2-1/2`, `0-1` or `*`.
#[derive(Debug, Eq, PartialEq, Clone, Copy, Structural)]
pub enum ResultType {
    White,
    Draw,
    Black,
    Unknown,
}

/// The kind of a produced token.
#[derive(Debug, Eq, PartialEq, Clone, Copy, Structural)]
pub enum TokenType {
    VariantDelim { open: bool },
    CommentDelim { open: bool },
    TagDelim { open: bool },
    MoveNumber { id: u16, side: Side },
    Text,
    Result { result: ResultType },
}

pub type AllTokens = Vec<String>;

pub type AllTokenTypes = Vec<TokenType>;

/// Character classes of the tokenizer, in the sense of the grammar: inside a
/// comment only braces and square brackets keep a structural meaning.
#[derive(Debug, Eq, PartialEq, Clone, Copy, Structural)]
pub enum CharacterType {
    Number,
    Letter,
    Whitespace,
    Quote,
    CurlyBracket(bool),
    SquareBracket(bool),
    Parenthesis(bool),
    Asterisk,
    Other,
}

pub open spec fn spec_classify_char(c: char, in_comment: bool) -> CharacterType {
    if '0' <= c && c <= '9' {
        if in_comment {
            CharacterType::Other
        } else {
            CharacterType::Number
        }
    } else if ('A' <= c && c <= 'Z') || ('a' <= c && c <= 'z') {
        if in_comment {
            CharacterType::Other
        } else {
            CharacterType::Letter
        }
    } else if c == '"' {
        if in_comment {
            CharacterType::Other
        } else {
            CharacterType::Quote
        }
    } else if c == '(' {
        if in_comment {
            CharacterType::Other
        } else {
            CharacterType::Parenthesis(true)
        }
    } else if c == ')' {
        if in_comment {
            CharacterType::Other
        } else {
            CharacterType::Parenthesis(false)
        }
    } else if c == '{' {
        CharacterType::CurlyBracket(true)
    } else if c == '}' {
        CharacterType::CurlyBracket(false)
    } else if c == '[' {
        CharacterType::SquareBracket(true)
    } else if c == ']' {
        CharacterType::SquareBracket(false)
    } else if c == ' ' || c == '\u{3000}' {
        CharacterType::Whitespace
    } else if c == '*' {
        CharacterType::Asterisk
    } else {
        CharacterType::Other
    }
}

fn classify_char(c: char, in_comment: bool) -> (r: CharacterType)
    ensures
        r == spec_classify_char(c, in_comment),
{
    if '0' <= c && c <= '9' {
        if in_comment {
            CharacterType::Other
        } else {
            CharacterType::Number
        }
    } else if ('A' <= c && c <= 'Z') || ('a' <= c && c <= 'z') {
        if in_comment {
            CharacterType::Other
        } else {
            CharacterType::Letter
        }
    } else if c == '"' {
        if in_comment {
            CharacterType::Other
        } else {
            CharacterType::Quote
        }
    } else if c == '(' {
        if in_comment {
            CharacterType::Other
        } else {
            CharacterType::Parenthesis(true)
        }
    } else if c == ')' {
        if in_comment {
            CharacterType::Other
        } else {
            CharacterType::Parenthesis(false)
        }
    } else if c == '{' {
        CharacterType::CurlyBracket(true)
    } else if c == '}' {
        CharacterType::CurlyBracket(false)
    } else if c == '[' {
        CharacterType::SquareBracket(true)
    } else if c == ']' {
        CharacterType::SquareBracket(false)
    } else if c == ' ' || c == '\u{3000}' {
        CharacterType::Whitespace
    } else if c == '*' {
        CharacterType::Asterisk
    } else {
        CharacterType::Other
    }
}

/// Length of the maximal run of decimal digits at the front of `s`.
pub open spec fn digit_prefix_len(s: Seq<char>) -> int
    decreases s.len(),
{
    if s.len() == 0 || !is_digit_char(s[0]) {
        0
    } else {
        1 + digit_prefix_len(s.drop_first())
    }
}

pub open spec fn all_dots(s: Seq<char>) -> bool {
    forall|i: int| 0 <= i < s.len() ==> #[trigger] s[i] == '.'
}

/// A move-number lexeme: one or more digits followed by one or more dots,
/// with a numeric value that fits in a `u16`.
pub open spec fn spec_is_move_number(s: Seq<char>) -> bool {
    let k = digit_prefix_len(s);
    &&& 1 <= k < s.len()
    &&& all_dots(s.subrange(k, s.len() as int))
    &&& digits_val(s.subrange(0, k)) <= u16::MAX
}

/// The token for a move-number lexeme: a single dot means White to move, two
/// or more dots mean Black to move.
pub open spec fn spec_move_number_token(s: Seq<char>) -> TokenType {
    let k = digit_prefix_len(s);
    TokenType::MoveNumber {
        id: digits_val(s.subrange(0, k)) as u16,
        side: if s.len() - k == 1 {
            Side::White
        } else {
            Side::Black
        },
    }
}

/// Classification of a flushed lexeme, first match wins: move number, then
/// one of the four result forms, then plain text.
pub open spec fn spec_classify_lexeme(s: Seq<char>) -> TokenType {
    if spec_is_move_number(s) {
        spec_move_number_token(s)
    } else if s == "*"@ {
        TokenType::Result { result: ResultType::Unknown }
    } else if s == "1-0"@ {
        TokenType::Result { result: ResultType::White }
    } else if s == "1/2-1/2"@ {
        TokenType::Result { result: ResultType::Draw }
    } else if s == "0-1"@ {
        TokenType::Result { result: ResultType::Black }
    } else {
        TokenType::Text
    }
}

/// The digit prefix length is pinned down by its characteristic property.
proof fn lemma_digit_prefix_len_is(s: Seq<char>, k: int)
    requires
        0 <= k <= s.len(),
        forall|i: int| 0 <= i < k ==> is_digit_char(#[trigger] s[i]),
        k < s.len() ==> !is_digit_char(s[k]),
    ensures
        digit_prefix_len(s) == k,
    decreases s.len(),
{
    if s.len() == 0 || !is_digit_char(s[0]) {
        assert(k == 0);
    } else {
        assert(k >= 1) by {
            assert(is_digit_char(s[0]));
        }
        let t = s.drop_first();
        assert forall|i: int| 0 <= i < k - 1 implies is_digit_char(#[trigger] t[i]) by {
            assert(t[i] == s[i + 1]);
        }
        assert(k - 1 < t.len() ==> !is_digit_char(t[k - 1]));
        lemma_digit_prefix_len_is(t, k - 1);
    }
}

/// A longer digit prefix never has a smaller value.
proof fn lemma_digits_val_prefix_le(s: Seq<char>, j: int, k: int)
    requires
        0 <= j <= k <= s.len(),
    ensures
        digits_val(s.subrange(0, j)) <= digits_val(s.subrange(0, k)),
    decreases k - j,
{
    if j < k {
        lemma_digits_val_prefix_le(s, j, k - 1);
        let p = s.subrange(0, k);
        assert(p.drop_last() =~= s.subrange(0, k - 1));
        assert(digits_val(s.subrange(0, k - 1)) <= digits_val(p));
    }
}

/// Recognizes a move-number lexeme and builds its token.
fn is_move_number(s: &String) -> (r: Option<TokenType>)
    ensures
        r == if spec_is_move_number(s@) {
            Some(spec_move_number_token(s@))
        } else {
            None::<TokenType>
        },
{
    let st = s.as_str();
    let n = st.unicode_len();
    let mut k: usize = 0;
    let mut scanning = true;
    while scanning && k < n
        invariant
            st@ == s@,
            n == s@.len(),
            0 <= k <= n,
            forall|i: int| 0 <= i < k ==> is_digit_char(#[trigger] s@[i]),
            !scanning ==> k < n && !is_digit_char(s@[k as int]),
        decreases n - k, (if scanning { 1int } else { 0int }),
    {
        let c = st.get_char(k);
        if '0' <= c && c <= '9' {
            k += 1;
        } else {
            scanning = false;
        }
    }
    proof {
        lemma_digit_prefix_len_is(s@, k as int);
    }
    if k == 0 || k >= n {
        return None;
    }
    // all remaining characters must be dots
    let mut j: usize = k;
    while j < n
        invariant
            st@ == s@,
            n == s@.len(),
            0 < k < n,
            k <= j <= n,
            digit_prefix_len(s@) == k,
            forall|i: int| k <= i < j ==> #[trigger] s@[i] == '.',
        decreases n - j,
    {
        if st.get_char(j) != '.' {
            proof {
                assert(!all_dots(s@.subrange(k as int, n as int))) by {
                    assert(s@.subrange(k as int, n as int)[j - k] == s@[j as int]);
                }
            }
            return None;
        }
        j += 1;
    }
    proof {
        assert(all_dots(s@.subrange(k as int, n as int))) by {
            assert forall|i: int| 0 <= i < n - k implies #[trigger] s@.subrange(
                k as int,
                n as int,
            )[i] == '.' by {
                assert(s@.subrange(k as int, n as int)[i] == s@[i + k]);
            }
        }
    }
    // numeric value of the digit prefix, bailing out if it cannot fit
    let mut val: u32 = 0;
    let mut i: usize = 0;
    while i < k
        invariant
            st@ == s@,
            n == s@.len(),
            0 < k < n,
            0 <= i <= k,
            digit_prefix_len(s@) == k,
            forall|t: int| 0 <= t < k ==> is_digit_char(#[trigger] s@[t]),
            val == digits_val(s@.subrange(0, i as int)),
            val <= 65535,
        decreases k - i,
    {
        let c = st.get_char(i);
        let d = (c as u32) - 48;
        let v2 = val * 10 + d;
        proof {
            assert(s@.subrange(0, i + 1).drop_last() =~= s@.subrange(0, i as int));
            assert(digits_val(s@.subrange(0, i + 1)) == digits_val(s@.subrange(0, i as int)) * 10
                + digit_val(s@[i as int]));
        }
        if v2 > 65535 {
            proof {
                lemma_digits_val_prefix_le(s@, i + 1, k as int);
            }
            return None;
        }
        val = v2;
        i += 1;
    }
    proof {
        assert(spec_is_move_number(s@));
    }
    let side = if n - k == 1 {
        Side::White
    } else {
        Side::Black
    };
    Some(TokenType::MoveNumber { id: val as u16, side })
}

/// Recognizes one of the four result lexemes.
fn is_result_tag(s: &String) -> (r: Option<TokenType>)
    ensures
        r == if s@ == "*"@ {
            Some(TokenType::Result { result: ResultType::Unknown })
        } else if s@ == "1-0"@ {
            Some(TokenType::Result { result: ResultType::White })
        } else if s@ == "1/2-1/2"@ {
            Some(TokenType::Result { result: ResultType::Draw })
        } else if s@ == "0-1"@ {
            Some(TokenType::Result { result: ResultType::Black })
        } else {
            None::<TokenType>
        },
{
    if str_eq(s.as_str(), "*") {
        return Some(TokenType::Result { result: ResultType::Unknown });
    }
    if str_eq(s.as_str(), "1-0") {
        return Some(TokenType::Result { result: ResultType::White });
    }
    if str_eq(s.as_str(), "1/2-1/2") {
        return Some(TokenType::Result { result: ResultType::Draw });
    }
    if str_eq(s.as_str(), "0-1") {
        return Some(TokenType::Result { result: ResultType::Black });
    }
    None
}

/// A character that joins the pending lexeme when no comment and no quote
/// is open.
pub open spec fn is_word_char(c: char) -> bool {
    match spec_classify_char(c, false) {
        CharacterType::Number => true,
        CharacterType::Letter => true,
        CharacterType::Asterisk => true,
        CharacterType::Other => true,
        _ => false,
    }
}

/// A lexeme-forming word: nonempty, made of joining characters alone.
pub open spec fn is_word(w: Seq<char>) -> bool {
    w.len() > 0 && forall|i: int| 0 <= i < w.len() ==> is_word_char(#[trigger] w[i])
}

proof fn lemma_lex_run_append(st: LexState, a: Seq<char>, b: Seq<char>)
    ensures
        lex_run(st, a + b) == lex_run(lex_run(st, a), b),
    decreases a.len(),
{
    if a.len() == 0 {
        assert(a + b =~= b);
    } else {
        assert((a + b)[0] == a[0]);
        assert((a + b).drop_first() =~= a.drop_first() + b);
        lemma_lex_run_append(lex_step(st, a[0]), a.drop_first(), b);
    }
}

/// Outside comments and quotes, a run of joining characters only grows the
/// pending lexeme.
proof fn lemma_lex_run_word(st: LexState, w: Seq<char>)
    requires
        !st.in_quote,
        !st.in_comment,
        forall|i: int| 0 <= i < w.len() ==> is_word_char(#[trigger] w[i]),
    ensures
        lex_run(st, w) == (LexState { pending: st.pending + w, ..st }),
    decreases w.len(),
{
    if w.len() == 0 {
        assert(st.pending + w =~= st.pending);
    } else {
        assert(is_word_char(w[0]));
        let st1 = lex_step(st, w[0]);
        assert(st1 == (LexState { pending: st.pending.push(w[0]), ..st }));
        assert forall|i: int| 0 <= i < w.drop_first().len() implies is_word_char(
            #[trigger] w.drop_first()[i],
        ) by {
            assert(w.drop_first()[i] == w[i + 1]);
        }
        lemma_lex_run_word(st1, w.drop_first());
        assert(st.pending.push(w[0]) + w.drop_first() =~= st.pending + w);
    }
}

/// A first piece of the round trip between the formatter and the tokenizer:
/// the text that a one-ply White tree renders to, the move number `n`
/// followed by a dot, a space and the move word `w`, splits back into
/// exactly two tokens, the move-number token for `n` and the word itself.
pub proof fn lemma_single_move_round_trip(n: u16, w: Seq<char>)
    requires
        is_word(w),
    ensures
        ({
            let toks = spec_tokenize(crate::strutil::spec_dec(n as nat) + seq!['.', ' '] + w);
            &&& toks.len() == 2
            &&& toks[0] == (SpecToken {
                lexeme: crate::strutil::spec_dec(n as nat) + seq!['.'],
                kind: TokenType::MoveNumber { id: n, side: Side::White },
            })
            &&& toks[1] == (SpecToken { lexeme: w, kind: spec_classify_lexeme(w) })
        }),
{
    let d = crate::strutil::spec_dec(n as nat);
    crate::strutil::lemma_dec_round_trip(n as nat);
    lemma_move_number_round_trip(n);
    let s = d + seq!['.', ' '] + w;
    let head = d + seq!['.'];
    assert(s =~= (head + seq![' ']) + w);
    lemma_lex_run_append(lex_init(), head + seq![' '], w);
    lemma_lex_run_append(lex_init(), head, seq![' ']);
    assert forall|i: int| 0 <= i < head.len() implies is_word_char(#[trigger] head[i]) by {
        if i < d.len() {
            assert(head[i] == d[i]);
            assert(crate::strutil::is_digit_char(d[i]));
        } else {
            assert(head[i] == '.');
        }
    }
    lemma_lex_run_word(lex_init(), head);
    let st1 = lex_run(lex_init(), head);
    assert(st1.pending =~= head);
    let st2 = lex_run(st1, seq![' ']);
    assert(st2 == lex_step(st1, ' ')) by {
        assert(seq![' '].drop_first() =~= Seq::<char>::empty());
        assert(lex_run(lex_step(st1, ' '), seq![' '].drop_first()) == lex_step(st1, ' '));
    }
    assert(spec_classify_char(' ', false) == CharacterType::Whitespace);
    assert(st2.out =~= seq![
        SpecToken { lexeme: head, kind: TokenType::MoveNumber { id: n, side: Side::White } },
    ]);
    lemma_lex_run_word(st2, w);
    let st3 = lex_run(st2, w);
    assert(st3.pending =~= w);
    assert(spec_tokenize(s) =~= st3.out.push(
        SpecToken { lexeme: w, kind: spec_classify_lexeme(w) },
    ));
}

/// A rendered move number tokenizes back: the decimal digits of `n`
/// followed by a single dot classify as the White move-number token for
/// `n`, and followed by three dots as the Black one.
pub proof fn lemma_move_number_round_trip(n: u16)
    ensures
        spec_classify_lexeme(crate::strutil::spec_dec(n as nat) + seq!['.']) == (
        TokenType::MoveNumber { id: n, side: Side::White }),
        spec_classify_lexeme(crate::strutil::spec_dec(n as nat) + seq!['.', '.', '.']) == (
        TokenType::MoveNumber { id: n, side: Side::Black }),
{
    let d = crate::strutil::spec_dec(n as nat);
    crate::strutil::lemma_dec_round_trip(n as nat);
    let w = d + seq!['.'];
    let b = d + seq!['.', '.', '.'];
    assert forall|i: int| 0 <= i < d.len() implies is_digit_char(#[trigger] w[i]) by {
        assert(w[i] == d[i]);
    }
    assert(!is_digit_char(w[d.len() as int]));
    lemma_digit_prefix_len_is(w, d.len() as int);
    assert(w.subrange(0, d.len() as int) =~= d);
    assert(all_dots(w.subrange(d.len() as int, w.len() as int))) by {
        assert forall|i: int| 0 <= i < 1 implies #[trigger] w.subrange(
            d.len() as int,
            w.len() as int,
        )[i] == '.' by {
            assert(w.subrange(d.len() as int, w.len() as int)[i] == w[d.len() + i]);
        }
    }
    assert(spec_is_move_number(w));
    assert forall|i: int| 0 <= i < d.len() implies is_digit_char(#[trigger] b[i]) by {
        assert(b[i] == d[i]);
    }
    assert(!is_digit_char(b[d.len() as int]));
    lemma_digit_prefix_len_is(b, d.len() as int);
    assert(b.subrange(0, d.len() as int) =~= d);
    assert(all_dots(b.subrange(d.len() as int, b.len() as int))) by {
        assert forall|i: int| 0 <= i < 3 implies #[trigger] b.subrange(
            d.len() as int,
            b.len() as int,
        )[i] == '.' by {
            assert(b.subrange(d.len() as int, b.len() as int)[i] == b[d.len() + i]);
        }
    }
    assert(spec_is_move_number(b));
}

/// One produced token: its lexeme and its kind.
pub ghost struct SpecToken {
    pub lexeme: Seq<char>,
    pub kind: TokenType,
}

/// The tokenizer state: the pending lexeme, the two character-context flags,
/// and the tokens already emitted.
pub ghost struct LexState {
    pub pending: Seq<char>,
    pub in_comment: bool,
    pub in_quote: bool,
    pub out: Seq<SpecToken>,
}

pub open spec fn lex_init() -> LexState {
    LexState {
        pending: Seq::<char>::empty(),
        in_comment: false,
        in_quote: false,
        out: Seq::<SpecToken>::empty(),
    }
}

/// Emits the pending lexeme, if there is one.
pub open spec fn flushed(out: Seq<SpecToken>, pending: Seq<char>) -> Seq<SpecToken> {
    if pending.len() == 0 {
        out
    } else {
        out.push(SpecToken { lexeme: pending, kind: spec_classify_lexeme(pending) })
    }
}

/// What one input character does to the tokenizer state. While a quote is
/// open every character except the closing quote is kept verbatim; the
/// closing quote emits the whole quoted span, quote characters included, as
/// one lexeme.
pub open spec fn lex_step(st: LexState, c: char) -> LexState {
    if st.in_quote {
        if c == '"' {
            LexState {
                pending: Seq::<char>::empty(),
                in_quote: false,
                out: flushed(st.out, st.pending.push(c)),
                ..st
            }
        } else {
            LexState { pending: st.pending.push(c), ..st }
        }
    } else {
        match spec_classify_char(c, st.in_comment) {
            CharacterType::Number => LexState { pending: st.pending.push(c), ..st },
            CharacterType::Letter => LexState { pending: st.pending.push(c), ..st },
            CharacterType::Asterisk => LexState { pending: st.pending.push(c), ..st },
            CharacterType::Other => LexState { pending: st.pending.push(c), ..st },
            CharacterType::Quote => LexState { pending: st.pending.push(c), in_quote: true, ..st },
            CharacterType::Whitespace => LexState {
                pending: Seq::<char>::empty(),
                out: flushed(st.out, st.pending),
                ..st
            },
            CharacterType::Parenthesis(o) => LexState {
                pending: Seq::<char>::empty(),
                out: flushed(st.out, st.pending).push(
                    SpecToken { lexeme: seq![c], kind: TokenType::VariantDelim { open: o } },
                ),
                ..st
            },
            CharacterType::CurlyBracket(o) => LexState {
                pending: Seq::<char>::empty(),
                in_comment: o,
                out: flushed(st.out, st.pending).push(
                    SpecToken { lexeme: seq![c], kind: TokenType::CommentDelim { open: o } },
                ),
                ..st
            },
            CharacterType::SquareBracket(o) => LexState {
                pending: Seq::<char>::empty(),
                out: flushed(st.out, st.pending).push(
                    SpecToken { lexeme: seq![c], kind: TokenType::TagDelim { open: o } },
                ),
                ..st
            },
        }
    }
}

/// [`lex_step`] folded over an input prefix.
pub open spec fn lex_run(st: LexState, s: Seq<char>) -> LexState
    decreases s.len(),
{
    if s.len() == 0 {
        st
    } else {
        lex_run(lex_step(st, s[0]), s.drop_first())
    }
}

/// The tokens of a whole input: run the state machine, then flush what is
/// still pending at the end.
pub open spec fn spec_tokenize(s: Seq<char>) -> Seq<SpecToken> {
    let st = lex_run(lex_init(), s);
    flushed(st.out, st.pending)
}

proof fn lemma_lex_run_push(st: LexState, s: Seq<char>, c: char)
    ensures
        lex_run(st, s.push(c)) == lex_step(lex_run(st, s), c),
    decreases s.len(),
{
    if s.len() == 0 {
        assert(s.push(c)[0] == c);
        assert(s.push(c).drop_first() =~= Seq::<char>::empty());
        assert(lex_run(st, s.push(c)) == lex_run(lex_step(st, c), s.push(c).drop_first()));
        assert(lex_run(lex_step(st, c), Seq::<char>::empty()) == lex_step(st, c));
        assert(lex_run(st, s) == st);
    } else {
        assert(s.push(c)[0] == s[0]);
        assert(s.push(c).drop_first() =~= s.drop_first().push(c));
        lemma_lex_run_push(lex_step(st, s[0]), s.drop_first(), c);
    }
}

/// The emitted vectors agree with the spec tokens, element by element.
spec fn tokens_match(tokens: Seq<String>, types: Seq<TokenType>, out: Seq<SpecToken>) -> bool {
    &&& tokens.len() == out.len()
    &&& types.len() == out.len()
    &&& forall|k: int|
        0 <= k < out.len() ==> tokens[k]@ == (#[trigger] out[k]).lexeme && types[k] == out[k].kind
}

/// Classifies a flushed lexeme and appends it, dropping an empty lexeme.
fn add_token(s: String, tokens: &mut AllTokens, token_types: &mut AllTokenTypes)
    ensures
        final(tokens)@ == if s@.len() == 0 {
            old(tokens)@
        } else {
            old(tokens)@.push(s)
        },
        final(token_types)@ == if s@.len() == 0 {
            old(token_types)@
        } else {
            old(token_types)@.push(spec_classify_lexeme(s@))
        },
{
    if let Some(move_number) = is_move_number(&s) {
        proof {
            assert(s@.len() > 0);
        }
        tokens.push(s);
        token_types.push(move_number);
        return;
    }
    if let Some(result) = is_result_tag(&s) {
        proof {
            reveal_strlit("*");
            reveal_strlit("1-0");
            reveal_strlit("1/2-1/2");
            reveal_strlit("0-1");
        }
        tokens.push(s);
        token_types.push(result);
        return;
    }
    if !s.as_str().is_empty() {
        tokens.push(s);
        token_types.push(TokenType::Text);
    }
}

/// Makes a one-character string.
fn char_to_string(c: char) -> (r: String)
    ensures
        r@ == seq![c],
{
    let mut r = String::new();
    push_char(&mut r, c);
    proof {
        assert(r@ =~= seq![c]);
    }
    r
}

/// Splits movetext into tokens.
pub fn tokenize(s: String) -> (r: (AllTokens, AllTokenTypes))
    ensures
        r.0@.len() == r.1@.len(),
        r.0@.len() == spec_tokenize(s@).len(),
        forall|k: int|
            0 <= k < spec_tokenize(s@).len() ==> r.0@[k]@ == (#[trigger] spec_tokenize(
                s@,
            )[k]).lexeme && r.1@[k] == spec_tokenize(s@)[k].kind,
{
    let st = s.as_str();
    let n = st.unicode_len();
    let mut tokens: AllTokens = Vec::new();
    let mut token_types: AllTokenTypes = Vec::new();
    let mut next_str: String = String::new();
    let mut in_comment = false;
    let mut open_quote = false;
    let mut i: usize = 0;
    proof {
        assert(s@.subrange(0, 0) =~= Seq::<char>::empty());
    }
    while i < n
        invariant
            st@ == s@,
            n == s@.len(),
            0 <= i <= n,
            ({
                let ls = lex_run(lex_init(), s@.subrange(0, i as int));
                &&& next_str@ == ls.pending
                &&& in_comment == ls.in_comment
                &&& open_quote == ls.in_quote
                &&& tokens_match(tokens@, token_types@, ls.out)
            }),
        decreases n - i,
    {
        let ghost pre = lex_run(lex_init(), s@.subrange(0, i as int));
        let c = st.get_char(i);
        proof {
            lemma_lex_run_push(lex_init(), s@.subrange(0, i as int), c);
            assert(s@.subrange(0, i + 1) =~= s@.subrange(0, i as int).push(c));
        }
        if open_quote {
            push_char(&mut next_str, c);
            if c == '"' {
                add_token(next_str, &mut tokens, &mut token_types);
                next_str = String::new();
                open_quote = false;
            }
        } else {
            match classify_char(c, in_comment) {
                CharacterType::Number => push_char(&mut next_str, c),
                CharacterType::Letter => push_char(&mut next_str, c),
                CharacterType::Asterisk => push_char(&mut next_str, c),
                CharacterType::Other => push_char(&mut next_str, c),
                CharacterType::Quote => {
                    push_char(&mut next_str, c);
                    open_quote = true;
                },
                CharacterType::Whitespace => {
                    add_token(next_str, &mut tokens, &mut token_types);
                    next_str = String::new();
                },
                CharacterType::Parenthesis(o) => {
                    add_token(next_str, &mut tokens, &mut token_types);
                    tokens.push(char_to_string(c));
                    token_types.push(TokenType::VariantDelim { open: o });
                    next_str = String::new();
                },
                CharacterType::CurlyBracket(o) => {
                    in_comment = o;
                    add_token(next_str, &mut tokens, &mut token_types);
                    tokens.push(char_to_string(c));
                    token_types.push(TokenType::CommentDelim { open: o });
                    next_str = String::new();
                },
                CharacterType::SquareBracket(o) => {
                    add_token(next_str, &mut tokens, &mut token_types);
                    tokens.push(char_to_string(c));
                    token_types.push(TokenType::TagDelim { open: o });
                    next_str = String::new();
                },
            }
        }
        i += 1;
    }
    proof {
        assert(s@.subrange(0, n as int) =~= s@);
    }
    add_token(next_str, &mut tokens, &mut token_types);
    (tokens, token_types)
}

} // verus!
