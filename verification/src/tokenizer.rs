//! The plain movetext tokenizer: an earlier, smaller grammar than
//! [`crate::pgn_tokenizer`], kept for token streams that carry no quoted
//! spans: every character is classified the same way wherever it stands,
//! quotes and asterisks are ordinary characters, and tokens come as
//! `(lexeme, kind)` pairs.

use vstd::prelude::*;
use vstd::string::StrSliceExecFns;
use crate::strutil::push_char;
use crate::strutil::str_eq;
use crate::strutil::is_digit_char;
use crate::strutil::digit_val;
use crate::strutil::digits_val;

verus! {

/// The side to move: White or Black.
#[derive(Debug, Eq, PartialEq, Clone, Copy, Structural)]
pub enum Side {
    White,
    Black,
}

/// The side opposite to `s`.
pub open spec fn spec_other_side(s: Side) -> Side {
    match s {
        Side::White => Side::Black,
        Side::Black => Side::White,
    }
}

pub fn other_side(s: &Side) -> (r: Side)
    ensures
        r == spec_other_side(*s),
{
    match s {
        Side::White => Side::Black,
        Side::Black => Side::White,
    }
}

/// Outcome carried by a result token: `1-0`, `1/2-1/2` or `0-1`.
#[derive(Debug, Eq, PartialEq, Clone, Copy, Structural)]
pub enum ResultType {
    White,
    Draw,
    Black,
}

/// The kind of a produced token.
#[derive(Debug, Eq, PartialEq, Clone, Copy, Structural)]
pub enum TokenType {
    VariantDelim { open: bool },
    CommentDelim { open: bool },
    TagDelim { open: bool },
    MoveNumber { id: u32, side: Side },
    Text,
    Result { result: ResultType },
}

pub type TokenizedPGN = Vec<(String, TokenType)>;

/// Character classes of this grammar: digits, letters, the three delimiter
/// pairs, whitespace, everything else.
#[derive(Debug, Eq, PartialEq, Clone, Copy, Structural)]
pub enum CharacterType {
    Number,
    Letter,
    Whitespace,
    CurlyBracket(bool),
    SquareBracket(bool),
    Parenthesis(bool),
    Other,
}

pub open spec fn spec_classify_char(c: char) -> CharacterType {
    if '0' <= c && c <= '9' {
        CharacterType::Number
    } else if ('A' <= c && c <= 'Z') || ('a' <= c && c <= 'z') {
        CharacterType::Letter
    } else if c == '(' {
        CharacterType::Parenthesis(true)
    } else if c == ')' {
        CharacterType::Parenthesis(false)
    } else if c == '{' {
        CharacterType::CurlyBracket(true)
    } else if c == '}' {
        CharacterType::CurlyBracket(false)
    } else if c == '[' {
        CharacterType::SquareBracket(true)
    } else if c == ']' {
        CharacterType::SquareBracket(false)
    } else if c == ' ' || c == '\u{3000}' {
        CharacterType::Whitespace
    } else {
        CharacterType::Other
    }
}

fn classify_char(c: char) -> (r: CharacterType)
    ensures
        r == spec_classify_char(c),
{
    if '0' <= c && c <= '9' {
        CharacterType::Number
    } else if ('A' <= c && c <= 'Z') || ('a' <= c && c <= 'z') {
        CharacterType::Letter
    } else if c == '(' {
        CharacterType::Parenthesis(true)
    } else if c == ')' {
        CharacterType::Parenthesis(false)
    } else if c == '{' {
        CharacterType::CurlyBracket(true)
    } else if c == '}' {
        CharacterType::CurlyBracket(false)
    } else if c == '[' {
        CharacterType::SquareBracket(true)
    } else if c == ']' {
        CharacterType::SquareBracket(false)
    } else if c == ' ' || c == '\u{3000}' {
        CharacterType::Whitespace
    } else {
        CharacterType::Other
    }
}

/// Length of the maximal run of decimal digits at the front of `s`.
pub open spec fn digit_prefix_len(s: Seq<char>) -> int
    decreases s.len(),
{
    if s.len() == 0 || !is_digit_char(s[0]) {
        0
    } else {
        1 + digit_prefix_len(s.drop_first())
    }
}

pub open spec fn all_dots(s: Seq<char>) -> bool {
    forall|i: int| 0 <= i < s.len() ==> #[trigger] s[i] == '.'
}

/// A move-number lexeme: one or more digits followed by one or more dots,
/// with a numeric value that fits in a `u32`.
pub open spec fn spec_is_move_number(s: Seq<char>) -> bool {
    let k = digit_prefix_len(s);
    &&& 1 <= k < s.len()
    &&& all_dots(s.subrange(k, s.len() as int))
    &&& digits_val(s.subrange(0, k)) <= u32::MAX
}

/// The token for a move-number lexeme: a single dot means White to move, two
/// or more dots mean Black to move.
pub open spec fn spec_move_number_token(s: Seq<char>) -> TokenType {
    let k = digit_prefix_len(s);
    TokenType::MoveNumber {
        id: digits_val(s.subrange(0, k)) as u32,
        side: if s.len() - k == 1 {
            Side::White
        } else {
            Side::Black
        },
    }
}

/// Classification of a flushed lexeme, first match wins: move number, then
/// one of the three result forms, then plain text.
pub open spec fn spec_classify_lexeme(s: Seq<char>) -> TokenType {
    if spec_is_move_number(s) {
        spec_move_number_token(s)
    } else if s == "1-0"@ {
        TokenType::Result { result: ResultType::White }
    } else if s == "1/2-1/2"@ {
        TokenType::Result { result: ResultType::Draw }
    } else if s == "0-1"@ {
        TokenType::Result { result: ResultType::Black }
    } else {
        TokenType::Text
    }
}

proof fn lemma_digit_prefix_len_is(s: Seq<char>, k: int)
    requires
        0 <= k <= s.len(),
        forall|i: int| 0 <= i < k ==> is_digit_char(#[trigger] s[i]),
        k < s.len() ==> !is_digit_char(s[k]),
    ensures
        digit_prefix_len(s) == k,
    decreases s.len(),
{
    if s.len() == 0 || !is_digit_char(s[0]) {
        assert(k == 0);
    } else {
        assert(k >= 1) by {
            assert(is_digit_char(s[0]));
        }
        let t = s.drop_first();
        assert forall|i: int| 0 <= i < k - 1 implies is_digit_char(#[trigger] t[i]) by {
            assert(t[i] == s[i + 1]);
        }
        assert(k - 1 < t.len() ==> !is_digit_char(t[k - 1]));
        lemma_digit_prefix_len_is(t, k - 1);
    }
}

/// A longer digit prefix never has a smaller value.
proof fn lemma_digits_val_prefix_le(s: Seq<char>, j: int, k: int)
    requires
        0 <= j <= k <= s.len(),
    ensures
        digits_val(s.subrange(0, j)) <= digits_val(s.subrange(0, k)),
    decreases k - j,
{
    if j < k {
        lemma_digits_val_prefix_le(s, j, k - 1);
        let p = s.subrange(0, k);
        assert(p.drop_last() =~= s.subrange(0, k - 1));
        assert(digits_val(s.subrange(0, k - 1)) <= digits_val(p));
    }
}

/// Recognizes a move-number lexeme and builds its token.
fn is_move_number(s: &String) -> (r: Option<TokenType>)
    ensures
        r == if spec_is_move_number(s@) {
            Some(spec_move_number_token(s@))
        } else {
            None::<TokenType>
        },
{
    let st = s.as_str();
    let n = st.unicode_len();
    let mut k: usize = 0;
    let mut scanning = true;
    while scanning && k < n
        invariant
            st@ == s@,
            n == s@.len(),
            0 <= k <= n,
            forall|i: int| 0 <= i < k ==> is_digit_char(#[trigger] s@[i]),
            !scanning ==> k < n && !is_digit_char(s@[k as int]),
        decreases n - k, (if scanning { 1int } else { 0int }),
    {
        let c = st.get_char(k);
        if '0' <= c && c <= '9' {
            k += 1;
        } else {
            scanning = false;
        }
    }
    proof {
        lemma_digit_prefix_len_is(s@, k as int);
    }
    if k == 0 || k >= n {
        return None;
    }
    // all remaining characters must be dots
    let mut j: usize = k;
    while j < n
        invariant
            st@ == s@,
            n == s@.len(),
            0 < k < n,
            k <= j <= n,
            digit_prefix_len(s@) == k,
            forall|i: int| k <= i < j ==> #[trigger] s@[i] == '.',
        decreases n - j,
    {
        if st.get_char(j) != '.' {
            proof {
                assert(!all_dots(s@.subrange(k as int, n as int))) by {
                    assert(s@.subrange(k as int, n as int)[j - k] == s@[j as int]);
                }
            }
            return None;
        }
        j += 1;
    }
    proof {
        assert(all_dots(s@.subrange(k as int, n as int))) by {
            assert forall|i: int| 0 <= i < n - k implies #[trigger] s@.subrange(
                k as int,
                n as int,
            )[i] == '.' by {
                assert(s@.subrange(k as int, n as int)[i] == s@[i + k]);
            }
        }
    }
    // numeric value of the digit prefix, bailing out if it cannot fit
    let mut val: u64 = 0;
    let mut i: usize = 0;
    while i < k
        invariant
            st@ == s@,
            n == s@.len(),
            0 < k < n,
            0 <= i <= k,
            digit_prefix_len(s@) == k,
            forall|t: int| 0 <= t < k ==> is_digit_char(#[trigger] s@[t]),
            val == digits_val(s@.subrange(0, i as int)),
            val <= 4294967295,
        decreases k - i,
    {
        let c = st.get_char(i);
        let d = (c as u64) - 48;
        let v2 = val * 10 + d;
        proof {
            assert(s@.subrange(0, i + 1).drop_last() =~= s@.subrange(0, i as int));
            assert(digits_val(s@.subrange(0, i + 1)) == digits_val(s@.subrange(0, i as int)) * 10
                + digit_val(s@[i as int]));
        }
        if v2 > 4294967295 {
            proof {
                lemma_digits_val_prefix_le(s@, i + 1, k as int);
            }
            return None;
        }
        val = v2;
        i += 1;
    }
    proof {
        assert(spec_is_move_number(s@));
    }
    let side = if n - k == 1 {
        Side::White
    } else {
        Side::Black
    };
    Some(TokenType::MoveNumber { id: val as u32, side })
}

/// Recognizes one of the three result lexemes.
fn is_result_tag(s: &String) -> (r: Option<TokenType>)
    ensures
        r == if s@ == "1-0"@ {
            Some(TokenType::Result { result: ResultType::White })
        } else if s@ == "1/2-1/2"@ {
            Some(TokenType::Result { result: ResultType::Draw })
        } else if s@ == "0-1"@ {
            Some(TokenType::Result { result: ResultType::Black })
        } else {
            None::<TokenType>
        },
{
    if str_eq(s.as_str(), "1-0") {
        return Some(TokenType::Result { result: ResultType::White });
    }
    if str_eq(s.as_str(), "1/2-1/2") {
        return Some(TokenType::Result { result: ResultType::Draw });
    }
    if str_eq(s.as_str(), "0-1") {
        return Some(TokenType::Result { result: ResultType::Black });
    }
    None
}

/// One produced token: its lexeme and its kind.
pub ghost struct SpecToken {
    pub lexeme: Seq<char>,
    pub kind: TokenType,
}

/// The tokenizer state: the pending lexeme and the tokens already emitted.
pub ghost struct LexState {
    pub pending: Seq<char>,
    pub out: Seq<SpecToken>,
}

pub open spec fn lex_init() -> LexState {
    LexState { pending: Seq::<char>::empty(), out: Seq::<SpecToken>::empty() }
}

/// Emits the pending lexeme, if there is one.
pub open spec fn flushed(out: Seq<SpecToken>, pending: Seq<char>) -> Seq<SpecToken> {
    if pending.len() == 0 {
        out
    } else {
        out.push(SpecToken { lexeme: pending, kind: spec_classify_lexeme(pending) })
    }
}

/// What one input character does to the tokenizer state.
pub open spec fn lex_step(st: LexState, c: char) -> LexState {
    match spec_classify_char(c) {
        CharacterType::Number => LexState { pending: st.pending.push(c), ..st },
        CharacterType::Letter => LexState { pending: st.pending.push(c), ..st },
        CharacterType::Other => LexState { pending: st.pending.push(c), ..st },
        CharacterType::Whitespace => LexState {
            pending: Seq::<char>::empty(),
            out: flushed(st.out, st.pending),
        },
        CharacterType::Parenthesis(o) => LexState {
            pending: Seq::<char>::empty(),
            out: flushed(st.out, st.pending).push(
                SpecToken { lexeme: seq![c], kind: TokenType::VariantDelim { open: o } },
            ),
        },
        CharacterType::CurlyBracket(o) => LexState {
            pending: Seq::<char>::empty(),
            out: flushed(st.out, st.pending).push(
                SpecToken { lexeme: seq![c], kind: TokenType::CommentDelim { open: o } },
            ),
        },
        CharacterType::SquareBracket(o) => LexState {
            pending: Seq::<char>::empty(),
            out: flushed(st.out, st.pending).push(
                SpecToken { lexeme: seq![c], kind: TokenType::TagDelim { open: o } },
            ),
        },
    }
}

/// [`lex_step`] folded over an input prefix.
pub open spec fn lex_run(st: LexState, s: Seq<char>) -> LexState
    decreases s.len(),
{
    if s.len() == 0 {
        st
    } else {
        lex_run(lex_step(st, s[0]), s.drop_first())
    }
}

/// The tokens of a whole input: run the state machine, then flush what is
/// still pending at the end.
pub open spec fn spec_tokenize(s: Seq<char>) -> Seq<SpecToken> {
    let st = lex_run(lex_init(), s);
    flushed(st.out, st.pending)
}

proof fn lemma_lex_run_push(st: LexState, s: Seq<char>, c: char)
    ensures
        lex_run(st, s.push(c)) == lex_step(lex_run(st, s), c),
    decreases s.len(),
{
    if s.len() == 0 {
        assert(s.push(c)[0] == c);
        assert(s.push(c).drop_first() =~= Seq::<char>::empty());
        assert(lex_run(st, s.push(c)) == lex_run(lex_step(st, c), s.push(c).drop_first()));
        assert(lex_run(lex_step(st, c), Seq::<char>::empty()) == lex_step(st, c));
        assert(lex_run(st, s) == st);
    } else {
        assert(s.push(c)[0] == s[0]);
        assert(s.push(c).drop_first() =~= s.drop_first().push(c));
        lemma_lex_run_push(lex_step(st, s[0]), s.drop_first(), c);
    }
}

/// The emitted pairs agree with the spec tokens, element by element.
spec fn tokens_match(res: Seq<(String, TokenType)>, out: Seq<SpecToken>) -> bool {
    &&& res.len() == out.len()
    &&& forall|k: int|
        0 <= k < out.len() ==> res[k].0@ == (#[trigger] out[k]).lexeme && res[k].1 == out[k].kind
}

/// Classifies a flushed lexeme and appends it, dropping an empty lexeme.
fn add_token(s: String, res: &mut TokenizedPGN)
    ensures
        final(res)@ == if s@.len() == 0 {
            old(res)@
        } else {
            old(res)@.push((s, spec_classify_lexeme(s@)))
        },
{
    if let Some(move_number) = is_move_number(&s) {
        proof {
            assert(s@.len() > 0);
        }
        res.push((s, move_number));
        return;
    }
    if let Some(result) = is_result_tag(&s) {
        proof {
            reveal_strlit("1-0");
            reveal_strlit("1/2-1/2");
            reveal_strlit("0-1");
        }
        res.push((s, result));
        return;
    }
    if !s.as_str().is_empty() {
        res.push((s, TokenType::Text));
    }
}

/// Makes a one-character string.
fn char_to_string(c: char) -> (r: String)
    ensures
        r@ == seq![c],
{
    let mut r = String::new();
    push_char(&mut r, c);
    proof {
        assert(r@ =~= seq![c]);
    }
    r
}

/// Splits movetext into tokens.
pub fn tokenize(s: String) -> (r: TokenizedPGN)
    ensures
        r@.len() == spec_tokenize(s@).len(),
        forall|k: int|
            0 <= k < spec_tokenize(s@).len() ==> r@[k].0@ == (#[trigger] spec_tokenize(
                s@,
            )[k]).lexeme && r@[k].1 == spec_tokenize(s@)[k].kind,
{
    let st = s.as_str();
    let n = st.unicode_len();
    let mut res: TokenizedPGN = Vec::new();
    let mut next_str: String = String::new();
    let mut i: usize = 0;
    proof {
        assert(s@.subrange(0, 0) =~= Seq::<char>::empty());
    }
    while i < n
        invariant
            st@ == s@,
            n == s@.len(),
            0 <= i <= n,
            ({
                let ls = lex_run(lex_init(), s@.subrange(0, i as int));
                &&& next_str@ == ls.pending
                &&& tokens_match(res@, ls.out)
            }),
        decreases n - i,
    {
        let c = st.get_char(i);
        proof {
            lemma_lex_run_push(lex_init(), s@.subrange(0, i as int), c);
            assert(s@.subrange(0, i + 1) =~= s@.subrange(0, i as int).push(c));
        }
        match classify_char(c) {
            CharacterType::Number => push_char(&mut next_str, c),
            CharacterType::Letter => push_char(&mut next_str, c),
            CharacterType::Other => push_char(&mut next_str, c),
            CharacterType::Whitespace => {
                add_token(next_str, &mut res);
                next_str = String::new();
            },
            CharacterType::Parenthesis(o) => {
                add_token(next_str, &mut res);
                res.push((char_to_string(c), TokenType::VariantDelim { open: o }));
                next_str = String::new();
            },
            CharacterType::CurlyBracket(o) => {
                add_token(next_str, &mut res);
                res.push((char_to_string(c), TokenType::CommentDelim { open: o }));
                next_str = String::new();
            },
            CharacterType::SquareBracket(o) => {
                add_token(next_str, &mut res);
                res.push((char_to_string(c), TokenType::TagDelim { open: o }));
                next_str = String::new();
            },
        }
        i += 1;
    }
    proof {
        assert(s@.subrange(0, n as int) =~= s@);
    }
    add_token(next_str, &mut res);
    res
}

} // verus!
