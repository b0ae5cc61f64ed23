//! The recursive-descent tree builder: consumes the token sequence and
//! produces the game tree.
//!
//! The specification has three layers. [`spec_parse_comment`] is a functional
//! token-level state machine for comment bodies. [`parse_end`] is the
//! grammar of the movetext proper: it says where parsing a given tree from a
//! given token position would end, and is `None` when the tokens do not
//! derive that tree; [`parses_to`] is the relational reading of it. The
//! executable parser is proved complete against it in both directions: it
//! returns the unique derivable tree, well formed in the sense of
//! [`tree_wf`], and fails exactly when no tree is derivable.
//! [`spec_headers`] covers the leading `[Name "Value"]` pairs.

use vstd::prelude::*;
use vstd::string::StringExecFns;
use crate::comment::Comment;
use crate::comment::CommentView;
use crate::comment::TagView;
use crate::comment::classify_tag;
use crate::comment::spec_classify_tag;
use crate::comment::tags_view;
use crate::game::Game;
use crate::game::GameTree;
use crate::game::TreeView;
use crate::game::GameTagView;
use crate::game::classify;
use crate::game::spec_classify_game_tag;
use crate::game::comments_view;
use crate::game::trees_view;
use crate::game::lemma_trees_view_index;
use crate::game::tree_wf;
use crate::game::trees_wf_at;
use crate::pgn_tokenizer::AllTokens;
use crate::pgn_tokenizer::AllTokenTypes;
use crate::pgn_tokenizer::Side;
use crate::pgn_tokenizer::TokenType;
use crate::pgn_tokenizer::other_side;
use crate::pgn_tokenizer::spec_other_side;

verus! {

/// A structural fault in the token stream; `at` is the index of the
/// offending token (or the token count, when input ended too early).
#[derive(Debug, Eq, PartialEq, Clone, Copy, Structural)]
pub enum ParseError {
    /// A mandatory move number is absent.
    MissingMoveNumber { at: usize },
    /// A move number does not carry the expected number and side.
    MoveNumberMismatch { at: usize },
    /// The move text itself is absent.
    MissingMoveText { at: usize },
    /// A line runs past the largest representable move number.
    MoveNumberOverflow { at: usize },
    /// A tag close with no tag open before it.
    UnexpectedTagClose { at: usize },
    /// A comment open inside a comment.
    UnexpectedCommentOpen { at: usize },
    /// A variation delimiter inside a comment.
    UnexpectedVariationDelim { at: usize },
    /// A tag open inside another tag.
    TagInsideTag { at: usize },
    /// A comment close inside a tag.
    CommentCloseInTag { at: usize },
    /// A tag with no name before the input ends.
    MissingTagName { at: usize },
}

/// Space-joining of comment words: an empty accumulator takes the word as it
/// is, otherwise one space separates the words.
pub open spec fn joined(acc: Seq<char>, w: Seq<char>) -> Seq<char> {
    if acc.len() == 0 {
        acc + w
    } else {
        acc + seq![' '] + w
    }
}

/// Where the comment parser stands: in free text, right after a tag open, or
/// inside a tag with its classified name and the value gathered so far.
pub ghost enum CommentMode {
    Free,
    TagName,
    TagValue(TagView, Seq<char>),
}

/// The comment parser, one token at a time, starting just after the comment
/// open. Words (text, and anything the lexeme classifier took for a move
/// number or a result) join the free text or the open tag's value; a tag
/// open starts a tag whose name is the next word; the tag close stores the
/// tag; the comment close ends the comment and is consumed. A comment or a
/// tag that still stands open when the input ends is kept: the grammar
/// tolerates an unterminated trailing comment.
pub open spec fn spec_parse_comment(
    lex: Seq<Seq<char>>,
    kinds: Seq<TokenType>,
    i: int,
    mode: CommentMode,
    text: Seq<char>,
    tags: Seq<(TagView, Seq<char>)>,
) -> Result<(CommentView, int), ParseError>
    decreases kinds.len() - i,
{
    let n = kinds.len() as int;
    if i < 0 || i >= n {
        match mode {
            CommentMode::Free => Ok((CommentView { text, tags }, i)),
            CommentMode::TagName => Err(ParseError::MissingTagName { at: i as usize }),
            CommentMode::TagValue(name, acc) => Ok(
                (CommentView { text, tags: tags.push((name, acc)) }, i),
            ),
        }
    } else {
        match mode {
            CommentMode::Free => match kinds[i] {
                TokenType::CommentDelim { open } => if open {
                    Err(ParseError::UnexpectedCommentOpen { at: i as usize })
                } else {
                    Ok((CommentView { text, tags }, i + 1))
                },
                TokenType::TagDelim { open } => if open {
                    spec_parse_comment(lex, kinds, i + 1, CommentMode::TagName, text, tags)
                } else {
                    Err(ParseError::UnexpectedTagClose { at: i as usize })
                },
                TokenType::VariantDelim { open } => Err(
                    ParseError::UnexpectedVariationDelim { at: i as usize },
                ),
                _ => spec_parse_comment(
                    lex,
                    kinds,
                    i + 1,
                    CommentMode::Free,
                    joined(text, lex[i]),
                    tags,
                ),
            },
            CommentMode::TagName => match kinds[i] {
                TokenType::CommentDelim { open } => if open {
                    Err(ParseError::UnexpectedCommentOpen { at: i as usize })
                } else {
                    Err(ParseError::CommentCloseInTag { at: i as usize })
                },
                TokenType::TagDelim { open } => if open {
                    Err(ParseError::TagInsideTag { at: i as usize })
                } else {
                    Err(ParseError::MissingTagName { at: i as usize })
                },
                TokenType::VariantDelim { open } => Err(
                    ParseError::UnexpectedVariationDelim { at: i as usize },
                ),
                _ => spec_parse_comment(
                    lex,
                    kinds,
                    i + 1,
                    CommentMode::TagValue(spec_classify_tag(lex[i]), Seq::<char>::empty()),
                    text,
                    tags,
                ),
            },
            CommentMode::TagValue(name, acc) => match kinds[i] {
                TokenType::CommentDelim { open } => if open {
                    Err(ParseError::UnexpectedCommentOpen { at: i as usize })
                } else {
                    Err(ParseError::CommentCloseInTag { at: i as usize })
                },
                TokenType::TagDelim { open } => if open {
                    Err(ParseError::TagInsideTag { at: i as usize })
                } else {
                    spec_parse_comment(
                        lex,
                        kinds,
                        i + 1,
                        CommentMode::Free,
                        text,
                        tags.push((name, acc)),
                    )
                },
                TokenType::VariantDelim { open } => Err(
                    ParseError::UnexpectedVariationDelim { at: i as usize },
                ),
                _ => spec_parse_comment(
                    lex,
                    kinds,
                    i + 1,
                    CommentMode::TagValue(name, joined(acc, lex[i])),
                    text,
                    tags,
                ),
            },
        }
    }
}

/// The terminal node made from a result lexeme.
pub open spec fn result_view(lexeme: Seq<char>) -> TreeView {
    TreeView {
        game_move: lexeme,
        is_result: true,
        move_number: 0,
        side: Option::None,
        comments: Seq::<CommentView>::empty(),
        next: Option::None,
        variations: Seq::<TreeView>::empty(),
    }
}

/// Where parsing the node `t` from token `i` would end, if the tokens
/// `i..` derive exactly `t`; `None` when they do not. The node is expected at
/// ply (`num`, `side`), with a move number mandatory when `expect` holds. A
/// result token is a terminal node, consumed with nothing after it. Any
/// other node consumes its optional move number (which must then agree with
/// the expected ply), its move text, a run of variations and comments, and
/// then either ends its line (at the input's end or by consuming a variation
/// close) or continues with the opposite side, the number advancing when
/// White is next and a move number being mandatory again after a variation
/// or comment run.
pub open spec fn parse_end(
    lex: Seq<Seq<char>>,
    kinds: Seq<TokenType>,
    i: int,
    num: u16,
    side: Side,
    expect: bool,
    t: TreeView,
) -> Option<int>
    decreases t,
{
    let n = kinds.len() as int;
    if t.is_result {
        if 0 <= i < n && kinds[i] is Result && t == result_view(lex[i]) {
            Option::Some(i + 1)
        } else {
            Option::None
        }
    } else {
        let i1 = if 0 <= i < n && kinds[i] is MoveNumber {
            i + 1
        } else {
            i
        };
        let number_ok = 0 <= i < n && match kinds[i] {
            TokenType::MoveNumber { id, side: ms } => id == num && ms == side,
            _ => !expect,
        };
        if !number_ok || !(i1 < n) || !(kinds[i1] is Text) || t.game_move != lex[i1]
            || t.move_number != num || t.side != Option::Some(side) {
            Option::None
        } else {
            match vars_coms_end(lex, kinds, i1 + 1, num, side, t.variations, t.comments) {
                Option::None => Option::None,
                Option::Some(i2) => match t.next {
                    Option::None => if i2 == n {
                        Option::Some(i2)
                    } else if kinds[i2] == (TokenType::VariantDelim { open: false }) {
                        Option::Some(i2 + 1)
                    } else {
                        Option::None
                    },
                    Option::Some(m) => {
                        let next_side = spec_other_side(side);
                        let next_num: int = if next_side == Side::White {
                            num + 1
                        } else {
                            num as int
                        };
                        if i2 < n && kinds[i2] != (TokenType::VariantDelim { open: false })
                            && next_num <= u16::MAX {
                            parse_end(
                                lex,
                                kinds,
                                i2,
                                next_num as u16,
                                next_side,
                                t.variations.len() > 0 || t.comments.len() > 0,
                                *m,
                            )
                        } else {
                            Option::None
                        }
                    },
                },
            }
        }
    }
}

/// Where a run of variations and comments from token `i` would end, if it
/// derives exactly `vars` and `coms`: each variation open starts a sub-line
/// (with a mandatory move number, at the same ply) whose last node consumes
/// the matching close, and each comment open starts a comment; the run ends
/// at the first token that opens neither, which must find both lists used
/// up.
pub open spec fn vars_coms_end(
    lex: Seq<Seq<char>>,
    kinds: Seq<TokenType>,
    i: int,
    num: u16,
    side: Side,
    vars: Seq<TreeView>,
    coms: Seq<CommentView>,
) -> Option<int>
    decreases vars, coms,
{
    let n = kinds.len() as int;
    if 0 <= i < n && kinds[i] == (TokenType::VariantDelim { open: true }) {
        if vars.len() == 0 {
            Option::None
        } else {
            match parse_end(lex, kinds, i + 1, num, side, true, vars[0]) {
                Option::None => Option::None,
                Option::Some(mid) => vars_coms_end(
                    lex,
                    kinds,
                    mid,
                    num,
                    side,
                    vars.drop_first(),
                    coms,
                ),
            }
        }
    } else if 0 <= i < n && kinds[i] == (TokenType::CommentDelim { open: true }) {
        if coms.len() == 0 {
            Option::None
        } else {
            match spec_parse_comment(
                lex,
                kinds,
                i + 1,
                CommentMode::Free,
                Seq::<char>::empty(),
                Seq::<(TagView, Seq<char>)>::empty(),
            ) {
                Ok((c0, mid)) => if coms[0] == c0 {
                    vars_coms_end(lex, kinds, mid, num, side, vars, coms.drop_first())
                } else {
                    Option::None
                },
                Err(e) => Option::None,
            }
        }
    } else {
        if vars.len() == 0 && coms.len() == 0 {
            Option::Some(i)
        } else {
            Option::None
        }
    }
}

/// The derivation relation of the movetext grammar: tokens `i..j` parse, at
/// ply (`num`, `side`) and with `expect` saying whether a move number is
/// mandatory, into exactly the node `t`.
pub open spec fn parses_to(
    lex: Seq<Seq<char>>,
    kinds: Seq<TokenType>,
    i: int,
    j: int,
    num: u16,
    side: Side,
    expect: bool,
    t: TreeView,
) -> bool {
    parse_end(lex, kinds, i, num, side, expect, t) == Option::Some(j)
}

/// Views of a header tag list, element by element.
pub open spec fn game_tags_view(s: Seq<(crate::game::TagType, String)>) -> Seq<
    (GameTagView, Seq<char>),
> {
    s.map_values(|p: (crate::game::TagType, String)| (p.0@, p.1@))
}

/// The leading header tag pairs: each is four tokens, `[ Name Value ]`, the
/// fourth skipped without inspection; headers that run off the end of the
/// input are a fault.
pub open spec fn spec_headers(lex: Seq<Seq<char>>, kinds: Seq<TokenType>, i: int) -> Result<
    (Seq<(GameTagView, Seq<char>)>, int),
    (),
>
    decreases kinds.len() - i,
{
    let n = kinds.len() as int;
    if 0 <= i < n && kinds[i] == (TokenType::TagDelim { open: true }) {
        if n - i >= 4 {
            match spec_headers(lex, kinds, i + 4) {
                Ok((rest, j)) => Ok(
                    (seq![(spec_classify_game_tag(lex[i + 1]), lex[i + 2])] + rest, j),
                ),
                Err(()) => Err(()),
            }
        } else {
            Err(())
        }
    } else {
        Ok((Seq::<(GameTagView, Seq<char>)>::empty(), i))
    }
}

/// Builds the game tree from a token list made with
/// [`crate::pgn_tokenizer::tokenize`].
pub struct PGNTreeBuilder {
    pub m_tokens: AllTokens,
    pub m_token_types: AllTokenTypes,
    pub m_num_tokens: usize,
}

impl PGNTreeBuilder {
    /// One lexeme and one kind per token.
    pub open spec fn wf(&self) -> bool {
        &&& self.m_num_tokens == self.m_tokens@.len()
        &&& self.m_num_tokens == self.m_token_types@.len()
    }

    /// The lexemes, as character sequences.
    pub open spec fn lexemes(&self) -> Seq<Seq<char>> {
        self.m_tokens@.map_values(|t: String| t@)
    }

    /// The token kinds.
    pub open spec fn kinds(&self) -> Seq<TokenType> {
        self.m_token_types@
    }

    pub fn new() -> (b: PGNTreeBuilder)
        ensures
            b.wf(),
            b.m_num_tokens == 0,
    {
        PGNTreeBuilder { m_tokens: Vec::new(), m_token_types: Vec::new(), m_num_tokens: 0 }
    }

    pub fn set_token_list(&mut self, tokens: AllTokens, token_types: AllTokenTypes)
        requires
            tokens@.len() == token_types@.len(),
        ensures
            final(self).wf(),
            final(self).m_tokens == tokens,
            final(self).m_token_types == token_types,
    {
        self.m_tokens = tokens;
        self.m_token_types = token_types;
        self.m_num_tokens = self.m_tokens.len();
    }

    /// A copy of the lexeme at `i`; the token list itself stays as it is.
    fn retrieve_token(&self, i: usize) -> (r: String)
        requires
            self.wf(),
            i < self.m_num_tokens,
        ensures
            r@ == self.lexemes()[i as int],
    {
        self.m_tokens[i].clone()
    }

    fn is_tag_open(&self, i: usize) -> (r: bool)
        requires
            self.wf(),
            i < self.m_num_tokens,
        ensures
            r == (self.kinds()[i as int] == (TokenType::TagDelim { open: true })),
    {
        match self.m_token_types[i] {
            TokenType::TagDelim { open: true } => true,
            _ => false,
        }
    }

    fn is_variant_or_comment(&self, i: usize) -> (r: bool)
        requires
            self.wf(),
            i < self.m_num_tokens,
        ensures
            r == (self.kinds()[i as int] == (TokenType::VariantDelim { open: true })
                || self.kinds()[i as int] == (TokenType::CommentDelim { open: true })),
    {
        match self.m_token_types[i] {
            TokenType::VariantDelim { open: true } => true,
            TokenType::CommentDelim { open: true } => true,
            _ => false,
        }
    }

    /// Reads one annotation tag, from its name token to past the tag close:
    /// returns the next index, the name and the space-joined value.
    fn parse_comment_tag(&self, i: usize) -> (r: Result<(usize, String, String), ParseError>)
        requires
            self.wf(),
            i <= self.m_num_tokens,
        ensures
            match r {
                Ok((next, name, value)) => {
                    &&& i < next <= self.m_num_tokens
                    &&& forall|text: Seq<char>, tags: Seq<(TagView, Seq<char>)>|
                        #[trigger] spec_parse_comment(
                            self.lexemes(),
                            self.kinds(),
                            i as int,
                            CommentMode::TagName,
                            text,
                            tags,
                        ) == spec_parse_comment(
                            self.lexemes(),
                            self.kinds(),
                            next as int,
                            CommentMode::Free,
                            text,
                            tags.push((spec_classify_tag(name@), value@)),
                        )
                },
                Err(e) => forall|text: Seq<char>, tags: Seq<(TagView, Seq<char>)>|
                    #[trigger] spec_parse_comment(
                        self.lexemes(),
                        self.kinds(),
                        i as int,
                        CommentMode::TagName,
                        text,
                        tags,
                    ) == Err::<(CommentView, int), ParseError>(e),
            },
    {
        let n = self.m_num_tokens;
        if i == n {
            return Err(ParseError::MissingTagName { at: i });
        }
        match self.m_token_types[i] {
            TokenType::CommentDelim { open } => {
                return Err(
                    if open {
                        ParseError::UnexpectedCommentOpen { at: i }
                    } else {
                        ParseError::CommentCloseInTag { at: i }
                    },
                );
            },
            TokenType::TagDelim { open } => {
                return Err(
                    if open {
                        ParseError::TagInsideTag { at: i }
                    } else {
                        ParseError::MissingTagName { at: i }
                    },
                );
            },
            TokenType::VariantDelim { open } => {
                return Err(ParseError::UnexpectedVariationDelim { at: i });
            },
            _ => {},
        }
        let tag_name = self.retrieve_token(i);
        let ghost nm = spec_classify_tag(tag_name@);
        let mut text_tag = String::new();
        let mut j = i + 1;
        while j < n
            invariant
                self.wf(),
                n == self.m_num_tokens,
                i < j <= n,
                nm == spec_classify_tag(tag_name@),
                forall|text: Seq<char>, tags: Seq<(TagView, Seq<char>)>|
                    #[trigger] spec_parse_comment(
                        self.lexemes(),
                        self.kinds(),
                        i as int,
                        CommentMode::TagName,
                        text,
                        tags,
                    ) == spec_parse_comment(
                        self.lexemes(),
                        self.kinds(),
                        j as int,
                        CommentMode::TagValue(nm, text_tag@),
                        text,
                        tags,
                    ),
            decreases n - j,
        {
            match self.m_token_types[j] {
                TokenType::CommentDelim { open } => {
                    return Err(
                        if open {
                            ParseError::UnexpectedCommentOpen { at: j }
                        } else {
                            ParseError::CommentCloseInTag { at: j }
                        },
                    );
                },
                TokenType::TagDelim { open } => {
                    if open {
                        return Err(ParseError::TagInsideTag { at: j });
                    }
                    return Ok((j + 1, tag_name, text_tag));
                },
                TokenType::VariantDelim { open } => {
                    return Err(ParseError::UnexpectedVariationDelim { at: j });
                },
                _ => {
                    let w = self.retrieve_token(j);
                    if text_tag.as_str().is_empty() {
                        proof {
                            assert(joined(text_tag@, w@) =~= w@);
                        }
                        text_tag = w;
                    } else {
                        let ghost acc0 = text_tag@;
                        crate::strutil::push_char(&mut text_tag, ' ');
                        text_tag.append(w.as_str());
                        proof {
                            assert(text_tag@ =~= joined(acc0, w@));
                        }
                    }
                    j += 1;
                },
            }
        }
        Ok((n, tag_name, text_tag))
    }

    /// Reads one comment body, from just after the comment open to past the
    /// comment close.
    fn parse_comment(&self, i: usize) -> (r: Result<(Comment, usize), ParseError>)
        requires
            self.wf(),
            i <= self.m_num_tokens,
        ensures
            match r {
                Ok((com, next)) => {
                    &&& i <= next <= self.m_num_tokens
                    &&& spec_parse_comment(
                        self.lexemes(),
                        self.kinds(),
                        i as int,
                        CommentMode::Free,
                        Seq::<char>::empty(),
                        Seq::<(TagView, Seq<char>)>::empty(),
                    ) == Ok::<(CommentView, int), ParseError>((com@, next as int))
                },
                Err(e) => spec_parse_comment(
                    self.lexemes(),
                    self.kinds(),
                    i as int,
                    CommentMode::Free,
                    Seq::<char>::empty(),
                    Seq::<(TagView, Seq<char>)>::empty(),
                ) == Err::<(CommentView, int), ParseError>(e),
            },
    {
        let n = self.m_num_tokens;
        let mut com = Comment::new();
        let mut text_comment = String::new();
        let mut j = i;
        proof {
            assert(tags_view(com.m_tags@) =~= Seq::<(TagView, Seq<char>)>::empty());
        }
        while j < n
            invariant
                self.wf(),
                n == self.m_num_tokens,
                i <= j <= n,
                com.m_text@.len() == 0,
                spec_parse_comment(
                    self.lexemes(),
                    self.kinds(),
                    i as int,
                    CommentMode::Free,
                    Seq::<char>::empty(),
                    Seq::<(TagView, Seq<char>)>::empty(),
                ) == spec_parse_comment(
                    self.lexemes(),
                    self.kinds(),
                    j as int,
                    CommentMode::Free,
                    text_comment@,
                    tags_view(com.m_tags@),
                ),
            decreases n - j,
        {
            match self.m_token_types[j] {
                TokenType::CommentDelim { open } => {
                    if open {
                        proof {
                            assert(spec_parse_comment(
                                self.lexemes(),
                                self.kinds(),
                                j as int,
                                CommentMode::Free,
                                text_comment@,
                                tags_view(com.m_tags@),
                            ) == Err::<(CommentView, int), ParseError>(
                                ParseError::UnexpectedCommentOpen { at: j },
                            ));
                        }
                        return Err(ParseError::UnexpectedCommentOpen { at: j });
                    }
                    proof {
                        assert((j + 1) as int == j as int + 1);
                        assert(spec_parse_comment(
                            self.lexemes(),
                            self.kinds(),
                            j as int,
                            CommentMode::Free,
                            text_comment@,
                            tags_view(com.m_tags@),
                        ) == Ok::<(CommentView, int), ParseError>(
                            (
                                CommentView { text: text_comment@, tags: tags_view(com.m_tags@) },
                                j as int + 1,
                            ),
                        ));
                    }
                    com.set_text(text_comment);
                    return Ok((com, j + 1));
                },
                TokenType::TagDelim { open } => {
                    if !open {
                        proof {
                            assert(spec_parse_comment(
                                self.lexemes(),
                                self.kinds(),
                                j as int,
                                CommentMode::Free,
                                text_comment@,
                                tags_view(com.m_tags@),
                            ) == Err::<(CommentView, int), ParseError>(
                                ParseError::UnexpectedTagClose { at: j },
                            ));
                        }
                        return Err(ParseError::UnexpectedTagClose { at: j });
                    }
                    proof {
                        assert((j + 1) as int == j as int + 1);
                        assert(spec_parse_comment(
                            self.lexemes(),
                            self.kinds(),
                            j as int,
                            CommentMode::Free,
                            text_comment@,
                            tags_view(com.m_tags@),
                        ) == spec_parse_comment(
                            self.lexemes(),
                            self.kinds(),
                            j as int + 1,
                            CommentMode::TagName,
                            text_comment@,
                            tags_view(com.m_tags@),
                        ));
                    }
                    match self.parse_comment_tag(j + 1) {
                        Ok((next, name, value)) => {
                            let ghost tags0 = tags_view(com.m_tags@);
                            proof {
                                assert(spec_parse_comment(
                                    self.lexemes(),
                                    self.kinds(),
                                    (j + 1) as int,
                                    CommentMode::TagName,
                                    text_comment@,
                                    tags0,
                                ) == spec_parse_comment(
                                    self.lexemes(),
                                    self.kinds(),
                                    next as int,
                                    CommentMode::Free,
                                    text_comment@,
                                    tags0.push((spec_classify_tag(name@), value@)),
                                ));
                            }
                            let tag = classify_tag(name);
                            com.add_tag(tag, value);
                            proof {
                                assert(tags_view(com.m_tags@) =~= tags0.push((tag@, value@)));
                            }
                            j = next;
                        },
                        Err(e) => {
                            proof {
                                assert(spec_parse_comment(
                                    self.lexemes(),
                                    self.kinds(),
                                    (j + 1) as int,
                                    CommentMode::TagName,
                                    text_comment@,
                                    tags_view(com.m_tags@),
                                ) == Err::<(CommentView, int), ParseError>(e));
                            }
                            return Err(e);
                        },
                    }
                },
                TokenType::VariantDelim { open } => {
                    proof {
                        assert(spec_parse_comment(
                            self.lexemes(),
                            self.kinds(),
                            j as int,
                            CommentMode::Free,
                            text_comment@,
                            tags_view(com.m_tags@),
                        ) == Err::<(CommentView, int), ParseError>(
                            ParseError::UnexpectedVariationDelim { at: j },
                        ));
                    }
                    return Err(ParseError::UnexpectedVariationDelim { at: j });
                },
                _ => {
                    let w = self.retrieve_token(j);
                    let ghost accb = text_comment@;
                    if text_comment.as_str().is_empty() {
                        proof {
                            assert(joined(text_comment@, w@) =~= w@);
                        }
                        text_comment = w;
                    } else {
                        crate::strutil::push_char(&mut text_comment, ' ');
                        text_comment.append(w.as_str());
                        proof {
                            assert(text_comment@ =~= joined(accb, w@));
                        }
                    }
                    proof {
                        assert(spec_parse_comment(
                            self.lexemes(),
                            self.kinds(),
                            j as int,
                            CommentMode::Free,
                            accb,
                            tags_view(com.m_tags@),
                        ) == spec_parse_comment(
                            self.lexemes(),
                            self.kinds(),
                            j as int + 1,
                            CommentMode::Free,
                            joined(accb, self.lexemes()[j as int]),
                            tags_view(com.m_tags@),
                        ));
                    }
                    j += 1;
                },
            }
        }
        proof {
            assert(spec_parse_comment(
                self.lexemes(),
                self.kinds(),
                n as int,
                CommentMode::Free,
                text_comment@,
                tags_view(com.m_tags@),
            ) == Ok::<(CommentView, int), ParseError>(
                (CommentView { text: text_comment@, tags: tags_view(com.m_tags@) }, n as int),
            ));
        }
        com.set_text(text_comment);
        Ok((com, n))
    }

    /// Reads the run of variations and comments that may follow a move.
    #[verifier::rlimit(60)]
    fn parse_interruptions(&self, i: usize, move_number: u16, side: Side) -> (r: Result<
        (Vec<GameTree>, Vec<Comment>, usize),
        ParseError,
    >)
        requires
            self.wf(),
            i <= self.m_num_tokens,
        ensures
            match r {
                Ok((vars, coms, next)) => {
                    &&& i <= next <= self.m_num_tokens
                    &&& trees_wf_at(trees_view(vars@), move_number, Option::Some(side))
                    &&& forall|vs: Seq<TreeView>, cs: Seq<CommentView>|
                        #[trigger] vars_coms_end(
                            self.lexemes(),
                            self.kinds(),
                            i as int,
                            move_number,
                            side,
                            vs,
                            cs,
                        ) == (if vs == trees_view(vars@) && cs == comments_view(coms@) {
                            Option::Some(next as int)
                        } else {
                            Option::<int>::None
                        })
                },
                Err(e) => forall|vs: Seq<TreeView>, cs: Seq<CommentView>|
                    (#[trigger] vars_coms_end(
                        self.lexemes(),
                        self.kinds(),
                        i as int,
                        move_number,
                        side,
                        vs,
                        cs,
                    )) is None,
            },
        decreases self.m_num_tokens - i,
    {
        let n = self.m_num_tokens;
        let ghost lx = self.lexemes();
        let ghost kd = self.kinds();
        if i < n && self.is_variant_or_comment(i) {
            if let TokenType::VariantDelim { .. } = self.m_token_types[i] {
                proof {
                    assert((i + 1) as int == i as int + 1);
                }
                match self.build_game_tree_rec(i + 1, move_number, true, side) {
                    Err(e) => {
                        proof {
                            assert forall|vs: Seq<TreeView>, cs: Seq<CommentView>|
                                (#[trigger] vars_coms_end(
                                    lx,
                                    kd,
                                    i as int,
                                    move_number,
                                    side,
                                    vs,
                                    cs,
                                )) is None by {
                                if vs.len() > 0 {
                                    assert(parse_end(
                                        lx,
                                        kd,
                                        i as int + 1,
                                        move_number,
                                        side,
                                        true,
                                        vs[0],
                                    ) is None);
                                }
                            }
                        }
                        Err(e)
                    },
                    Ok((Option::None, _)) => {
                        proof {
                            assert forall|vs: Seq<TreeView>, cs: Seq<CommentView>|
                                (#[trigger] vars_coms_end(
                                    lx,
                                    kd,
                                    i as int,
                                    move_number,
                                    side,
                                    vs,
                                    cs,
                                )) is None by {
                                if vs.len() > 0 {
                                    assert(parse_end(
                                        lx,
                                        kd,
                                        i as int + 1,
                                        move_number,
                                        side,
                                        true,
                                        vs[0],
                                    ) is None);
                                }
                            }
                        }
                        Err(ParseError::MissingMoveNumber { at: n })
                    },
                    Ok((Option::Some(gg), mid)) => {
                        match self.parse_interruptions(mid, move_number, side) {
                            Err(e) => {
                                proof {
                                    assert forall|vs: Seq<TreeView>, cs: Seq<CommentView>|
                                        (#[trigger] vars_coms_end(
                                            lx,
                                            kd,
                                            i as int,
                                            move_number,
                                            side,
                                            vs,
                                            cs,
                                        )) is None by {
                                        if vs.len() > 0 {
                                            assert(parse_end(
                                                lx,
                                                kd,
                                                i as int + 1,
                                                move_number,
                                                side,
                                                true,
                                                vs[0],
                                            ) == (if vs[0] == gg@ {
                                                Option::Some(mid as int)
                                            } else {
                                                Option::<int>::None
                                            }));
                                            if vs[0] == gg@ {
                                                assert(vars_coms_end(
                                                    lx,
                                                    kd,
                                                    mid as int,
                                                    move_number,
                                                    side,
                                                    vs.drop_first(),
                                                    cs,
                                                ) is None);
                                            }
                                        }
                                    }
                                }
                                Err(e)
                            },
                            Ok((mut vars, coms, next)) => {
                                let ghost gv = gg@;
                                let ghost vars0 = vars@;
                                vars.insert(0, gg);
                                proof {
                                    lemma_trees_view_index(vars@);
                                    lemma_trees_view_index(vars0);
                                    assert(vars@ == vars0.insert(0, gg));
                                    assert(vars@ =~= seq![gg] + vars0);
                                    assert(trees_view(vars@)[0] == gv);
                                    assert forall|k: int| 0 <= k < vars0.len() implies
                                        trees_view(vars@).drop_first()[k] == trees_view(
                                        vars0,
                                    )[k] by {
                                        assert(vars@[k + 1] == vars0[k]);
                                    }
                                    assert(trees_view(vars@).drop_first() =~= trees_view(vars0));
                                    assert((i + 1) as int == i as int + 1);
                                    assert(self.kinds()[i as int] == (TokenType::VariantDelim {
                                        open: true,
                                    }));
                                    assert(parse_end(
                                        self.lexemes(),
                                        self.kinds(),
                                        i as int + 1,
                                        move_number,
                                        side,
                                        true,
                                        trees_view(vars@)[0],
                                    ) == Option::Some(mid as int));
                                    assert(vars_coms_end(
                                        self.lexemes(),
                                        self.kinds(),
                                        mid as int,
                                        move_number,
                                        side,
                                        trees_view(vars@).drop_first(),
                                        comments_view(coms@),
                                    ) == Option::Some(next as int));
                                    assert(vars_coms_end(
                                        self.lexemes(),
                                        self.kinds(),
                                        i as int,
                                        move_number,
                                        side,
                                        trees_view(vars@),
                                        comments_view(coms@),
                                    ) == Option::Some(next as int));
                                    assert forall|vs: Seq<TreeView>, cs: Seq<CommentView>|
                                        #[trigger] vars_coms_end(
                                            lx,
                                            kd,
                                            i as int,
                                            move_number,
                                            side,
                                            vs,
                                            cs,
                                        ) == (if vs == trees_view(vars@) && cs == comments_view(
                                        coms@,
                                    ) {
                                        Option::Some(next as int)
                                    } else {
                                        Option::<int>::None
                                    }) by {
                                        if vs.len() == 0 {
                                            assert(trees_view(vars@).len() > 0);
                                        } else {
                                            assert(parse_end(
                                                lx,
                                                kd,
                                                i as int + 1,
                                                move_number,
                                                side,
                                                true,
                                                vs[0],
                                            ) == (if vs[0] == gv {
                                                Option::Some(mid as int)
                                            } else {
                                                Option::<int>::None
                                            }));
                                            if vs[0] == gv {
                                                assert(vars_coms_end(
                                                    lx,
                                                    kd,
                                                    mid as int,
                                                    move_number,
                                                    side,
                                                    vs.drop_first(),
                                                    cs,
                                                ) == (if vs.drop_first() == trees_view(vars0) && cs
                                                    == comments_view(coms@) {
                                                    Option::Some(next as int)
                                                } else {
                                                    Option::<int>::None
                                                }));
                                                if vs.drop_first() == trees_view(vars0) && cs
                                                    == comments_view(coms@) {
                                                    assert forall|k: int|
                                                        0 <= k < trees_view(vars@).len() implies
                                                        vs[k] == trees_view(vars@)[k] by {
                                                        if k > 0 {
                                                            assert(vs.drop_first()[k - 1] == vs[k]);
                                                            assert(trees_view(
                                                                vars@,
                                                            ).drop_first()[k - 1] == trees_view(
                                                                vars@,
                                                            )[k]);
                                                        }
                                                    }
                                                    assert(vs =~= trees_view(vars@));
                                                } else {
                                                    if vs == trees_view(vars@) {
                                                        assert(vs.drop_first() == trees_view(
                                                            vars@,
                                                        ).drop_first());
                                                    }
                                                }
                                            } else {
                                                if vs == trees_view(vars@) {
                                                    assert(vs[0] == gv);
                                                }
                                            }
                                        }
                                    }
                                }
                                Ok((vars, coms, next))
                            },
                        }
                    },
                }
            } else {
                proof {
                    assert((i + 1) as int == i as int + 1);
                }
                match self.parse_comment(i + 1) {
                    Err(e) => {
                        proof {
                            assert forall|vs: Seq<TreeView>, cs: Seq<CommentView>|
                                (#[trigger] vars_coms_end(
                                    lx,
                                    kd,
                                    i as int,
                                    move_number,
                                    side,
                                    vs,
                                    cs,
                                )) is None by {}
                        }
                        Err(e)
                    },
                    Ok((com, mid)) => {
                        match self.parse_interruptions(mid, move_number, side) {
                            Err(e) => {
                                proof {
                                    assert forall|vs: Seq<TreeView>, cs: Seq<CommentView>|
                                        (#[trigger] vars_coms_end(
                                            lx,
                                            kd,
                                            i as int,
                                            move_number,
                                            side,
                                            vs,
                                            cs,
                                        )) is None by {
                                        if cs.len() > 0 && cs[0] == com@ {
                                            assert(vars_coms_end(
                                                lx,
                                                kd,
                                                mid as int,
                                                move_number,
                                                side,
                                                vs,
                                                cs.drop_first(),
                                            ) is None);
                                        }
                                    }
                                }
                                Err(e)
                            },
                            Ok((vars, mut coms, next)) => {
                                let ghost cv = com@;
                                let ghost coms0 = coms@;
                                coms.insert(0, com);
                                proof {
                                    assert(coms@ == coms0.insert(0, com));
                                    assert(comments_view(coms@)[0] == cv);
                                    assert forall|k: int| 0 <= k < coms0.len() implies
                                        comments_view(coms@).drop_first()[k] == comments_view(
                                        coms0,
                                    )[k] by {
                                        assert(coms@[k + 1] == coms0[k]);
                                    }
                                    assert(comments_view(coms@).drop_first() =~= comments_view(
                                        coms0,
                                    ));
                                    assert((i + 1) as int == i as int + 1);
                                    assert(self.kinds()[i as int] == (TokenType::CommentDelim {
                                        open: true,
                                    }));
                                    assert(spec_parse_comment(
                                        self.lexemes(),
                                        self.kinds(),
                                        i as int + 1,
                                        CommentMode::Free,
                                        Seq::<char>::empty(),
                                        Seq::<(TagView, Seq<char>)>::empty(),
                                    ) == Ok::<(CommentView, int), ParseError>(
                                        (comments_view(coms@)[0], mid as int),
                                    ));
                                    assert(vars_coms_end(
                                        self.lexemes(),
                                        self.kinds(),
                                        mid as int,
                                        move_number,
                                        side,
                                        trees_view(vars@),
                                        comments_view(coms@).drop_first(),
                                    ) == Option::Some(next as int));
                                    assert(vars_coms_end(
                                        self.lexemes(),
                                        self.kinds(),
                                        i as int,
                                        move_number,
                                        side,
                                        trees_view(vars@),
                                        comments_view(coms@),
                                    ) == Option::Some(next as int));
                                    assert forall|vs: Seq<TreeView>, cs: Seq<CommentView>|
                                        #[trigger] vars_coms_end(
                                            lx,
                                            kd,
                                            i as int,
                                            move_number,
                                            side,
                                            vs,
                                            cs,
                                        ) == (if vs == trees_view(vars@) && cs == comments_view(
                                        coms@,
                                    ) {
                                        Option::Some(next as int)
                                    } else {
                                        Option::<int>::None
                                    }) by {
                                        if cs.len() == 0 {
                                            assert(comments_view(coms@).len() > 0);
                                        } else {
                                            if cs[0] == cv {
                                                assert(vars_coms_end(
                                                    lx,
                                                    kd,
                                                    mid as int,
                                                    move_number,
                                                    side,
                                                    vs,
                                                    cs.drop_first(),
                                                ) == (if vs == trees_view(vars@) && cs.drop_first()
                                                    == comments_view(coms0) {
                                                    Option::Some(next as int)
                                                } else {
                                                    Option::<int>::None
                                                }));
                                                if vs == trees_view(vars@) && cs.drop_first()
                                                    == comments_view(coms0) {
                                                    assert forall|k: int|
                                                        0 <= k < comments_view(coms@).len() implies
                                                        cs[k] == comments_view(coms@)[k] by {
                                                        if k > 0 {
                                                            assert(cs.drop_first()[k - 1] == cs[k]);
                                                            assert(comments_view(
                                                                coms@,
                                                            ).drop_first()[k - 1] == comments_view(
                                                                coms@,
                                                            )[k]);
                                                        }
                                                    }
                                                    assert(cs =~= comments_view(coms@));
                                                } else {
                                                    if cs == comments_view(coms@) {
                                                        assert(cs.drop_first() == comments_view(
                                                            coms@,
                                                        ).drop_first());
                                                    }
                                                }
                                            } else {
                                                if cs == comments_view(coms@) {
                                                    assert(cs[0] == cv);
                                                }
                                            }
                                        }
                                    }
                                }
                                Ok((vars, coms, next))
                            },
                        }
                    },
                }
            }
        } else {
            proof {
                assert(trees_view(Seq::<GameTree>::empty()) =~= Seq::<TreeView>::empty());
                assert(comments_view(Seq::<Comment>::empty()) =~= Seq::<CommentView>::empty());
                assert forall|vs: Seq<TreeView>, cs: Seq<CommentView>|
                    #[trigger] vars_coms_end(lx, kd, i as int, move_number, side, vs, cs) == (if vs
                        == Seq::<TreeView>::empty() && cs == Seq::<CommentView>::empty() {
                        Option::Some(i as int)
                    } else {
                        Option::<int>::None
                    }) by {
                    if vs.len() == 0 {
                        assert(vs =~= Seq::<TreeView>::empty());
                    }
                    if cs.len() == 0 {
                        assert(cs =~= Seq::<CommentView>::empty());
                    }
                }
            }
            Ok((Vec::new(), Vec::new(), i))
        }
    }

    /// One call of the recursive descent: parses a node and its continuation
    /// from `i`, at the given ply.
    #[verifier::rlimit(60)]
    fn build_game_tree_rec(&self, i: usize, move_number: u16, expect_move_id: bool, side: Side) -> (r:
        Result<(Option<GameTree>, usize), ParseError>)
        requires
            self.wf(),
            i <= self.m_num_tokens,
        ensures
            match r {
                Ok((og, next)) => {
                    &&& i <= next <= self.m_num_tokens
                    &&& match og {
                        Option::Some(g) => {
                            &&& next > i
                            &&& parses_to(
                                self.lexemes(),
                                self.kinds(),
                                i as int,
                                next as int,
                                move_number,
                                side,
                                expect_move_id,
                                g@,
                            )
                            &&& tree_wf(g@)
                            &&& (g@.is_result || (g@.move_number == move_number && g@.side
                                == Option::Some(side)))
                            &&& forall|t: TreeView|
                                #[trigger] parse_end(
                                    self.lexemes(),
                                    self.kinds(),
                                    i as int,
                                    move_number,
                                    side,
                                    expect_move_id,
                                    t,
                                ) == (if t == g@ {
                                    Option::Some(next as int)
                                } else {
                                    Option::<int>::None
                                })
                        },
                        Option::None => next == i && i == self.m_num_tokens && forall|t: TreeView|
                            (#[trigger] parse_end(
                                self.lexemes(),
                                self.kinds(),
                                i as int,
                                move_number,
                                side,
                                expect_move_id,
                                t,
                            )) is None,
                    }
                },
                Err(e) => forall|t: TreeView|
                    (#[trigger] parse_end(
                        self.lexemes(),
                        self.kinds(),
                        i as int,
                        move_number,
                        side,
                        expect_move_id,
                        t,
                    )) is None,
            },
        decreases self.m_num_tokens - i,
    {
        let n = self.m_num_tokens;
        let ghost lx = self.lexemes();
        let ghost kd = self.kinds();
        if i == n {
            return Ok((Option::None, i));
        }
        if let TokenType::Result { .. } = self.m_token_types[i] {
            let res = self.retrieve_token(i);
            let g = GameTree::new_data(
                res,
                true,
                0,
                Option::None,
                Vec::new(),
                Option::None,
                Vec::new(),
            );
            proof {
                assert(comments_view(Seq::<Comment>::empty()) =~= Seq::<CommentView>::empty());
                assert(trees_view(Seq::<GameTree>::empty()) =~= Seq::<TreeView>::empty());
                assert(g@ == result_view(self.lexemes()[i as int]));
                assert((i + 1) as int == i as int + 1);
                assert(parses_to(
                    self.lexemes(),
                    self.kinds(),
                    i as int,
                    i as int + 1,
                    move_number,
                    side,
                    expect_move_id,
                    g@,
                ));
                assert(trees_wf_at(g@.variations, g@.move_number, g@.side));
                assert(tree_wf(g@));
                assert forall|t: TreeView|
                    #[trigger] parse_end(lx, kd, i as int, move_number, side, expect_move_id, t)
                        == (if t == g@ {
                        Option::Some(i as int + 1)
                    } else {
                        Option::<int>::None
                    }) by {}
            }
            return Ok((Option::Some(g), i + 1));
        }
        let mut i1 = i;
        match self.m_token_types[i] {
            TokenType::MoveNumber { id, side: s2 } => {
                if !(id == move_number && s2 == side) {
                    proof {
                        assert forall|t: TreeView|
                            (#[trigger] parse_end(
                                lx,
                                kd,
                                i as int,
                                move_number,
                                side,
                                expect_move_id,
                                t,
                            )) is None by {}
                    }
                    return Err(ParseError::MoveNumberMismatch { at: i });
                }
                i1 = i + 1;
            },
            _ => {
                if expect_move_id {
                    proof {
                        assert forall|t: TreeView|
                            (#[trigger] parse_end(
                                lx,
                                kd,
                                i as int,
                                move_number,
                                side,
                                expect_move_id,
                                t,
                            )) is None by {}
                    }
                    return Err(ParseError::MissingMoveNumber { at: i });
                }
            },
        }
        proof {
            assert((if 0 <= i as int && (i as int) < kd.len() && kd[i as int] is MoveNumber {
                i as int + 1
            } else {
                i as int
            }) == i1 as int);
            assert((i1 + 1) as int == i1 as int + 1);
        }
        if i1 >= n {
            proof {
                assert forall|t: TreeView|
                    (#[trigger] parse_end(lx, kd, i as int, move_number, side, expect_move_id, t))
                        is None by {}
            }
            return Err(ParseError::MissingMoveText { at: i1 });
        }
        match self.m_token_types[i1] {
            TokenType::Text => {},
            _ => {
                proof {
                    assert forall|t: TreeView|
                        (#[trigger] parse_end(
                            lx,
                            kd,
                            i as int,
                            move_number,
                            side,
                            expect_move_id,
                            t,
                        )) is None by {}
                }
                return Err(ParseError::MissingMoveText { at: i1 });
            },
        }
        let move_text = self.retrieve_token(i1);
        let (vars, coms, i2) = match self.parse_interruptions(i1 + 1, move_number, side) {
            Ok(t) => t,
            Err(e) => {
                proof {
                    assert forall|t: TreeView|
                        (#[trigger] parse_end(
                            lx,
                            kd,
                            i as int,
                            move_number,
                            side,
                            expect_move_id,
                            t,
                        )) is None by {
                        if !t.is_result {
                            assert(vars_coms_end(
                                lx,
                                kd,
                                i1 as int + 1,
                                move_number,
                                side,
                                t.variations,
                                t.comments,
                            ) is None);
                        }
                    }
                }
                return Err(e);
            },
        };
        let ghost vars_v = trees_view(vars@);
        let ghost coms_v = comments_view(coms@);
        let found = vars.len() > 0 || coms.len() > 0;
        proof {
            lemma_trees_view_index(vars@);
        }
        if i2 < n && self.m_token_types[i2] == (TokenType::VariantDelim { open: false }) {
            let g = GameTree::new_data(
                move_text,
                false,
                move_number,
                Option::Some(side),
                coms,
                Option::None,
                vars,
            );
            proof {
                assert(g@.variations == vars_v && g@.comments == coms_v);
                assert((i1 + 1) as int == i1 as int + 1);
                assert(g@.game_move == self.lexemes()[i1 as int]);
                assert(!g@.is_result && g@.move_number == move_number && g@.side == Option::Some(
                    side,
                ));
                assert((if self.kinds()[i as int] is MoveNumber {
                    i as int + 1
                } else {
                    i as int
                }) == i1 as int);
                assert(vars_coms_end(
                    self.lexemes(),
                    self.kinds(),
                    i1 as int + 1,
                    move_number,
                    side,
                    g@.variations,
                    g@.comments,
                ) == Option::Some(i2 as int));
                assert(trees_wf_at(g@.variations, move_number, Option::Some(side)));
                assert(tree_wf(g@));
                assert((i2 + 1) as int == i2 as int + 1);
                assert(parses_to(
                    self.lexemes(),
                    self.kinds(),
                    i as int,
                    i2 as int + 1,
                    move_number,
                    side,
                    expect_move_id,
                    g@,
                ));
                assert forall|t: TreeView|
                    #[trigger] parse_end(lx, kd, i as int, move_number, side, expect_move_id, t)
                        == (if t == g@ {
                        Option::Some(i2 as int + 1)
                    } else {
                        Option::<int>::None
                    }) by {
                    if t.is_result {
                        assert(t != g@);
                    } else {
                        assert(vars_coms_end(
                            lx,
                            kd,
                            i1 as int + 1,
                            move_number,
                            side,
                            t.variations,
                            t.comments,
                        ) == (if t.variations == vars_v && t.comments == coms_v {
                            Option::Some(i2 as int)
                        } else {
                            Option::<int>::None
                        }));
                        if t.game_move == lx[i1 as int] && t.move_number == move_number && t.side
                            == Option::Some(side) && t.variations == vars_v && t.comments
                            == coms_v {
                            if t.next is None {
                                assert(t =~= g@);
                            } else {
                                assert(t != g@);
                            }
                        } else {
                            assert(t != g@);
                        }
                    }
                }
            }
            return Ok((Option::Some(g), i2 + 1));
        }
        if i2 == n {
            let g = GameTree::new_data(
                move_text,
                false,
                move_number,
                Option::Some(side),
                coms,
                Option::None,
                vars,
            );
            proof {
                assert(g@.variations == vars_v && g@.comments == coms_v);
                assert((i1 + 1) as int == i1 as int + 1);
                assert(g@.game_move == self.lexemes()[i1 as int]);
                assert(!g@.is_result && g@.move_number == move_number && g@.side == Option::Some(
                    side,
                ));
                assert((if self.kinds()[i as int] is MoveNumber {
                    i as int + 1
                } else {
                    i as int
                }) == i1 as int);
                assert(vars_coms_end(
                    self.lexemes(),
                    self.kinds(),
                    i1 as int + 1,
                    move_number,
                    side,
                    g@.variations,
                    g@.comments,
                ) == Option::Some(i2 as int));
                assert(trees_wf_at(g@.variations, move_number, Option::Some(side)));
                assert(tree_wf(g@));
                assert(parses_to(
                    self.lexemes(),
                    self.kinds(),
                    i as int,
                    i2 as int,
                    move_number,
                    side,
                    expect_move_id,
                    g@,
                ));
                assert forall|t: TreeView|
                    #[trigger] parse_end(lx, kd, i as int, move_number, side, expect_move_id, t)
                        == (if t == g@ {
                        Option::Some(i2 as int)
                    } else {
                        Option::<int>::None
                    }) by {
                    if t.is_result {
                        assert(t != g@);
                    } else {
                        assert(vars_coms_end(
                            lx,
                            kd,
                            i1 as int + 1,
                            move_number,
                            side,
                            t.variations,
                            t.comments,
                        ) == (if t.variations == vars_v && t.comments == coms_v {
                            Option::Some(i2 as int)
                        } else {
                            Option::<int>::None
                        }));
                        if t.game_move == lx[i1 as int] && t.move_number == move_number && t.side
                            == Option::Some(side) && t.variations == vars_v && t.comments
                            == coms_v {
                            if t.next is None {
                                assert(t =~= g@);
                            } else {
                                assert(t != g@);
                            }
                        } else {
                            assert(t != g@);
                        }
                    }
                }
            }
            return Ok((Option::Some(g), i2));
        }
        let next_side = other_side(&side);
        let mut next_num = move_number;
        if next_side == Side::White {
            if move_number == 65535 {
                proof {
                    assert forall|t: TreeView|
                        (#[trigger] parse_end(
                            lx,
                            kd,
                            i as int,
                            move_number,
                            side,
                            expect_move_id,
                            t,
                        )) is None by {
                        if !t.is_result {
                            assert(vars_coms_end(
                                lx,
                                kd,
                                i1 as int + 1,
                                move_number,
                                side,
                                t.variations,
                                t.comments,
                            ) == (if t.variations == vars_v && t.comments == coms_v {
                                Option::Some(i2 as int)
                            } else {
                                Option::<int>::None
                            }));
                        }
                    }
                }
                return Err(ParseError::MoveNumberOverflow { at: i2 });
            }
            next_num = move_number + 1;
        }
        proof {
            assert(found == (vars_v.len() > 0 || coms_v.len() > 0));
        }
        match self.build_game_tree_rec(i2, next_num, found, next_side) {
            Err(e) => {
                proof {
                    assert forall|t: TreeView|
                        (#[trigger] parse_end(
                            lx,
                            kd,
                            i as int,
                            move_number,
                            side,
                            expect_move_id,
                            t,
                        )) is None by {
                        if !t.is_result {
                            assert(vars_coms_end(
                                lx,
                                kd,
                                i1 as int + 1,
                                move_number,
                                side,
                                t.variations,
                                t.comments,
                            ) == (if t.variations == vars_v && t.comments == coms_v {
                                Option::Some(i2 as int)
                            } else {
                                Option::<int>::None
                            }));
                            if t.variations == vars_v && t.comments == coms_v && t.next is Some {
                                assert(parse_end(
                                    lx,
                                    kd,
                                    i2 as int,
                                    next_num,
                                    next_side,
                                    found,
                                    *t.next->0,
                                ) is None);
                            }
                        }
                    }
                }
                Err(e)
            },
            Ok((Option::None, _)) => vstd::pervasive::unreached(),
            Ok((Option::Some(gg), j)) => {
                let ghost ggv = gg@;
                let g = GameTree::new_data(
                    move_text,
                    false,
                    move_number,
                    Option::Some(side),
                    coms,
                    Option::Some(Box::new(gg)),
                    vars,
                );
                proof {
                    assert(g@.variations == vars_v && g@.comments == coms_v);
                    assert(g@.next == Option::Some(Box::new(ggv)));
                    assert((i1 + 1) as int == i1 as int + 1);
                    assert(g@.game_move == self.lexemes()[i1 as int]);
                    assert(!g@.is_result && g@.move_number == move_number && g@.side == Option::Some(
                    side,
                    ));
                    assert((if self.kinds()[i as int] is MoveNumber {
                    i as int + 1
                    } else {
                    i as int
                    }) == i1 as int);
                    assert(vars_coms_end(
                    self.lexemes(),
                    self.kinds(),
                    i1 as int + 1,
                    move_number,
                    side,
                    g@.variations,
                    g@.comments,
                    ) == Option::Some(i2 as int));
                    assert(trees_wf_at(g@.variations, move_number, Option::Some(side)));
                    assert(tree_wf(g@));
                    assert(*g@.next->0 == ggv);
                    assert(parses_to(
                        self.lexemes(),
                        self.kinds(),
                        i2 as int,
                        j as int,
                        next_num,
                        next_side,
                        vars_v.len() > 0 || coms_v.len() > 0,
                        ggv,
                    ));
                    assert(parses_to(
                        self.lexemes(),
                        self.kinds(),
                        i as int,
                        j as int,
                        move_number,
                        side,
                        expect_move_id,
                        g@,
                    ));
                assert forall|t: TreeView|
                        #[trigger] parse_end(lx, kd, i as int, move_number, side, expect_move_id, t)
                            == (if t == g@ {
                            Option::Some(j as int)
                        } else {
                            Option::<int>::None
                        }) by {
                        if t.is_result {
                            assert(t != g@);
                        } else {
                            assert(vars_coms_end(
                                lx,
                                kd,
                                i1 as int + 1,
                                move_number,
                                side,
                                t.variations,
                                t.comments,
                            ) == (if t.variations == vars_v && t.comments == coms_v {
                                Option::Some(i2 as int)
                            } else {
                                Option::<int>::None
                            }));
                            if t.game_move == lx[i1 as int] && t.move_number == move_number && t.side
                                == Option::Some(side) && t.variations == vars_v && t.comments
                                == coms_v {
                                if t.next is Some {
                                    assert(parse_end(
                                        lx,
                                        kd,
                                        i2 as int,
                                        next_num,
                                        next_side,
                                        found,
                                        *t.next->0,
                                    ) == (if *t.next->0 == ggv {
                                        Option::Some(j as int)
                                    } else {
                                        Option::<int>::None
                                    }));
                                    if *t.next->0 == ggv {
                                        assert(t.next == g@.next);
                                        assert(t =~= g@);
                                    } else {
                                        assert(t != g@);
                                    }
                                } else {
                                    assert(t != g@);
                                }
                            } else {
                                assert(t != g@);
                            }
                        }
                    }
                }
                Ok((Option::Some(g), j))
            },
        }
    }

    /// Builds the tree from token `i` on, returning `None` both on an empty
    /// stream and on a malformed one.
    pub fn build_game_tree(&mut self, i: usize) -> (r: Option<GameTree>)
        requires
            old(self).wf(),
            i <= old(self).m_num_tokens,
        ensures
            *final(self) == *old(self),
            match r {
                Option::Some(g) => {
                    &&& tree_wf(g@)
                    &&& exists|j: int|
                        #[trigger] parses_to(
                            old(self).lexemes(),
                            old(self).kinds(),
                            i as int,
                            j,
                            1u16,
                            Side::White,
                            true,
                            g@,
                        )
                    &&& forall|t: TreeView|
                        (#[trigger] parse_end(
                            old(self).lexemes(),
                            old(self).kinds(),
                            i as int,
                            1u16,
                            Side::White,
                            true,
                            t,
                        )) is Some ==> t == g@
                },
                Option::None => forall|t: TreeView|
                    (#[trigger] parse_end(
                        old(self).lexemes(),
                        old(self).kinds(),
                        i as int,
                        1u16,
                        Side::White,
                        true,
                        t,
                    )) is None,
            },
    {
        match self.try_build_game_tree(i) {
            Ok(og) => og,
            Err(_) => Option::None,
        }
    }

    /// Builds the tree from token `i` on, with the structural fault, if any,
    /// as the error.
    pub fn try_build_game_tree(&mut self, i: usize) -> (r: Result<Option<GameTree>, ParseError>)
        requires
            old(self).wf(),
            i <= old(self).m_num_tokens,
        ensures
            *final(self) == *old(self),
            match r {
                Ok(og) => match og {
                    Option::Some(g) => {
                        &&& tree_wf(g@)
                        &&& exists|j: int|
                            #[trigger] parses_to(
                                old(self).lexemes(),
                                old(self).kinds(),
                                i as int,
                                j,
                                1u16,
                                Side::White,
                                true,
                                g@,
                            )
                        &&& forall|t: TreeView|
                            (#[trigger] parse_end(
                                old(self).lexemes(),
                                old(self).kinds(),
                                i as int,
                                1u16,
                                Side::White,
                                true,
                                t,
                            )) is Some ==> t == g@
                    },
                    Option::None => i == old(self).m_num_tokens,
                },
                Err(e) => forall|t: TreeView|
                    (#[trigger] parse_end(
                        old(self).lexemes(),
                        old(self).kinds(),
                        i as int,
                        1u16,
                        Side::White,
                        true,
                        t,
                    )) is None,
            },
    {
        match self.build_game_tree_rec(i, 1, true, Side::White) {
            Ok((og, next)) => {
                proof {
                    if og is Some {
                        assert(parses_to(
                            self.lexemes(),
                            self.kinds(),
                            i as int,
                            next as int,
                            1u16,
                            Side::White,
                            true,
                            og->0@,
                        ));
                    }
                }
                Ok(og)
            },
            Err(e) => Err(e),
        }
    }

    /// Builds a whole game: the header tag pairs, then the movetext tree.
    pub fn build_game(&mut self) -> (r: Option<Game>)
        requires
            old(self).wf(),
        ensures
            *final(self) == *old(self),
            match r {
                Option::Some(game) => {
                    &&& tree_wf(game.m_tree@)
                    &&& exists|j: int, jj: int|
                        {
                            &&& spec_headers(old(self).lexemes(), old(self).kinds(), 0) == Ok::<
                                _,
                                (),
                            >((game_tags_view(game.m_tags@), j))
                            &&& #[trigger] parses_to(
                                old(self).lexemes(),
                                old(self).kinds(),
                                j,
                                jj,
                                1u16,
                                Side::White,
                                true,
                                game.m_tree@,
                            )
                        }
                },
                Option::None => match spec_headers(old(self).lexemes(), old(self).kinds(), 0) {
                    Ok((tags, j)) => forall|t: TreeView|
                        (#[trigger] parse_end(
                            old(self).lexemes(),
                            old(self).kinds(),
                            j,
                            1u16,
                            Side::White,
                            true,
                            t,
                        )) is None,
                    Err(()) => true,
                },
            },
    {
        let n = self.m_num_tokens;
        let mut g = Game::new();
        let mut i: usize = 0;
        proof {
            assert(game_tags_view(g.m_tags@) =~= Seq::<(GameTagView, Seq<char>)>::empty());
        }
        while i < n && self.is_tag_open(i)
            invariant
                self.wf(),
                n == self.m_num_tokens,
                0 <= i <= n,
                ({
                    let cur = spec_headers(self.lexemes(), self.kinds(), i as int);
                    let all = spec_headers(self.lexemes(), self.kinds(), 0);
                    match cur {
                        Ok((rest, j)) => all == Ok::<_, ()>((game_tags_view(g.m_tags@) + rest, j)),
                        Err(()) => all is Err,
                    }
                }),
            decreases n - i,
        {
            if n - i < 4 {
                return Option::None;
            }
            let name = self.retrieve_token(i + 1);
            let value = self.retrieve_token(i + 2);
            let tag_type = classify(name);
            let ghost tags0 = game_tags_view(g.m_tags@);
            g.add_game_tag((tag_type, value));
            proof {
                assert(game_tags_view(g.m_tags@) =~= tags0.push((tag_type@, value@)));
                assert(forall|rest: Seq<(GameTagView, Seq<char>)>|
                    (tags0 + (seq![(tag_type@, value@)] + rest)) =~= (#[trigger] (tags0.push(
                        (tag_type@, value@),
                    ) + rest)));
            }
            i += 4;
        }
        let ghost j0 = i as int;
        proof {
            assert(spec_headers(self.lexemes(), self.kinds(), i as int) == Ok::<_, ()>((
                Seq::<(GameTagView, Seq<char>)>::empty(),
                i as int,
            )));
            assert(game_tags_view(g.m_tags@) + Seq::<(GameTagView, Seq<char>)>::empty()
                =~= game_tags_view(g.m_tags@));
        }
        match self.build_game_tree_rec(i, 1, true, Side::White) {
            Ok((Option::Some(t), next)) => {
                proof {
                    assert(parses_to(
                        self.lexemes(),
                        self.kinds(),
                        j0,
                        next as int,
                        1u16,
                        Side::White,
                        true,
                        t@,
                    ));
                }
                g.set_tree(t);
                Option::Some(g)
            },
            _ => Option::None,
        }
    }
}

} // verus!
