//! The formatter: renders a game tree back into movetext.
//!
//! [`fmt_tree`] is the rendering specification; [`GameFormatter::to_string`]
//! is proved to produce exactly that text. A move number is printed for
//! White always, and for Black when the ply opens a variation or follows a
//! printed comment or variation.

use vstd::prelude::*;
use vstd::string::StringExecFns;
use crate::comment::Comment;
use crate::comment::CommentView;
use crate::comment::TagView;
use crate::comment::spec_tag_string;
use crate::comment::tag_to_string;
use crate::comment::tags_view;
use crate::game::GameTree;
use crate::game::TreeView;
use crate::game::comments_view;
use crate::game::trees_view;
use crate::game::lemma_trees_view_index;
use crate::pgn_tokenizer::Side;
use crate::strutil::push_char;
use crate::strutil::spec_dec;
use crate::strutil::u16_to_string;

verus! {

/// One rendered annotation tag: `[name value] `.
pub open spec fn fmt_tag(t: (TagView, Seq<char>)) -> Seq<char> {
    seq!['['] + spec_tag_string(t.0) + seq![' '] + t.1 + seq![']', ' ']
}

/// Rendered tags, in order.
pub open spec fn fmt_tags(tags: Seq<(TagView, Seq<char>)>) -> Seq<char>
    decreases tags.len(),
{
    if tags.len() == 0 {
        Seq::<char>::empty()
    } else {
        fmt_tags(tags.drop_last()) + fmt_tag(tags.last())
    }
}

/// One rendered comment: ` { ` then the tags, then the free text, a space
/// separating the text from the closing brace only when the text is there.
pub open spec fn fmt_comment(c: CommentView) -> Seq<char> {
    seq![' ', '{', ' '] + fmt_tags(c.tags) + c.text + (if c.text.len() > 0 {
        seq![' ', '}']
    } else {
        seq!['}']
    })
}

/// Rendered comments, in order.
pub open spec fn fmt_comments(cs: Seq<CommentView>) -> Seq<char>
    decreases cs.len(),
{
    if cs.len() == 0 {
        Seq::<char>::empty()
    } else {
        fmt_comments(cs.drop_last()) + fmt_comment(cs.last())
    }
}

/// The move-number prefix of a ply: `N. ` for White, `N... ` for Black,
/// nothing for a result node.
pub open spec fn fmt_number(t: TreeView) -> Seq<char> {
    match t.side {
        Option::Some(Side::White) => spec_dec(t.move_number as nat) + seq!['.', ' '],
        Option::Some(Side::Black) => spec_dec(t.move_number as nat) + seq!['.', '.', '.', ' '],
        Option::None => Seq::<char>::empty(),
    }
}

/// The rendering of a node and of everything after it. `pc`, `pv` and `pr`
/// say whether comments, variations and the result are printed; `show_num`
/// says whether this ply must show its move number. A result node reached
/// through `next` is omitted entirely, its leading space included, when the
/// result is not printed.
pub open spec fn fmt_tree(t: TreeView, pc: bool, pv: bool, pr: bool, show_num: bool) -> Seq<char>
    decreases t,
{
    let num_part = if show_num {
        fmt_number(t)
    } else {
        Seq::<char>::empty()
    };
    let text_part = if !t.is_result || pr {
        t.game_move
    } else {
        Seq::<char>::empty()
    };
    let com_part = if pc {
        fmt_comments(t.comments)
    } else {
        Seq::<char>::empty()
    };
    let var_part = if pv {
        fmt_variations(t.variations, pc, pv, pr)
    } else {
        Seq::<char>::empty()
    };
    let next_part = match t.next {
        Option::None => Seq::<char>::empty(),
        Option::Some(m) => if m.is_result && !pr {
            Seq::<char>::empty()
        } else {
            seq![' '] + fmt_tree(
                *m,
                pc,
                pv,
                pr,
                (pc && t.comments.len() > 0) || (pv && t.variations.len() > 0) || (*m).side
                    == Option::Some(Side::White),
            )
        },
    };
    num_part + text_part + com_part + var_part + next_part
}

/// Rendered variations, each parenthesized after one space, with the move
/// number forced on their first ply.
pub open spec fn fmt_variations(vs: Seq<TreeView>, pc: bool, pv: bool, pr: bool) -> Seq<char>
    decreases vs,
{
    if vs.len() == 0 {
        Seq::<char>::empty()
    } else {
        fmt_variations(vs.drop_last(), pc, pv, pr) + seq![' ', '('] + fmt_tree(
            vs.last(),
            pc,
            pv,
            pr,
            true,
        ) + seq![')']
    }
}

/// The rendering of a bare one-ply White tree: the move number, a dot, a
/// space, the move word. Together with
/// [`crate::pgn_tokenizer::lemma_single_move_round_trip`] this gives the
/// round trip for the simplest canonical movetext, whatever the printing
/// options.
pub proof fn lemma_format_single_ply(t: TreeView, pc: bool, pv: bool, pr: bool)
    requires
        !t.is_result,
        t.side == Option::Some(Side::White),
        t.comments.len() == 0,
        t.variations.len() == 0,
        t.next is None,
    ensures
        fmt_tree(t, pc, pv, pr, true) == spec_dec(t.move_number as nat) + seq!['.', ' ']
            + t.game_move,
{
    assert(fmt_comments(t.comments) =~= Seq::<char>::empty());
    assert(fmt_variations(t.variations, pc, pv, pr) =~= Seq::<char>::empty());
    assert(fmt_number(t) == spec_dec(t.move_number as nat) + seq!['.', ' ']);
    assert(fmt_tree(t, pc, pv, pr, true) == fmt_number(t) + t.game_move + Seq::<char>::empty()
        + Seq::<char>::empty() + Seq::<char>::empty());
    assert(fmt_number(t) + t.game_move + Seq::<char>::empty() + Seq::<char>::empty()
        + Seq::<char>::empty() =~= fmt_number(t) + t.game_move);
    assert(fmt_number(t) + t.game_move =~= spec_dec(t.move_number as nat) + seq!['.', ' ']
        + t.game_move);
}

/// Renders one comment.
fn comment_to_string(c: &Comment) -> (r: String)
    ensures
        r@ == fmt_comment(c@),
{
    let mut s = String::new();
    push_char(&mut s, ' ');
    push_char(&mut s, '{');
    push_char(&mut s, ' ');
    proof {
        assert(s@ =~= seq![' ', '{', ' '] + fmt_tags(tags_view(c.m_tags@).take(0)));
    }
    let tags = c.get_tags();
    let n = tags.len();
    let mut j: usize = 0;
    while j < n
        invariant
            n == c.m_tags@.len(),
            tags == &c.m_tags,
            0 <= j <= n,
            s@ == seq![' ', '{', ' '] + fmt_tags(tags_view(c.m_tags@).take(j as int)),
        decreases n - j,
    {
        let ghost tv = tags_view(c.m_tags@);
        push_char(&mut s, '[');
        let name = tag_to_string(&tags[j].0);
        s.append(name.as_str());
        push_char(&mut s, ' ');
        s.append(tags[j].1.as_str());
        push_char(&mut s, ']');
        push_char(&mut s, ' ');
        proof {
            assert(tv.take(j + 1).drop_last() =~= tv.take(j as int));
            assert(tv.take(j + 1).last() == tv[j as int]);
            assert(fmt_tags(tv.take(j + 1)) == fmt_tags(tv.take(j as int)) + fmt_tag(
                tv[j as int],
            ));
            assert(tv[j as int] == (c.m_tags@[j as int].0@, c.m_tags@[j as int].1@));
            assert(s@ =~= seq![' ', '{', ' '] + fmt_tags(tv.take(j + 1)));
        }
        j += 1;
    }
    proof {
        assert(tags_view(c.m_tags@).take(n as int) =~= tags_view(c.m_tags@));
    }
    s.append(c.get_text().as_str());
    if !c.get_text().as_str().is_empty() {
        push_char(&mut s, ' ');
    }
    push_char(&mut s, '}');
    proof {
        assert(s@ =~= fmt_comment(c@));
    }
    s
}

/// Renders game trees into movetext, with comments, variations and the
/// result each printed or omitted.
pub struct GameFormatter {
    pub m_print_comments: bool,
    pub m_print_variants: bool,
    pub m_print_result: bool,
}

impl GameFormatter {
    pub fn new() -> (f: GameFormatter)
        ensures
            f == (GameFormatter {
                m_print_comments: true,
                m_print_variants: true,
                m_print_result: true,
            }),
    {
        GameFormatter { m_print_comments: true, m_print_variants: true, m_print_result: true }
    }

    pub fn set_print_comments(&mut self, v: bool) -> (r: &mut GameFormatter)
        ensures
            *r == (GameFormatter { m_print_comments: v, ..*old(self) }),
            *final(self) == *final(r),
    {
        self.m_print_comments = v;
        self
    }

    pub fn set_print_variation(&mut self, v: bool) -> (r: &mut GameFormatter)
        ensures
            *r == (GameFormatter { m_print_variants: v, ..*old(self) }),
            *final(self) == *final(r),
    {
        self.m_print_variants = v;
        self
    }

    pub fn set_print_result(&mut self, v: bool) -> (r: &mut GameFormatter)
        ensures
            *r == (GameFormatter { m_print_result: v, ..*old(self) }),
            *final(self) == *final(r),
    {
        self.m_print_result = v;
        self
    }

    #[verifier::rlimit(100)]
    fn to_string_rec(&self, g: &GameTree, show_move_number: bool) -> (s: String)
        ensures
            s@ == fmt_tree(
                g@,
                self.m_print_comments,
                self.m_print_variants,
                self.m_print_result,
                show_move_number,
            ),
        decreases *g,
    {
        let pc = self.m_print_comments;
        let pv = self.m_print_variants;
        let pr = self.m_print_result;
        let mut s = String::new();
        if show_move_number {
            match g.get_side() {
                Option::Some(side) => {
                    let num_str = u16_to_string(*g.get_move_number());
                    s.append(num_str.as_str());
                    push_char(&mut s, '.');
                    if *side == Side::Black {
                        push_char(&mut s, '.');
                        push_char(&mut s, '.');
                    }
                    push_char(&mut s, ' ');
                },
                Option::None => {},
            }
        }
        proof {
            assert(s@ =~= (if show_move_number {
                fmt_number(g@)
            } else {
                Seq::<char>::empty()
            }));
        }
        if !g.is_result() || pr {
            s.append(g.get_move_text().as_str());
        }
        let ghost text_done = s@;
        proof {
            assert(text_done =~= (if show_move_number {
                fmt_number(g@)
            } else {
                Seq::<char>::empty()
            }) + (if !g@.is_result || pr {
                g@.game_move
            } else {
                Seq::<char>::empty()
            }));
        }
        if pc {
            let comments = g.get_comments();
            let n = comments.len();
            let ghost cv = comments_view(g.m_comments@);
            let mut k: usize = 0;
            proof {
                assert(s@ =~= text_done + fmt_comments(cv.take(0)));
            }
            while k < n
                invariant
                    pc == self.m_print_comments,
                    n == g.m_comments@.len(),
                    comments == &g.m_comments,
                    cv == comments_view(g.m_comments@),
                    0 <= k <= n,
                    s@ == text_done + fmt_comments(cv.take(k as int)),
                decreases n - k,
            {
                let one = comment_to_string(&comments[k]);
                s.append(one.as_str());
                proof {
                    assert(cv.take(k + 1).drop_last() =~= cv.take(k as int));
                    assert(cv.take(k + 1).last() == cv[k as int]);
                    assert(fmt_comments(cv.take(k + 1)) == fmt_comments(cv.take(k as int))
                        + fmt_comment(cv[k as int]));
                    assert(cv[k as int] == g.m_comments@[k as int]@);
                    assert(s@ =~= text_done + fmt_comments(cv.take(k + 1)));
                }
                k += 1;
            }
            proof {
                assert(cv.take(n as int) =~= cv);
            }
        }
        let ghost com_done = s@;
        proof {
            assert(com_done =~= text_done + (if pc {
                fmt_comments(comments_view(g.m_comments@))
            } else {
                Seq::<char>::empty()
            }));
        }
        if pv {
            let variations = g.get_variations();
            let n = variations.len();
            let ghost vv = trees_view(g.m_variations@);
            proof {
                lemma_trees_view_index(g.m_variations@);
            }
            let mut k: usize = 0;
            proof {
                assert(s@ =~= com_done + fmt_variations(vv.take(0), pc, pv, pr));
            }
            while k < n
                invariant
                    pc == self.m_print_comments,
                    pv == self.m_print_variants,
                    pr == self.m_print_result,
                    n == g.m_variations@.len(),
                    variations == &g.m_variations,
                    vv == trees_view(g.m_variations@),
                    vv.len() == n,
                    forall|t: int| 0 <= t < n ==> vv[t] == crate::game::tree_view(
                        g.m_variations@[t],
                    ),
                    0 <= k <= n,
                    s@ == com_done + fmt_variations(vv.take(k as int), pc, pv, pr),
                decreases n - k,
            {
                push_char(&mut s, ' ');
                push_char(&mut s, '(');
                let sub = self.to_string_rec(&variations[k], true);
                s.append(sub.as_str());
                push_char(&mut s, ')');
                proof {
                    assert(vv.take(k + 1).drop_last() =~= vv.take(k as int));
                    assert(vv.take(k + 1).last() == vv[k as int]);
                    assert(fmt_variations(vv.take(k + 1), pc, pv, pr) == fmt_variations(
                        vv.take(k as int),
                        pc,
                        pv,
                        pr,
                    ) + seq![' ', '('] + fmt_tree(vv[k as int], pc, pv, pr, true) + seq![')']);
                    assert(s@ =~= com_done + fmt_variations(vv.take(k + 1), pc, pv, pr));
                }
                k += 1;
            }
            proof {
                assert(vv.take(n as int) =~= vv);
            }
        }
        let ghost var_done = s@;
        proof {
            assert(var_done =~= com_done + (if pv {
                fmt_variations(trees_view(g.m_variations@), pc, pv, pr)
            } else {
                Seq::<char>::empty()
            }));
        }
        match g.get_next_move() {
            Option::Some(res) => {
                if !res.is_result() || pr {
                    let mut show_num_next = false;
                    if pc && g.get_comments().len() > 0 {
                        show_num_next = true;
                    }
                    if pv && g.get_variations().len() > 0 {
                        show_num_next = true;
                    }
                    match res.get_side() {
                        Option::Some(Side::White) => {
                            show_num_next = true;
                        },
                        _ => {},
                    }
                    push_char(&mut s, ' ');
                    let sub = self.to_string_rec(&*res, show_num_next);
                    s.append(sub.as_str());
                    proof {
                        assert(s@ =~= var_done + (seq![' '] + sub@));
                    }
                }
            },
            Option::None => {},
        }
        proof {
            assert(s@ =~= fmt_tree(g@, pc, pv, pr, show_move_number));
        }
        s
    }

    /// Renders the whole tree, the root ply showing its move number.
    pub fn to_string(&self, g: &GameTree) -> (s: String)
        ensures
            s@ == fmt_tree(
                g@,
                self.m_print_comments,
                self.m_print_variants,
                self.m_print_result,
                true,
            ),
    {
        self.to_string_rec(g, true)
    }
}

} // verus!
