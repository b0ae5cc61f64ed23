//! The game tree: one node per ply, with the continuation of the line in
//! `m_next` and the alternatives to the same ply in `m_variations`.

use vstd::prelude::*;
use crate::comment::Comment;
use crate::comment::CommentView;
use crate::pgn_tokenizer::Side;
use crate::pgn_tokenizer::spec_other_side;
use crate::strutil::str_eq;

verus! {

/// One ply of the game, or a terminal result marker.
#[derive(Debug, Eq)]
pub struct GameTree {
    pub m_game_move: String,
    pub m_is_result: bool,
    pub m_move_number: u16,
    pub m_side: Option<Side>,
    pub m_comments: Vec<Comment>,
    pub m_next: Option<Box<GameTree>>,
    pub m_variations: Vec<GameTree>,
}

/// Mathematical value of a [`GameTree`].
#[verifier::ext_equal]
pub ghost struct TreeView {
    pub game_move: Seq<char>,
    pub is_result: bool,
    pub move_number: u16,
    pub side: Option<Side>,
    pub comments: Seq<CommentView>,
    pub next: Option<Box<TreeView>>,
    pub variations: Seq<TreeView>,
}

/// Views of a comment list, element by element.
pub open spec fn comments_view(s: Seq<Comment>) -> Seq<CommentView> {
    s.map_values(|c: Comment| c@)
}

/// The view of a tree node.
pub open spec fn tree_view(t: GameTree) -> TreeView
    decreases t,
{
    TreeView {
        game_move: t.m_game_move@,
        is_result: t.m_is_result,
        move_number: t.m_move_number,
        side: t.m_side,
        comments: comments_view(t.m_comments@),
        next: match t.m_next {
            Option::Some(b) => Option::Some(Box::new(tree_view(*b))),
            Option::None => Option::None,
        },
        variations: trees_view(t.m_variations@),
    }
}

/// Views of a node list, element by element.
pub open spec fn trees_view(s: Seq<GameTree>) -> Seq<TreeView>
    decreases s,
{
    if s.len() == 0 {
        Seq::<TreeView>::empty()
    } else {
        seq![tree_view(s[0])] + trees_view(s.drop_first())
    }
}

pub broadcast proof fn lemma_trees_view_index(s: Seq<GameTree>)
    ensures
        (#[trigger] trees_view(s)).len() == s.len(),
        forall|i: int| 0 <= i < s.len() ==> trees_view(s)[i] == tree_view(s[i]),
    decreases s.len(),
{
    if s.len() > 0 {
        lemma_trees_view_index(s.drop_first());
        assert forall|i: int| 0 <= i < s.len() implies trees_view(s)[i] == tree_view(s[i]) by {
            if i > 0 {
                assert(trees_view(s.drop_first())[i - 1] == tree_view(s.drop_first()[i - 1]));
                assert(s.drop_first()[i - 1] == s[i]);
            }
        }
    }
}

impl View for GameTree {
    type V = TreeView;

    open spec fn view(&self) -> TreeView {
        tree_view(*self)
    }
}

/// Well-formedness of a tree node: a result node terminates its line; along
/// `next` the side alternates and the move number advances exactly when the
/// new side is White; every variation restates the ply of its owner.
pub open spec fn tree_wf(t: TreeView) -> bool
    decreases t,
{
    &&& (t.is_result ==> t.next is None && t.variations.len() == 0 && t.side is None)
    &&& (!t.is_result ==> t.side is Some)
    &&& match t.next {
        Option::Some(m) => {
            &&& tree_wf(*m)
            &&& !t.is_result
            &&& (!m.is_result ==> {
                &&& m.side == Option::Some(spec_other_side(t.side->0))
                &&& m.move_number as int == if m.side == Option::Some(Side::White) {
                    t.move_number + 1
                } else {
                    t.move_number as int
                }
            })
        },
        Option::None => true,
    }
    &&& trees_wf_at(t.variations, t.move_number, t.side)
}

/// Well-formedness of a variation list: every entry is itself well formed
/// and, unless it is a bare result, carries the ply of its owner.
pub open spec fn trees_wf_at(s: Seq<TreeView>, num: u16, side: Option<Side>) -> bool
    decreases s,
{
    s.len() == 0 || {
        &&& tree_wf(s[0])
        &&& (s[0].is_result || (s[0].move_number == num && s[0].side == side))
        &&& trees_wf_at(s.drop_first(), num, side)
    }
}

proof fn lemma_trees_wf_at_index(s: Seq<TreeView>, num: u16, side: Option<Side>, k: int)
    requires
        trees_wf_at(s, num, side),
        0 <= k < s.len(),
    ensures
        tree_wf(s[k]),
        s[k].is_result || (s[k].move_number == num && s[k].side == side),
    decreases k,
{
    if k > 0 {
        lemma_trees_wf_at_index(s.drop_first(), num, side, k - 1);
        assert(s.drop_first()[k - 1] == s[k]);
    }
}

/// Side alternation: in a well-formed tree, the ply after `t` is itself
/// well formed and, unless it is a terminal result, plays the opposite
/// side, with the move number advancing exactly when that side is White.
pub proof fn lemma_side_alternation(t: TreeView)
    requires
        tree_wf(t),
        t.next is Some,
    ensures
        tree_wf(*t.next->0),
        !(*t.next->0).is_result ==> (*t.next->0).side == Option::Some(
            spec_other_side(t.side->0),
        ),
        !(*t.next->0).is_result ==> (*t.next->0).move_number as int == if (*t.next->0).side
            == Option::Some(Side::White) {
            t.move_number + 1
        } else {
            t.move_number as int
        },
{
}

/// Variation isolation: in a well-formed tree, every variation of `t` is
/// itself well formed and, unless it is a bare result, restates exactly the
/// move number and side of `t`.
pub proof fn lemma_variation_isolation(t: TreeView, k: int)
    requires
        tree_wf(t),
        0 <= k < t.variations.len(),
    ensures
        tree_wf(t.variations[k]),
        !t.variations[k].is_result ==> t.variations[k].move_number == t.move_number
            && t.variations[k].side == t.side,
{
    lemma_trees_wf_at_index(t.variations, t.move_number, t.side, k);
}

/// Deep structural equality of two nodes.
fn tree_eq(a: &GameTree, b: &GameTree) -> (r: bool)
    ensures
        r == (a@ == b@),
    decreases *a,
{
    if !(a.m_game_move == b.m_game_move) {
        return false;
    }
    if a.m_is_result != b.m_is_result || a.m_move_number != b.m_move_number {
        return false;
    }
    let side_eq = match (&a.m_side, &b.m_side) {
        (Option::Some(x), Option::Some(y)) => *x == *y,
        (Option::None, Option::None) => true,
        _ => false,
    };
    if !side_eq {
        return false;
    }
    if !comments_eq(&a.m_comments, &b.m_comments) {
        return false;
    }
    let next_eq = match (&a.m_next, &b.m_next) {
        (Option::Some(x), Option::Some(y)) => tree_eq(&*x, &*y),
        (Option::None, Option::None) => true,
        _ => false,
    };
    if !next_eq {
        return false;
    }
    trees_eq(&a.m_variations, &b.m_variations)
}

/// Deep structural equality of two comment lists.
fn comments_eq(a: &Vec<Comment>, b: &Vec<Comment>) -> (r: bool)
    ensures
        r == (comments_view(a@) == comments_view(b@)),
{
    if a.len() != b.len() {
        proof {
            assert(comments_view(a@).len() != comments_view(b@).len());
        }
        return false;
    }
    let n = a.len();
    let mut i: usize = 0;
    while i < n
        invariant
            n == a.len() == b.len(),
            0 <= i <= n,
            forall|k: int| 0 <= k < i ==> comments_view(a@)[k] == comments_view(b@)[k],
        decreases n - i,
    {
        if !(a[i] == b[i]) {
            proof {
                assert(comments_view(a@)[i as int] == a@[i as int]@);
                assert(comments_view(b@)[i as int] == b@[i as int]@);
            }
            return false;
        }
        proof {
            assert(comments_view(a@)[i as int] == comments_view(b@)[i as int]);
        }
        i += 1;
    }
    proof {
        assert(comments_view(a@) =~= comments_view(b@));
    }
    true
}

/// Deep structural equality of two variation lists.
fn trees_eq(a: &Vec<GameTree>, b: &Vec<GameTree>) -> (r: bool)
    ensures
        r == (trees_view(a@) == trees_view(b@)),
    decreases *a,
{
    proof {
        lemma_trees_view_index(a@);
        lemma_trees_view_index(b@);
    }
    if a.len() != b.len() {
        return false;
    }
    let n = a.len();
    let mut i: usize = 0;
    while i < n
        invariant
            n == a.len() == b.len(),
            0 <= i <= n,
            trees_view(a@).len() == n,
            trees_view(b@).len() == n,
            forall|k: int| 0 <= k < n ==> trees_view(a@)[k] == tree_view(a@[k]),
            forall|k: int| 0 <= k < n ==> trees_view(b@)[k] == tree_view(b@[k]),
            forall|k: int| 0 <= k < i ==> trees_view(a@)[k] == trees_view(b@)[k],
        decreases n - i,
    {
        if !tree_eq(&a[i], &b[i]) {
            proof {
                assert(trees_view(a@)[i as int] == tree_view(a@[i as int]));
                assert(trees_view(b@)[i as int] == tree_view(b@[i as int]));
            }
            return false;
        }
        i += 1;
    }
    proof {
        assert(trees_view(a@) =~= trees_view(b@));
    }
    true
}

impl PartialEq for GameTree {
    fn eq(&self, other: &GameTree) -> (r: bool) {
        tree_eq(self, other)
    }
}

impl vstd::std_specs::cmp::PartialEqSpecImpl for GameTree {
    open spec fn obeys_eq_spec() -> bool {
        true
    }

    open spec fn eq_spec(&self, other: &GameTree) -> bool {
        self@ == other@
    }
}

impl GameTree {
    pub fn new() -> (g: GameTree)
        ensures
            g.m_game_move@ == Seq::<char>::empty(),
            g.m_is_result == false,
            g.m_move_number == 0,
            g.m_side is None,
            g.m_comments@ == Seq::<Comment>::empty(),
            g.m_next is None,
            g.m_variations@ == Seq::<GameTree>::empty(),
    {
        GameTree {
            m_game_move: String::new(),
            m_is_result: false,
            m_move_number: 0,
            m_side: Option::None,
            m_comments: Vec::new(),
            m_next: Option::None,
            m_variations: Vec::new(),
        }
    }

    pub fn new_data(
        game_move: String,
        is_result: bool,
        move_number: u16,
        side: Option<Side>,
        comments: Vec<Comment>,
        main_line_next: Option<Box<GameTree>>,
        variations: Vec<GameTree>,
    ) -> (g: GameTree)
        ensures
            g == (GameTree {
                m_game_move: game_move,
                m_is_result: is_result,
                m_move_number: move_number,
                m_side: side,
                m_comments: comments,
                m_next: main_line_next,
                m_variations: variations,
            }),
    {
        GameTree {
            m_game_move: game_move,
            m_is_result: is_result,
            m_move_number: move_number,
            m_side: side,
            m_comments: comments,
            m_next: main_line_next,
            m_variations: variations,
        }
    }

    pub fn set_move_text(&mut self, text: String, s: &Side, num: u16)
        ensures
            *final(self) == (GameTree {
                m_game_move: text,
                m_side: Option::Some(*s),
                m_move_number: num,
                ..*old(self)
            }),
    {
        self.m_game_move = text;
        self.m_side = Option::Some(*s);
        self.m_move_number = num;
    }

    pub fn set_result(&mut self, text: String)
        ensures
            *final(self) == (GameTree {
                m_game_move: text,
                m_is_result: true,
                m_side: Option::None,
                m_move_number: 0,
                ..*old(self)
            }),
    {
        self.m_game_move = text;
        self.m_is_result = true;
        self.m_side = Option::None;
        self.m_move_number = 0;
    }

    pub fn set_next_move(&mut self, game: GameTree)
        ensures
            *final(self) == (GameTree { m_next: Option::Some(Box::new(game)), ..*old(self) }),
    {
        self.m_next = Option::Some(Box::new(game));
    }

    pub fn add_variation(&mut self, variation: GameTree)
        ensures
            *final(self) == (GameTree {
                m_variations: final(self).m_variations,
                ..*old(self)
            }),
            final(self).m_variations@ == old(self).m_variations@.push(variation),
    {
        self.m_variations.push(variation);
    }

    pub fn add_comment(&mut self, comment: Comment)
        ensures
            *final(self) == (GameTree { m_comments: final(self).m_comments, ..*old(self) }),
            final(self).m_comments@ == old(self).m_comments@.push(comment),
    {
        self.m_comments.push(comment);
    }

    pub fn get_side(&self) -> (r: &Option<Side>)
        ensures
            r == &self.m_side,
    {
        &self.m_side
    }

    pub fn get_move_text(&self) -> (r: &String)
        ensures
            r == &self.m_game_move,
    {
        &self.m_game_move
    }

    pub fn get_move_number(&self) -> (r: &u16)
        ensures
            r == &self.m_move_number,
    {
        &self.m_move_number
    }

    pub fn get_next_move(&self) -> (r: &Option<Box<GameTree>>)
        ensures
            r == &self.m_next,
    {
        &self.m_next
    }

    pub fn get_next_move_mut(&mut self) -> (r: &mut Option<Box<GameTree>>)
        ensures
            *r == old(self).m_next,
            *final(self) == (GameTree { m_next: *final(r), ..*old(self) }),
    {
        &mut self.m_next
    }

    pub fn is_result(&self) -> (r: bool)
        ensures
            r == self.m_is_result,
    {
        self.m_is_result
    }

    pub fn get_variations(&self) -> (r: &Vec<GameTree>)
        ensures
            r == &self.m_variations,
    {
        &self.m_variations
    }

    pub fn get_comments(&self) -> (r: &Vec<Comment>)
        ensures
            r == &self.m_comments,
    {
        &self.m_comments
    }
}

/// The name of a PGN header tag pair.
pub enum TagType {
    Event,
    Site,
    Date,
    Round,
    White,
    Black,
    Result,
    WhiteElo,
    WhiteTeam,
    WhiteTitle,
    BlackElo,
    BlackTeam,
    BlackTitle,
    TimeControl,
    Termination,
    Board,
    Annotator,
    Variant,
    ECO,
    Opening,
    Other(String),
}

/// Mathematical value of a header [`TagType`].
pub ghost enum GameTagView {
    Event,
    Site,
    Date,
    Round,
    White,
    Black,
    Result,
    WhiteElo,
    WhiteTeam,
    WhiteTitle,
    BlackElo,
    BlackTeam,
    BlackTitle,
    TimeControl,
    Termination,
    Board,
    Annotator,
    Variant,
    ECO,
    Opening,
    Other(Seq<char>),
}

impl View for TagType {
    type V = GameTagView;

    open spec fn view(&self) -> GameTagView {
        match self {
            TagType::Event => GameTagView::Event,
            TagType::Site => GameTagView::Site,
            TagType::Date => GameTagView::Date,
            TagType::Round => GameTagView::Round,
            TagType::White => GameTagView::White,
            TagType::Black => GameTagView::Black,
            TagType::Result => GameTagView::Result,
            TagType::WhiteElo => GameTagView::WhiteElo,
            TagType::WhiteTeam => GameTagView::WhiteTeam,
            TagType::WhiteTitle => GameTagView::WhiteTitle,
            TagType::BlackElo => GameTagView::BlackElo,
            TagType::BlackTeam => GameTagView::BlackTeam,
            TagType::BlackTitle => GameTagView::BlackTitle,
            TagType::TimeControl => GameTagView::TimeControl,
            TagType::Termination => GameTagView::Termination,
            TagType::Board => GameTagView::Board,
            TagType::Annotator => GameTagView::Annotator,
            TagType::Variant => GameTagView::Variant,
            TagType::ECO => GameTagView::ECO,
            TagType::Opening => GameTagView::Opening,
            TagType::Other(s) => GameTagView::Other(s@),
        }
    }
}

/// Header tag name classification: the twenty standard names are recognized,
/// any other name is kept as it is.
pub open spec fn spec_classify_game_tag(s: Seq<char>) -> GameTagView {
    if s == "Event"@ {
        GameTagView::Event
    } else if s == "Site"@ {
        GameTagView::Site
    } else if s == "Date"@ {
        GameTagView::Date
    } else if s == "Round"@ {
        GameTagView::Round
    } else if s == "White"@ {
        GameTagView::White
    } else if s == "Black"@ {
        GameTagView::Black
    } else if s == "Result"@ {
        GameTagView::Result
    } else if s == "WhiteElo"@ {
        GameTagView::WhiteElo
    } else if s == "WhiteTeam"@ {
        GameTagView::WhiteTeam
    } else if s == "WhiteTitle"@ {
        GameTagView::WhiteTitle
    } else if s == "BlackElo"@ {
        GameTagView::BlackElo
    } else if s == "BlackTeam"@ {
        GameTagView::BlackTeam
    } else if s == "BlackTitle"@ {
        GameTagView::BlackTitle
    } else if s == "TimeControl"@ {
        GameTagView::TimeControl
    } else if s == "Termination"@ {
        GameTagView::Termination
    } else if s == "Board"@ {
        GameTagView::Board
    } else if s == "Annotator"@ {
        GameTagView::Annotator
    } else if s == "Variant"@ {
        GameTagView::Variant
    } else if s == "ECO"@ {
        GameTagView::ECO
    } else if s == "Opening"@ {
        GameTagView::Opening
    } else {
        GameTagView::Other(s)
    }
}

pub fn classify(s: String) -> (r: TagType)
    ensures
        r@ == spec_classify_game_tag(s@),
{
    if str_eq(s.as_str(), "Event") {
        return TagType::Event;
    }
    if str_eq(s.as_str(), "Site") {
        return TagType::Site;
    }
    if str_eq(s.as_str(), "Date") {
        return TagType::Date;
    }
    if str_eq(s.as_str(), "Round") {
        return TagType::Round;
    }
    if str_eq(s.as_str(), "White") {
        return TagType::White;
    }
    if str_eq(s.as_str(), "Black") {
        return TagType::Black;
    }
    if str_eq(s.as_str(), "Result") {
        return TagType::Result;
    }
    if str_eq(s.as_str(), "WhiteElo") {
        return TagType::WhiteElo;
    }
    if str_eq(s.as_str(), "WhiteTeam") {
        return TagType::WhiteTeam;
    }
    if str_eq(s.as_str(), "WhiteTitle") {
        return TagType::WhiteTitle;
    }
    if str_eq(s.as_str(), "BlackElo") {
        return TagType::BlackElo;
    }
    if str_eq(s.as_str(), "BlackTeam") {
        return TagType::BlackTeam;
    }
    if str_eq(s.as_str(), "BlackTitle") {
        return TagType::BlackTitle;
    }
    if str_eq(s.as_str(), "TimeControl") {
        return TagType::TimeControl;
    }
    if str_eq(s.as_str(), "Termination") {
        return TagType::Termination;
    }
    if str_eq(s.as_str(), "Board") {
        return TagType::Board;
    }
    if str_eq(s.as_str(), "Annotator") {
        return TagType::Annotator;
    }
    if str_eq(s.as_str(), "Variant") {
        return TagType::Variant;
    }
    if str_eq(s.as_str(), "ECO") {
        return TagType::ECO;
    }
    if str_eq(s.as_str(), "Opening") {
        return TagType::Opening;
    }
    TagType::Other(s)
}

/// A whole game: its header tag pairs and its movetext tree.
pub struct Game {
    pub m_tree: GameTree,
    pub m_tags: Vec<(TagType, String)>,
}

impl Game {
    pub fn new() -> (g: Game)
        ensures
            g.m_tree.m_game_move@ == Seq::<char>::empty(),
            g.m_tree.m_is_result == false,
            g.m_tree.m_move_number == 0,
            g.m_tree.m_side is None,
            g.m_tree.m_comments@ == Seq::<Comment>::empty(),
            g.m_tree.m_next is None,
            g.m_tree.m_variations@ == Seq::<GameTree>::empty(),
            g.m_tags@ == Seq::<(TagType, String)>::empty(),
    {
        Game { m_tree: GameTree::new(), m_tags: Vec::new() }
    }

    pub fn set_tree(&mut self, tree: GameTree)
        ensures
            final(self).m_tree == tree,
            final(self).m_tags == old(self).m_tags,
    {
        self.m_tree = tree;
    }

    pub fn add_game_tag(&mut self, tag: (TagType, String))
        ensures
            final(self).m_tree == old(self).m_tree,
            final(self).m_tags@ == old(self).m_tags@.push(tag),
    {
        self.m_tags.push(tag);
    }

    pub fn get_tree(&self) -> (r: &GameTree)
        ensures
            r == &self.m_tree,
    {
        &self.m_tree
    }

    pub fn get_tree_mut(&mut self) -> (r: &mut GameTree)
        ensures
            *r == old(self).m_tree,
            *final(self) == (Game { m_tree: *final(r), ..*old(self) }),
    {
        &mut self.m_tree
    }
}

} // verus!
