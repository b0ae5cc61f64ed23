//! Structured comments: free text plus ordered annotation tags such as
//! `[%clk ...]` and `[%eval ...]`.

use vstd::prelude::*;
use vstd::string::StringExecFns;
use crate::strutil::str_eq;

verus! {

/// Classification of an annotation tag found inside a comment.
#[derive(Debug, Eq)]
pub enum TagType {
    Clock,
    Eval,
    Other(String),
}

/// Mathematical value of a [`TagType`].
pub ghost enum TagView {
    Clock,
    Eval,
    Other(Seq<char>),
}

impl View for TagType {
    type V = TagView;

    open spec fn view(&self) -> TagView {
        match self {
            TagType::Clock => TagView::Clock,
            TagType::Eval => TagView::Eval,
            TagType::Other(s) => TagView::Other(s@),
        }
    }
}

/// Tag name classification: `%clk` and `%eval` are recognized, any other
/// name is kept as it is.
pub open spec fn spec_classify_tag(s: Seq<char>) -> TagView {
    if s == "%clk"@ {
        TagView::Clock
    } else if s == "%eval"@ {
        TagView::Eval
    } else {
        TagView::Other(s)
    }
}

pub fn classify_tag(s: String) -> (r: TagType)
    ensures
        r@ == spec_classify_tag(s@),
{
    if str_eq(s.as_str(), "%clk") {
        TagType::Clock
    } else if str_eq(s.as_str(), "%eval") {
        TagType::Eval
    } else {
        TagType::Other(s)
    }
}

/// The rendered name of a tag, inverse of [`spec_classify_tag`] on
/// recognized names.
pub open spec fn spec_tag_string(t: TagView) -> Seq<char> {
    match t {
        TagView::Clock => "%clk"@,
        TagView::Eval => "%eval"@,
        TagView::Other(s) => s,
    }
}

pub fn tag_to_string(t: &TagType) -> (r: String)
    ensures
        r@ == spec_tag_string(t@),
{
    match t {
        TagType::Clock => String::from_str("%clk"),
        TagType::Eval => String::from_str("%eval"),
        TagType::Other(s) => s.clone(),
    }
}

impl PartialEq for TagType {
    fn eq(&self, other: &TagType) -> (r: bool) {
        match (self, other) {
            (TagType::Clock, TagType::Clock) => true,
            (TagType::Eval, TagType::Eval) => true,
            (TagType::Other(a), TagType::Other(b)) => *a == *b,
            _ => false,
        }
    }
}

impl vstd::std_specs::cmp::PartialEqSpecImpl for TagType {
    open spec fn obeys_eq_spec() -> bool {
        true
    }

    open spec fn eq_spec(&self, other: &TagType) -> bool {
        self@ == other@
    }
}

/// A comment attached to a ply: free text plus the annotation tags that were
/// embedded in it, in order of appearance.
#[derive(Debug, Eq)]
pub struct Comment {
    pub m_text: String,
    pub m_tags: Vec<(TagType, String)>,
}

/// Mathematical value of a [`Comment`].
#[verifier::ext_equal]
pub ghost struct CommentView {
    pub text: Seq<char>,
    pub tags: Seq<(TagView, Seq<char>)>,
}

/// Views of a tag list, element by element.
pub open spec fn tags_view(s: Seq<(TagType, String)>) -> Seq<(TagView, Seq<char>)> {
    s.map_values(|p: (TagType, String)| (p.0@, p.1@))
}

impl View for Comment {
    type V = CommentView;

    open spec fn view(&self) -> CommentView {
        CommentView { text: self.m_text@, tags: tags_view(self.m_tags@) }
    }
}

/// True exactly when the two tag lists have equal views.
fn tag_list_eq(a: &Vec<(TagType, String)>, b: &Vec<(TagType, String)>) -> (r: bool)
    ensures
        r == (tags_view(a@) == tags_view(b@)),
{
    if a.len() != b.len() {
        proof {
            assert(tags_view(a@).len() != tags_view(b@).len());
        }
        return false;
    }
    let n = a.len();
    let mut i: usize = 0;
    while i < n
        invariant
            n == a.len() == b.len(),
            0 <= i <= n,
            forall|k: int| 0 <= k < i ==> tags_view(a@)[k] == tags_view(b@)[k],
        decreases n - i,
    {
        let pa = &a[i];
        let pb = &b[i];
        if !(pa.0 == pb.0) {
            proof {
                assert(tags_view(a@)[i as int].0 == pa.0@);
                assert(tags_view(b@)[i as int].0 == pb.0@);
            }
            return false;
        }
        if !(pa.1 == pb.1) {
            proof {
                assert(tags_view(a@)[i as int].1 == pa.1@);
                assert(tags_view(b@)[i as int].1 == pb.1@);
            }
            return false;
        }
        proof {
            assert(tags_view(a@)[i as int] == tags_view(b@)[i as int]);
        }
        i += 1;
    }
    proof {
        assert(tags_view(a@) =~= tags_view(b@));
    }
    true
}

impl PartialEq for Comment {
    fn eq(&self, other: &Comment) -> (r: bool) {
        self.m_text == other.m_text && tag_list_eq(&self.m_tags, &other.m_tags)
    }
}

impl vstd::std_specs::cmp::PartialEqSpecImpl for Comment {
    open spec fn obeys_eq_spec() -> bool {
        true
    }

    open spec fn eq_spec(&self, other: &Comment) -> bool {
        self@ == other@
    }
}

impl Comment {
    pub fn new() -> (c: Comment)
        ensures
            c@.text == Seq::<char>::empty(),
            c@.tags == Seq::<(TagView, Seq<char>)>::empty(),
    {
        let c = Comment { m_text: String::new(), m_tags: Vec::new() };
        proof {
            assert(tags_view(c.m_tags@) =~= Seq::<(TagView, Seq<char>)>::empty());
        }
        c
    }

    pub fn new_data(text: String, tags: Vec<(TagType, String)>) -> (c: Comment)
        ensures
            c.m_text == text,
            c.m_tags == tags,
    {
        Comment { m_text: text, m_tags: tags }
    }

    pub fn get_text(&self) -> (r: &String)
        ensures
            r == &self.m_text,
    {
        &self.m_text
    }

    pub fn get_tags(&self) -> (r: &Vec<(TagType, String)>)
        ensures
            r == &self.m_tags,
    {
        &self.m_tags
    }

    pub fn set_text(&mut self, text: String)
        ensures
            final(self).m_text == text,
            final(self).m_tags == old(self).m_tags,
    {
        self.m_text = text;
    }

    pub fn add_tag(&mut self, tag_name: TagType, tag_text: String)
        ensures
            final(self).m_text == old(self).m_text,
            final(self).m_tags@ == old(self).m_tags@.push((tag_name, tag_text)),
    {
        self.m_tags.push((tag_name, tag_text));
    }
}

} // verus!
