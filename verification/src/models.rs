//! Result content as typed segments: literal text or an image reference,
//! in document order. Order is load-bearing: concatenating the segments in
//! order reproduces the reading-order text of the result.

use vstd::prelude::*;
use vstd::string::StringExecFns;
use crate::text::str_eq;

verus! {

/// Mathematical view of a segment.
pub ghost enum SegView {
    Text(Seq<char>),
    Image(Seq<char>),
}

/// One atomic unit of extracted result content: literal text, or the URL of
/// an image, with enough information to re-render the result elsewhere.
#[derive(Debug, Clone, PartialEq, Eq)]
pub enum Segment {
    Text { value: String },
    Image { url: String },
}

impl View for Segment {
    type V = SegView;

    open spec fn view(&self) -> SegView {
        match self {
            Segment::Text { value } => SegView::Text(value@),
            Segment::Image { url } => SegView::Image(url@),
        }
    }
}

/// The linear reading-order contribution of one segment: its text, or its
/// image URL.
pub open spec fn seg_str(s: SegView) -> Seq<char> {
    match s {
        SegView::Text(t) => t,
        SegView::Image(u) => u,
    }
}

/// The reading-order text of a whole sequence of segments, in emitted order.
pub open spec fn flat_text(s: Seq<SegView>) -> Seq<char>
    decreases s.len(),
{
    if s.len() == 0 {
        Seq::empty()
    } else {
        seg_str(s[0]) + flat_text(s.drop_first())
    }
}

pub broadcast proof fn lemma_flat_text_push(s: Seq<SegView>, x: SegView)
    ensures
        #[trigger] flat_text(s.push(x)) == flat_text(s) + seg_str(x),
    decreases s.len(),
{
    if s.len() == 0 {
        assert(s.push(x)[0] == x);
        assert(s.push(x).drop_first() =~= Seq::<SegView>::empty());
        assert(flat_text(s.push(x)) == seg_str(x) + flat_text(Seq::<SegView>::empty()));
        assert(flat_text(Seq::<SegView>::empty()) == Seq::<char>::empty());
        assert(seg_str(x) + Seq::<char>::empty() =~= seg_str(x));
        assert(s =~= Seq::<SegView>::empty());
        assert(Seq::<char>::empty() + seg_str(x) =~= seg_str(x));
    } else {
        assert(s.push(x)[0] == s[0]);
        assert(s.push(x).drop_first() =~= s.drop_first().push(x));
        lemma_flat_text_push(s.drop_first(), x);
        assert(flat_text(s.push(x)) == seg_str(s[0]) + flat_text(s.drop_first().push(x)));
        assert(flat_text(s.drop_first().push(x)) == flat_text(s.drop_first()) + seg_str(x));
        assert(flat_text(s) == seg_str(s[0]) + flat_text(s.drop_first()));
        assert((seg_str(s[0]) + flat_text(s.drop_first())) + seg_str(x) =~= seg_str(s[0]) + (
        flat_text(s.drop_first()) + seg_str(x)));
    }
}

/// The kind of segment that a tag and payload describe: `"text"` names a
/// text segment, `"image"` an image segment, and anything else nothing.
pub open spec fn seg_of_kind(kind: Seq<char>, payload: Seq<char>) -> Option<SegView> {
    if kind == "text"@ {
        Some(SegView::Text(payload))
    } else if kind == "image"@ {
        Some(SegView::Image(payload))
    } else {
        None
    }
}

/// The view of an optional segment.
pub open spec fn opt_seg_view(r: Option<Segment>) -> Option<SegView> {
    match r {
        Some(s) => Some(s@),
        None => None,
    }
}

impl Segment {
    /// Create a segment from a kind tag (`"text"` or `"image"`) and its
    /// payload: the text value, or the image URL.
    pub fn new(kind: &str, payload: &str) -> (r: Option<Segment>)
        ensures
            opt_seg_view(r) == seg_of_kind(kind@, payload@),
    {
        if str_eq(kind, "text") {
            Some(Segment::Text { value: payload.to_owned() })
        } else if str_eq(kind, "image") {
            Some(Segment::Image { url: payload.to_owned() })
        } else {
            None
        }
    }

    /// The string this segment contributes to the flattened reading order:
    /// its text, or its image URL.
    pub fn get_str(&self) -> (r: Option<String>)
        ensures
            r matches Some(t) && t@ == seg_str(self@),
    {
        match self {
            Segment::Text { value } => Some(value.clone()),
            Segment::Image { url } => Some(url.clone()),
        }
    }
}

/// The views of a sequence of segments, in order.
pub open spec fn seg_views(s: Seq<Segment>) -> Seq<SegView> {
    Seq::new(s.len(), |i: int| s[i]@)
}

pub proof fn lemma_flat_text_concat(a: Seq<SegView>, b: Seq<SegView>)
    ensures
        flat_text(a + b) == flat_text(a) + flat_text(b),
    decreases a.len(),
{
    if a.len() == 0 {
        assert(a + b =~= b);
        assert(flat_text(a) == Seq::<char>::empty());
        assert(Seq::<char>::empty() + flat_text(b) =~= flat_text(b));
    } else {
        assert((a + b)[0] == a[0]);
        assert((a + b).len() > 0);
        assert((a + b).drop_first() =~= a.drop_first() + b);
        lemma_flat_text_concat(a.drop_first(), b);
        assert(flat_text(a + b) == seg_str(a[0]) + (flat_text(a.drop_first()) + flat_text(b)));
        assert(seg_str(a[0]) + (flat_text(a.drop_first()) + flat_text(b)) =~= (seg_str(a[0])
            + flat_text(a.drop_first())) + flat_text(b));
    }
}

pub proof fn lemma_flat_text_singleton(x: SegView)
    ensures
        flat_text(seq![x]) == seg_str(x),
{
    assert(seq![x][0] == x);
    assert(seq![x].drop_first() =~= Seq::<SegView>::empty());
    assert(flat_text(seq![x]) == seg_str(x) + flat_text(Seq::<SegView>::empty()));
    assert(flat_text(Seq::<SegView>::empty()) == Seq::<char>::empty());
    assert(seg_str(x) + Seq::<char>::empty() =~= seg_str(x));
}

/// An ordered sequence of segments, in document order.
#[derive(Debug, Clone, PartialEq, Eq)]
pub struct Segments(pub Vec<Segment>);

impl View for Segments {
    type V = Seq<SegView>;

    open spec fn view(&self) -> Seq<SegView> {
        seg_views(self.0@)
    }
}

impl Segments {
    /// The number of segments.
    pub fn len(&self) -> (r: usize)
        ensures
            r == self@.len(),
    {
        self.0.len()
    }

    /// The reading-order text of the whole sequence: each text segment's
    /// value and each image segment's URL, concatenated in emitted order.
    pub fn get_str(&self) -> (r: String)
        ensures
            r@ == flat_text(self@),
    {
        let mut out = String::new();
        let mut i: usize = 0;
        proof {
            assert(self@.take(0) =~= Seq::<SegView>::empty());
        }
        while i < self.0.len()
            invariant
                i <= self.0@.len(),
                self@.len() == self.0@.len(),
                out@ == flat_text(self@.take(i as int)),
            decreases self.0.len() - i,
        {
            let piece = match &self.0[i] {
                Segment::Text { value } => value.clone(),
                Segment::Image { url } => url.clone(),
            };
            out.append(piece.as_str());
            proof {
                assert(self@.take(i + 1) =~= self@.take(i as int).push(self@[i as int]));
                lemma_flat_text_push(self@.take(i as int), self@[i as int]);
                assert(seg_str(self@[i as int]) == piece@);
            }
            i = i + 1;
        }
        proof {
            assert(self@.take(self@.len() as int) =~= self@);
        }
        out
    }
}

} // verus!
