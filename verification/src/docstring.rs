//! Rich text: a sequence of segments of plain text, code, links and
//! references, and its rendering as HTML.

use vstd::prelude::*;
use crate::highlight::{
    duplicate_events, escape_html, escaped, events_view, highlighted, outcome, EventView,
    HighlightError, HighlightEvent, SyntaxHighlighter, WriterView,
};

verus! {

/// One segment of rich text.
#[derive(Debug, Clone)]
pub enum DocStringSegment {
    /// Plain text.
    Text { contents: String },
    /// A value of the scripting language, to be highlighted.
    Code { contents: Vec<HighlightEvent> },
    /// Code that is shown as it is.
    RawCode { contents: String },
    /// A reference to a symbol.
    Symbol { identifier: String },
    /// A reference to a concept.
    Concept { identifier: String },
    /// A link.
    Link { contents: String, url: String },
}

/// A segment over plain values.
pub enum SegmentView {
    Text(Seq<char>),
    Code(Seq<EventView>),
    RawCode(Seq<char>),
    Symbol(Seq<char>),
    Concept(Seq<char>),
    Link(Seq<char>, Seq<char>),
}

impl View for DocStringSegment {
    type V = SegmentView;

    open spec fn view(&self) -> SegmentView {
        match self {
            DocStringSegment::Text { contents } => SegmentView::Text(contents@),
            DocStringSegment::Code { contents } => SegmentView::Code(events_view(contents@)),
            DocStringSegment::RawCode { contents } => SegmentView::RawCode(contents@),
            DocStringSegment::Symbol { identifier } => SegmentView::Symbol(identifier@),
            DocStringSegment::Concept { identifier } => SegmentView::Concept(identifier@),
            DocStringSegment::Link { contents, url } => SegmentView::Link(contents@, url@),
        }
    }
}

impl SegmentView {
    /// A document must be short enough for its depth to be counted.
    pub open spec fn wf(self) -> bool {
        match self {
            SegmentView::Code(code) => code.len() < i64::MAX,
            _ => true,
        }
    }

    /// Whether the segment is shown outside paragraphs.
    pub open spec fn is_code(self) -> bool {
        self is Code || self is RawCode
    }

    /// The error that rendering the segment meets, if any.
    pub open spec fn error(self) -> Option<HighlightError> {
        match self {
            SegmentView::Code(code) => WriterView::initial().run(code, code.len()).1,
            _ => None,
        }
    }

    /// The markup of the segment, after a paragraph that was open
    /// (`in_para`) has been closed for code, or one has been opened for
    /// anything else.
    pub open spec fn html(self, in_para: bool) -> Seq<char> {
        (if self.is_code() && in_para {
            "</p>"@
        } else if !self.is_code() && !in_para {
            "<p>"@
        } else {
            Seq::<char>::empty()
        }) + match self {
            SegmentView::Text(contents) => contents,
            SegmentView::Code(code) => highlighted(code),
            SegmentView::RawCode(contents) => "<div class=\"pd-raw-code\">"@ + contents
                + "</div>"@,
            SegmentView::Symbol(identifier) => "<span class=\"pd-symbol-missing\">[symbol: "@
                + escaped(identifier) + "]</span>"@,
            SegmentView::Concept(identifier) => "<span class=\"pd-concept-missing\">["@ + escaped(
                identifier,
            ) + "]</span>"@,
            SegmentView::Link(contents, url) => "<a href=\""@ + url + "\">"@ + contents + "</a>"@,
        }
    }
}

impl DocStringSegment {
    /// A document must be short enough for its depth to be counted.
    pub open spec fn wf(&self) -> bool {
        self@.wf()
    }

    /// A copy of the segment.
    pub fn duplicate(&self) -> (r: DocStringSegment)
        ensures
            r@ == self@,
    {
        match self {
            DocStringSegment::Text { contents } => DocStringSegment::Text {
                contents: contents.clone(),
            },
            DocStringSegment::Code { contents } => {
                DocStringSegment::Code { contents: duplicate_events(contents) }
            },
            DocStringSegment::RawCode { contents } => DocStringSegment::RawCode {
                contents: contents.clone(),
            },
            DocStringSegment::Symbol { identifier } => DocStringSegment::Symbol {
                identifier: identifier.clone(),
            },
            DocStringSegment::Concept { identifier } => DocStringSegment::Concept {
                identifier: identifier.clone(),
            },
            DocStringSegment::Link { contents, url } => DocStringSegment::Link {
                contents: contents.clone(),
                url: url.clone(),
            },
        }
    }
}

/// Rich text.
#[derive(Debug, Clone)]
pub struct DocString {
    pub segments: Vec<DocStringSegment>,
}

/// The segments of a list over plain values.
pub open spec fn segment_views(segments: Seq<DocStringSegment>) -> Seq<SegmentView> {
    segments.map_values(|s: DocStringSegment| s@)
}

impl View for DocString {
    type V = Seq<SegmentView>;

    open spec fn view(&self) -> Seq<SegmentView> {
        segment_views(self.segments@)
    }
}

/// The text that shows a flag.
pub open spec fn flag_text(b: bool) -> Seq<char> {
    if b {
        "yes"@
    } else {
        "no"@
    }
}

/// `items` with a text segment `separator` between each two of them.
pub open spec fn separated(items: Seq<SegmentView>, separator: Seq<char>) -> Seq<SegmentView>
    decreases items.len(),
{
    if items.len() == 0 {
        Seq::empty()
    } else if items.len() == 1 {
        items
    } else {
        separated(items.drop_last(), separator).push(SegmentView::Text(separator)).push(
            items.last(),
        )
    }
}

/// The markup of the first `n` of `segments` and whether a paragraph is open
/// after them; with the first error, after which nothing more is rendered.
pub open spec fn rendered(segments: Seq<SegmentView>, n: nat) -> (
    Seq<char>,
    bool,
    Option<HighlightError>,
)
    decreases n,
{
    if n == 0 || n > segments.len() {
        (Seq::empty(), false, None)
    } else {
        let before = rendered(segments, (n - 1) as nat);
        if before.2 is Some {
            before
        } else {
            let segment = segments[n - 1];
            (
                before.0 + segment.html(before.1),
                !segment.is_code(),
                segment.error(),
            )
        }
    }
}

impl DocString {
    /// Every segment is well-formed.
    pub open spec fn wf(&self) -> bool {
        forall|i: int| 0 <= i < self@.len() ==> (#[trigger] self@[i]).wf()
    }

    /// Whether every value block of the text is short enough to be
    /// highlighted.
    pub fn is_well_formed(&self) -> (r: bool)
        ensures
            r == self.wf(),
    {
        let mut i: usize = 0;
        while i < self.segments.len()
            invariant
                i <= self.segments@.len(),
                forall|j: int| 0 <= j < i ==> (#[trigger] self@[j]).wf(),
            decreases self.segments@.len() - i,
        {
            assert(self@[i as int] == self.segments@[i as int]@);
            match &self.segments[i] {
                DocStringSegment::Code { contents } => {
                    assert(events_view(contents@).len() == contents@.len());
                    if contents.len() as u64 >= 0x7fff_ffff_ffff_ffffu64 {
                        assert(!self@[i as int].wf());
                        return false;
                    }
                },
                _ => {},
            }
            i += 1;
        }
        true
    }

    /// Rich text without segments.
    pub fn empty() -> (r: DocString)
        ensures
            r@ == Seq::<SegmentView>::empty(),
            r.wf(),
    {
        let r = DocString { segments: Vec::new() };
        assert(r@ =~= Seq::<SegmentView>::empty());
        r
    }

    /// Rich text of one segment.
    pub fn new_from_segment(segment: DocStringSegment) -> (r: DocString)
        ensures
            r@ == seq![segment@],
            segment.wf() ==> r.wf(),
    {
        let mut segments = Vec::new();
        segments.push(segment);
        let r = DocString { segments };
        assert(r@ =~= seq![segment@]);
        r
    }

    /// Rich text of one segment of plain text.
    pub fn from_text(text: &str) -> (r: DocString)
        ensures
            r@ == seq![SegmentView::Text(text@)],
            r.wf(),
    {
        Self::new_from_segment(DocStringSegment::Text { contents: text.to_owned() })
    }

    /// Rich text that shows a flag, as `yes` or `no`.
    pub fn from_flag(flag: bool) -> (r: DocString)
        ensures
            r@ == seq![SegmentView::Text(flag_text(flag))],
            r.wf(),
    {
        Self::from_text(
            if flag {
                "yes"
            } else {
                "no"
            },
        )
    }

    /// Rich text of `items`, with `separator` as plain text between each two
    /// of them.
    pub fn new_from_iter(items: Vec<DocStringSegment>, separator: &str) -> (r: DocString)
        ensures
            r@ == separated(segment_views(items@), separator@),
            (forall|i: int| 0 <= i < items@.len() ==> (#[trigger] items@[i]).wf()) ==> r.wf(),
    {
        let ghost all = segment_views(items@);
        let ghost ok = forall|i: int| 0 <= i < all.len() ==> (#[trigger] all[i]).wf();
        assert((forall|i: int| 0 <= i < items@.len() ==> (#[trigger] items@[i]).wf()) ==> ok) by {
            if forall|i: int| 0 <= i < items@.len() ==> (#[trigger] items@[i]).wf() {
                assert forall|i: int| 0 <= i < all.len() implies (#[trigger] all[i]).wf() by {
                    assert(items@[i].wf());
                }
            }
        }
        let mut items = items;
        let mut segments: Vec<DocStringSegment> = Vec::new();
        let mut rest: Vec<DocStringSegment> = Vec::new();
        // The items are taken from the end, so the list is turned round first.
        while items.len() > 0
            invariant
                rest@.len() + items@.len() == all.len(),
                forall|j: int| 0 <= j < items@.len() ==> (#[trigger] items@[j])@ == all[j],
                forall|j: int|
                    0 <= j < rest@.len() ==> (#[trigger] rest@[j])@ == all[all.len() - 1 - j],
            decreases items@.len(),
        {
            let item = items.pop().unwrap();
            rest.push(item);
        }
        let mut i: usize = 0;
        let n = rest.len();
        while rest.len() > 0
            invariant
                n == all.len(),
                i + rest@.len() == n,
                forall|j: int|
                    0 <= j < rest@.len() ==> (#[trigger] rest@[j])@ == all[all.len() - 1 - j],
                segment_views(segments@) == separated(all.take(i as int), separator@),
                ok == (forall|k: int| 0 <= k < all.len() ==> (#[trigger] all[k]).wf()),
                ok ==> forall|k: int|
                    0 <= k < segments@.len() ==> (#[trigger] segment_views(segments@)[k]).wf(),
            decreases rest@.len(),
        {
            let item = rest.pop().unwrap();
            proof {
                assert(all.take(i + 1).drop_last() =~= all.take(i as int));
                assert(all.take(i + 1).last() == item@);
                assert(item@ == all[i as int]);
            }
            let ghost before = segments@;
            if i > 0 {
                segments.push(DocStringSegment::Text { contents: separator.to_owned() });
                segments.push(item);
                assert(segment_views(segments@) =~= segment_views(before).push(
                    SegmentView::Text(separator@),
                ).push(item@));
            } else {
                segments.push(item);
                assert(segment_views(segments@) =~= seq![item@]);
                assert(all.take(1) =~= seq![item@]);
            }
            i += 1;
        }
        assert(all.take(n as int) =~= all);
        DocString { segments }
    }

    /// A copy of the text.
    pub fn duplicate(&self) -> (r: DocString)
        ensures
            r@ == self@,
            self.wf() ==> r.wf(),
    {
        let mut segments: Vec<DocStringSegment> = Vec::new();
        let mut i: usize = 0;
        while i < self.segments.len()
            invariant
                i <= self.segments@.len(),
                segments@.len() == i,
                forall|j: int| 0 <= j < i ==> segments@[j]@ == self.segments@[j]@,
            decreases self.segments@.len() - i,
        {
            segments.push(self.segments[i].duplicate());
            i += 1;
        }
        let r = DocString { segments };
        assert(r@ =~= self@);
        r
    }
}

/// Rich text that renders itself for the page it stands on.
#[derive(Debug, Clone)]
pub struct DocStringSer(pub DocString, pub u64);

impl DocStringSer {
    /// The markup of the text, or `None` where a value block of it is too
    /// long to be highlighted.
    pub fn try_to_html(&self) -> (r: Option<Result<String, HighlightError>>)
        ensures
            match r {
                Some(Ok(s)) => self.0.wf() && rendered(self.0@, self.0@.len()).2 is None && s@
                    == rendered(self.0@, self.0@.len()).0,
                Some(Err(e)) => self.0.wf() && rendered(self.0@, self.0@.len()).2 == Some(e),
                None => !self.0.wf(),
            },
    {
        if self.0.is_well_formed() {
            Some(self.to_html())
        } else {
            None
        }
    }

    /// Appends the markup of one segment to `s`. Text, links and references
    /// stand in paragraphs, code stands outside them: a paragraph is closed
    /// before code and opened before anything else, as `in_para` requires.
    pub fn segment_to_html(s: &mut String, in_para: &mut bool, segment: &DocStringSegment) -> (r:
        Result<(), HighlightError>)
        requires
            segment.wf(),
        ensures
            final(s)@ == old(s)@ + segment@.html(*old(in_para)),
            *final(in_para) == !segment@.is_code(),
            r == outcome(segment@.error()),
    {
        let ghost start = s@;
        let ghost para = *in_para;
        match segment {
            DocStringSegment::Code { .. } | DocStringSegment::RawCode { .. } => {
                if *in_para {
                    *in_para = false;
                    s.append("</p>");
                }
            },
            _ => {
                if !*in_para {
                    *in_para = true;
                    s.append("<p>");
                }
            },
        }
        let ghost mid = s@;
        let r = match segment {
            DocStringSegment::Text { contents } => {
                s.append(contents.as_str());
                Ok(())
            },
            DocStringSegment::Code { contents } => SyntaxHighlighter::to_html(s, contents),
            DocStringSegment::RawCode { contents } => {
                s.append("<div class=\"pd-raw-code\">");
                s.append(contents.as_str());
                s.append("</div>");
                Ok(())
            },
            DocStringSegment::Symbol { identifier } => {
                s.append("<span class=\"pd-symbol-missing\">[symbol: ");
                s.append(escape_html(identifier.as_str()).as_str());
                s.append("]</span>");
                Ok(())
            },
            DocStringSegment::Concept { identifier } => {
                s.append("<span class=\"pd-concept-missing\">[");
                s.append(escape_html(identifier.as_str()).as_str());
                s.append("]</span>");
                Ok(())
            },
            DocStringSegment::Link { contents, url } => {
                s.append("<a href=\"");
                s.append(url.as_str());
                s.append("\">");
                s.append(contents.as_str());
                s.append("</a>");
                Ok(())
            },
        };
        proof {
            assert(s@ =~= start + segment@.html(para));
        }
        r
    }

    /// The markup of the text, or the error of the first segment that cannot
    /// be rendered.
    pub fn to_html(&self) -> (r: Result<String, HighlightError>)
        requires
            self.0.wf(),
        ensures
            match r {
                Ok(s) => rendered(self.0@, self.0@.len()).2 is None && s@ == rendered(
                    self.0@,
                    self.0@.len(),
                ).0,
                Err(e) => rendered(self.0@, self.0@.len()).2 == Some(e),
            },
    {
        let mut s = String::new();
        let mut in_para = false;
        let mut i: usize = 0;
        while i < self.0.segments.len()
            invariant
                self.0.wf(),
                i <= self.0.segments@.len(),
                rendered(self.0@, i as nat) == (s@, in_para, None::<HighlightError>),
            decreases self.0.segments@.len() - i,
        {
            let ghost before = s@;
            let ghost para = in_para;
            let step = DocStringSer::segment_to_html(&mut s, &mut in_para, &self.0.segments[i]);
            proof {
                assert(self.0@[i as int] == self.0.segments@[i as int]@);
                assert(self.0@[i as int].wf());
                assert(rendered(self.0@, (i + 1) as nat) == (
                    before + self.0@[i as int].html(para),
                    !self.0@[i as int].is_code(),
                    self.0@[i as int].error(),
                ));
            }
            if let Err(e) = step {
                proof {
                    lemma_rendered_stops(self.0@, (i + 1) as nat, self.0@.len());
                }
                return Err(e);
            }
            i += 1;
        }
        Ok(s)
    }
}

/// Once a segment has failed, the segments after it change nothing.
proof fn lemma_rendered_stops(segments: Seq<SegmentView>, n: nat, m: nat)
    requires
        n <= m <= segments.len(),
        rendered(segments, n).2 is Some,
    ensures
        rendered(segments, m) == rendered(segments, n),
    decreases m,
{
    if m > n {
        lemma_rendered_stops(segments, n, (m - 1) as nat);
    }
}

} // verus!
