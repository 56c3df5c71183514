//! The syntax highlighter: a writer that takes the events of a nested
//! key/value/array document and renders them as classified markup.

use vstd::prelude::*;
use crate::text::{decimal, decimal_string_u64, join2, join3};

verus! {

/// The classes of highlighted text.
#[derive(Debug, Clone, Copy, PartialEq, Eq, Structural)]
pub enum HighlightToken {
    Text,
    Identifier,
    Str,
    Date,
    Boolean,
    Number,
    Placeholder,
    Operator,
    Comment,
}

/// The kinds of collection.
#[derive(Debug, Clone, Copy, PartialEq, Eq, Structural)]
pub enum CollectionType {
    Object,
    Array,
}

/// The comparison operators of the scripting language.
#[derive(Debug, Clone, Copy, PartialEq, Eq, Structural)]
pub enum Operator {
    GreaterThan,
    GreaterThanEq,
    LessThan,
    LessThanEq,
}

/// Why a document could not be highlighted.
#[derive(Debug, Clone, Copy, PartialEq, Eq, Structural)]
pub enum HighlightError {
    /// A line was to be indented outside every collection.
    NegativeIndent,
    /// A collection was closed that was never opened.
    DepthMismatch,
    /// A property was written outside every collection.
    NoCollection,
    /// A property was written inside an array.
    PropertyInArray,
}

/// One open collection.
#[derive(Debug, Clone, Copy, PartialEq, Eq, Structural)]
pub struct HighlightFrame {
    pub collection: CollectionType,
    /// Whether the collection is rendered on one line. Decided when the
    /// collection is opened.
    pub same_line: bool,
}

/// One event of a document: what a value tree tells its writer, in order.
#[derive(Debug, Clone)]
pub enum HighlightEvent {
    /// An object opens.
    BeginObject,
    /// A property of the open object follows: its key and value come as the
    /// next events.
    Property,
    /// The open object closes.
    EndObject,
    /// An array opens, with its length where it is known.
    BeginArray(Option<usize>),
    /// The open array closes.
    EndArray,
    /// Plain text, such as the sign between a key and its value.
    Direct(String),
    /// A quoted string.
    Str(String),
    /// An identifier.
    Identifier(String),
    /// A date, already written out.
    Date(String),
    /// A boolean.
    Boolean(bool),
    /// A placeholder for a value.
    Placeholder(String),
    /// An integer.
    Integer(i64),
    /// A decimal number, already written out.
    Decimal(String),
    /// A comparison operator.
    Operator(Operator),
    /// A comment.
    Comment(String),
}

/// An event over plain values.
pub enum EventView {
    BeginObject,
    Property,
    EndObject,
    BeginArray(Option<usize>),
    EndArray,
    Direct(Seq<char>),
    Str(Seq<char>),
    Identifier(Seq<char>),
    Date(Seq<char>),
    Boolean(bool),
    Placeholder(Seq<char>),
    Integer(i64),
    Decimal(Seq<char>),
    Operator(Operator),
    Comment(Seq<char>),
}

impl View for HighlightEvent {
    type V = EventView;

    open spec fn view(&self) -> EventView {
        match self {
            HighlightEvent::BeginObject => EventView::BeginObject,
            HighlightEvent::Property => EventView::Property,
            HighlightEvent::EndObject => EventView::EndObject,
            HighlightEvent::BeginArray(l) => EventView::BeginArray(*l),
            HighlightEvent::EndArray => EventView::EndArray,
            HighlightEvent::Direct(t) => EventView::Direct(t@),
            HighlightEvent::Str(t) => EventView::Str(t@),
            HighlightEvent::Identifier(t) => EventView::Identifier(t@),
            HighlightEvent::Date(t) => EventView::Date(t@),
            HighlightEvent::Boolean(b) => EventView::Boolean(*b),
            HighlightEvent::Placeholder(t) => EventView::Placeholder(t@),
            HighlightEvent::Integer(n) => EventView::Integer(*n),
            HighlightEvent::Decimal(t) => EventView::Decimal(t@),
            HighlightEvent::Operator(op) => EventView::Operator(*op),
            HighlightEvent::Comment(t) => EventView::Comment(t@),
        }
    }
}

/// The events of a document over plain values.
pub open spec fn events_view(code: Seq<HighlightEvent>) -> Seq<EventView> {
    code.map_values(|e: HighlightEvent| e@)
}

impl HighlightEvent {
    /// A copy of the event.
    pub fn duplicate(&self) -> (r: HighlightEvent)
        ensures
            r@ == self@,
    {
        match self {
            HighlightEvent::BeginObject => HighlightEvent::BeginObject,
            HighlightEvent::Property => HighlightEvent::Property,
            HighlightEvent::EndObject => HighlightEvent::EndObject,
            HighlightEvent::BeginArray(l) => HighlightEvent::BeginArray(*l),
            HighlightEvent::EndArray => HighlightEvent::EndArray,
            HighlightEvent::Direct(t) => HighlightEvent::Direct(t.clone()),
            HighlightEvent::Str(t) => HighlightEvent::Str(t.clone()),
            HighlightEvent::Identifier(t) => HighlightEvent::Identifier(t.clone()),
            HighlightEvent::Date(t) => HighlightEvent::Date(t.clone()),
            HighlightEvent::Boolean(b) => HighlightEvent::Boolean(*b),
            HighlightEvent::Placeholder(t) => HighlightEvent::Placeholder(t.clone()),
            HighlightEvent::Integer(n) => HighlightEvent::Integer(*n),
            HighlightEvent::Decimal(t) => HighlightEvent::Decimal(t.clone()),
            HighlightEvent::Operator(op) => HighlightEvent::Operator(*op),
            HighlightEvent::Comment(t) => HighlightEvent::Comment(t.clone()),
        }
    }
}

/// A copy of a document's events.
pub fn duplicate_events(code: &Vec<HighlightEvent>) -> (r: Vec<HighlightEvent>)
    ensures
        events_view(r@) == events_view(code@),
{
    let mut r: Vec<HighlightEvent> = Vec::new();
    let mut i: usize = 0;
    while i < code.len()
        invariant
            i <= code@.len(),
            r@.len() == i,
            forall|j: int| 0 <= j < i ==> r@[j]@ == code@[j]@,
        decreases code@.len() - i,
    {
        r.push(code[i].duplicate());
        i += 1;
    }
    assert(events_view(r@) =~= events_view(code@));
    r
}

/// What escaping makes of one character: the characters that mean something
/// in HTML become entities.
pub open spec fn escaped_char(c: char) -> Seq<char> {
    if c == '<' {
        "&lt;"@
    } else if c == '>' {
        "&gt;"@
    } else if c == '"' {
        "&quot;"@
    } else if c == '&' {
        "&amp;"@
    } else if c == '\'' {
        "&#x27;"@
    } else if c == '`' {
        "&#x60;"@
    } else if c == '=' {
        "&#x3D;"@
    } else {
        seq![c]
    }
}

/// `s` with each character escaped.
pub open spec fn escaped(s: Seq<char>) -> Seq<char>
    decreases s.len(),
{
    if s.len() == 0 {
        Seq::empty()
    } else {
        escaped(s.drop_last()) + escaped_char(s.last())
    }
}

/// `handlebars::html_escape`: replaces each of the characters
/// `<`, `>`, `"`, `&`, `'`, `` ` `` and `=` by its entity and keeps every
/// other character.
#[verifier::external_body]
pub(crate) fn escape_html(s: &str) -> (r: String)
    ensures
        r@ == escaped(s@),
{
    handlebars::html_escape(s)
}

impl HighlightToken {
    /// The name of the class, as the style sheet knows it.
    pub open spec fn spec_name(self) -> Seq<char> {
        match self {
            HighlightToken::Text => "Text"@,
            HighlightToken::Identifier => "Identifier"@,
            HighlightToken::Str => "String"@,
            HighlightToken::Date => "Date"@,
            HighlightToken::Boolean => "Bool"@,
            HighlightToken::Number => "Number"@,
            HighlightToken::Placeholder => "Placeholder"@,
            HighlightToken::Operator => "Operator"@,
            HighlightToken::Comment => "Comment"@,
        }
    }

    /// The name of the class, as the style sheet knows it.
    pub fn name(self) -> (r: &'static str)
        ensures
            r@ == self.spec_name(),
    {
        match self {
            HighlightToken::Text => "Text",
            HighlightToken::Identifier => "Identifier",
            HighlightToken::Str => "String",
            HighlightToken::Date => "Date",
            HighlightToken::Boolean => "Bool",
            HighlightToken::Number => "Number",
            HighlightToken::Placeholder => "Placeholder",
            HighlightToken::Operator => "Operator",
            HighlightToken::Comment => "Comment",
        }
    }
}

impl Operator {
    /// The operator as it is written.
    pub open spec fn spec_text(self) -> Seq<char> {
        match self {
            Operator::GreaterThan => ">"@,
            Operator::GreaterThanEq => ">="@,
            Operator::LessThan => "<"@,
            Operator::LessThanEq => "<="@,
        }
    }

    /// The operator as it is written.
    pub fn text(self) -> (r: &'static str)
        ensures
            r@ == self.spec_text(),
    {
        match self {
            Operator::GreaterThan => ">",
            Operator::GreaterThanEq => ">=",
            Operator::LessThan => "<",
            Operator::LessThanEq => "<=",
        }
    }
}

/// The markup of one token: a span of the token's class around the escaped
/// text.
pub open spec fn span(token: HighlightToken, text: Seq<char>) -> Seq<char> {
    "<span class=\"pd-token-"@ + token.spec_name() + "\">"@ + escaped(text) + "</span>"@
}

/// `n` spaces.
pub open spec fn spaces(n: int) -> Seq<char> {
    Seq::new(
        if n >= 0 {
            n as nat
        } else {
            0
        },
        |i: int| ' ',
    )
}

/// How many of `frames` are rendered as blocks.
pub open spec fn block_count(frames: Seq<HighlightFrame>) -> int
    decreases frames.len(),
{
    if frames.len() == 0 {
        0
    } else {
        block_count(frames.drop_last()) + if frames.last().same_line {
            0int
        } else {
            1int
        }
    }
}

/// The decimal numeral of an integer, with a minus sign where it is
/// negative.
pub open spec fn signed_decimal(n: int) -> Seq<char> {
    if n >= 0 {
        decimal(n as nat)
    } else {
        seq!['-'] + decimal((-n) as nat)
    }
}

/// The state of a highlighting writer, over plain values.
pub struct WriterView {
    /// The markup emitted so far.
    pub output: Seq<char>,
    /// The open collections, innermost last.
    pub frames: Seq<HighlightFrame>,
    /// The indentation depth: -1 outside every block collection.
    pub depth: int,
    /// Plain text that waits to be emitted as one span.
    pub text: Seq<char>,
    /// Whether a property has been written.
    pub started: bool,
    /// Whether a token other than plain text has been written.
    pub has_token: bool,
}

impl WriterView {
    /// The state of a writer that has written nothing.
    pub open spec fn initial() -> WriterView {
        WriterView {
            output: Seq::empty(),
            frames: Seq::empty(),
            depth: -1,
            text: Seq::empty(),
            started: false,
            has_token: false,
        }
    }

    /// The depth is one less than the number of open block collections.
    pub open spec fn wf(self) -> bool {
        self.depth + 1 == block_count(self.frames)
    }

    /// Plain text is kept back, to be emitted with what follows it.
    pub open spec fn write_text(self, t: Seq<char>) -> WriterView {
        WriterView { text: self.text + t, ..self }
    }

    /// Pending plain text is emitted as one span.
    pub open spec fn flush(self) -> WriterView {
        if self.text.len() == 0 {
            self
        } else {
            WriterView {
                output: self.output + span(HighlightToken::Text, self.text),
                text: Seq::empty(),
                ..self
            }
        }
    }

    /// Pending text is emitted, then a line break.
    pub open spec fn new_line(self) -> WriterView {
        WriterView { output: self.flush().output + "<br/>"@, ..self.flush() }
    }

    /// Four spaces for each level of depth.
    pub open spec fn indent(self) -> WriterView {
        self.write_text(spaces(4 * self.depth))
    }

    /// Pending text is emitted, then the token in its own span.
    pub open spec fn write_nontext(self, token: HighlightToken, t: Seq<char>) -> WriterView {
        WriterView {
            output: self.flush().output + span(token, t),
            has_token: true,
            ..self.flush()
        }
    }

    /// A collection opens: inside another collection an opening brace is
    /// written; a block collection deepens the indentation.
    pub open spec fn start_collection(
        self,
        collection: CollectionType,
        same_line: bool,
    ) -> WriterView {
        let a = if self.depth >= 0 {
            self.write_text("{ "@)
        } else {
            self
        };
        WriterView {
            depth: if same_line {
                a.depth
            } else {
                a.depth + 1
            },
            frames: a.frames.push(HighlightFrame { collection, same_line }),
            ..a
        }
    }

    /// The innermost collection closes. A block collection ends with a line
    /// break and the closing brace on a line of its own, at the depth of the
    /// line that opened it; an inline collection with a space and the brace.
    pub open spec fn end_collection(self) -> (WriterView, Option<HighlightError>) {
        if self.frames.len() == 0 {
            (self, Some(HighlightError::DepthMismatch))
        } else {
            let frame = self.frames.last();
            let a = WriterView { frames: self.frames.drop_last(), ..self };
            let b = if !frame.same_line {
                let c = (WriterView { depth: a.depth - 1, ..a }).new_line();
                if c.depth >= 0 {
                    c.indent()
                } else {
                    c
                }
            } else {
                a.write_text(" "@)
            };
            let d = if b.depth >= 0 {
                b.write_text("}"@)
            } else {
                b
            };
            (d.flush(), None)
        }
    }

    /// A property begins: in a block object each property but the first
    /// starts a new, indented line.
    pub open spec fn write_property(self) -> (WriterView, Option<HighlightError>) {
        let a = if !self.started && self.has_token {
            self.new_line()
        } else {
            self
        };
        if a.frames.len() == 0 {
            (a, Some(HighlightError::NoCollection))
        } else if a.frames.last().collection != CollectionType::Object {
            (a, Some(HighlightError::PropertyInArray))
        } else if !a.frames.last().same_line && a.started {
            if a.depth < 0 {
                (a.new_line(), Some(HighlightError::NegativeIndent))
            } else {
                (WriterView { started: true, ..a.new_line().indent() }, None)
            }
        } else {
            (WriterView { started: true, ..a }, None)
        }
    }

    /// A comment is written: on a new, indented line of its own unless it is
    /// the first token of the document.
    pub open spec fn write_comment(self, comment: Seq<char>) -> (
        WriterView,
        Option<HighlightError>,
    ) {
        if self.has_token {
            if self.depth < 0 {
                (self.new_line(), Some(HighlightError::NegativeIndent))
            } else {
                (
                    self.new_line().indent().write_nontext(
                        HighlightToken::Comment,
                        "# "@ + comment,
                    ),
                    None,
                )
            }
        } else {
            (self.write_nontext(HighlightToken::Comment, "# "@ + comment), None)
        }
    }

    /// The state after one event, and the error if the event cannot be
    /// written.
    #[verifier::opaque]
    pub open spec fn apply(self, event: EventView) -> (WriterView, Option<HighlightError>) {
        match event {
            EventView::BeginObject => (
                self.start_collection(CollectionType::Object, false),
                None,
            ),
            EventView::Property => self.write_property(),
            EventView::EndObject => self.end_collection(),
            EventView::BeginArray(length) => (
                self.start_collection(
                    CollectionType::Array,
                    match length {
                        Some(l) => l < 4,
                        None => false,
                    },
                ),
                None,
            ),
            EventView::EndArray => self.end_collection(),
            EventView::Direct(t) => (self.write_text(t), None),
            EventView::Str(t) => (
                self.write_nontext(HighlightToken::Str, "\""@ + t + "\""@),
                None,
            ),
            EventView::Identifier(t) => (
                self.write_nontext(HighlightToken::Identifier, t),
                None,
            ),
            EventView::Date(t) => (self.write_nontext(HighlightToken::Date, t), None),
            EventView::Boolean(b) => (
                self.write_nontext(
                    HighlightToken::Boolean,
                    if b {
                        "yes"@
                    } else {
                        "no"@
                    },
                ),
                None,
            ),
            EventView::Placeholder(t) => (
                self.write_nontext(HighlightToken::Placeholder, "<"@ + t + ">"@),
                None,
            ),
            EventView::Integer(n) => (
                self.write_nontext(HighlightToken::Number, signed_decimal(n as int)),
                None,
            ),
            EventView::Decimal(t) => (self.write_nontext(HighlightToken::Number, t), None),
            EventView::Operator(op) => (
                self.write_nontext(HighlightToken::Operator, op.spec_text()),
                None,
            ),
            EventView::Comment(t) => self.write_comment(t),
        }
    }

    /// The state after the first `n` of `events`, and the first error. After
    /// an error nothing more is written.
    pub open spec fn run(self, events: Seq<EventView>, n: nat) -> (
        WriterView,
        Option<HighlightError>,
    )
        decreases n,
    {
        if n == 0 || n > events.len() {
            (self, None)
        } else {
            let before = self.run(events, (n - 1) as nat);
            if before.1 is Some {
                before
            } else {
                before.0.apply(events[n - 1])
            }
        }
    }
}

/// A writer that renders the events of a document as highlighted markup.
pub struct HighlightedWriter {
    pub output: String,
    pub frames: Vec<HighlightFrame>,
    pub depth: i64,
    pub current_text: String,
    pub started: bool,
    pub has_written_token: bool,
}

impl View for HighlightedWriter {
    type V = WriterView;

    open spec fn view(&self) -> WriterView {
        WriterView {
            output: self.output@,
            frames: self.frames@,
            depth: self.depth as int,
            text: self.current_text@,
            started: self.started,
            has_token: self.has_written_token,
        }
    }
}

/// In a block object every property but the first of the document starts a
/// line of its own: what was pending is emitted, then a line break, and the
/// indentation of the object's depth stands before the property.
pub proof fn lemma_property_starts_a_line(w: WriterView)
    requires
        w.frames.len() > 0,
        w.frames.last().collection == CollectionType::Object,
        !w.frames.last().same_line,
        w.started,
        w.depth >= 0,
    ensures
        w.write_property().1 is None,
        w.write_property().0 == (WriterView {
            output: w.flush().output + "<br/>"@,
            text: spaces(4 * w.depth),
            ..w
        }),
{
    assert(Seq::<char>::empty() + spaces(4 * w.depth) =~= spaces(4 * w.depth));
}

/// A block collection closes on a line of its own: what was pending is
/// emitted, then a line break, and then, in one span, the indentation of
/// the line that opened the collection and the closing brace. The outermost
/// collection of a document has no brace, and ends with the line break.
pub proof fn lemma_block_closes_on_its_own_line(w: WriterView)
    requires
        w.frames.len() > 0,
        !w.frames.last().same_line,
    ensures
        w.end_collection().1 is None,
        w.end_collection().0.frames == w.frames.drop_last(),
        w.end_collection().0.depth == w.depth - 1,
        w.end_collection().0.text == Seq::<char>::empty(),
        w.depth >= 1 ==> w.end_collection().0.output == w.flush().output + "<br/>"@ + span(
            HighlightToken::Text,
            spaces(4 * (w.depth - 1)) + "}"@,
        ),
        w.depth < 1 ==> w.end_collection().0.output == w.flush().output + "<br/>"@,
{
    reveal_strlit("}");
    let closed = (WriterView { frames: w.frames.drop_last(), depth: w.depth - 1, ..w }).new_line();
    assert(closed.text =~= Seq::<char>::empty());
    if w.depth >= 1 {
        let indented = closed.indent();
        assert(indented.text =~= spaces(4 * (w.depth - 1)));
        let braced = indented.write_text("}"@);
        assert(braced.text.len() > 0);
    }
}

/// An inline collection closes on the line it stands on: no line break is
/// emitted, and what was pending ends, in one span, with a space and the
/// closing brace.
pub proof fn lemma_inline_closes_on_the_line(w: WriterView)
    requires
        w.frames.len() > 0,
        w.frames.last().same_line,
        w.depth >= 0,
    ensures
        w.end_collection().1 is None,
        w.end_collection().0 == (WriterView {
            output: w.output + span(HighlightToken::Text, w.text + " "@ + "}"@),
            text: Seq::<char>::empty(),
            frames: w.frames.drop_last(),
            ..w
        }),
{
    reveal_strlit("}");
    reveal_strlit(" ");
    let spaced = (WriterView { frames: w.frames.drop_last(), ..w }).write_text(" "@);
    let braced = spaced.write_text("}"@);
    assert(braced.text.len() > 0);
}

/// An array that is known to hold fewer than four items is inline: opening
/// it emits nothing and leaves the depth as it is, and inside another
/// collection the opening brace and a space are kept back with the pending
/// text. A scalar emits what was pending and its own span, and never a line
/// break.
pub proof fn lemma_short_array_is_inline(w: WriterView, length: usize)
    requires
        length < 4,
    ensures
        ({
            let opened = w.start_collection(CollectionType::Array, true);
            &&& w.apply(EventView::BeginArray(Some(length))) == (opened, None::<HighlightError>)
            &&& opened.frames.last().same_line
            &&& opened.depth == w.depth
            &&& opened.output == w.output
            &&& w.depth >= 0 ==> opened.text == w.text + "{ "@
        }),
        forall|token: HighlightToken, t: Seq<char>|
            (#[trigger] w.write_nontext(token, t)).output == w.flush().output + span(token, t),
{
    reveal(WriterView::apply);
}

impl EventView {
    /// The class and the text of the one span that a scalar emits; nothing
    /// for an event that is no scalar.
    pub open spec fn scalar(self) -> Option<(HighlightToken, Seq<char>)> {
        match self {
            EventView::Str(t) => Some((HighlightToken::Str, "\""@ + t + "\""@)),
            EventView::Identifier(t) => Some((HighlightToken::Identifier, t)),
            EventView::Date(t) => Some((HighlightToken::Date, t)),
            EventView::Boolean(b) => Some(
                (
                    HighlightToken::Boolean,
                    if b {
                        "yes"@
                    } else {
                        "no"@
                    },
                ),
            ),
            EventView::Placeholder(t) => Some((HighlightToken::Placeholder, "<"@ + t + ">"@)),
            EventView::Integer(n) => Some((HighlightToken::Number, signed_decimal(n as int))),
            EventView::Decimal(t) => Some((HighlightToken::Number, t)),
            EventView::Operator(op) => Some((HighlightToken::Operator, op.spec_text())),
            _ => None,
        }
    }

    /// The span of a scalar.
    pub open spec fn scalar_span(self) -> Seq<char> {
        span(self.scalar().unwrap().0, self.scalar().unwrap().1)
    }
}

/// The markup of plain text.
pub open spec fn text_span(t: Seq<char>) -> Seq<char> {
    span(HighlightToken::Text, t)
}

/// A scalar is written as one span, after what was pending.
proof fn lemma_scalar_step(w: WriterView, e: EventView)
    requires
        e.scalar() is Some,
    ensures
        w.apply(e) == (
            w.write_nontext(e.scalar().unwrap().0, e.scalar().unwrap().1),
            None::<HighlightError>,
        ),
{
    reveal(WriterView::apply);
}

/// An array of three scalars that is declared as such stands on one line:
/// inside a collection, the markup that it adds is the opening brace with a
/// space (in one span with what was pending), the three scalars with the
/// spaces between them, and a space with the closing brace; no line break
/// is among it.
pub proof fn lemma_array_of_three_is_one_line(w: WriterView, a: EventView, b: EventView, c: EventView)
    requires
        w.depth >= 0,
        a.scalar() is Some,
        b.scalar() is Some,
        c.scalar() is Some,
    ensures
        w.run(
            seq![
                EventView::BeginArray(Some(3usize)),
                a,
                EventView::Direct(" "@),
                b,
                EventView::Direct(" "@),
                c,
                EventView::EndArray,
            ],
            7,
        ) == (
            WriterView {
                output: w.output + text_span(w.text + "{ "@) + a.scalar_span() + text_span(" "@)
                    + b.scalar_span() + text_span(" "@) + c.scalar_span() + text_span(" }"@),
                text: Seq::<char>::empty(),
                has_token: true,
                ..w
            },
            None::<HighlightError>,
        ),
{
    reveal_strlit("{ ");
    reveal_strlit(" ");
    reveal_strlit("}");
    reveal_strlit(" }");
    let events = seq![
        EventView::BeginArray(Some(3usize)),
        a,
        EventView::Direct(" "@),
        b,
        EventView::Direct(" "@),
        c,
        EventView::EndArray,
    ];
    let frame = HighlightFrame { collection: CollectionType::Array, same_line: true };
    assert(w.run(events, 0) == (w, None::<HighlightError>));
    lemma_short_array_is_inline(w, 3);
    let s1 = w.start_collection(CollectionType::Array, true);
    assert(w.run(events, 1) == (s1, None::<HighlightError>)) by {
        assert(events[0] == EventView::BeginArray(Some(3usize)));
    }
    lemma_scalar_step(s1, a);
    let s2 = s1.write_nontext(a.scalar().unwrap().0, a.scalar().unwrap().1);
    assert(w.run(events, 2) == (s2, None::<HighlightError>)) by {
        assert(events[1] == a);
    }
    let s3 = s2.write_text(" "@);
    assert(w.run(events, 3) == (s3, None::<HighlightError>)) by {
        assert(events[2] == EventView::Direct(" "@));
        reveal(WriterView::apply);
    }
    lemma_scalar_step(s3, b);
    let s4 = s3.write_nontext(b.scalar().unwrap().0, b.scalar().unwrap().1);
    assert(w.run(events, 4) == (s4, None::<HighlightError>)) by {
        assert(events[3] == b);
    }
    let s5 = s4.write_text(" "@);
    assert(w.run(events, 5) == (s5, None::<HighlightError>)) by {
        assert(events[4] == EventView::Direct(" "@));
        reveal(WriterView::apply);
    }
    lemma_scalar_step(s5, c);
    let s6 = s5.write_nontext(c.scalar().unwrap().0, c.scalar().unwrap().1);
    assert(w.run(events, 6) == (s6, None::<HighlightError>)) by {
        assert(events[5] == c);
    }
    assert(s6.frames =~= w.frames.push(frame));
    assert(s6.frames.drop_last() =~= w.frames);
    lemma_inline_closes_on_the_line(s6);
    let s7 = s6.end_collection().0;
    assert(w.run(events, 7) == (s7, None::<HighlightError>)) by {
        assert(events[6] == EventView::EndArray);
        reveal(WriterView::apply);
    }
    assert(s1.text.len() > 0);
    assert(s2.output == w.output + text_span(w.text + "{ "@) + a.scalar_span());
    assert(s3.text =~= " "@);
    assert(s4.output == s2.output + text_span(" "@) + b.scalar_span());
    assert(s5.text =~= " "@);
    assert(s6.output == s4.output + text_span(" "@) + c.scalar_span());
    assert(s6.text =~= Seq::<char>::empty());
    assert(Seq::<char>::empty() + " "@ + "}"@ =~= " }"@);
    assert(s7.output == s6.output + text_span(" }"@));
    assert(s7.frames == w.frames);
}

/// An object with two properties that stands as a property's value is a
/// block: after the opening brace each of its properties starts a line of
/// its own, indented one level deeper than the object, and the closing
/// brace stands alone on a last line, at the object's own indentation.
pub proof fn lemma_object_of_two_is_a_block(
    w: WriterView,
    k1: EventView,
    v1: EventView,
    k2: EventView,
    v2: EventView,
)
    requires
        w.depth >= 0,
        w.started,
        k1.scalar() is Some,
        v1.scalar() is Some,
        k2.scalar() is Some,
        v2.scalar() is Some,
    ensures
        w.run(
            seq![
                EventView::BeginObject,
                EventView::Property,
                k1,
                EventView::Direct(" = "@),
                v1,
                EventView::Property,
                k2,
                EventView::Direct(" = "@),
                v2,
                EventView::EndObject,
            ],
            10,
        ) == (
            WriterView {
                output: w.output + text_span(w.text + "{ "@) + "<br/>"@ + text_span(
                    spaces(4 * (w.depth + 1)),
                ) + k1.scalar_span() + text_span(" = "@) + v1.scalar_span() + "<br/>"@ + text_span(
                    spaces(4 * (w.depth + 1)),
                ) + k2.scalar_span() + text_span(" = "@) + v2.scalar_span() + "<br/>"@ + text_span(
                    spaces(4 * w.depth) + "}"@,
                ),
                text: Seq::<char>::empty(),
                has_token: true,
                ..w
            },
            None::<HighlightError>,
        ),
{
    reveal_strlit("{ ");
    reveal_strlit(" = ");
    let events = seq![
        EventView::BeginObject,
        EventView::Property,
        k1,
        EventView::Direct(" = "@),
        v1,
        EventView::Property,
        k2,
        EventView::Direct(" = "@),
        v2,
        EventView::EndObject,
    ];
    let frame = HighlightFrame { collection: CollectionType::Object, same_line: false };
    let indent = spaces(4 * (w.depth + 1));
    assert(indent.len() > 0);
    assert(w.run(events, 0) == (w, None::<HighlightError>));
    let s1 = w.start_collection(CollectionType::Object, false);
    assert(w.run(events, 1) == (s1, None::<HighlightError>)) by {
        assert(events[0] == EventView::BeginObject);
        reveal(WriterView::apply);
    }
    assert(s1.frames.last() == frame);
    assert(s1.text.len() > 0);
    lemma_property_starts_a_line(s1);
    let s2 = s1.write_property().0;
    assert(w.run(events, 2) == (s2, None::<HighlightError>)) by {
        assert(events[1] == EventView::Property);
        reveal(WriterView::apply);
    }
    assert(s2.output == w.output + text_span(w.text + "{ "@) + "<br/>"@);
    lemma_scalar_step(s2, k1);
    let s3 = s2.write_nontext(k1.scalar().unwrap().0, k1.scalar().unwrap().1);
    assert(w.run(events, 3) == (s3, None::<HighlightError>)) by {
        assert(events[2] == k1);
    }
    assert(s3.output == s2.output + text_span(indent) + k1.scalar_span());
    let s4 = s3.write_text(" = "@);
    assert(w.run(events, 4) == (s4, None::<HighlightError>)) by {
        assert(events[3] == EventView::Direct(" = "@));
        reveal(WriterView::apply);
    }
    assert(s4.text =~= " = "@);
    lemma_scalar_step(s4, v1);
    let s5 = s4.write_nontext(v1.scalar().unwrap().0, v1.scalar().unwrap().1);
    assert(w.run(events, 5) == (s5, None::<HighlightError>)) by {
        assert(events[4] == v1);
    }
    assert(s5.output == s3.output + text_span(" = "@) + v1.scalar_span());
    assert(s5.text =~= Seq::<char>::empty());
    assert(s5.frames.last() == frame);
    lemma_property_starts_a_line(s5);
    let s6 = s5.write_property().0;
    assert(w.run(events, 6) == (s6, None::<HighlightError>)) by {
        assert(events[5] == EventView::Property);
        reveal(WriterView::apply);
    }
    assert(s6.output == s5.output + "<br/>"@);
    lemma_scalar_step(s6, k2);
    let s7 = s6.write_nontext(k2.scalar().unwrap().0, k2.scalar().unwrap().1);
    assert(w.run(events, 7) == (s7, None::<HighlightError>)) by {
        assert(events[6] == k2);
    }
    assert(s7.output == s6.output + text_span(indent) + k2.scalar_span());
    let s8 = s7.write_text(" = "@);
    assert(w.run(events, 8) == (s8, None::<HighlightError>)) by {
        assert(events[7] == EventView::Direct(" = "@));
        reveal(WriterView::apply);
    }
    assert(s8.text =~= " = "@);
    lemma_scalar_step(s8, v2);
    let s9 = s8.write_nontext(v2.scalar().unwrap().0, v2.scalar().unwrap().1);
    assert(w.run(events, 9) == (s9, None::<HighlightError>)) by {
        assert(events[8] == v2);
    }
    assert(s9.output == s7.output + text_span(" = "@) + v2.scalar_span());
    assert(s9.text =~= Seq::<char>::empty());
    assert(s9.frames =~= w.frames.push(frame));
    assert(s9.frames.drop_last() =~= w.frames);
    lemma_block_closes_on_its_own_line(s9);
    let s10 = s9.end_collection().0;
    assert(w.run(events, 10) == (s10, None::<HighlightError>)) by {
        assert(events[9] == EventView::EndObject);
        reveal(WriterView::apply);
    }
    assert(s10.output == s9.output + "<br/>"@ + text_span(spaces(4 * w.depth) + "}"@));
    assert(s10.frames == w.frames);
}

/// The result of a step that yields `error` or nothing.
pub open spec fn outcome(error: Option<HighlightError>) -> Result<(), HighlightError> {
    match error {
        Some(e) => Err(e),
        None => Ok(()),
    }
}

/// Opening a block collection adds one to the count of blocks.
proof fn lemma_block_count_push(frames: Seq<HighlightFrame>, frame: HighlightFrame)
    ensures
        block_count(frames.push(frame)) == block_count(frames) + if frame.same_line {
            0int
        } else {
            1int
        },
        block_count(frames) >= 0,
        block_count(frames) <= frames.len(),
    decreases frames.len(),
{
    assert(frames.push(frame).drop_last() =~= frames);
    if frames.len() > 0 {
        lemma_block_count_push(frames.drop_last(), frames.last());
        assert(frames.drop_last().push(frames.last()) =~= frames);
    }
}

/// The decimal numeral of an integer, with its sign.
fn signed_decimal_string(n: i64) -> (s: String)
    ensures
        s@ == signed_decimal(n as int),
{
    if n >= 0 {
        decimal_string_u64(n as u64)
    } else {
        let m: u64 = ((-(n + 1)) as u64) + 1;
        proof {
            reveal_strlit("-");
            assert("-"@ =~= seq!['-']);
        }
        join2("-", decimal_string_u64(m).as_str())
    }
}

impl HighlightedWriter {
    /// A writer that has written nothing.
    pub fn new() -> (r: HighlightedWriter)
        ensures
            r@ == WriterView::initial(),
            r@.wf(),
    {
        HighlightedWriter {
            output: String::new(),
            frames: Vec::new(),
            current_text: String::new(),
            depth: -1,
            started: false,
            has_written_token: false,
        }
    }

    fn write_span_for(&mut self, token: HighlightToken, out: &str)
        ensures
            final(self)@ == (WriterView {
                output: old(self)@.output + span(token, out@),
                ..old(self)@
            }),
    {
        self.output.append("<span class=\"pd-token-");
        self.output.append(token.name());
        self.output.append("\">");
        self.output.append(escape_html(out).as_str());
        self.output.append("</span>");
        proof {
            assert(self.output@ =~= old(self)@.output + span(token, out@));
        }
    }

    /// Emits the pending plain text as one span.
    pub fn flush_text(&mut self)
        ensures
            final(self)@ == old(self)@.flush(),
    {
        if self.current_text.unicode_len() != 0 {
            let mut next = String::new();
            core::mem::swap(&mut next, &mut self.current_text);
            self.write_span_for(HighlightToken::Text, next.as_str());
        }
    }

    /// Keeps plain text back until a token or a line break follows, so that
    /// text written piece by piece ends up in one span.
    pub fn write_text(&mut self, out: &str)
        ensures
            final(self)@ == old(self)@.write_text(out@),
    {
        self.current_text.append(out);
    }

    /// Emits the pending text and a line break.
    pub fn new_line(&mut self)
        ensures
            final(self)@ == old(self)@.new_line(),
    {
        self.flush_text();
        self.output.append("<br/>");
    }

    /// Writes the indentation of the current depth. Outside every collection
    /// there is none to write, and the call fails.
    pub fn indent(&mut self) -> (r: Result<(), HighlightError>)
        ensures
            old(self).depth < 0 ==> r == Err::<(), HighlightError>(HighlightError::NegativeIndent)
                && final(self)@ == old(self)@,
            old(self).depth >= 0 ==> r is Ok && final(self)@ == old(self)@.indent(),
    {
        if self.depth < 0 {
            return Err(HighlightError::NegativeIndent);
        }
        let ghost start = self@;
        let mut i: i64 = 0;
        while i < self.depth
            invariant
                0 <= i <= self.depth,
                self@ == start.write_text(spaces(4 * i)),
            decreases self.depth - i,
        {
            self.current_text.append("    ");
            proof {
                reveal_strlit("    ");
                assert(spaces(4 * i) + "    "@ =~= spaces(4 * (i + 1)));
                assert(start.text + spaces(4 * i) + "    "@ =~= start.text + spaces(4 * (i + 1)));
            }
            i += 1;
        }
        proof {
            assert(start.text + spaces(0) =~= start.text);
        }
        Ok(())
    }

    /// Writes a token of the class `token`, after the pending text.
    pub fn write_nontext(&mut self, token: HighlightToken, out: &str)
        ensures
            final(self)@ == old(self)@.write_nontext(token, out@),
    {
        self.flush_text();
        self.has_written_token = true;
        self.write_span_for(token, out);
    }

    /// Opens a collection.
    pub fn start_collection(&mut self, collection: CollectionType, same_line: bool)
        requires
            old(self)@.wf(),
            old(self).frames@.len() < i64::MAX,
        ensures
            final(self)@ == old(self)@.start_collection(collection, same_line),
            final(self)@.wf(),
    {
        proof {
            lemma_block_count_push(self.frames@, HighlightFrame { collection, same_line });
        }
        if self.depth >= 0 {
            self.write_text("{ ");
        }
        if !same_line {
            self.depth += 1;
        }
        self.frames.push(HighlightFrame { collection, same_line });
    }

    /// Closes the innermost collection, or fails where none is open.
    pub fn end_collection(&mut self) -> (r: Result<(), HighlightError>)
        requires
            old(self)@.wf(),
        ensures
            final(self)@ == old(self)@.end_collection().0,
            r == outcome(old(self)@.end_collection().1),
            final(self)@.wf(),
    {
        let ghost before = self@;
        let frame = match self.frames.pop() {
            Some(frame) => frame,
            None => {
                assert(self@ == before);
                return Err(HighlightError::DepthMismatch);
            },
        };
        proof {
            lemma_block_count_push(self.frames@, frame);
            assert(self.frames@.push(frame) =~= before.frames);
            assert(self.frames@ =~= before.frames.drop_last());
        }
        if !frame.same_line {
            self.depth -= 1;
            self.new_line();
            if self.depth >= 0 {
                let _ = self.indent();
            }
        } else {
            self.write_text(" ");
        }
        if self.depth >= 0 {
            self.write_text("}");
        }
        self.flush_text();
        Ok(())
    }

    /// Opens an object. Objects are rendered as blocks.
    pub fn begin_object(&mut self, _length: Option<usize>)
        requires
            old(self)@.wf(),
            old(self).frames@.len() < i64::MAX,
        ensures
            final(self)@ == old(self)@.start_collection(CollectionType::Object, false),
            final(self)@.wf(),
    {
        self.start_collection(CollectionType::Object, false)
    }

    /// Closes the open object.
    pub fn end_object(&mut self) -> (r: Result<(), HighlightError>)
        requires
            old(self)@.wf(),
        ensures
            final(self)@ == old(self)@.end_collection().0,
            r == outcome(old(self)@.end_collection().1),
            final(self)@.wf(),
    {
        self.end_collection()
    }

    /// Opens an array. An array that is known to hold fewer than four items
    /// is rendered on one line.
    pub fn begin_array(&mut self, length: Option<usize>)
        requires
            old(self)@.wf(),
            old(self).frames@.len() < i64::MAX,
        ensures
            final(self)@ == old(self)@.start_collection(
                CollectionType::Array,
                match length {
                    Some(l) => l < 4,
                    None => false,
                },
            ),
            final(self)@.wf(),
    {
        let same_line = match length {
            Some(l) => l < 4,
            None => false,
        };
        self.start_collection(CollectionType::Array, same_line)
    }

    /// Closes the open array.
    pub fn end_array(&mut self) -> (r: Result<(), HighlightError>)
        requires
            old(self)@.wf(),
        ensures
            final(self)@ == old(self)@.end_collection().0,
            r == outcome(old(self)@.end_collection().1),
            final(self)@.wf(),
    {
        self.end_collection()
    }

    /// Begins a property of the open object. Its key and value are written
    /// by the calls that follow.
    pub fn write_property(&mut self) -> (r: Result<(), HighlightError>)
        ensures
            final(self)@ == old(self)@.write_property().0,
            r == outcome(old(self)@.write_property().1),
            final(self)@.frames == old(self)@.frames,
            final(self)@.depth == old(self)@.depth,
    {
        if !self.started && self.has_written_token {
            self.new_line();
        }
        if self.frames.len() == 0 {
            return Err(HighlightError::NoCollection);
        }
        let frame = self.frames[self.frames.len() - 1];
        if frame.collection != CollectionType::Object {
            return Err(HighlightError::PropertyInArray);
        }
        if !frame.same_line && self.started {
            self.new_line();
            match self.indent() {
                Ok(()) => {},
                Err(e) => {
                    return Err(e);
                },
            }
        }
        self.started = true;
        Ok(())
    }

    /// Writes plain text as it is.
    pub fn write_direct(&mut self, string: &str)
        ensures
            final(self)@ == old(self)@.write_text(string@),
    {
        self.write_text(string)
    }

    /// Writes a string, in quotes.
    pub fn write_string(&mut self, string: &str)
        ensures
            final(self)@ == old(self)@.write_nontext(
                HighlightToken::Str,
                "\""@ + string@ + "\""@,
            ),
    {
        self.write_nontext(HighlightToken::Str, join3("\"", string, "\"").as_str())
    }

    /// Writes an identifier.
    pub fn write_identifier(&mut self, string: &str)
        ensures
            final(self)@ == old(self)@.write_nontext(HighlightToken::Identifier, string@),
    {
        self.write_nontext(HighlightToken::Identifier, string)
    }

    /// Writes a date that is already written out.
    pub fn write_date(&mut self, date: &str)
        ensures
            final(self)@ == old(self)@.write_nontext(HighlightToken::Date, date@),
    {
        self.write_nontext(HighlightToken::Date, date)
    }

    /// Writes a boolean, as `yes` or `no`.
    pub fn write_boolean(&mut self, b: bool)
        ensures
            final(self)@ == old(self)@.write_nontext(
                HighlightToken::Boolean,
                if b {
                    "yes"@
                } else {
                    "no"@
                },
            ),
    {
        self.write_nontext(
            HighlightToken::Boolean,
            if b {
                "yes"
            } else {
                "no"
            },
        )
    }

    /// Writes a placeholder, in angle brackets.
    pub fn write_placeholder(&mut self, placeholder: &str)
        ensures
            final(self)@ == old(self)@.write_nontext(
                HighlightToken::Placeholder,
                "<"@ + placeholder@ + ">"@,
            ),
    {
        self.write_nontext(HighlightToken::Placeholder, join3("<", placeholder, ">").as_str())
    }

    /// Writes an integer.
    pub fn write_integer(&mut self, number: i64)
        ensures
            final(self)@ == old(self)@.write_nontext(
                HighlightToken::Number,
                signed_decimal(number as int),
            ),
    {
        self.write_nontext(HighlightToken::Number, signed_decimal_string(number).as_str())
    }

    /// Writes a decimal number that is already written out.
    pub fn write_decimal(&mut self, number: &str)
        ensures
            final(self)@ == old(self)@.write_nontext(HighlightToken::Number, number@),
    {
        self.write_nontext(HighlightToken::Number, number)
    }

    /// Writes a comparison operator.
    pub fn write_operator(&mut self, operator: Operator)
        ensures
            final(self)@ == old(self)@.write_nontext(
                HighlightToken::Operator,
                operator.spec_text(),
            ),
    {
        self.write_nontext(HighlightToken::Operator, operator.text())
    }

    /// Writes a comment. Once content exists, a comment starts a line of its
    /// own.
    pub fn write_comment(&mut self, comment: &str) -> (r: Result<(), HighlightError>)
        ensures
            final(self)@ == old(self)@.write_comment(comment@).0,
            r == outcome(old(self)@.write_comment(comment@).1),
            final(self)@.frames == old(self)@.frames,
            final(self)@.depth == old(self)@.depth,
    {
        if self.has_written_token {
            self.new_line();
            match self.indent() {
                Ok(()) => {},
                Err(e) => {
                    return Err(e);
                },
            }
        }
        self.write_nontext(HighlightToken::Comment, join2("# ", comment).as_str());
        Ok(())
    }

    /// Writes one event.
    pub fn write_event(&mut self, event: &HighlightEvent) -> (r: Result<(), HighlightError>)
        requires
            old(self)@.wf(),
            old(self).frames@.len() < i64::MAX,
        ensures
            final(self)@ == old(self)@.apply(event@).0,
            r == outcome(old(self)@.apply(event@).1),
            final(self)@.wf(),
            final(self)@.frames.len() <= old(self)@.frames.len() + 1,
    {
        reveal(WriterView::apply);
        match event {
            HighlightEvent::BeginObject => {
                self.begin_object(None);
                Ok(())
            },
            HighlightEvent::Property => self.write_property(),
            HighlightEvent::EndObject => self.end_object(),
            HighlightEvent::BeginArray(length) => {
                self.begin_array(*length);
                Ok(())
            },
            HighlightEvent::EndArray => self.end_array(),
            HighlightEvent::Direct(t) => {
                self.write_direct(t.as_str());
                Ok(())
            },
            HighlightEvent::Str(t) => {
                self.write_string(t.as_str());
                Ok(())
            },
            HighlightEvent::Identifier(t) => {
                self.write_identifier(t.as_str());
                Ok(())
            },
            HighlightEvent::Date(t) => {
                self.write_date(t.as_str());
                Ok(())
            },
            HighlightEvent::Boolean(b) => {
                self.write_boolean(*b);
                Ok(())
            },
            HighlightEvent::Placeholder(t) => {
                self.write_placeholder(t.as_str());
                Ok(())
            },
            HighlightEvent::Integer(n) => {
                self.write_integer(*n);
                Ok(())
            },
            HighlightEvent::Decimal(t) => {
                self.write_decimal(t.as_str());
                Ok(())
            },
            HighlightEvent::Operator(op) => {
                self.write_operator(*op);
                Ok(())
            },
            HighlightEvent::Comment(t) => self.write_comment(t.as_str()),
        }
    }
}

/// The entry point of the highlighter.
pub struct SyntaxHighlighter {}

/// What highlighting `code` appends to a string: the opening of the
/// highlight block and whatever was emitted, and the block's closing tag
/// where every event could be written.
pub open spec fn highlighted(code: Seq<EventView>) -> Seq<char> {
    let end = WriterView::initial().run(code, code.len());
    "<div class=\"pd-highlight\">"@ + end.0.output + if end.1 is Some {
        Seq::<char>::empty()
    } else {
        "</div>"@
    }
}

impl SyntaxHighlighter {
    /// Appends the highlighted markup of the document `code` to `s`. Where an
    /// event cannot be written the error is returned, and `s` ends with what
    /// was emitted before it.
    pub fn to_html(s: &mut String, code: &Vec<HighlightEvent>) -> (r: Result<(), HighlightError>)
        requires
            code@.len() < i64::MAX,
        ensures
            final(s)@ == old(s)@ + highlighted(events_view(code@)),
            r == outcome(WriterView::initial().run(events_view(code@), code@.len()).1),
    {
        s.append("<div class=\"pd-highlight\">");
        let ghost head = s@;
        let mut writer = HighlightedWriter::new();
        let mut i: usize = 0;
        while i < code.len()
            invariant
                s@ == head,
                head == old(s)@ + "<div class=\"pd-highlight\">"@,
                i <= code@.len(),
                code@.len() < i64::MAX,
                writer@.wf(),
                writer@.frames.len() <= i,
                (writer@, None::<HighlightError>) == WriterView::initial().run(
                    events_view(code@),
                    i as nat,
                ),
            decreases code@.len() - i,
        {
            let ghost before = writer@;
            let step = writer.write_event(&code[i]);
            proof {
                assert(events_view(code@)[i as int] == code@[i as int]@);
                assert(WriterView::initial().run(events_view(code@), (i + 1) as nat)
                    == before.apply(code@[i as int]@));
            }
            if let Err(e) = step {
                s.append(writer.output.as_str());
                proof {
                    lemma_run_stops(
                        WriterView::initial(),
                        events_view(code@),
                        (i + 1) as nat,
                        code@.len(),
                    );
                    assert(s@ =~= old(s)@ + highlighted(events_view(code@)));
                }
                return Err(e);
            }
            i += 1;
        }
        s.append(writer.output.as_str());
        s.append("</div>");
        proof {
            assert(s@ =~= old(s)@ + highlighted(events_view(code@)));
        }
        Ok(())
    }
}

/// Once an event has failed, the events after it change nothing.
proof fn lemma_run_stops(start: WriterView, events: Seq<EventView>, n: nat, m: nat)
    requires
        n <= m <= events.len(),
        start.run(events, n).1 is Some,
    ensures
        start.run(events, m) == start.run(events, n),
    decreases m,
{
    if m > n {
        lemma_run_stops(start, events, n, (m - 1) as nat);
    }
}

} // verus!
