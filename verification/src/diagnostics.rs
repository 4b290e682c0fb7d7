//! Diagnostics: codes, source spans, labels, suggestions and their rendering.

use vstd::prelude::*;
use crate::text::{decimal, push_char, push_decimal, push_str};
use vstd::string::StringSliceAdditionalSpecFns;

pub mod error_codes;

verus! {

/// A diagnostic code such as "1001", rendered as "E1001".
#[derive(Debug, Clone, Copy, Hash)]
pub struct DiagnosticCode(pub &'static str);

impl DiagnosticCode {
    pub fn code(&self) -> (c: &str)
        ensures
            c@ == self.0@,
    {
        self.0
    }

    /// "E" followed by the code, padded with spaces to at least four characters.
    pub fn display(&self) -> (s: String)
        ensures
            s@ == code_text(self.0@),
    {
        let mut s = String::new();
        push_char(&mut s, 'E');
        push_str(&mut s, self.0);
        let n = crate::text::chars_of(self.0).len();
        let mut k = n;
        while k < 4
            invariant
                n <= k,
                n == self.0@.len(),
                k <= 4 || k == n,
                s@ == "E"@.take(0).push('E') + self.0@ + Seq::new((k - n) as nat, |i: int| ' '),
            decreases 4 - k,
        {
            push_char(&mut s, ' ');
            k = k + 1;
            assert(s@ =~= "E"@.take(0).push('E') + self.0@ + Seq::new((k - n) as nat, |i: int| ' '));
        }
        proof {
            reveal_strlit("E");
        }
        assert(s@ =~= code_text(self.0@));
        s
    }
}

/// The rendering of a code: "E", the code, and spaces up to four code characters.
pub open spec fn code_text(code: Seq<char>) -> Seq<char> {
    seq!['E'] + code + Seq::new(if code.len() < 4 { (4 - code.len()) as nat } else { 0 }, |i: int| ' ')
}

/// A region of source text.
#[derive(Debug, Clone, Hash)]
pub struct Span {
    pub start_line: usize,
    pub start_col: usize,
    pub end_line: usize,
    pub end_col: usize,
    pub source_text: Option<String>,
}

impl Span {
    pub fn new(start_line: usize, start_col: usize, end_line: usize, end_col: usize) -> (s: Self)
        ensures
            s.start_line == start_line,
            s.start_col == start_col,
            s.end_line == end_line,
            s.end_col == end_col,
            s.source_text is None,
    {
        Self { start_line, start_col, end_line, end_col, source_text: None }
    }

    pub fn with_source(self, source: &str) -> (s: Self)
        ensures
            s.start_line == self.start_line,
            s.start_col == self.start_col,
            s.end_line == self.end_line,
            s.end_col == self.end_col,
            s.source_text matches Some(t) && t@ == source@,
    {
        let mut s = self;
        s.source_text = Some(String::from_str(source));
        s
    }

    /// The span of a token of text `text` at `line:col`, ending `text.len()`
    /// bytes later on the same line.
    pub fn from_token(line: usize, col: usize, text: &str) -> (s: Self)
        requires
            col + text.spec_bytes().len() <= usize::MAX,
        ensures
            s.start_line == line,
            s.end_line == line,
            s.start_col == col,
            s.end_col == col + text.spec_bytes().len(),
            s.source_text is None,
    {
        Self::new(line, col, line, col + text.len())
    }
}

/// A span with an optional message, shown as primary or secondary.
#[derive(Debug, Clone)]
pub struct Label {
    pub span: Span,
    pub message: Option<String>,
    pub style: LabelStyle,
}

#[derive(Debug, Clone, Copy, PartialEq, Eq, Structural)]
pub enum LabelStyle {
    Primary,
    Secondary,
}

impl Label {
    pub fn primary(span: Span) -> (l: Self)
        ensures
            l.span == span,
            l.message is None,
            l.style == LabelStyle::Primary,
    {
        Self { span, message: None, style: LabelStyle::Primary }
    }

    pub fn secondary(span: Span) -> (l: Self)
        ensures
            l.span == span,
            l.message is None,
            l.style == LabelStyle::Secondary,
    {
        Self { span, message: None, style: LabelStyle::Secondary }
    }

    pub fn with_message(self, msg: &str) -> (l: Self)
        ensures
            l.span == self.span,
            l.style == self.style,
            l.message matches Some(m) && m@ == msg@,
    {
        let mut l = self;
        l.message = Some(String::from_str(msg));
        l
    }
}

/// A proposed replacement text for a span.
#[derive(Debug, Clone)]
pub struct Suggestion {
    pub label: String,
    pub span: Span,
    pub text: String,
    pub applicability: Applicability,
}

#[derive(Debug, Clone, Copy, PartialEq, Eq, Structural)]
pub enum Applicability {
    Always,
    Unspecified,
    Never,
}

/// A compiler message with its code, severity and attached detail.
#[derive(Debug, Clone)]
pub struct Diagnostic {
    pub code: DiagnosticCode,
    pub message: String,
    pub severity: Severity,
    pub spans: Vec<Span>,
    pub labels: Vec<Label>,
    pub suggestions: Vec<Suggestion>,
    pub notes: Vec<String>,
}

#[derive(Debug, Clone, Copy, PartialEq, Eq, Structural)]
pub enum Severity {
    Error,
    Warning,
    Note,
    Help,
}

pub open spec fn severity_name(s: Severity) -> Seq<char> {
    match s {
        Severity::Error => "error"@,
        Severity::Warning => "warning"@,
        Severity::Note => "note"@,
        Severity::Help => "help"@,
    }
}

/// The lines shown for one label.
pub open spec fn label_text(l: Label) -> Seq<char> {
    "\n --> "@ + decimal(l.span.start_line as nat) + ":"@ + decimal(l.span.start_col as nat)
        + match l.message {
            Some(m) => ": "@ + m@,
            None => Seq::<char>::empty(),
        }
}

pub open spec fn labels_text(ls: Seq<Label>) -> Seq<char>
    decreases ls.len(),
{
    if ls.len() == 0 { seq![] } else { labels_text(ls.drop_last()) + label_text(ls.last()) }
}

pub open spec fn suggestions_text(ss: Seq<Suggestion>) -> Seq<char>
    decreases ss.len(),
{
    if ss.len() == 0 {
        seq![]
    } else {
        suggestions_text(ss.drop_last()) + "\n  = "@ + ss.last().label@ + "\n   Replacement: \""@
            + ss.last().text@ + "\""@
    }
}

pub open spec fn notes_text(ns: Seq<String>) -> Seq<char>
    decreases ns.len(),
{
    if ns.len() == 0 { seq![] } else { notes_text(ns.drop_last()) + "\n  note: "@ + ns.last()@ }
}

/// The full rendering of a diagnostic.
pub open spec fn diagnostic_text(d: Diagnostic) -> Seq<char> {
    severity_name(d.severity) + " ["@ + code_text(d.code.0@) + "]: "@ + d.message@
        + labels_text(d.labels@) + suggestions_text(d.suggestions@) + notes_text(d.notes@)
}

impl Diagnostic {
    pub fn error(code: DiagnosticCode, message: String) -> (d: Self)
        ensures
            d.code == code,
            d.message == message,
            d.severity == Severity::Error,
            d.spans@.len() == 0,
            d.labels@.len() == 0,
            d.suggestions@.len() == 0,
            d.notes@.len() == 0,
    {
        Self {
            code,
            message,
            severity: Severity::Error,
            spans: Vec::new(),
            labels: Vec::new(),
            suggestions: Vec::new(),
            notes: Vec::new(),
        }
    }

    pub fn warning(code: DiagnosticCode, message: String) -> (d: Self)
        ensures
            d.code == code,
            d.message == message,
            d.severity == Severity::Warning,
            d.spans@.len() == 0,
            d.labels@.len() == 0,
            d.suggestions@.len() == 0,
            d.notes@.len() == 0,
    {
        Self {
            code,
            message,
            severity: Severity::Warning,
            spans: Vec::new(),
            labels: Vec::new(),
            suggestions: Vec::new(),
            notes: Vec::new(),
        }
    }

    pub fn with_span(self, span: Span) -> (d: Self)
        ensures
            d.spans@ == self.spans@.push(span),
            d.code == self.code && d.message == self.message && d.severity == self.severity,
            d.labels == self.labels && d.suggestions == self.suggestions && d.notes == self.notes,
    {
        let mut d = self;
        d.spans.push(span);
        d
    }

    pub fn with_label(self, label: Label) -> (d: Self)
        ensures
            d.labels@ == self.labels@.push(label),
            d.code == self.code && d.message == self.message && d.severity == self.severity,
            d.spans == self.spans && d.suggestions == self.suggestions && d.notes == self.notes,
    {
        let mut d = self;
        d.labels.push(label);
        d
    }

    pub fn with_suggestion(self, suggestion: Suggestion) -> (d: Self)
        ensures
            d.suggestions@ == self.suggestions@.push(suggestion),
            d.code == self.code && d.message == self.message && d.severity == self.severity,
            d.spans == self.spans && d.labels == self.labels && d.notes == self.notes,
    {
        let mut d = self;
        d.suggestions.push(suggestion);
        d
    }

    pub fn with_note(self, note: String) -> (d: Self)
        ensures
            d.notes@ == self.notes@.push(note),
            d.code == self.code && d.message == self.message && d.severity == self.severity,
            d.spans == self.spans && d.labels == self.labels && d.suggestions == self.suggestions,
    {
        let mut d = self;
        d.notes.push(note);
        d
    }

    /// "<severity> [E<code>]: <message>", then one line per label, two per
    /// suggestion and one per note.
    pub fn display(&self) -> (s: String)
        ensures
            s@ == diagnostic_text(*self),
    {
        let mut s = String::new();
        match self.severity {
            Severity::Error => push_str(&mut s, "error"),
            Severity::Warning => push_str(&mut s, "warning"),
            Severity::Note => push_str(&mut s, "note"),
            Severity::Help => push_str(&mut s, "help"),
        }
        push_str(&mut s, " [");
        let code = self.code.display();
        push_str(&mut s, code.as_str());
        push_str(&mut s, "]: ");
        push_str(&mut s, self.message.as_str());
        let ghost head = s@;
        let mut k: usize = 0;
        while k < self.labels.len()
            invariant
                k <= self.labels@.len(),
                s@ == head + labels_text(self.labels@.take(k as int)),
            decreases self.labels.len() - k,
        {
            let label = &self.labels[k];
            push_str(&mut s, "\n --> ");
            push_decimal(&mut s, label.span.start_line);
            push_str(&mut s, ":");
            push_decimal(&mut s, label.span.start_col);
            match &label.message {
                Some(m) => {
                    push_str(&mut s, ": ");
                    push_str(&mut s, m.as_str());
                }
                None => {}
            }
            assert(self.labels@.take(k + 1).drop_last() =~= self.labels@.take(k as int));
            k = k + 1;
            assert(s@ =~= head + labels_text(self.labels@.take(k as int)));
        }
        assert(self.labels@.take(k as int) =~= self.labels@);
        let ghost head2 = s@;
        let mut k: usize = 0;
        while k < self.suggestions.len()
            invariant
                k <= self.suggestions@.len(),
                s@ == head2 + suggestions_text(self.suggestions@.take(k as int)),
            decreases self.suggestions.len() - k,
        {
            let sg = &self.suggestions[k];
            push_str(&mut s, "\n  = ");
            push_str(&mut s, sg.label.as_str());
            push_str(&mut s, "\n   Replacement: \"");
            push_str(&mut s, sg.text.as_str());
            push_str(&mut s, "\"");
            assert(self.suggestions@.take(k + 1).drop_last() =~= self.suggestions@.take(k as int));
            k = k + 1;
            assert(s@ =~= head2 + suggestions_text(self.suggestions@.take(k as int)));
        }
        assert(self.suggestions@.take(k as int) =~= self.suggestions@);
        let ghost head3 = s@;
        let mut k: usize = 0;
        while k < self.notes.len()
            invariant
                k <= self.notes@.len(),
                s@ == head3 + notes_text(self.notes@.take(k as int)),
            decreases self.notes.len() - k,
        {
            push_str(&mut s, "\n  note: ");
            push_str(&mut s, self.notes[k].as_str());
            assert(self.notes@.take(k + 1).drop_last() =~= self.notes@.take(k as int));
            k = k + 1;
            assert(s@ =~= head3 + notes_text(self.notes@.take(k as int)));
        }
        assert(self.notes@.take(k as int) =~= self.notes@);
        s
    }
}

} // verus!
