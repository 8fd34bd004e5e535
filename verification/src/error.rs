//! The diagnostic model: the public error value returned on a failed parse,
//! its classified cause, and the transient accumulator that carries the
//! failure state while the parser unwinds.
//!
//! The central invariant of the model: specificity, once established, is
//! sticky.  A context label only ever fills an *absent* slot; it never
//! replaces an earlier label, and it never demotes a conversion failure.

use vstd::prelude::*;
use vstd::string::StringExecFns;

verus! {

/// A static description of the grammar production the parser was attempting
/// when it failed.  The set is fixed at build time, so the labels are an
/// enumeration rather than free-form text.
#[derive(Clone, Copy, Debug, PartialEq, Eq, Structural)]
pub enum ContextLabel {
    /// A node identifier (bare or quoted) was expected.
    NodeIdentifier,
    /// An identifier was expected inside a `(...)` type annotation.
    TypeAnnotation,
    /// A closing `)` of a type annotation was expected.
    AnnotationClose,
    /// A value (string, number, boolean or null) was expected.
    Value,
    /// A value was expected on the right-hand side of a property `=`.
    PropertyValue,
    /// A string literal was expected or was left unterminated.
    StringLiteral,
    /// A property, a value, a child block or a node terminator was expected.
    NodeEntry,
    /// A closing `}` of a child block was expected.
    ChildrenClose,
    /// The end of the input was expected.
    EndOfInput,
}

/// The words a context label is reported with.
pub open spec fn label_text(l: ContextLabel) -> Seq<char> {
    match l {
        ContextLabel::NodeIdentifier => "a node identifier"@,
        ContextLabel::TypeAnnotation => "an identifier in a type annotation"@,
        ContextLabel::AnnotationClose => "a closing parenthesis of a type annotation"@,
        ContextLabel::Value => "a value"@,
        ContextLabel::PropertyValue => "a property value"@,
        ContextLabel::StringLiteral => "a closed string literal"@,
        ContextLabel::NodeEntry => "a property, value or child block"@,
        ContextLabel::ChildrenClose => "a closing brace of a child block"@,
        ContextLabel::EndOfInput => "the end of the input"@,
    }
}

impl ContextLabel {
    /// The words this label is reported with.
    pub fn text(&self) -> (r: String)
        ensures
            r@ == label_text(*self),
    {
        match self {
            ContextLabel::NodeIdentifier => String::from_str("a node identifier"),
            ContextLabel::TypeAnnotation => String::from_str("an identifier in a type annotation"),
            ContextLabel::AnnotationClose => String::from_str(
                "a closing parenthesis of a type annotation",
            ),
            ContextLabel::Value => String::from_str("a value"),
            ContextLabel::PropertyValue => String::from_str("a property value"),
            ContextLabel::StringLiteral => String::from_str("a closed string literal"),
            ContextLabel::NodeEntry => String::from_str("a property, value or child block"),
            ContextLabel::ChildrenClose => String::from_str("a closing brace of a child block"),
            ContextLabel::EndOfInput => String::from_str("the end of the input"),
        }
    }
}

/// Why a native integer conversion failed.
#[derive(Clone, Copy, Debug, PartialEq, Eq, Structural)]
pub enum IntIssue {
    /// The literal had a sign or radix prefix but no digits.
    Empty,
    /// A character that is not a digit of the literal's radix followed the
    /// digits without a separator.
    InvalidDigit,
    /// The literal's value is above the largest representable integer.
    PosOverflow,
    /// The literal's value is below the smallest representable integer.
    NegOverflow,
}

/// Why a native floating-point conversion failed.
#[derive(Clone, Copy, Debug, PartialEq, Eq, Structural)]
pub enum FloatIssue {
    /// The literal is not a well-formed floating-point literal.
    Invalid,
}

/// The classified reason for a parse failure.
#[derive(Clone, Copy, Debug, PartialEq, Eq, Structural)]
pub enum KdlErrorKind {
    /// An error occurred while converting an integer literal.
    ParseIntError(IntIssue),
    /// An error occurred while converting a floating point literal.
    ParseFloatError(FloatIssue),
    /// Generic parsing error.  The label names the component that failed to
    /// parse.
    Context(ContextLabel),
    /// Generic unspecified error: no conversion was attempted and no label
    /// was ever applied on the failing path.
    Other,
}

/// The message a cause is reported with.  Conversion failures report the
/// native conversion's wording; a context label reports what was
/// expected.
pub open spec fn kind_message(k: KdlErrorKind) -> Seq<char> {
    match k {
        KdlErrorKind::ParseIntError(i) => match i {
            IntIssue::Empty => "cannot parse integer from empty string"@,
            IntIssue::InvalidDigit => "invalid digit found in string"@,
            IntIssue::PosOverflow => "number too large to fit in target type"@,
            IntIssue::NegOverflow => "number too small to fit in target type"@,
        },
        KdlErrorKind::ParseFloatError(f) => match f {
            FloatIssue::Invalid => "invalid float literal"@,
        },
        KdlErrorKind::Context(l) => "Expected "@ + label_text(l) + "."@,
        KdlErrorKind::Other => "An unspecified error occurred."@,
    }
}

impl KdlErrorKind {
    /// The message this cause is reported with.
    pub fn message(&self) -> (r: String)
        ensures
            r@ == kind_message(*self),
    {
        match self {
            KdlErrorKind::ParseIntError(i) => match i {
                IntIssue::Empty => String::from_str("cannot parse integer from empty string"),
                IntIssue::InvalidDigit => String::from_str("invalid digit found in string"),
                IntIssue::PosOverflow => String::from_str("number too large to fit in target type"),
                IntIssue::NegOverflow => String::from_str("number too small to fit in target type"),
            },
            KdlErrorKind::ParseFloatError(f) => match f {
                FloatIssue::Invalid => String::from_str("invalid float literal"),
            },
            KdlErrorKind::Context(l) => {
                let mut r = String::from_str("Expected ");
                let t = l.text();
                r.append(t.as_str());
                r.append(".");
                r
            },
            KdlErrorKind::Other => String::from_str("An unspecified error occurred."),
        }
    }
}

/// An error that occurs when parsing a document.
///
/// It carries the full original input so that a presentation layer can
/// render a source snippet, a character offset marking the failure site,
/// and the classified cause.
#[derive(Clone, Debug, PartialEq, Eq)]
pub struct KdlError {
    /// Source text of the document that failed to parse.
    pub input: String,
    /// Offset in chars of the error.
    pub offset: usize,
    /// Specific error kind for this parser error.
    pub kind: KdlErrorKind,
}

impl KdlError {
    /// The message this diagnostic is reported with: the message of its
    /// cause.
    pub fn message(&self) -> (r: String)
        ensures
            r@ == kind_message(self.kind),
    {
        self.kind.message()
    }
}

/// Conversion error for reading a parsed value as another type.
///
/// This family has no source position: it reports only the expected type
/// and the variant that was actually found.
#[derive(Clone, Debug, PartialEq, Eq)]
pub struct TryFromKdlNodeValueError {
    /// Name of the type the conversion was asked for.
    pub expected: String,
    /// Name of the variant the value actually holds.
    pub variant: String,
}

/// The transient failure state carried while the parser unwinds: the offset
/// where the failure occurred, at most one context label, and at most one
/// specific cause.  It never survives a completed parse: it is either
/// discarded on success or finalized into a [`KdlError`].
#[derive(Clone, Copy, Debug, PartialEq, Eq)]
pub struct KdlParseError {
    /// Offset in chars of the failure.
    pub offset: usize,
    /// The innermost context label applied so far, if any.
    pub context: Option<ContextLabel>,
    /// The specific cause recorded at the failure site, if any.
    pub kind: Option<KdlErrorKind>,
}

impl KdlParseError {
    /// What [`Self::add_context`] returns: the label fills the context slot
    /// only when that slot is empty; offset and kind are untouched.
    pub open spec fn add_context_spec(self, label: ContextLabel) -> KdlParseError {
        KdlParseError {
            offset: self.offset,
            context: if self.context is Some {
                self.context
            } else {
                Some(label)
            },
            kind: self.kind,
        }
    }

    /// The cause that survives to the public diagnostic: the specific kind
    /// if one was recorded, else the innermost context label, else
    /// unspecified.
    pub open spec fn cause_spec(self) -> KdlErrorKind {
        if self.kind is Some {
            self.kind->0
        } else if self.context is Some {
            KdlErrorKind::Context(self.context->0)
        } else {
            KdlErrorKind::Other
        }
    }

    /// A pure grammar mismatch at `offset`: no label, no specific cause.
    pub fn from_grammar_mismatch(offset: usize) -> (r: KdlParseError)
        ensures
            r == (KdlParseError { offset, context: None, kind: None }),
    {
        KdlParseError { offset, context: None, kind: None }
    }

    /// A failed native integer conversion for the literal starting at
    /// `offset`.
    pub fn from_int_conversion(offset: usize, issue: IntIssue) -> (r: KdlParseError)
        ensures
            r == (KdlParseError {
                offset,
                context: None,
                kind: Some(KdlErrorKind::ParseIntError(issue)),
            }),
    {
        KdlParseError { offset, context: None, kind: Some(KdlErrorKind::ParseIntError(issue)) }
    }

    /// A failed native floating-point conversion for the literal starting
    /// at `offset`.
    pub fn from_float_conversion(offset: usize, issue: FloatIssue) -> (r: KdlParseError)
        ensures
            r == (KdlParseError {
                offset,
                context: None,
                kind: Some(KdlErrorKind::ParseFloatError(issue)),
            }),
    {
        KdlParseError { offset, context: None, kind: Some(KdlErrorKind::ParseFloatError(issue)) }
    }

    /// Labels this failure with the production that was being attempted.
    /// The first label on a failing path wins, and a specific cause is
    /// never disturbed.
    pub fn add_context(self, label: ContextLabel) -> (r: KdlParseError)
        ensures
            r == self.add_context_spec(label),
    {
        KdlParseError {
            offset: self.offset,
            context: if self.context.is_some() {
                self.context
            } else {
                Some(label)
            },
            kind: self.kind,
        }
    }

    /// The finalized cause of this failure.
    pub fn cause(self) -> (r: KdlErrorKind)
        ensures
            r == self.cause_spec(),
    {
        match self.kind {
            Some(k) => k,
            None => match self.context {
                Some(label) => KdlErrorKind::Context(label),
                None => KdlErrorKind::Other,
            },
        }
    }

    /// Converts the accumulated failure state into the public diagnostic,
    /// cloning the original input once for snippet rendering.
    pub fn finalize(self, input: &str) -> (r: KdlError)
        ensures
            r.input@ == input@,
            r.offset == self.offset,
            r.kind == self.cause_spec(),
    {
        KdlError { input: input.to_owned(), offset: self.offset, kind: self.cause() }
    }
}

/// Labeling is idempotent per failure path: once any label is set, a later
/// (more enclosing) label changes nothing, so the innermost label of a
/// failing path is the one that is reported.
pub proof fn lemma_first_label_wins(e: KdlParseError, inner: ContextLabel, outer: ContextLabel)
    ensures
        e.add_context_spec(inner).add_context_spec(outer) == e.add_context_spec(inner),
{
}

/// The failure state after a stack of context labels has been applied,
/// innermost first — the order in which the combinator stack unwinds.
pub open spec fn apply_labels(e: KdlParseError, labels: Seq<ContextLabel>) -> KdlParseError
    decreases labels.len(),
{
    if labels.len() == 0 {
        e
    } else {
        apply_labels(e.add_context_spec(labels[0]), labels.drop_first())
    }
}

/// However many labeled productions a failure unwinds through: the offset
/// never moves, a conversion cause recorded at the failure site survives
/// to the finalized diagnostic untouched, and when no such cause exists
/// the reported label is the innermost one that was active.
pub proof fn lemma_unwind_keeps_specifics(e: KdlParseError, labels: Seq<ContextLabel>)
    ensures
        apply_labels(e, labels).offset == e.offset,
        apply_labels(e, labels).kind == e.kind,
        e.context is Some ==> apply_labels(e, labels).context == e.context,
        e.context is None && labels.len() > 0 ==> apply_labels(e, labels).context == Some(
            labels[0],
        ),
        e.kind is Some ==> apply_labels(e, labels).cause_spec() == e.kind->0,
    decreases labels.len(),
{
    if labels.len() > 0 {
        lemma_unwind_keeps_specifics(e.add_context_spec(labels[0]), labels.drop_first());
    }
}

/// Labeling never disturbs a specific cause or moves the failure site:
/// whatever labels the unwinding combinators apply, the finalized cause of
/// a failure that recorded a conversion error is that conversion error, at
/// the offset where it was recorded.
pub proof fn lemma_specific_cause_is_sticky(e: KdlParseError, label: ContextLabel)
    ensures
        e.add_context_spec(label).kind == e.kind,
        e.add_context_spec(label).offset == e.offset,
        e.kind is Some ==> e.add_context_spec(label).cause_spec() == e.kind->0,
{
}

} // verus!
