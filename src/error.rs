use vstd::prelude::*;
use crate::expr::ExprDiscriminants;

verus! {

/// Why a statement is not well formed.
#[derive(Debug, PartialEq, Eq)]
pub enum ValidationError {
    /// A variable that no enclosing universal or existential statement declares.
    InvalidVariable(String),
    /// A rule met a statement of the wrong kind: expected, then found.
    InvalidStatementType(ExprDiscriminants, ExprDiscriminants),
}

/// Errors of the validation and decomposition engine.
#[derive(Debug, PartialEq, Eq)]
pub enum EngineError {
    ValidationError(ValidationError),
    /// A feature that is reserved and not implemented, by name.
    NotSupported(String),
}

impl From<ValidationError> for EngineError {
    fn from(value: ValidationError) -> (r: EngineError)
        ensures
            r == EngineError::ValidationError(value),
    {
        EngineError::ValidationError(value)
    }
}

impl vstd::std_specs::convert::FromSpecImpl<ValidationError> for EngineError {
    open spec fn obeys_from_spec() -> bool {
        true
    }

    open spec fn from_spec(v: ValidationError) -> EngineError {
        EngineError::ValidationError(v)
    }
}

/// Why parsing failed at a span.
#[derive(Debug, PartialEq, Eq)]
pub enum ErrorReason {
    /// The input held something else here: what the parser expected, and the
    /// character found, or the end.
    ExpectedFound { expected: Vec<String>, found: Option<char> },
    /// A message of the parser's own.
    Custom(String),
}

pub enum Reason {
    ExpectedFound(Seq<Seq<char>>, Option<char>),
    Custom(Seq<char>),
}

impl View for ErrorReason {
    type V = Reason;

    open spec fn view(&self) -> Reason {
        match self {
            ErrorReason::ExpectedFound { expected, found } => Reason::ExpectedFound(
                expected@.map_values(|x: String| x@),
                *found,
            ),
            ErrorReason::Custom(m) => Reason::Custom(m@),
        }
    }
}

/// A syntax error: the character spans it covers and why it was raised.
#[derive(Debug, PartialEq, Eq)]
pub struct YggError {
    spans: Vec<(usize, usize)>,
    start: usize,
    end: usize,
    reason: ErrorReason,
}

/// Mathematical model of a [`YggError`].
pub struct SyntaxError {
    pub spans: Seq<(usize, usize)>,
    pub start: int,
    pub end: int,
    pub reason: Reason,
}

impl View for YggError {
    type V = SyntaxError;

    closed spec fn view(&self) -> SyntaxError {
        SyntaxError {
            spans: self.spans@,
            start: self.start as int,
            end: self.end as int,
            reason: self.reason@,
        }
    }
}

/// The least start among `spans`, or zero when there are none.
pub open spec fn least_start(spans: Seq<(usize, usize)>) -> int
    decreases spans.len(),
{
    if spans.len() == 0 {
        0
    } else if spans.len() == 1 || spans[0].0 <= least_start(spans.drop_first()) {
        spans[0].0 as int
    } else {
        least_start(spans.drop_first())
    }
}

/// The greatest end among `spans`, or zero when there are none.
pub open spec fn greatest_end(spans: Seq<(usize, usize)>) -> int
    decreases spans.len(),
{
    if spans.len() == 0 {
        0
    } else if spans.len() == 1 || spans[0].1 >= greatest_end(spans.drop_first()) {
        spans[0].1 as int
    } else {
        greatest_end(spans.drop_first())
    }
}

impl YggError {
    pub fn spans(&self) -> (r: &Vec<(usize, usize)>)
        ensures
            r@ == self@.spans,
    {
        &self.spans
    }

    pub fn reason(&self) -> (r: &ErrorReason)
        ensures
            r@ == self@.reason,
    {
        &self.reason
    }

    pub fn start(&self) -> (r: usize)
        ensures
            r == self@.start,
    {
        self.start
    }

    pub fn end(&self) -> (r: usize)
        ensures
            r == self@.end,
    {
        self.end
    }

    /// An error with a message of the parser's own. It starts at the least
    /// start of `spans` and ends at the greatest end of `spans`.
    pub fn custom(spans: Vec<(usize, usize)>, msg: String) -> (r: YggError)
        ensures
            r@ == (SyntaxError {
                spans: spans@,
                start: least_start(spans@),
                end: greatest_end(spans@),
                reason: Reason::Custom(msg@),
            }),
    {
        let mut start: usize = 0;
        let mut end: usize = 0;
        let mut i: usize = spans.len();
        while i > 0
            invariant
                i <= spans.len(),
                start == least_start(spans@.subrange(i as int, spans.len() as int)),
                end == greatest_end(spans@.subrange(i as int, spans.len() as int)),
            decreases i,
        {
            let ghost rest = spans@.subrange(i as int, spans.len() as int);
            let ghost next = spans@.subrange(i - 1, spans.len() as int);
            assert(next.drop_first() =~= rest);
            let (s, e) = spans[i - 1];
            if i == spans.len() || s <= start {
                start = s;
            }
            if i == spans.len() || e >= end {
                end = e;
            }
            i = i - 1;
        }
        assert(spans@.subrange(0, spans.len() as int) =~= spans@);
        YggError { spans, start, end, reason: ErrorReason::Custom(msg) }
    }

    /// An error over one span where the parser expected one of `expected` and
    /// the input held `found` (or ended).
    pub fn expected_found(expected: Vec<String>, found: Option<char>, span: (usize, usize)) -> (r:
        YggError)
        ensures
            r@ == (SyntaxError {
                spans: seq![span],
                start: span.0 as int,
                end: span.1 as int,
                reason: Reason::ExpectedFound(expected@.map_values(|x: String| x@), found),
            }),
    {
        let spans = vec![span];
        assert(spans@ =~= seq![span]);
        YggError { spans, start: span.0, end: span.1, reason: ErrorReason::ExpectedFound { expected, found } }
    }
}

} // verus!
