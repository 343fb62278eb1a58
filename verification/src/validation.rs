//! ELF structural validation issues.
//!
//! [`crate::ElfImage::validate`] produces a [`ValidationResult`]. This module
//! defines the issue types that make up that result.

use vstd::prelude::*;

verus! {

/// The severity of one validation issue.
#[derive(Debug, Clone, Copy, PartialEq, Eq, PartialOrd, Ord, Hash, Structural)]
pub enum ValidationLevel {
    /// Suspicious state that can still be accepted.
    Warning,
    /// Invalid state that can prevent correct processing.
    Error,
}

/// The structural check that produced one validation issue.
#[derive(Debug, Clone, Copy, PartialEq, Eq, Hash, Structural)]
#[non_exhaustive]
pub enum ValidationCode {
    /// The ELF magic number was invalid.
    InvalidMagic,
    /// The ELF class was unsupported.
    UnsupportedClass,
    /// The ELF data encoding was unsupported.
    UnsupportedDataEncoding,
    /// The object type was invalid.
    InvalidType,
    /// The entry point fell outside the mapped image.
    EntryPointOutOfImage,
    /// Two loadable segments overlapped.
    OverlappingSegments,
    /// A segment file range fell outside the file.
    SegmentFileRangeOutOfBounds,
    /// A segment virtual address was not congruent with its file offset.
    SegmentVaddrMisaligned,
    /// The program header count exceeded the file size.
    InvalidProgramHeaderCount,
    /// A section file range fell outside the file.
    SectionFileRangeOutOfBounds,
    /// The section-name string table index was invalid.
    InvalidStringTableIndex,
    /// The object declared no loadable segment.
    NoLoadSegments,
}

/// One structural validation finding.
#[derive(Debug, Clone, PartialEq, Eq, Hash)]
pub struct ValidationIssue {
    /// The issue severity.
    pub level: ValidationLevel,
    /// The check that produced the issue.
    pub code: ValidationCode,
    /// A human-readable description.
    pub message: String,
    /// Optional location context.
    pub context: Option<String>,
}

/// The model of one issue: severity, check, message, and context.
pub type IssueModel = (ValidationLevel, ValidationCode, Seq<char>, Option<Seq<char>>);

impl View for ValidationIssue {
    type V = IssueModel;

    open spec fn view(&self) -> IssueModel {
        (
            self.level,
            self.code,
            self.message@,
            match self.context {
                Some(c) => Some(c@),
                None => None,
            },
        )
    }
}

impl ValidationIssue {
    /// Creates a warning-severity issue.
    pub fn warning(code: ValidationCode, message: &str) -> (res: Self)
        ensures
            res@ == (ValidationLevel::Warning, code, message@, None::<Seq<char>>),
    {
        ValidationIssue {
            level: ValidationLevel::Warning,
            code,
            message: message.to_owned(),
            context: None,
        }
    }

    /// Creates an error-severity issue.
    pub fn error(code: ValidationCode, message: &str) -> (res: Self)
        ensures
            res@ == (ValidationLevel::Error, code, message@, None::<Seq<char>>),
    {
        ValidationIssue {
            level: ValidationLevel::Error,
            code,
            message: message.to_owned(),
            context: None,
        }
    }

    /// Attaches location context.
    pub fn with_context(self, context: String) -> (res: Self)
        ensures
            res@ == (self@.0, self@.1, self@.2, Some(context@)),
    {
        ValidationIssue { level: self.level, code: self.code, message: self.message, context: Some(context) }
    }
}

/// The complete set of structural validation findings.
#[derive(Debug, Clone, PartialEq, Eq)]
pub struct ValidationResult {
    /// Every finding, in check order.
    pub issues: Vec<ValidationIssue>,
}

/// The models of a sequence of issues.
pub open spec fn issues_view(issues: Seq<ValidationIssue>) -> Seq<IssueModel> {
    issues.map_values(|i: ValidationIssue| i@)
}

/// The issues of severity `level`, in order.
pub open spec fn issues_at_level(issues: Seq<ValidationIssue>, level: ValidationLevel) -> Seq<ValidationIssue> {
    issues.filter(|i: ValidationIssue| i.level == level)
}

impl Default for ValidationResult {
    fn default() -> (res: Self)
        ensures
            res.issues@.len() == 0,
    {
        ValidationResult { issues: Vec::new() }
    }
}

impl ValidationResult {
    /// Creates a result from a list of findings.
    pub fn new(issues: Vec<ValidationIssue>) -> (res: Self)
        ensures
            res.issues@ == issues@,
    {
        ValidationResult { issues }
    }

    /// Returns every finding.
    pub fn issues(&self) -> (res: &[ValidationIssue])
        ensures
            res@ == self.issues@,
    {
        self.issues.as_slice()
    }

    /// Tests whether the object has no findings.
    pub fn is_ok(&self) -> (res: bool)
        ensures
            res == (self.issues@.len() == 0),
    {
        self.issues.len() == 0
    }

    /// Tests whether the object has at least one error-severity finding.
    pub fn has_errors(&self) -> (res: bool)
        ensures
            res == exists|i: int|
                0 <= i < self.issues@.len() && #[trigger] self.issues@[i].level
                    == ValidationLevel::Error,
    {
        let mut i: usize = 0;
        while i < self.issues.len()
            invariant
                i <= self.issues@.len(),
                forall|j: int| 0 <= j < i ==> #[trigger] self.issues@[j].level != ValidationLevel::Error,
            decreases self.issues@.len() - i,
        {
            if self.issues[i].level == ValidationLevel::Error {
                return true;
            }
            i = i + 1;
        }
        false
    }

    fn at_level(&self, level: ValidationLevel) -> (res: Vec<&ValidationIssue>)
        ensures
            res@.map_values(|r: &ValidationIssue| *r) == issues_at_level(self.issues@, level),
    {
        let mut out: Vec<&ValidationIssue> = Vec::new();
        let mut i: usize = 0;
        while i < self.issues.len()
            invariant
                i <= self.issues@.len(),
                out@.map_values(|r: &ValidationIssue| *r) == issues_at_level(
                    self.issues@.take(i as int),
                    level,
                ),
            decreases self.issues@.len() - i,
        {
            let ghost before = out@.map_values(|r: &ValidationIssue| *r);
            proof {
                reveal_with_fuel(Seq::<ValidationIssue>::filter, 1);
                assert(self.issues@.take(i + 1).drop_last() =~= self.issues@.take(i as int));
            }
            let issue = &self.issues[i];
            if issue.level == level {
                out.push(issue);
                assert(out@.map_values(|r: &ValidationIssue| *r) =~= before.push(*issue));
            }
            i = i + 1;
        }
        assert(self.issues@.take(self.issues@.len() as int) =~= self.issues@);
        out
    }

    /// Returns the error-severity findings, in check order.
    pub fn errors(&self) -> (res: Vec<&ValidationIssue>)
        ensures
            res@.map_values(|r: &ValidationIssue| *r) == issues_at_level(
                self.issues@,
                ValidationLevel::Error,
            ),
    {
        self.at_level(ValidationLevel::Error)
    }

    /// Returns the warning-severity findings, in check order.
    pub fn warnings(&self) -> (res: Vec<&ValidationIssue>)
        ensures
            res@.map_values(|r: &ValidationIssue| *r) == issues_at_level(
                self.issues@,
                ValidationLevel::Warning,
            ),
    {
        self.at_level(ValidationLevel::Warning)
    }
}

} // verus!
