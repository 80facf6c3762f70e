//! Error definitions

use vstd::prelude::*;
use vstd::string::StringExecFns;

verus! {

/// Errors while designing a pipeline
#[derive(Clone, Copy, Debug, PartialEq, Eq, Structural)]
pub enum QcPipelineError {
    /// The scope of the pipeline is refused, for the reason given.
    InvalidScope(QcScopeError),
    /// A selection of the pipeline is refused, for the reason given.
    InvalidSelection(QcSelectionError),
    /// An operand of the pipeline is refused.
    InvalidOperand,
}

/// Errors while parsing an angle
#[derive(Clone, Copy, Debug, PartialEq, Eq, Structural)]
pub enum QcAngleParsingError {
    /// The unit of the angle is not known.
    InvalidUnit,
    /// The value of the angle is not a number.
    InvalidValue,
}

/// Errors while parsing a scope
#[derive(Clone, Copy, Debug, PartialEq, Eq, Structural)]
pub enum QcScopeError {
    /// The scope is not understood.
    InvalidScope,
    /// The scope names a kind of product that is not known.
    UnknownProductType,
}

/// Errors while describing a selection method
#[derive(Clone, Copy, Debug, PartialEq, Eq, Structural)]
pub enum QcSelectionError {
    /// A step of the selection is empty.
    EmptyStep,
    /// An item of the selection is refused.
    InvalidItem,
    /// An operand of the selection is refused.
    InvalidOperand,
}

impl QcAngleParsingError {
    /// What [`Self::message`] says.
    pub open spec fn text(self) -> Seq<char> {
        match self {
            QcAngleParsingError::InvalidUnit => "invalid unit"@,
            QcAngleParsingError::InvalidValue => "invalid angle value"@,
        }
    }

    /// The error in words.
    pub fn message(&self) -> (r: String)
        ensures
            r@ == self.text(),
    {
        match self {
            QcAngleParsingError::InvalidUnit => "invalid unit".to_owned(),
            QcAngleParsingError::InvalidValue => "invalid angle value".to_owned(),
        }
    }
}

impl QcScopeError {
    /// What [`Self::message`] says.
    pub open spec fn text(self) -> Seq<char> {
        match self {
            QcScopeError::InvalidScope => "Invalid scope"@,
            QcScopeError::UnknownProductType => "Unknown product type"@,
        }
    }

    /// The error in words.
    pub fn message(&self) -> (r: String)
        ensures
            r@ == self.text(),
    {
        match self {
            QcScopeError::InvalidScope => "Invalid scope".to_owned(),
            QcScopeError::UnknownProductType => "Unknown product type".to_owned(),
        }
    }
}

impl QcSelectionError {
    /// What [`Self::message`] says.
    pub open spec fn text(self) -> Seq<char> {
        match self {
            QcSelectionError::EmptyStep => "Empty selection step"@,
            QcSelectionError::InvalidItem => "Invalid item"@,
            QcSelectionError::InvalidOperand => "Invalid operand"@,
        }
    }

    /// The error in words.
    pub fn message(&self) -> (r: String)
        ensures
            r@ == self.text(),
    {
        match self {
            QcSelectionError::EmptyStep => "Empty selection step".to_owned(),
            QcSelectionError::InvalidItem => "Invalid item".to_owned(),
            QcSelectionError::InvalidOperand => "Invalid operand".to_owned(),
        }
    }
}

impl QcPipelineError {
    /// What [`Self::message`] says: for a scope or a selection, the reason
    /// it was refused for follows the colon.
    pub open spec fn text(self) -> Seq<char> {
        match self {
            QcPipelineError::InvalidScope(e) => "invalid pipeline scope: "@ + e.text(),
            QcPipelineError::InvalidSelection(e) => "invalid pipeline selection: "@ + e.text(),
            QcPipelineError::InvalidOperand => "invalid pipeline operand"@,
        }
    }

    /// The error in words.
    pub fn message(&self) -> (r: String)
        ensures
            r@ == self.text(),
    {
        match self {
            QcPipelineError::InvalidScope(e) => {
                "invalid pipeline scope: ".to_owned().concat(e.message().as_str())
            },
            QcPipelineError::InvalidSelection(e) => {
                "invalid pipeline selection: ".to_owned().concat(e.message().as_str())
            },
            QcPipelineError::InvalidOperand => "invalid pipeline operand".to_owned(),
        }
    }
}

} // verus!
