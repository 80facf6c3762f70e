//! Decimation filters: thin a dataset out, by a count or by a duration.

use crate::processing::item::{parse_item, FilterItem, ItemError, ItemModel};
use crate::text::{
    all_digits, chars_of, decimal, decimal_between, digits_between, find, head, tail, trim,
    trimmed,
};
use crate::time::Duration;
use vstd::prelude::*;
use vstd::string::StringExecFns;

verus! {

/// How a decimation thins a dataset out.
#[derive(Clone, Copy, Debug, PartialEq, Eq, Structural)]
pub enum DecimationFilterType {
    /// Keep one record out of so many.
    Modulo(u32),
    /// Keep one record per span of this duration.
    Duration(Duration),
}

/// Why a text is not a decimation filter.
#[derive(Clone, Copy, Debug, PartialEq, Eq, Structural)]
pub enum DecimationError {
    /// The rate is neither a count nor a duration.
    InvalidRate,
    /// What follows the rate is not an item.
    InvalidScope(ItemError),
}

/// A reduction of the sampling rate, of everything or of what an item names.
#[derive(Clone, Debug, PartialEq)]
pub struct DecimationFilter {
    /// By how much to reduce.
    pub filter: DecimationFilterType,
    /// What to reduce; everything where there is none.
    pub item: Option<FilterItem>,
}

/// What a [`DecimationFilter`] holds, as mathematical values.
pub struct DecimationModel {
    /// By how much to reduce.
    pub filter: DecimationFilterType,
    /// What to reduce; everything where there is none.
    pub item: Option<ItemModel>,
}

impl View for DecimationFilter {
    type V = DecimationModel;

    open spec fn view(&self) -> DecimationModel {
        DecimationModel {
            filter: self.filter,
            item: match self.item {
                Some(item) => Some(item@),
                None => None,
            },
        }
    }
}

/// The rate that a duration literal gives. A text that is no duration is no
/// rate.
pub open spec fn rate_of_duration(duration: Option<Duration>) -> Result<
    DecimationFilterType,
    DecimationError,
> {
    match duration {
        Some(duration) => Ok(DecimationFilterType::Duration(duration)),
        None => Err(DecimationError::InvalidRate),
    }
}

/// The grammar of rates: digits alone are a count, which has to fit in 32
/// bits; anything else has to be a duration literal.
pub open spec fn parse_rate(t: Seq<char>) -> Result<DecimationFilterType, DecimationError> {
    if t.len() > 0 && all_digits(t) {
        if decimal(t) <= u32::MAX {
            Ok(DecimationFilterType::Modulo(decimal(t) as u32))
        } else {
            Err(DecimationError::InvalidRate)
        }
    } else {
        rate_of_duration(Duration::literal(t))
    }
}

/// The grammar of scopes: nothing, or an item.
pub open spec fn parse_scope(scope: Option<Seq<char>>) -> Result<
    Option<ItemModel>,
    DecimationError,
> {
    match scope {
        None => Ok(None),
        Some(text) => match parse_item(text) {
            Ok(item) => Ok(Some(item)),
            Err(e) => Err(DecimationError::InvalidScope(e)),
        },
    }
}

/// The grammar of decimation filters: a rate, then an optional scope after
/// the first colon. Blanks around the text and around its two parts do not
/// count. The rate is read first.
pub open spec fn parse_decimation(s: Seq<char>) -> Result<DecimationModel, DecimationError> {
    let t = trimmed(s);
    match parse_rate(trimmed(head(t, ':'))) {
        Err(e) => Err(e),
        Ok(filter) => match parse_scope(tail(t, ':')) {
            Err(e) => Err(e),
            Ok(item) => Ok(DecimationModel { filter, item }),
        },
    }
}

/// The outcome of reading a decimation, as mathematical values.
pub open spec fn decimation_outcome(r: Result<DecimationFilter, DecimationError>) -> Result<
    DecimationModel,
    DecimationError,
> {
    match r {
        Ok(filter) => Ok(filter@),
        Err(e) => Err(e),
    }
}

impl DecimationError {
    /// What [`Self::message`] says: for a scope, the reason it was refused
    /// for follows the colon.
    pub open spec fn text(self) -> Seq<char> {
        match self {
            DecimationError::InvalidRate => "invalid decimation rate"@,
            DecimationError::InvalidScope(e) => "invalid decimation scope: "@ + e.text(),
        }
    }

    /// The error in words.
    pub fn message(&self) -> (r: String)
        ensures
            r@ == self.text(),
    {
        match self {
            DecimationError::InvalidRate => "invalid decimation rate".to_owned(),
            DecimationError::InvalidScope(e) => {
                "invalid decimation scope: ".to_owned().concat(e.message().as_str())
            },
        }
    }
}

impl DecimationFilterType {
    /// Turns a duration that was read from a literal into a rate.
    pub fn from_duration(duration: Option<Duration>) -> (r: Result<
        DecimationFilterType,
        DecimationError,
    >)
        ensures
            r == rate_of_duration(duration),
    {
        match duration {
            Some(duration) => Ok(DecimationFilterType::Duration(duration)),
            None => Err(DecimationError::InvalidRate),
        }
    }

    /// Reads a rate: a count such as `10`, or a duration such as `10 min`.
    pub fn from_str(text: &str) -> (r: Result<DecimationFilterType, DecimationError>)
        ensures
            r == parse_rate(text@),
    {
        let chars = chars_of(text);
        let n = chars.len();
        proof {
            assert(chars@.subrange(0, n as int) =~= text@);
        }
        if n > 0 && digits_between(&chars, 0, n) {
            match decimal_between(&chars, 0, n) {
                Some(count) => Ok(DecimationFilterType::Modulo(count)),
                None => Err(DecimationError::InvalidRate),
            }
        } else {
            Self::from_duration(Duration::parse(text))
        }
    }
}

impl DecimationFilter {
    /// Reads a decimation filter: a rate, then an optional scope after a
    /// colon, as in `10`, `10 min` or `1 hour:L1C,L2C`.
    pub fn from_str(text: &str) -> (r: Result<DecimationFilter, DecimationError>)
        ensures
            decimation_outcome(r) == parse_decimation(text@),
    {
        let t = trim(text);
        let chars = chars_of(t);
        let n = chars.len();
        let colon = find(&chars, ':', 0);
        let rate = trim(t.substring_char(0, colon));
        proof {
            assert(t@.subrange(0, colon as int) =~= head(t@, ':'));
        }
        let filter = match DecimationFilterType::from_str(rate) {
            Ok(filter) => filter,
            Err(e) => {
                return Err(e);
            },
        };
        if colon < n {
            proof {
                assert(t@.subrange(colon + 1, n as int) =~= t@.skip(colon + 1));
            }
            match FilterItem::from_str(t.substring_char(colon + 1, n)) {
                Ok(item) => Ok(DecimationFilter { filter, item: Some(item) }),
                Err(e) => Err(DecimationError::InvalidScope(e)),
            }
        } else {
            Ok(DecimationFilter { filter, item: None })
        }
    }
}

impl std::str::FromStr for DecimationFilter {
    type Err = DecimationError;

    fn from_str(text: &str) -> (r: Result<DecimationFilter, DecimationError>)
        ensures
            decimation_outcome(r) == parse_decimation(text@),
    {
        DecimationFilter::from_str(text)
    }
}

} // verus!
