//! Filters: descriptions of what to keep, to leave out or to thin out.
//!
//! A filter is written as a short descriptor: `decim:` and a decimation,
//! `mask:` and a mask, or a mask alone.
//!
//! ```text
//! filter     := "decim" ":" decimation | "mask" ":" mask | mask
//! decimation := rate [ ":" item ]
//! rate       := digits | quantity " " unit
//! mask       := [ "=" | "!=" | ">" | ">=" | "<" | "<=" ] item
//! item       := timestamp | entry ( "," entry )*
//! ```
//!
//! Blanks around each of these parts do not count. [`parse_filter`] is the
//! grammar in full, and what [`Filter::from_str`] computes.

pub mod decim;
pub mod item;
pub mod mask;

pub use decim::{DecimationError, DecimationFilter, DecimationFilterType, DecimationModel};
pub use item::{FilterItem, ItemError, ItemModel, Sv};
pub use mask::{MaskError, MaskFilter, MaskModel, MaskOperand};

use crate::text::{
    chars_of, find, head, is_letter, lemma_letter_is_no_blank, lemma_trimmed,
    lemma_trimmed_fixed, position_from, spells, tail, trim, trimmed,
};
use decim::parse_decimation;
use item::parse_item;
use mask::{build_mask, parse_mask};
use std::ops::Not;
use vstd::prelude::*;
use vstd::string::StringExecFns;

verus! {

/// Why a descriptor is not a filter.
#[derive(Clone, Debug, PartialEq)]
pub enum Error {
    /// The descriptor names no kind of filter and is no mask either. Holds
    /// the descriptor as it was given.
    UnknownFilterType(String),
    /// What follows `mask:` is not a mask filter.
    MaskFilterParsing(MaskError),
    /// What follows `decim:` is not a decimation filter.
    DecimationFilterParsing(DecimationError),
}

/// What an [`Error`] holds, as mathematical values.
pub enum ErrorModel {
    /// The descriptor, as its characters.
    UnknownFilterType(Seq<char>),
    /// Why the mask was refused.
    MaskFilterParsing(MaskError),
    /// Why the decimation was refused.
    DecimationFilterParsing(DecimationError),
}

/// A description of what to do to a dataset.
#[derive(Clone, Debug, PartialEq)]
pub enum Filter {
    /// Keep or leave out what compares to an item.
    Mask(MaskFilter),
    /// Reduce the sampling rate.
    Decimation(DecimationFilter),
}

/// What a [`Filter`] holds, as mathematical values.
pub enum FilterModel {
    /// A mask.
    Mask(MaskModel),
    /// A decimation.
    Decimation(DecimationModel),
}

impl View for Error {
    type V = ErrorModel;

    open spec fn view(&self) -> ErrorModel {
        match self {
            Error::UnknownFilterType(text) => ErrorModel::UnknownFilterType(text@),
            Error::MaskFilterParsing(e) => ErrorModel::MaskFilterParsing(*e),
            Error::DecimationFilterParsing(e) => ErrorModel::DecimationFilterParsing(*e),
        }
    }
}

impl View for Filter {
    type V = FilterModel;

    open spec fn view(&self) -> FilterModel {
        match self {
            Filter::Mask(mask) => FilterModel::Mask(mask@),
            Filter::Decimation(decimation) => FilterModel::Decimation(decimation@),
        }
    }
}

impl FilterModel {
    /// The filter that holds exactly where this one does not, where that
    /// means anything: a mask is negated, a decimation stays as it is.
    pub open spec fn negated(self) -> FilterModel {
        match self {
            FilterModel::Mask(mask) => FilterModel::Mask(mask.negated()),
            FilterModel::Decimation(decimation) => FilterModel::Decimation(decimation),
        }
    }
}

/// What stands before the first colon of a descriptor, without the blanks
/// around it.
pub open spec fn identifier(s: Seq<char>) -> Seq<char> {
    trimmed(head(s, ':'))
}

/// What follows the first colon of a descriptor; nothing where it has none.
pub open spec fn body(s: Seq<char>) -> Seq<char> {
    match tail(s, ':') {
        Some(rest) => rest,
        None => Seq::empty(),
    }
}

/// A decimation that was announced by `decim:`, as a filter.
pub open spec fn filter_of_decimation(r: Result<DecimationModel, DecimationError>) -> Result<
    FilterModel,
    ErrorModel,
> {
    match r {
        Ok(decimation) => Ok(FilterModel::Decimation(decimation)),
        Err(e) => Err(ErrorModel::DecimationFilterParsing(e)),
    }
}

/// A mask that was announced by `mask:`, as a filter.
pub open spec fn filter_of_mask(r: Result<MaskModel, MaskError>) -> Result<
    FilterModel,
    ErrorModel,
> {
    match r {
        Ok(mask) => Ok(FilterModel::Mask(mask)),
        Err(e) => Err(ErrorModel::MaskFilterParsing(e)),
    }
}

/// A mask that was not announced, as a filter. Where the descriptor is no
/// mask, its kind is unknown.
pub open spec fn filter_of_bare_mask(s: Seq<char>, r: Result<MaskModel, MaskError>) -> Result<
    FilterModel,
    ErrorModel,
> {
    match r {
        Ok(mask) => Ok(FilterModel::Mask(mask)),
        Err(_) => Err(ErrorModel::UnknownFilterType(s)),
    }
}

/// The grammar of filters. What stands before the first colon decides:
/// `decim` announces a decimation and `mask` a mask, written after the colon.
/// With anything else there, the whole descriptor, colons included, has to be
/// a mask.
pub open spec fn parse_filter(s: Seq<char>) -> Result<FilterModel, ErrorModel> {
    if identifier(s) == "decim"@ {
        filter_of_decimation(parse_decimation(body(s)))
    } else if identifier(s) == "mask"@ {
        filter_of_mask(parse_mask(body(s)))
    } else {
        filter_of_bare_mask(s, parse_mask(s))
    }
}

/// The outcome of reading a filter, as mathematical values.
pub open spec fn filter_outcome(r: Result<Filter, Error>) -> Result<FilterModel, ErrorModel> {
    match r {
        Ok(filter) => Ok(filter@),
        Err(e) => Err(e@),
    }
}

/// A mask built from an item's text, as a filter.
pub open spec fn build_filter(operand: MaskOperand, s: Seq<char>) -> Result<
    FilterModel,
    ItemError,
> {
    match build_mask(operand, s) {
        Ok(mask) => Ok(FilterModel::Mask(mask)),
        Err(e) => Err(e),
    }
}

/// The outcome of building a filter, as mathematical values.
pub open spec fn filter_built_outcome(r: Result<Filter, ItemError>) -> Result<
    FilterModel,
    ItemError,
> {
    match r {
        Ok(filter) => Ok(filter@),
        Err(e) => Err(e),
    }
}

impl ErrorModel {
    /// What [`Error::message`] says: the descriptor between quotes, or the
    /// reason the mask or the decimation was refused for after the colon.
    pub open spec fn text(self) -> Seq<char> {
        match self {
            ErrorModel::UnknownFilterType(descriptor) => "unknown filter type \""@ + descriptor
                + "\""@,
            ErrorModel::MaskFilterParsing(e) => "invalid mask filter: "@ + e.text(),
            ErrorModel::DecimationFilterParsing(e) => "invalid decimation filter: "@ + e.text(),
        }
    }
}

impl Error {
    /// The error in words.
    pub fn message(&self) -> (r: String)
        ensures
            r@ == self@.text(),
    {
        match self {
            Error::UnknownFilterType(descriptor) => {
                "unknown filter type \"".to_owned().concat(descriptor.as_str()).concat("\"")
            },
            Error::MaskFilterParsing(e) => {
                "invalid mask filter: ".to_owned().concat(e.message().as_str())
            },
            Error::DecimationFilterParsing(e) => {
                "invalid decimation filter: ".to_owned().concat(e.message().as_str())
            },
        }
    }
}

impl Filter {
    /// The mask filter that compares to `item` with `operand`.
    pub fn mask(operand: MaskOperand, item: FilterItem) -> (r: Filter)
        ensures
            r == Filter::Mask(MaskFilter { operand, item }),
    {
        Filter::Mask(MaskFilter { operand, item })
    }

    /// Lifts a mask that a builder gave into a filter.
    fn lift(built: Result<MaskFilter, ItemError>) -> (r: Result<Filter, ItemError>)
        ensures
            r == match built {
                Ok(mask) => Ok(Filter::Mask(mask)),
                Err(e) => Err::<Filter, ItemError>(e),
            },
    {
        match built {
            Ok(mask) => Ok(Filter::Mask(mask)),
            Err(e) => Err(e),
        }
    }

    /// The filter that keeps what equals `item`.
    pub fn equals(item: &str) -> (r: Result<Filter, ItemError>)
        ensures
            filter_built_outcome(r) == build_filter(MaskOperand::Equals, item@),
    {
        Self::lift(MaskFilter::equals(item))
    }

    /// The filter that keeps what differs from `item`.
    pub fn not_equals(item: &str) -> (r: Result<Filter, ItemError>)
        ensures
            filter_built_outcome(r) == build_filter(MaskOperand::NotEquals, item@),
    {
        Self::lift(MaskFilter::not_equals(item))
    }

    /// The filter that keeps what is greater than `item`.
    pub fn greater_than(item: &str) -> (r: Result<Filter, ItemError>)
        ensures
            filter_built_outcome(r) == build_filter(MaskOperand::GreaterThan, item@),
    {
        Self::lift(MaskFilter::greater_than(item))
    }

    /// The filter that keeps what is greater than or equal to `item`.
    pub fn greater_equals(item: &str) -> (r: Result<Filter, ItemError>)
        ensures
            filter_built_outcome(r) == build_filter(MaskOperand::GreaterEquals, item@),
    {
        Self::lift(MaskFilter::greater_equals(item))
    }

    /// The filter that keeps what is lower than or equal to `item`.
    pub fn lower_equals(item: &str) -> (r: Result<Filter, ItemError>)
        ensures
            filter_built_outcome(r) == build_filter(MaskOperand::LowerEquals, item@),
    {
        Self::lift(MaskFilter::lower_equals(item))
    }

    /// The filter that keeps what is lower than `item`.
    pub fn lower_than(item: &str) -> (r: Result<Filter, ItemError>)
        ensures
            filter_built_outcome(r) == build_filter(MaskOperand::LowerThan, item@),
    {
        Self::lift(MaskFilter::lower_than(item))
    }

    /// Reads a filter from its descriptor.
    ///
    /// `decim:` announces a decimation and `mask:` a mask; what they
    /// announce is what follows the first colon. Any other descriptor is
    /// read whole as a mask, and refused with the descriptor itself where
    /// it is none.
    pub fn from_str(content: &str) -> (r: Result<Filter, Error>)
        ensures
            filter_outcome(r) == parse_filter(content@),
    {
        let chars = chars_of(content);
        let n = chars.len();
        let colon = find(&chars, ':', 0);
        let name = chars_of(trim(content.substring_char(0, colon)));
        proof {
            assert(content@.subrange(0, colon as int) =~= head(content@, ':'));
            assert(name@.skip(0) =~= name@);
        }
        let is_decimation = spells(&name, 0, "decim");
        let is_mask = spells(&name, 0, "mask");
        if is_decimation || is_mask {
            let rest = if colon < n {
                content.substring_char(colon + 1, n)
            } else {
                content.substring_char(n, n)
            };
            proof {
                if colon < n {
                    assert(content@.subrange(colon + 1, n as int) =~= content@.skip(colon + 1));
                } else {
                    assert(content@.subrange(n as int, n as int) =~= Seq::<char>::empty());
                }
                assert(rest@ == body(content@));
            }
            if is_decimation {
                match DecimationFilter::from_str(rest) {
                    Ok(decimation) => Ok(Filter::Decimation(decimation)),
                    Err(e) => Err(Error::DecimationFilterParsing(e)),
                }
            } else {
                match MaskFilter::from_str(rest) {
                    Ok(mask) => Ok(Filter::Mask(mask)),
                    Err(e) => Err(Error::MaskFilterParsing(e)),
                }
            }
        } else {
            match MaskFilter::from_str(content) {
                Ok(mask) => Ok(Filter::Mask(mask)),
                Err(_) => Err(Error::UnknownFilterType(content.to_owned())),
            }
        }
    }

    /// The filter that holds exactly where this one does not, where that
    /// means anything: a mask is negated, a decimation stays as it is.
    pub open spec fn negated(self) -> Filter {
        match self {
            Filter::Mask(mask) => Filter::Mask(mask.negated()),
            Filter::Decimation(decimation) => Filter::Decimation(decimation),
        }
    }
}

impl Not for Filter {
    type Output = Filter;

    fn not(self) -> (r: Filter)
        ensures
            r == self.negated(),
            self is Decimation ==> r == self,
    {
        match self {
            Filter::Mask(mask) => Filter::Mask(mask.not()),
            Filter::Decimation(decimation) => Filter::Decimation(decimation),
        }
    }
}

impl vstd::std_specs::ops::NotSpecImpl for Filter {
    open spec fn obeys_not_spec() -> bool {
        true
    }

    open spec fn not_req(self) -> bool {
        true
    }

    open spec fn not_spec(self) -> Filter {
        self.negated()
    }
}

impl From<MaskFilter> for Filter {
    fn from(mask: MaskFilter) -> (r: Filter)
        ensures
            r == Filter::Mask(mask),
    {
        Filter::Mask(mask)
    }
}

impl vstd::std_specs::convert::FromSpecImpl<MaskFilter> for Filter {
    open spec fn obeys_from_spec() -> bool {
        true
    }

    open spec fn from_spec(mask: MaskFilter) -> Filter {
        Filter::Mask(mask)
    }
}

impl From<DecimationFilter> for Filter {
    fn from(decimation: DecimationFilter) -> (r: Filter)
        ensures
            r == Filter::Decimation(decimation),
    {
        Filter::Decimation(decimation)
    }
}

impl vstd::std_specs::convert::FromSpecImpl<DecimationFilter> for Filter {
    open spec fn obeys_from_spec() -> bool {
        true
    }

    open spec fn from_spec(decimation: DecimationFilter) -> Filter {
        Filter::Decimation(decimation)
    }
}

impl std::str::FromStr for Filter {
    type Err = Error;

    fn from_str(content: &str) -> (r: Result<Filter, Error>)
        ensures
            filter_outcome(r) == parse_filter(content@),
    {
        Filter::from_str(content)
    }
}

/// A descriptor that starts with `decim:` is the decimation written after
/// these six characters; one that starts with `mask:` is the mask written
/// after these five.
pub proof fn lemma_prefix_is_stripped(s: Seq<char>)
    ensures
        s.len() >= 6 && s.take(6) == "decim:"@ ==> parse_filter(s) == filter_of_decimation(
            parse_decimation(s.skip(6)),
        ),
        s.len() >= 5 && s.take(5) == "mask:"@ ==> parse_filter(s) == filter_of_mask(
            parse_mask(s.skip(5)),
        ),
{
    if s.len() >= 6 && s.take(6) == "decim:"@ {
        lemma_decim_is_stripped(s);
    }
    if s.len() >= 5 && s.take(5) == "mask:"@ {
        lemma_mask_is_stripped(s);
    }
}

/// A descriptor that starts with `decim:` announces a decimation, written
/// after these six characters.
proof fn lemma_decim_is_stripped(s: Seq<char>)
    requires
        s.len() >= 6,
        s.take(6) == "decim:"@,
    ensures
        identifier(s) == "decim"@,
        body(s) == s.skip(6),
{
    reveal_strlit("decim:");
    reveal_strlit("decim");
    let word = "decim"@;
    assert forall|i: int| 0 <= i < 6 implies s[i] == "decim:"@[i] by {
        assert(s.take(6)[i] == s[i]);
    }
    assert(s.take(5) =~= word);
    assert forall|i: int| 0 <= i < word.len() implies is_letter(#[trigger] word[i]) by {
        assert(word[i] == 'd' || word[i] == 'e' || word[i] == 'c' || word[i] == 'i' || word[i]
            == 'm');
    }
    lemma_identifier_of_prefix(s, word);
}

/// A descriptor that starts with `mask:` announces a mask, written after
/// these five characters.
proof fn lemma_mask_is_stripped(s: Seq<char>)
    requires
        s.len() >= 5,
        s.take(5) == "mask:"@,
    ensures
        identifier(s) == "mask"@,
        identifier(s) != "decim"@,
        body(s) == s.skip(5),
{
    reveal_strlit("mask:");
    reveal_strlit("mask");
    reveal_strlit("decim");
    let word = "mask"@;
    assert forall|i: int| 0 <= i < 5 implies s[i] == "mask:"@[i] by {
        assert(s.take(5)[i] == s[i]);
    }
    assert(s.take(4) =~= word);
    assert forall|i: int| 0 <= i < word.len() implies is_letter(#[trigger] word[i]) by {
        assert(word[i] == 'm' || word[i] == 'a' || word[i] == 's' || word[i] == 'k');
    }
    lemma_identifier_of_prefix(s, word);
}

/// A descriptor that starts with a word of letters and a colon has that
/// word for its identifier, and what follows the colon for its body.
proof fn lemma_identifier_of_prefix(s: Seq<char>, word: Seq<char>)
    requires
        word.len() > 0,
        forall|i: int| 0 <= i < word.len() ==> is_letter(#[trigger] word[i]),
        s.len() > word.len(),
        s.take(word.len() as int) == word,
        s[word.len() as int] == ':',
    ensures
        identifier(s) == word,
        body(s) == s.skip(word.len() as int + 1),
{
    let n = word.len() as int;
    assert forall|k: int| 0 <= k < n implies s[k] != ':' by {
        assert(s.take(n)[k] == word[k]);
        assert(is_letter(word[k]));
    }
    lemma_position_before(s, ':', 0, n);
    assert(position_from(s, ':', n) == n);
    assert(is_letter(word[0]) && is_letter(word[n - 1]));
    lemma_letter_is_no_blank(word[0]);
    lemma_letter_is_no_blank(word[n - 1]);
    lemma_trimmed_fixed(word);
}

/// Where nothing between `i` and `n` is the separator, the first separator
/// from `i` on is the first from `n` on.
proof fn lemma_position_before(s: Seq<char>, c: char, i: int, n: int)
    requires
        0 <= i <= n <= s.len(),
        forall|k: int| i <= k < n ==> s[k] != c,
    ensures
        position_from(s, c, i) == position_from(s, c, n),
    decreases n - i,
{
    if i < n {
        lemma_position_before(s, c, i + 1, n);
    }
}

/// Blanks around an item, a mask or a decimation do not count: with them or
/// without, the text is read alike.
pub proof fn lemma_blanks_do_not_count(s: Seq<char>)
    ensures
        parse_item(trimmed(s)) == parse_item(s),
        parse_mask(trimmed(s)) == parse_mask(s),
        parse_decimation(trimmed(s)) == parse_decimation(s),
{
    lemma_trimmed(s);
}

/// Negating a filter twice gives it back.
pub proof fn lemma_double_negation(filter: Filter)
    ensures
        filter.negated().negated() == filter,
        filter@.negated().negated() == filter@,
        filter.negated()@ == filter@.negated(),
{
}

/// Negation does not apply to a decimation: it gives the decimation back.
pub proof fn lemma_negation_keeps_decimation(decimation: DecimationFilter)
    ensures
        Filter::Decimation(decimation).negated() == Filter::Decimation(decimation),
        Filter::Decimation(decimation)@.negated() == Filter::Decimation(decimation)@,
{
}

/// A descriptor that announces neither a decimation nor a mask, and that is
/// no mask as a whole, is refused as of unknown kind, with the descriptor
/// itself.
pub proof fn lemma_unknown_identifier(s: Seq<char>)
    requires
        identifier(s) != "decim"@,
        identifier(s) != "mask"@,
        parse_mask(s) is Err,
    ensures
        parse_filter(s) == Err::<FilterModel, ErrorModel>(ErrorModel::UnknownFilterType(s)),
{
}

} // verus!
