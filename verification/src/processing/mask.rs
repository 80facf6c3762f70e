//! Mask filters: keep or leave out what compares to an item in a given way.

use crate::processing::item::{item_outcome, parse_item, FilterItem, ItemError, ItemModel};
use crate::text::{chars_of, trim, trimmed};
use std::ops::Not;
use vstd::prelude::*;

verus! {

/// How a record is compared to the item of a mask.
#[derive(Clone, Copy, Debug, PartialEq, Eq, Hash, Structural)]
pub enum MaskOperand {
    /// Written `=`, or not written at all.
    Equals,
    /// Written `!=`.
    NotEquals,
    /// Written `>`.
    GreaterThan,
    /// Written `>=`.
    GreaterEquals,
    /// Written `<`.
    LowerThan,
    /// Written `<=`.
    LowerEquals,
}

/// Why a text is not a mask filter.
#[derive(Clone, Copy, Debug, PartialEq, Eq, Structural)]
pub enum MaskError {
    /// Nothing is written, or nothing follows the operand.
    EmptyStep,
    /// What follows the operand is not an item.
    InvalidItem,
    /// The operand orders, and the item is of a kind that has no order.
    InvalidOperand,
}

/// A comparison against one item.
#[derive(Clone, Debug, PartialEq)]
pub struct MaskFilter {
    /// How records are compared to the item.
    pub operand: MaskOperand,
    /// What records are compared to.
    pub item: FilterItem,
}

/// What a [`MaskFilter`] holds, as mathematical values.
pub struct MaskModel {
    /// How records are compared to the item.
    pub operand: MaskOperand,
    /// What records are compared to.
    pub item: ItemModel,
}

impl MaskOperand {
    /// The operand that holds exactly where this one does not.
    pub open spec fn complement(self) -> MaskOperand {
        match self {
            MaskOperand::Equals => MaskOperand::NotEquals,
            MaskOperand::NotEquals => MaskOperand::Equals,
            MaskOperand::GreaterThan => MaskOperand::LowerEquals,
            MaskOperand::GreaterEquals => MaskOperand::LowerThan,
            MaskOperand::LowerThan => MaskOperand::GreaterEquals,
            MaskOperand::LowerEquals => MaskOperand::GreaterThan,
        }
    }

    /// Whether the operand needs an order on what it compares.
    pub open spec fn is_ordering(self) -> bool {
        !(self is Equals || self is NotEquals)
    }

    /// Whether the operand needs an order on what it compares.
    pub fn orders(&self) -> (r: bool)
        ensures
            r == self.is_ordering(),
    {
        match self {
            MaskOperand::Equals => false,
            MaskOperand::NotEquals => false,
            MaskOperand::GreaterThan => true,
            MaskOperand::GreaterEquals => true,
            MaskOperand::LowerThan => true,
            MaskOperand::LowerEquals => true,
        }
    }
}

impl MaskError {
    /// What [`Self::message`] says.
    pub open spec fn text(self) -> Seq<char> {
        match self {
            MaskError::EmptyStep => "empty mask"@,
            MaskError::InvalidItem => "invalid mask item"@,
            MaskError::InvalidOperand => "invalid mask operand"@,
        }
    }

    /// The error in words.
    pub fn message(&self) -> (r: String)
        ensures
            r@ == self.text(),
    {
        match self {
            MaskError::EmptyStep => "empty mask".to_owned(),
            MaskError::InvalidItem => "invalid mask item".to_owned(),
            MaskError::InvalidOperand => "invalid mask operand".to_owned(),
        }
    }
}

impl Not for MaskOperand {
    type Output = MaskOperand;

    fn not(self) -> (r: MaskOperand)
        ensures
            r == self.complement(),
    {
        match self {
            MaskOperand::Equals => MaskOperand::NotEquals,
            MaskOperand::NotEquals => MaskOperand::Equals,
            MaskOperand::GreaterThan => MaskOperand::LowerEquals,
            MaskOperand::GreaterEquals => MaskOperand::LowerThan,
            MaskOperand::LowerThan => MaskOperand::GreaterEquals,
            MaskOperand::LowerEquals => MaskOperand::GreaterThan,
        }
    }
}

impl vstd::std_specs::ops::NotSpecImpl for MaskOperand {
    open spec fn obeys_not_spec() -> bool {
        true
    }

    open spec fn not_req(self) -> bool {
        true
    }

    open spec fn not_spec(self) -> MaskOperand {
        self.complement()
    }
}

impl View for MaskFilter {
    type V = MaskModel;

    open spec fn view(&self) -> MaskModel {
        MaskModel { operand: self.operand, item: self.item@ }
    }
}

impl MaskModel {
    /// Whether operand and item go together: an operand that orders needs
    /// an item of a kind that has an order.
    pub open spec fn is_consistent(self) -> bool {
        self.operand.is_ordering() ==> self.item.is_orderable()
    }

    /// The mask that holds exactly where this one does not.
    pub open spec fn negated(self) -> MaskModel {
        MaskModel { operand: self.operand.complement(), item: self.item }
    }
}

/// The operand that a text starts with, and the number of characters its
/// marker takes. A text that starts with no marker means `Equals`.
pub open spec fn leading_operand(t: Seq<char>) -> (MaskOperand, int) {
    if t.len() >= 2 && t[0] == '!' && t[1] == '=' {
        (MaskOperand::NotEquals, 2)
    } else if t.len() >= 2 && t[0] == '>' && t[1] == '=' {
        (MaskOperand::GreaterEquals, 2)
    } else if t.len() >= 2 && t[0] == '<' && t[1] == '=' {
        (MaskOperand::LowerEquals, 2)
    } else if t.len() >= 1 && t[0] == '>' {
        (MaskOperand::GreaterThan, 1)
    } else if t.len() >= 1 && t[0] == '<' {
        (MaskOperand::LowerThan, 1)
    } else if t.len() >= 1 && t[0] == '=' {
        (MaskOperand::Equals, 1)
    } else {
        (MaskOperand::Equals, 0)
    }
}

/// The mask that an operand and the outcome of reading its item give.
pub open spec fn mask_of_item(operand: MaskOperand, item: Result<ItemModel, ItemError>) -> Result<
    MaskModel,
    MaskError,
> {
    match item {
        Err(_) => Err(MaskError::InvalidItem),
        Ok(item) => if operand.is_ordering() && !item.is_orderable() {
            Err(MaskError::InvalidOperand)
        } else {
            Ok(MaskModel { operand, item })
        },
    }
}

/// The grammar of mask filters: an optional operand marker, then an item.
/// Blanks around the text and around the item do not count.
pub open spec fn parse_mask(s: Seq<char>) -> Result<MaskModel, MaskError> {
    let t = trimmed(s);
    let (operand, marker) = leading_operand(t);
    let body = trimmed(t.skip(marker));
    if body.len() == 0 {
        Err(MaskError::EmptyStep)
    } else {
        mask_of_item(operand, parse_item(body))
    }
}

/// The mask that a builder gives: the operand it stands for, and the item
/// that the text is read as.
pub open spec fn build_mask(operand: MaskOperand, s: Seq<char>) -> Result<MaskModel, ItemError> {
    match parse_item(s) {
        Ok(item) => Ok(MaskModel { operand, item }),
        Err(e) => Err(e),
    }
}

/// The outcome of reading a mask, as mathematical values.
pub open spec fn mask_outcome(r: Result<MaskFilter, MaskError>) -> Result<MaskModel, MaskError> {
    match r {
        Ok(mask) => Ok(mask@),
        Err(e) => Err(e),
    }
}

/// The outcome of building a mask, as mathematical values.
pub open spec fn built_outcome(r: Result<MaskFilter, ItemError>) -> Result<MaskModel, ItemError> {
    match r {
        Ok(mask) => Ok(mask@),
        Err(e) => Err(e),
    }
}

/// Reads the operand marker that `chars` starts with.
fn read_operand(chars: &Vec<char>) -> (r: (MaskOperand, usize))
    ensures
        (r.0, r.1 as int) == leading_operand(chars@),
        r.1 <= chars.len(),
{
    let n = chars.len();
    if n >= 2 && chars[1] == '=' {
        if chars[0] == '!' {
            return (MaskOperand::NotEquals, 2);
        }
        if chars[0] == '>' {
            return (MaskOperand::GreaterEquals, 2);
        }
        if chars[0] == '<' {
            return (MaskOperand::LowerEquals, 2);
        }
    }
    if n >= 1 {
        if chars[0] == '>' {
            return (MaskOperand::GreaterThan, 1);
        }
        if chars[0] == '<' {
            return (MaskOperand::LowerThan, 1);
        }
        if chars[0] == '=' {
            return (MaskOperand::Equals, 1);
        }
    }
    (MaskOperand::Equals, 0)
}

impl MaskFilter {
    /// Pairs an operand with the outcome of reading its item. An item that
    /// could not be read, or that has no order where the operand needs one,
    /// gives no mask.
    pub fn from_item(operand: MaskOperand, item: Result<FilterItem, ItemError>) -> (r: Result<
        MaskFilter,
        MaskError,
    >)
        ensures
            mask_outcome(r) == mask_of_item(operand, item_outcome(item)),
    {
        match item {
            Err(_) => Err(MaskError::InvalidItem),
            Ok(item) => {
                if operand.orders() && !item.is_orderable() {
                    Err(MaskError::InvalidOperand)
                } else {
                    Ok(MaskFilter { operand, item })
                }
            },
        }
    }

    /// Reads a mask filter: an optional operand marker (`=`, `!=`, `>`,
    /// `>=`, `<`, `<=`), then an item. Without a marker the operand is
    /// `Equals`.
    pub fn from_str(text: &str) -> (r: Result<MaskFilter, MaskError>)
        ensures
            mask_outcome(r) == parse_mask(text@),
            r matches Ok(mask) ==> mask@.is_consistent(),
    {
        let t = trim(text);
        let chars = chars_of(t);
        let (operand, marker) = read_operand(&chars);
        let body = trim(t.substring_char(marker, chars.len()));
        proof {
            assert(t@.skip(marker as int) =~= t@.subrange(marker as int, t@.len() as int));
        }
        if body.is_empty() {
            return Err(MaskError::EmptyStep);
        }
        Self::from_item(operand, FilterItem::from_str(body))
    }

    /// Reads `item` and compares to it with `operand`.
    pub fn with_operand(operand: MaskOperand, item: &str) -> (r: Result<MaskFilter, ItemError>)
        ensures
            built_outcome(r) == build_mask(operand, item@),
    {
        match FilterItem::from_str(item) {
            Ok(item) => Ok(MaskFilter { operand, item }),
            Err(e) => Err(e),
        }
    }

    /// The mask that keeps what equals `item`.
    pub fn equals(item: &str) -> (r: Result<MaskFilter, ItemError>)
        ensures
            built_outcome(r) == build_mask(MaskOperand::Equals, item@),
    {
        Self::with_operand(MaskOperand::Equals, item)
    }

    /// The mask that keeps what differs from `item`.
    pub fn not_equals(item: &str) -> (r: Result<MaskFilter, ItemError>)
        ensures
            built_outcome(r) == build_mask(MaskOperand::NotEquals, item@),
    {
        Self::with_operand(MaskOperand::NotEquals, item)
    }

    /// The mask that keeps what is greater than `item`.
    pub fn greater_than(item: &str) -> (r: Result<MaskFilter, ItemError>)
        ensures
            built_outcome(r) == build_mask(MaskOperand::GreaterThan, item@),
    {
        Self::with_operand(MaskOperand::GreaterThan, item)
    }

    /// The mask that keeps what is greater than or equal to `item`.
    pub fn greater_equals(item: &str) -> (r: Result<MaskFilter, ItemError>)
        ensures
            built_outcome(r) == build_mask(MaskOperand::GreaterEquals, item@),
    {
        Self::with_operand(MaskOperand::GreaterEquals, item)
    }

    /// The mask that keeps what is lower than or equal to `item`.
    pub fn lower_equals(item: &str) -> (r: Result<MaskFilter, ItemError>)
        ensures
            built_outcome(r) == build_mask(MaskOperand::LowerEquals, item@),
    {
        Self::with_operand(MaskOperand::LowerEquals, item)
    }

    /// The mask that keeps what is lower than `item`.
    pub fn lower_than(item: &str) -> (r: Result<MaskFilter, ItemError>)
        ensures
            built_outcome(r) == build_mask(MaskOperand::LowerThan, item@),
    {
        Self::with_operand(MaskOperand::LowerThan, item)
    }

    /// Whether operand and item go together: an operand that orders needs
    /// an item of a kind that has an order. A mask that was read from a text
    /// always is consistent; one put together by hand may not be.
    pub fn is_consistent(&self) -> (r: bool)
        ensures
            r == self@.is_consistent(),
    {
        !self.operand.orders() || self.item.is_orderable()
    }

    /// The mask that holds exactly where this one does not: same item,
    /// complementary operand.
    pub open spec fn negated(self) -> MaskFilter {
        MaskFilter { operand: self.operand.complement(), item: self.item }
    }
}

impl Not for MaskFilter {
    type Output = MaskFilter;

    fn not(self) -> (r: MaskFilter)
        ensures
            r == self.negated(),
    {
        MaskFilter { operand: self.operand.not(), item: self.item }
    }
}

impl vstd::std_specs::ops::NotSpecImpl for MaskFilter {
    open spec fn obeys_not_spec() -> bool {
        true
    }

    open spec fn not_req(self) -> bool {
        true
    }

    open spec fn not_spec(self) -> MaskFilter {
        self.negated()
    }
}

impl std::str::FromStr for MaskFilter {
    type Err = MaskError;

    fn from_str(text: &str) -> (r: Result<MaskFilter, MaskError>)
        ensures
            mask_outcome(r) == parse_mask(text@),
    {
        MaskFilter::from_str(text)
    }
}

/// A mask that was read from a text is consistent: where its operand orders,
/// its item is of a kind that has an order.
pub proof fn lemma_parsed_mask_is_consistent(s: Seq<char>)
    ensures
        parse_mask(s) matches Ok(mask) ==> mask.is_consistent(),
{
}

/// Complementing an operand twice gives it back.
pub proof fn lemma_operand_double_complement(operand: MaskOperand)
    ensures
        operand.complement().complement() == operand,
        operand.complement() != operand,
        operand.complement().is_ordering() == operand.is_ordering(),
{
}

/// Negating a mask filter twice gives it back.
pub proof fn lemma_mask_double_negation(mask: MaskFilter)
    ensures
        mask.negated().negated() == mask,
        mask.negated()@ == mask@.negated(),
        mask@.negated().negated() == mask@,
{
}

/// Negation keeps the item, and with it whether operand and item go
/// together.
pub proof fn lemma_mask_negation_keeps_consistency(mask: MaskFilter)
    ensures
        mask.negated().item == mask.item,
        mask.negated()@.is_consistent() == mask@.is_consistent(),
{
}

} // verus!
