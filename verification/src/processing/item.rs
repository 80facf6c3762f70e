//! Items: what a filter compares against.
//!
//! An item is written as a timestamp, as a list of satellite vehicles or as a
//! list of codes (constellations, signals and the like).

use crate::text::{
    all_digits, chars_of, decimal, find, is_capital, is_digit, is_digit_char, is_letter,
    is_letter_char, position, position_from, trim, trimmed,
};
use crate::time::{has_timestamp_shape, is_timestamp, Epoch};
use vstd::prelude::*;

verus! {

/// Why a text is not an item.
#[derive(Clone, Copy, Debug, PartialEq, Eq, Structural)]
pub enum ItemError {
    /// The text is neither a timestamp nor a list of codes.
    InvalidItem,
}

/// A satellite vehicle: the letter of its constellation and its number.
#[derive(Clone, Copy, Debug, PartialEq, Eq, Hash, Structural)]
pub struct Sv {
    /// Constellation letter, a capital.
    pub constellation: char,
    /// Number of the vehicle within its constellation.
    pub prn: u8,
}

/// One operand of a filter.
#[derive(Clone, Debug, PartialEq)]
pub enum FilterItem {
    /// An instant.
    EpochItem(Epoch),
    /// Satellite vehicles, in the order they were listed.
    SvItem(Vec<Sv>),
    /// Codes, in the order they were listed.
    ComplexItem(Vec<String>),
}

/// What a [`FilterItem`] holds, as mathematical values.
pub enum ItemModel {
    /// An instant.
    Epoch(Epoch),
    /// Satellite vehicles.
    Sv(Seq<Sv>),
    /// Codes, each as its characters.
    Complex(Seq<Seq<char>>),
}

/// The characters of each string of a list.
pub open spec fn texts(list: Seq<String>) -> Seq<Seq<char>> {
    Seq::new(list.len(), |i: int| list[i]@)
}

impl View for FilterItem {
    type V = ItemModel;

    open spec fn view(&self) -> ItemModel {
        match self {
            FilterItem::EpochItem(epoch) => ItemModel::Epoch(*epoch),
            FilterItem::SvItem(vehicles) => ItemModel::Sv(vehicles@),
            FilterItem::ComplexItem(codes) => ItemModel::Complex(texts(codes@)),
        }
    }
}

impl ItemError {
    /// What [`Self::message`] says.
    pub open spec fn text(self) -> Seq<char> {
        "invalid item"@
    }

    /// The error in words.
    pub fn message(&self) -> (r: String)
        ensures
            r@ == self.text(),
    {
        "invalid item".to_owned()
    }
}

impl ItemModel {
    /// Whether items of this kind can be ordered: instants and vehicles can,
    /// codes cannot.
    pub open spec fn is_orderable(self) -> bool {
        !(self is Complex)
    }
}

/// The characters that a code is made of.
pub open spec fn is_code_char(c: char) -> bool {
    is_letter(c) || is_digit(c) || c == ' ' || c == ':' || c == '-' || c == '_' || c == '.'
}

/// A code: at least one character, each of them a code character.
pub open spec fn is_code(s: Seq<char>) -> bool {
    s.len() > 0 && forall|i: int| 0 <= i < s.len() ==> is_code_char(#[trigger] s[i])
}

/// A satellite vehicle: a capital letter and one or two digits.
pub open spec fn is_sv(s: Seq<char>) -> bool {
    2 <= s.len() <= 3 && is_capital(s[0]) && all_digits(s.skip(1))
}

/// The vehicle that a text names.
pub open spec fn sv_of(s: Seq<char>) -> Sv {
    Sv { constellation: s[0], prn: decimal(s.skip(1)) as u8 }
}

/// The entries of a comma separated list, each without the blanks around it.
pub open spec fn entries(s: Seq<char>) -> Seq<Seq<char>>
    decreases s.len(),
{
    let comma = position(s, ',');
    if 0 <= comma < s.len() {
        seq![trimmed(s.take(comma))] + entries(s.skip(comma + 1))
    } else {
        seq![trimmed(s)]
    }
}

/// Every entry of the list is a code.
pub open spec fn all_codes(list: Seq<Seq<char>>) -> bool {
    forall|i: int| 0 <= i < list.len() ==> is_code(#[trigger] list[i])
}

/// Every entry of the list is a satellite vehicle.
pub open spec fn all_svs(list: Seq<Seq<char>>) -> bool {
    forall|i: int| 0 <= i < list.len() ==> is_sv(#[trigger] list[i])
}

/// The item that a list of entries stands for: vehicles where every entry is
/// one, codes otherwise. A list without entries, or with an entry that is no
/// code, is no item.
pub open spec fn item_of_list(list: Seq<Seq<char>>) -> Result<ItemModel, ItemError> {
    if list.len() == 0 || !all_codes(list) {
        Err(ItemError::InvalidItem)
    } else if all_svs(list) {
        Ok(ItemModel::Sv(list.map_values(|s: Seq<char>| sv_of(s))))
    } else {
        Ok(ItemModel::Complex(list))
    }
}

/// The item that an instant read from a timestamp stands for. A timestamp
/// that names no instant is no item.
pub open spec fn item_of_instant(instant: Option<Epoch>) -> Result<ItemModel, ItemError> {
    match instant {
        Some(epoch) => Ok(ItemModel::Epoch(epoch)),
        None => Err(ItemError::InvalidItem),
    }
}

/// The grammar of items. Blanks around the text do not count. A text with
/// the shape of a timestamp is an instant; any other text is a comma
/// separated list.
pub open spec fn parse_item(s: Seq<char>) -> Result<ItemModel, ItemError> {
    let t = trimmed(s);
    if is_timestamp(t) {
        item_of_instant(Epoch::literal(t))
    } else {
        item_of_list(entries(t))
    }
}

/// The outcome of reading an item, as mathematical values.
pub open spec fn item_outcome(r: Result<FilterItem, ItemError>) -> Result<ItemModel, ItemError> {
    match r {
        Ok(item) => Ok(item@),
        Err(e) => Err(e),
    }
}

/// The first comma of what follows `start` is the first comma at or after
/// `start`.
proof fn lemma_position_skip(s: Seq<char>, c: char, start: int, i: int)
    requires
        0 <= start,
        0 <= i,
        start + i <= s.len(),
    ensures
        position_from(s.skip(start), c, i) + start == position_from(s, c, start + i),
    decreases s.len() - start - i,
{
    if start + i < s.len() {
        assert(s.skip(start)[i] == s[start + i]);
        if s[start + i] != c {
            lemma_position_skip(s, c, start, i + 1);
        }
    }
}

/// Whether `c` may stand in a code.
fn may_stand_in_code(c: char) -> (r: bool)
    ensures
        r == is_code_char(c),
{
    is_letter_char(c) || is_digit_char(c) || c == ' ' || c == ':' || c == '-' || c == '_' || c
        == '.'
}

/// Whether `s` is a code.
fn is_code_text(s: &str) -> (r: bool)
    ensures
        r == is_code(s@),
{
    let chars = chars_of(s);
    let n = chars.len();
    if n == 0 {
        return false;
    }
    let mut i: usize = 0;
    while i < n
        invariant
            i <= n,
            n == chars@.len(),
            chars@ == s@,
            forall|k: int| 0 <= k < i ==> is_code_char(#[trigger] chars@[k]),
        decreases n - i,
    {
        if !may_stand_in_code(chars[i]) {
            assert(!is_code_char(s@[i as int]));
            return false;
        }
        i += 1;
    }
    true
}

/// The vehicle that `s` names, if it names one.
fn sv_of_text(s: &str) -> (r: Option<Sv>)
    ensures
        r == if is_sv(s@) {
            Some(sv_of(s@))
        } else {
            None::<Sv>
        },
{
    let chars = chars_of(s);
    let n = chars.len();
    if n < 2 || n > 3 {
        return None;
    }
    let letter = chars[0];
    if !('A' <= letter && letter <= 'Z') {
        return None;
    }
    let ghost number = chars@.skip(1);
    if !is_digit_char(chars[1]) {
        proof {
            assert(number[0] == chars@[1]);
        }
        return None;
    }
    let tens: u8 = ((chars[1] as u32) - ('0' as u32)) as u8;
    if n == 2 {
        proof {
            assert(number.drop_last() =~= Seq::<char>::empty());
            reveal_with_fuel(decimal, 2);
        }
        return Some(Sv { constellation: letter, prn: tens });
    }
    if !is_digit_char(chars[2]) {
        proof {
            assert(number[1] == chars@[2]);
        }
        return None;
    }
    let units: u8 = ((chars[2] as u32) - ('0' as u32)) as u8;
    proof {
        assert(number.drop_last().drop_last() =~= Seq::<char>::empty());
        assert(number.drop_last().last() == chars@[1]);
        assert(number.last() == chars@[2]);
        reveal_with_fuel(decimal, 3);
    }
    Some(Sv { constellation: letter, prn: tens * 10 + units })
}

/// Splits a comma separated list into its entries.
fn split_entries(text: &str) -> (list: Vec<String>)
    ensures
        texts(list@) == entries(text@),
{
    let chars = chars_of(text);
    let n = chars.len();
    let mut list: Vec<String> = Vec::new();
    let mut start: usize = 0;
    let mut comma = find(&chars, ',', 0);
    proof {
        assert(text@.skip(0) =~= text@);
        assert(texts(list@) =~= Seq::<Seq<char>>::empty());
    }
    while comma < n
        invariant
            start <= comma <= n,
            n == chars@.len(),
            chars@ == text@,
            comma == position_from(chars@, ',', start as int),
            entries(text@) == texts(list@) + entries(text@.skip(start as int)),
        decreases n - start,
    {
        let entry = trim(text.substring_char(start, comma));
        let ghost before = list@;
        list.push(entry.to_owned());
        proof {
            let rest = text@.skip(start as int);
            lemma_position_skip(text@, ',', start as int, 0);
            assert(position(rest, ',') == comma - start);
            assert(rest.take(comma - start) =~= text@.subrange(start as int, comma as int));
            assert(rest.skip(comma - start + 1) =~= text@.skip(comma + 1));
            assert(texts(list@) =~= texts(before) + seq![entry@]);
        }
        start = comma + 1;
        comma = find(&chars, ',', start);
    }
    let entry = trim(text.substring_char(start, n));
    let ghost before = list@;
    list.push(entry.to_owned());
    proof {
        let rest = text@.skip(start as int);
        lemma_position_skip(text@, ',', start as int, 0);
        assert(rest =~= text@.subrange(start as int, n as int));
        assert(texts(list@) =~= texts(before) + seq![entry@]);
    }
    list
}

impl FilterItem {
    /// Wraps an instant read from a timestamp. A timestamp that names no
    /// instant is rejected.
    pub fn from_instant(instant: Option<Epoch>) -> (r: Result<FilterItem, ItemError>)
        ensures
            item_outcome(r) == item_of_instant(instant),
    {
        match instant {
            Some(epoch) => Ok(FilterItem::EpochItem(epoch)),
            None => Err(ItemError::InvalidItem),
        }
    }

    /// Builds the item that a list of entries stands for: vehicles where
    /// every entry names one, codes where every entry is a code. A list
    /// without entries is rejected, and so is one with an entry that is no
    /// code.
    pub fn from_entries(list: Vec<String>) -> (r: Result<FilterItem, ItemError>)
        ensures
            item_outcome(r) == item_of_list(texts(list@)),
    {
        let n = list.len();
        let ghost names = texts(list@);
        if n == 0 {
            return Err(ItemError::InvalidItem);
        }
        let mut vehicles: Vec<Sv> = Vec::new();
        let mut only_vehicles = true;
        let mut i: usize = 0;
        while i < n
            invariant
                i <= n,
                n == list@.len(),
                names == texts(list@),
                all_codes(names.take(i as int)),
                only_vehicles == all_svs(names.take(i as int)),
                only_vehicles ==> vehicles@ == names.take(i as int).map_values(
                    |s: Seq<char>| sv_of(s),
                ),
            decreases n - i,
        {
            let entry = list[i].as_str();
            let ghost done = names.take(i as int);
            let ghost next = names.take(i + 1);
            proof {
                assert(names[i as int] == entry@);
                assert(next.len() == i + 1);
                assert(next[i as int] == entry@);
                assert forall|k: int| 0 <= k < i implies next[k] == done[k] by {}
            }
            if !is_code_text(entry) {
                proof {
                    assert(!is_code(names[i as int]));
                }
                return Err(ItemError::InvalidItem);
            }
            if only_vehicles {
                match sv_of_text(entry) {
                    Some(sv) => {
                        vehicles.push(sv);
                        proof {
                            assert(vehicles@ =~= next.map_values(|s: Seq<char>| sv_of(s)));
                        }
                    },
                    None => {
                        only_vehicles = false;
                    },
                }
            }
            proof {
                assert(all_codes(next)) by {
                    assert forall|k: int| 0 <= k < next.len() implies is_code(
                        #[trigger] next[k],
                    ) by {
                        if k < i {
                            assert(is_code(done[k]));
                        }
                    }
                }
                if only_vehicles {
                    assert forall|k: int| 0 <= k < next.len() implies is_sv(#[trigger] next[k]) by {
                        if k < i {
                            assert(is_sv(done[k]));
                        }
                    }
                } else {
                    if all_svs(next) {
                        assert(is_sv(next[i as int]));
                        assert forall|k: int| 0 <= k < done.len() implies is_sv(
                            #[trigger] done[k],
                        ) by {
                            assert(is_sv(next[k]));
                        }
                    }
                }
            }
            i += 1;
        }
        proof {
            assert(names.take(n as int) =~= names);
        }
        if only_vehicles {
            Ok(FilterItem::SvItem(vehicles))
        } else {
            Ok(FilterItem::ComplexItem(list))
        }
    }

    /// Reads an item.
    ///
    /// Blanks around the text do not count. A text with the shape of a
    /// timestamp is the instant that `hifitime` reads in it, and no item
    /// where `hifitime` rejects it. Any other text is a comma separated list
    /// of codes: vehicles where every entry names one.
    pub fn from_str(text: &str) -> (r: Result<FilterItem, ItemError>)
        ensures
            item_outcome(r) == parse_item(text@),
    {
        let t = trim(text);
        let chars = chars_of(t);
        if has_timestamp_shape(&chars) {
            Self::from_instant(Epoch::parse(t))
        } else {
            Self::from_entries(split_entries(t))
        }
    }

    /// Whether items of this kind can be ordered.
    pub fn is_orderable(&self) -> (r: bool)
        ensures
            r == self@.is_orderable(),
    {
        match self {
            FilterItem::EpochItem(_) => true,
            FilterItem::SvItem(_) => true,
            FilterItem::ComplexItem(_) => false,
        }
    }
}

impl std::str::FromStr for FilterItem {
    type Err = ItemError;

    fn from_str(text: &str) -> (r: Result<FilterItem, ItemError>)
        ensures
            item_outcome(r) == parse_item(text@),
    {
        FilterItem::from_str(text)
    }
}

} // verus!
