//! Header fields of a message, kept in the `HeaderMap` of the `http` crate.
//!
//! What a map holds is named by [`header_lines`]: its lines, a field name with
//! one value each, in the order in which the map walks them. Contracts speak
//! of a map through [`values`], the values of one field in their order, and
//! so never of the order among different fields, which `HeaderMap` leaves
//! open.

use http::header::{HeaderMap, HeaderName, HeaderValue, InvalidHeaderValue, MaxSizeReached};
use vstd::prelude::*;
use vstd::utf8::*;

verus! {

/// `http::HeaderMap`, a multimap from field names to values.
#[verifier::external_type_specification]
#[verifier::external_body]
#[verifier::reject_recursive_types(T)]
pub struct ExHeaderMap<T>(http::header::HeaderMap<T>);

/// `http::HeaderValue`, the value of one header line.
#[verifier::external_type_specification]
#[verifier::external_body]
pub struct ExHeaderValue(http::header::HeaderValue);

/// `http::header::InvalidHeaderValue`, the error of `HeaderValue::from_str`.
#[verifier::external_type_specification]
#[verifier::external_body]
pub struct ExInvalidHeaderValue(http::header::InvalidHeaderValue);

/// `http::header::MaxSizeReached`, the error of a `HeaderMap` that cannot grow.
#[verifier::external_type_specification]
#[verifier::external_body]
pub struct ExMaxSizeReached(http::header::MaxSizeReached);

/// What a header map holds: for each line the field name and the bytes of the
/// value, in the order of `HeaderMap::iter`.
pub uninterp spec fn header_lines(map: HeaderMap<HeaderValue>) -> Seq<(Seq<char>, Seq<u8>)>;

/// The most lines that a `HeaderMap` can be given room for.
pub const LINE_LIMIT: usize = 24576;

/// A `HeaderMap` with fewer fields than this can always take one more.
pub const FIELD_LIMIT: usize = 6554;

/// The values that `lines` gives the field `name`, in their order.
pub open spec fn values(lines: Seq<(Seq<char>, Seq<u8>)>, name: Seq<char>) -> Seq<Seq<u8>>
    decreases lines.len(),
{
    if lines.len() == 0 {
        Seq::empty()
    } else if lines.last().0 == name {
        values(lines.drop_last(), name).push(lines.last().1)
    } else {
        values(lines.drop_last(), name)
    }
}

/// The names of the fields that `lines` gives a value.
pub open spec fn field_names(lines: Seq<(Seq<char>, Seq<u8>)>) -> Set<Seq<char>>
    decreases lines.len(),
{
    if lines.len() == 0 {
        Set::empty()
    } else {
        field_names(lines.drop_last()).insert(lines.last().0)
    }
}

/// `after` is `before` with `value` as the only value of the field `name`,
/// and with every other field as it was.
pub open spec fn sets_field(
    before: HeaderMap<HeaderValue>,
    after: HeaderMap<HeaderValue>,
    name: Seq<char>,
    value: Seq<u8>,
) -> bool {
    forall|n: Seq<char>| #[trigger]
        values(header_lines(after), n) == if n == name {
            seq![value]
        } else {
            values(header_lines(before), n)
        }
}

/// A field name of small letters and hyphens, as header maps spell names.
pub open spec fn is_field_name(name: Seq<char>) -> bool {
    &&& 0 < name.len() <= 64
    &&& forall|i: int| 0 <= i < name.len() ==> 'a' <= #[trigger] name[i] <= 'z' || name[i] == '-'
}

/// Text that can be the value of a header line: no control character but tab.
pub open spec fn is_header_text(text: Seq<char>) -> bool {
    forall|i: int|
        0 <= i < text.len() ==> #[trigger] text[i] == '\t' || (text[i] >= ' ' && text[i]
            != '\u{7f}')
}

/// A value that reads as text: visible ASCII characters, spaces and tabs.
pub open spec fn is_visible(value: Seq<u8>) -> bool {
    forall|i: int| 0 <= i < value.len() ==> 32 <= #[trigger] value[i] < 127 || value[i] == 9
}

/// The characters of an ASCII value.
pub open spec fn visible_text(value: Seq<u8>) -> Seq<char> {
    value.map_values(|b: u8| b as char)
}

/// The first value of the field `name`, where there is one and it reads as text.
pub open spec fn first_text(lines: Seq<(Seq<char>, Seq<u8>)>, name: Seq<char>) -> Option<
    Seq<char>,
> {
    let found = values(lines, name);
    if found.len() > 0 && is_visible(found[0]) {
        Some(visible_text(found[0]))
    } else {
        None
    }
}

/// One more line of a message changes the values of its own field only.
pub proof fn lemma_values_of_next_line(lines: Seq<(Seq<char>, Seq<u8>)>, i: int, name: Seq<char>)
    requires
        0 <= i < lines.len(),
    ensures
        values(lines.take(i + 1), name) == if lines[i].0 == name {
            values(lines.take(i), name).push(lines[i].1)
        } else {
            values(lines.take(i), name)
        },
{
    assert(lines.take(i + 1).drop_last() == lines.take(i));
}

/// A line at the end of a message gives its own field one value more, at the
/// end, and no other field any.
pub proof fn law_values_come_line_by_line(
    lines: Seq<(Seq<char>, Seq<u8>)>,
    name: Seq<char>,
    value: Seq<u8>,
    other: Seq<char>,
)
    ensures
        values(Seq::empty(), name) == Seq::<Seq<u8>>::empty(),
        values(lines.push((name, value)), name) == values(lines, name).push(value),
        other != name ==> values(lines.push((name, value)), other) == values(lines, other),
{
    assert(lines.push((name, value)).drop_last() == lines);
}

/// The first lines of a message give no field more values than all its lines.
pub proof fn lemma_values_of_first_lines(lines: Seq<(Seq<char>, Seq<u8>)>, i: int, name: Seq<char>)
    requires
        0 <= i <= lines.len(),
    ensures
        values(lines.take(i), name).len() <= values(lines, name).len(),
    decreases lines.len() - i,
{
    if i < lines.len() {
        lemma_values_of_next_line(lines, i, name);
        lemma_values_of_first_lines(lines, i + 1, name);
    } else {
        assert(lines.take(i) == lines);
    }
}

/// The field names are those with a value, and there are no more of them than
/// lines.
pub proof fn lemma_field_names(lines: Seq<(Seq<char>, Seq<u8>)>)
    ensures
        field_names(lines).finite(),
        field_names(lines).len() <= lines.len(),
        forall|n: Seq<char>| #[trigger]
            field_names(lines).contains(n) <==> values(lines, n).len() > 0,
    decreases lines.len(),
{
    if lines.len() > 0 {
        lemma_field_names(lines.drop_last());
    }
}

/// Lines that give no field two values are as many as the fields.
pub proof fn lemma_lines_of_single_values(lines: Seq<(Seq<char>, Seq<u8>)>)
    requires
        forall|n: Seq<char>| #[trigger] values(lines, n).len() <= 1,
    ensures
        lines.len() == field_names(lines).len(),
    decreases lines.len(),
{
    lemma_field_names(lines);
    if lines.len() > 0 {
        let shorter = lines.drop_last();
        let last = lines.last().0;
        assert forall|n: Seq<char>| #[trigger] values(shorter, n).len() <= 1 by {
            assert(values(lines, n).len() <= 1);
        }
        lemma_lines_of_single_values(shorter);
        lemma_field_names(shorter);
        assert(values(lines, last).len() <= 1);
    }
}

/// Lines that give no field two values, and a value only to fields among
/// `names`, are no more than those.
pub proof fn lemma_lines_fit(lines: Seq<(Seq<char>, Seq<u8>)>, names: Set<Seq<char>>)
    requires
        names.finite(),
        forall|n: Seq<char>| #[trigger] values(lines, n).len() <= 1,
        forall|n: Seq<char>| #[trigger] values(lines, n).len() > 0 ==> names.contains(n),
    ensures
        lines.len() <= names.len(),
{
    lemma_field_names(lines);
    lemma_lines_of_single_values(lines);
    assert forall|n: Seq<char>| field_names(lines).contains(n) implies names.contains(n) by {
        assert(values(lines, n).len() > 0);
    }
    vstd::set_lib::lemma_len_subset(field_names(lines), names);
}

/// Calls `HeaderMap::try_with_capacity`, which returns an empty map, or an
/// error where the capacity is above 24576.
#[verifier::external_body]
pub(crate) fn with_capacity(capacity: usize) -> (r: Result<HeaderMap<HeaderValue>, MaxSizeReached>)
    ensures
        r is Ok <==> capacity <= LINE_LIMIT,
        r matches Ok(map) ==> header_lines(map) == Seq::<(Seq<char>, Seq<u8>)>::empty(),
{
    HeaderMap::try_with_capacity(capacity)
}

/// Calls `HeaderMap::iter`, which yields the lines of the map, and keeps the
/// field name of each.
#[verifier::external_body]
pub(crate) fn line_names(map: &HeaderMap<HeaderValue>) -> (r: Vec<String>)
    ensures
        r@.len() == header_lines(*map).len(),
        forall|i: int| 0 <= i < r@.len() ==> #[trigger] r@[i]@ == header_lines(*map)[i].0,
{
    map.iter().map(|(name, _)| name.as_str().to_string()).collect()
}

/// Calls `HeaderMap::try_insert` on `to` with the name and the value of one
/// line that `HeaderMap::iter` yields of `from`: all earlier values of that
/// field go, all other fields stay. The map can always grow below 6554 fields;
/// when else it cannot is not stated.
#[verifier::external_body]
pub(crate) fn copy_line(
    to: &mut HeaderMap<HeaderValue>,
    from: &HeaderMap<HeaderValue>,
    index: usize,
) -> (r: Result<(), MaxSizeReached>)
    requires
        index < header_lines(*from).len(),
    ensures
        header_lines(*old(to)).len() < FIELD_LIMIT ==> r is Ok,
        r is Ok ==> sets_field(
            *old(to),
            *final(to),
            header_lines(*from)[index as int].0,
            header_lines(*from)[index as int].1,
        ),
{
    let (name, value) = from.iter().nth(index).unwrap();
    to.try_insert(name.clone(), value.clone()).map(|_| ())
}

/// Calls `HeaderMap::try_insert` with the value that `HeaderValue::from_str`
/// makes of `text`: its UTF-8 bytes, or an error, the outer one, where `text`
/// holds a control character other than tab. The inner error is that of a map
/// that cannot grow, which it always can below 6554 fields; when else it
/// cannot is not stated.
#[verifier::external_body]
pub(crate) fn insert_text(map: &mut HeaderMap<HeaderValue>, name: &str, text: &str) -> (r: Result<
    Result<(), MaxSizeReached>,
    InvalidHeaderValue,
>)
    requires
        is_field_name(name@),
    ensures
        r is Ok <==> is_header_text(text@),
        r matches Ok(inserted) ==> {
            &&& header_lines(*old(map)).len() < FIELD_LIMIT ==> inserted is Ok
            &&& inserted is Ok ==> sets_field(*old(map), *final(map), name@, encode_utf8(text@))
        },
{
    let value = HeaderValue::from_str(text)?;
    Ok(map.try_insert(HeaderName::from_lowercase(name.as_bytes()).unwrap(), value).map(|_| ()))
}

/// Calls `HeaderMap::contains_key`, which tells whether the field has a value.
#[verifier::external_body]
pub(crate) fn contains(map: &HeaderMap<HeaderValue>, name: &str) -> (r: bool)
    requires
        is_field_name(name@),
    ensures
        r == (values(header_lines(*map), name@).len() > 0),
{
    map.contains_key(name)
}

/// Calls `HeaderMap::get`, which finds the first value of a field, and
/// `HeaderValue::to_str`, which reads a value of visible ASCII characters,
/// spaces and tabs as text and fails on any other.
#[verifier::external_body]
pub(crate) fn get_text(map: &HeaderMap<HeaderValue>, name: &str) -> (r: Option<String>)
    requires
        is_field_name(name@),
    ensures
        match r {
            Some(text) => first_text(header_lines(*map), name@) == Some(text@),
            None => first_text(header_lines(*map), name@) is None,
        },
{
    map.get(name).and_then(|value| value.to_str().ok()).map(|text| text.to_string())
}

} // verus!
