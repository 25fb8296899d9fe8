//! JSON values as plain data, and the parser that produces them.

use vstd::prelude::*;
use crate::error::{Error, ErrorView};
use crate::text::same_text;

verus! {

broadcast use vstd::std_specs::vec::axiom_vec_index_decreases;

/// A JSON value.
#[derive(Debug)]
pub enum Json {
    Null,
    Bool(bool),
    /// A number: `Some(n)` where it is written as a non-negative integer that
    /// fits 64 bits, `None` where it is negative, has a fraction or an
    /// exponent, or is larger.
    Number(Option<u64>),
    Text(String),
    Array(Vec<Json>),
    /// An object: its members, in their order. Where a name stands more
    /// than once, the first member of that name is the one that is found.
    Object(Vec<Member>),
}

/// One member of a JSON object.
#[derive(Debug)]
pub struct Member {
    pub name: String,
    pub value: Json,
}

/// The mathematical value of a [`Json`].
pub enum JsonView {
    Null,
    Bool(bool),
    Number(Option<u64>),
    Text(Seq<char>),
    Array(Seq<JsonView>),
    Object(Seq<(Seq<char>, JsonView)>),
}

/// The mathematical value of `value`: every text by its characters, every
/// array and object by the sequence of what it holds.
pub open spec fn json_view(value: Json) -> JsonView
    decreases value,
{
    match value {
        Json::Null => JsonView::Null,
        Json::Bool(b) => JsonView::Bool(b),
        Json::Number(n) => JsonView::Number(n),
        Json::Text(s) => JsonView::Text(s@),
        Json::Array(items) => JsonView::Array(
            Seq::new(
                items.len() as nat,
                |i: int|
                    if 0 <= i < items.len() {
                        json_view(items[i])
                    } else {
                        JsonView::Null
                    },
            ),
        ),
        Json::Object(members) => JsonView::Object(
            Seq::new(
                members.len() as nat,
                |i: int|
                    if 0 <= i < members.len() {
                        (members[i].name@, json_view(members[i].value))
                    } else {
                        (Seq::empty(), JsonView::Null)
                    },
            ),
        ),
    }
}

impl View for Json {
    type V = JsonView;

    open spec fn view(&self) -> JsonView {
        json_view(*self)
    }
}

/// The value of the first member called `name` among `members`.
pub open spec fn find_member(members: Seq<(Seq<char>, JsonView)>, name: Seq<char>) -> Option<
    JsonView,
>
    decreases members.len(),
{
    if members.len() == 0 {
        None
    } else if members[0].0 == name {
        Some(members[0].1)
    } else {
        find_member(members.drop_first(), name)
    }
}

impl JsonView {
    /// The member `name` of an object; `None` where the value is no object
    /// or has no such member.
    pub open spec fn member(self, name: Seq<char>) -> Option<JsonView> {
        match self {
            JsonView::Object(members) => find_member(members, name),
            _ => None,
        }
    }
}

/// The values of `items`, in their order.
pub open spec fn item_views(items: Seq<Json>) -> Seq<JsonView> {
    Seq::new(items.len(), |i: int| items[i]@)
}

impl Json {
    /// The items of an array; `None` where the value is no array.
    pub fn as_array(&self) -> (items: Option<&Vec<Json>>)
        ensures
            match items {
                Some(items) => self@ == JsonView::Array(item_views(items@)),
                None => !(self@ is Array),
            },
    {
        match self {
            Json::Array(items) => {
                assert(self@->Array_0 =~= item_views(items@));
                Some(items)
            },
            _ => None,
        }
    }

    /// The characters of a text; `None` where the value is no text.
    pub fn as_text(&self) -> (text: Option<&String>)
        ensures
            match text {
                Some(text) => self@ == JsonView::Text(text@),
                None => !(self@ is Text),
            },
    {
        match self {
            Json::Text(text) => Some(text),
            _ => None,
        }
    }

    /// The value of a number that is a non-negative integer of 64 bits;
    /// `None` for any other number and for what is no number.
    pub fn as_unsigned(&self) -> (number: Option<u64>)
        ensures
            match number {
                Some(n) => self@ == JsonView::Number(Some(n)),
                None => !(self@ matches JsonView::Number(Some(_))),
            },
    {
        match self {
            Json::Number(Some(n)) => Some(*n),
            _ => None,
        }
    }

    /// Whether the value is `null`.
    pub fn is_null(&self) -> (null: bool)
        ensures
            null == (self@ is Null),
    {
        match self {
            Json::Null => true,
            _ => false,
        }
    }

    /// The member `name` of an object.
    pub fn member(&self, name: &str) -> (found: Option<&Json>)
        ensures
            match found {
                Some(value) => self@.member(name@) == Some(value@),
                None => self@.member(name@) is None,
            },
    {
        match self {
            Json::Object(members) => {
                let ghost all = self@->Object_0;
                let mut i: usize = 0;
                assert(all.skip(0) =~= all);
                while i < members.len()
                    invariant
                        i <= members.len(),
                        self@ == JsonView::Object(all),
                        all.len() == members.len(),
                        forall|k: int|
                            0 <= k < members.len() ==> all[k] == (
                                members[k].name@,
                                members[k].value@,
                            ),
                        find_member(all, name@) == find_member(all.skip(i as int), name@),
                    decreases members.len() - i,
                {
                    let ghost rest = all.skip(i as int);
                    assert(rest[0] == all[i as int]);
                    assert(rest.drop_first() =~= all.skip(i + 1));
                    if same_text(members[i].name.as_str(), name) {
                        return Some(&members[i].value);
                    }
                    i = i + 1;
                }
                assert(all.skip(i as int).len() == 0);
                None
            },
            _ => None,
        }
    }
}

/// `serde_json::Value`, as the parser hands it to the conversion. Nothing
/// is known of what is inside.
#[verifier::external_type_specification]
#[verifier::external_body]
pub struct ExValue(serde_json::Value);

/// What `serde_json::from_slice` makes of a text that it is asked to read as
/// a `serde_json::Value`: the value, taken variant by variant as a
/// [`JsonView`], or the text of its error.
pub uninterp spec fn json_document(text: Seq<u8>) -> Result<JsonView, Seq<char>>;

/// Turns the `serde_json::Value` that [`read_json`] got into a [`Json`],
/// variant by variant. A number becomes what `serde_json::Number::as_u64`
/// gives for it, and the members of an object come in the order in which
/// `serde_json::Map` hands them out. No contract: nothing is claimed of it.
#[verifier::external_body]
fn json_of_value(value: serde_json::Value) -> Json {
    match value {
        serde_json::Value::Null => Json::Null,
        serde_json::Value::Bool(b) => Json::Bool(b),
        serde_json::Value::Number(n) => Json::Number(n.as_u64()),
        serde_json::Value::String(s) => Json::Text(s),
        serde_json::Value::Array(items) => Json::Array(
            items.into_iter().map(json_of_value).collect(),
        ),
        serde_json::Value::Object(members) => Json::Object(
            members.into_iter().map(|(name, value)| Member { name, value: json_of_value(value) })
                .collect(),
        ),
    }
}

/// A longer text is not handed to the parser. It counts the digits of a
/// long number in 32 bits with a sign, and a text of this length at most
/// cannot hold more digits than that.
pub const MAX_TEXT_LEN: usize = 0x7FFF_FFFF;

/// Text of the failure on a text that is too long to be parsed.
pub open spec fn too_long_text() -> Seq<char> {
    "text is longer than the parser takes"@
}

/// The JSON value that `text` holds, or the text of the failure: a text of
/// more than [`MAX_TEXT_LEN`] bytes fails unread, any other is what the
/// parser makes of it.
pub open spec fn parsed_json(text: Seq<u8>) -> Result<JsonView, Seq<char>> {
    if text.len() > MAX_TEXT_LEN {
        Err(too_long_text())
    } else {
        json_document(text)
    }
}

/// Calls `serde_json::from_slice` for a `serde_json::Value`, on a text of
/// at most [`MAX_TEXT_LEN`] bytes. Nothing is claimed of what comes back
/// but that it is what that function returns on these bytes: the value as
/// plain data, the error as the text that it displays. What a text must
/// look like to be read is not stated.
#[verifier::external_body]
fn read_json(text: &[u8]) -> (parsed: Result<Json, String>)
    requires
        text@.len() <= MAX_TEXT_LEN,
    ensures
        match parsed {
            Ok(value) => json_document(text@) == Ok::<JsonView, Seq<char>>(value@),
            Err(e) => json_document(text@) == Err::<JsonView, Seq<char>>(e@),
        },
{
    match serde_json::from_slice::<serde_json::Value>(text) {
        Ok(value) => Ok(json_of_value(value)),
        Err(e) => Err(e.to_string()),
    }
}

/// Reads a JSON text. A text that is not JSON, or is longer than
/// [`MAX_TEXT_LEN`] bytes, is a `MalformedSession`.
///
/// The whole text is read, every member of every object. So a text fails
/// on any value that nests deeper than the parser follows, which is 128
/// levels, and on any number beyond the parser's range, wherever they
/// stand. An object that names a member twice is read without complaint,
/// with the member that stands last in the text.
pub fn parse_json(text: &[u8]) -> (parsed: Result<Json, Error>)
    ensures
        match parsed {
            Ok(value) => parsed_json(text@) == Ok::<JsonView, Seq<char>>(value@),
            Err(e) => parsed_json(text@) matches Err(cause) && e@
                == ErrorView::MalformedSession(cause),
        },
{
    if text.len() > MAX_TEXT_LEN {
        return Err(
            Error::MalformedSession(String::from_str("text is longer than the parser takes")),
        );
    }
    match read_json(text) {
        Ok(value) => Ok(value),
        Err(cause) => Err(Error::MalformedSession(cause)),
    }
}

} // verus!
