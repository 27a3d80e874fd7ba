//! HTTP messages, as far as the services read and write them.

use crate::blob::{bytes_from, bytes_of};
use crate::text::{ascii_lower, optional_text, text_eq, to_ascii_lower};
use bytes::Bytes;
use vstd::prelude::*;

verus! {

/// One header field: its name in lower case, and its value.
#[derive(Debug, Clone)]
pub struct HeaderField {
    pub name: String,
    pub value: Vec<u8>,
}

/// The header fields of a request, in order.
#[derive(Debug, Clone)]
pub struct Headers {
    pub fields: Vec<HeaderField>,
}

/// What header fields denote: names and values.
pub type Fields = Seq<(Seq<char>, Seq<u8>)>;

impl View for Headers {
    type V = Fields;

    open spec fn view(&self) -> Fields {
        self.fields@.map_values(|f: HeaderField| (f.name@, f.value@))
    }
}

/// The value of the first field of a name.
pub open spec fn field_value(fields: Fields, name: Seq<char>) -> Option<Seq<u8>>
    decreases fields.len(),
{
    if fields.len() == 0 {
        None
    } else if fields[0].0 == name {
        Some(fields[0].1)
    } else {
        field_value(fields.drop_first(), name)
    }
}

/// Whether a byte of a field value is a character of text: visible ASCII, a space or a tab.
pub open spec fn is_text_byte(b: u8) -> bool {
    32 <= b < 127 || b == 9
}

/// The text of a field value; `None` where it is not text.
pub open spec fn value_text(value: Seq<u8>) -> Option<Seq<char>> {
    if forall|i: int| 0 <= i < value.len() ==> is_text_byte(#[trigger] value[i]) {
        Some(value.map_values(|b: u8| b as char))
    } else {
        None
    }
}

/// The text of the first field of a name; `None` where there is none or it is not text.
pub open spec fn field_text(fields: Fields, name: Seq<char>) -> Option<Seq<char>> {
    match field_value(fields, name) {
        Some(value) => value_text(value),
        None => None,
    }
}

/// The text of a field value.
pub fn text_of_value(value: &Vec<u8>) -> (r: Option<String>)
    ensures
        optional_text(r) == value_text(value@),
{
    let mut s = String::new();
    let mut i: usize = 0;
    assert(s@ =~= value@.take(0).map_values(|b: u8| b as char));
    while i < value.len()
        invariant
            i <= value.len(),
            forall|j: int| 0 <= j < i ==> is_text_byte(#[trigger] value@[j]),
            s@ == value@.take(i as int).map_values(|b: u8| b as char),
        decreases value.len() - i,
    {
        let b: u8 = value[i];
        if !(32 <= b && b < 127 || b == 9) {
            assert(!is_text_byte(value@[i as int]));
            return None;
        }
        s.push(b as char);
        i += 1;
        assert(s@ =~= value@.take(i as int).map_values(|b: u8| b as char));
    }
    assert(value@.take(value@.len() as int) =~= value@);
    Some(s)
}

impl Headers {
    /// No header fields.
    pub fn new() -> (h: Headers)
        ensures
            h@ == (Seq::<(Seq<char>, Seq<u8>)>::empty()),
    {
        let h = Headers { fields: Vec::new() };
        assert(h@ =~= Seq::empty());
        h
    }

    /// Adds a field at the end. Case does not matter in its name.
    pub fn append(&mut self, name: &str, value: Vec<u8>)
        ensures
            final(self)@ == old(self)@.push((ascii_lower(name@), value@)),
    {
        let ghost before = self@;
        let field = HeaderField { name: to_ascii_lower(name), value };
        self.fields.push(field);
        assert(self@ =~= before.push((ascii_lower(name@), value@)));
    }

    /// The text of the first field of a name, which is in lower case.
    pub fn get_text(&self, name: &str) -> (r: Option<String>)
        ensures
            optional_text(r) == field_text(self@, name@),
    {
        let mut i: usize = 0;
        assert(self@.skip(0) =~= self@);
        while i < self.fields.len()
            invariant
                i <= self.fields.len(),
                field_value(self@, name@) == field_value(self@.skip(i as int), name@),
            decreases self.fields.len() - i,
        {
            let field = &self.fields[i];
            assert(self@.skip(i as int)[0] == (field.name@, field.value@));
            assert(self@.skip(i as int).drop_first() =~= self@.skip(i as int + 1));
            if text_eq(field.name.as_str(), name) {
                return text_of_value(&field.value);
            }
            i += 1;
        }
        None
    }
}

/// A request without its body.
#[derive(Debug, Clone)]
pub struct Request {
    pub method: String,
    pub path: String,
    pub query: Option<String>,
    pub headers: Headers,
}

/// A response.
#[derive(Debug)]
pub struct Response {
    pub status: u16,
    pub headers: Vec<(String, String)>,
    pub body: Bytes,
}

/// What a response denotes.
pub struct ResponseState {
    pub status: u16,
    pub headers: Seq<(Seq<char>, Seq<char>)>,
    pub body: Seq<u8>,
}

/// What the header fields of a response denote.
pub open spec fn response_headers(headers: Seq<(String, String)>) -> Seq<(Seq<char>, Seq<char>)> {
    headers.map_values(|h: (String, String)| (h.0@, h.1@))
}

impl View for Response {
    type V = ResponseState;

    open spec fn view(&self) -> ResponseState {
        ResponseState {
            status: self.status,
            headers: response_headers(self.headers@),
            body: bytes_of(self.body),
        }
    }
}

/// Adds a header field to those of a response.
pub fn push_header(headers: &mut Vec<(String, String)>, name: &str, value: &str)
    ensures
        response_headers(final(headers)@) == response_headers(old(headers)@).push(
            (name@, value@),
        ),
{
    let ghost before = response_headers(headers@);
    headers.push((name.to_string(), value.to_string()));
    assert(response_headers(headers@) =~= before.push((name@, value@)));
}

/// The bytes of a text, in UTF-8.
pub fn text_bytes(s: &str) -> (b: Bytes)
    ensures
        bytes_of(b) == vstd::utf8::encode_utf8(s@),
{
    let bytes = s.as_bytes();
    let mut v: Vec<u8> = Vec::new();
    v.extend_from_slice(bytes);
    assert(v@ =~= bytes@);
    bytes_from(v)
}

} // verus!
