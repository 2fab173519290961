//! Large payloads.

use vstd::prelude::*;
use vstd::string::*;
use crate::random;
use crate::random::{random_between, random_text};
use crate::utils::csv;

verus! {

/// The length of the shortest attribute.
pub const PAYLOAD_STR_LEN_MIN: usize = 704;

/// The length of the longest attribute.
pub const PAYLOAD_STR_LEN_MAX: usize = 7078;

/// The number of attributes.
pub const PAYLOAD_ATTR_STR_COUNT: usize = 67;

/// The text is made of letters and digits and its length keeps to the limits.
pub open spec fn random_attribute(s: Seq<char>, len_min: usize, len_max: usize) -> bool {
    &&& len_min <= s.len() <= len_max
    &&& forall|i: int| 0 <= i < s.len() ==> random::alphanumeric(#[trigger] s[i])
}

/// A random text of a random length.
pub fn rnd_str(len_min: usize, len_max: usize) -> (s: String)
    requires
        len_min <= len_max,
    ensures
        random_attribute(s@, len_min, len_max),
{
    let len: usize = random_between(len_min as u64, len_max as u64) as usize;
    random_text(len)
}

/// Random texts of random lengths.
pub fn rnd_str_vec(items: usize, str_len_min: usize, str_len_max: usize) -> (strings: Vec<String>)
    requires
        str_len_min <= str_len_max,
    ensures
        strings@.len() == items,
        forall|i: int|
            0 <= i < items ==> random_attribute(
                (#[trigger] strings@[i])@,
                str_len_min,
                str_len_max,
            ),
{
    let mut strings: Vec<String> = Vec::new();
    while strings.len() < items
        invariant
            str_len_min <= str_len_max,
            strings@.len() <= items,
            forall|i: int|
                0 <= i < strings@.len() ==> random_attribute(
                    (#[trigger] strings@[i])@,
                    str_len_min,
                    str_len_max,
                ),
        decreases items - strings@.len(),
    {
        strings.push(rnd_str(str_len_min, str_len_max));
    }
    strings
}

/// The attributes of a record.
#[derive(Clone, Debug)]
pub struct PayloadData {
    pub attributes: Vec<String>,
}

/// The attributes of a record, out of line.
#[derive(Clone, Debug)]
pub struct PayloadIndirection(pub Box<PayloadData>);

impl PayloadData {
    /// An attribute.
    pub fn attr(&self, i: usize) -> (s: &str)
        requires
            i < self.attributes@.len(),
        ensures
            s@ == self.attributes@[i as int]@,
    {
        self.attributes[i].as_str()
    }
}

impl PayloadIndirection {
    /// Random attributes.
    pub fn default() -> (payload: Self)
        ensures
            payload.0.attributes@.len() == PAYLOAD_ATTR_STR_COUNT,
            forall|i: int|
                0 <= i < PAYLOAD_ATTR_STR_COUNT ==> random_attribute(
                    (#[trigger] payload.0.attributes@[i])@,
                    PAYLOAD_STR_LEN_MIN,
                    PAYLOAD_STR_LEN_MAX,
                ),
    {
        PayloadIndirection(
            Box::new(
                PayloadData {
                    attributes: rnd_str_vec(
                        PAYLOAD_ATTR_STR_COUNT,
                        PAYLOAD_STR_LEN_MIN,
                        PAYLOAD_STR_LEN_MAX,
                    ),
                },
            ),
        )
    }

    /// Writes the attributes, with commas between them.
    pub fn to_string(&self) -> (s: String)
        ensures
            s@ == csv::joined(csv::texts(self.0.attributes@), ", "@),
    {
        csv::join(&self.0.attributes, ", ")
    }
}

} // verus!
