use vstd::prelude::*;

verus! {

/// The characters of nanoid's URL-safe alphabet: `_`, `-`, digits and letters.
pub open spec fn is_url_safe(c: char) -> bool {
    c == '_' || c == '-' || ('0' <= c <= '9') || ('a' <= c <= 'z') || ('A' <= c <= 'Z')
}

/// Relies on `nanoid::format` with `nanoid::rngs::default` and the alphabet
/// `nanoid::alphabet::SAFE`: it draws characters of that alphabet until it holds
/// `size` of them. It never returns for a size of zero.
#[verifier::external_body]
fn random_id(size: usize) -> (r: String)
    requires
        size > 0,
    ensures
        r@.len() == size,
        forall|i: int| 0 <= i < r@.len() ==> is_url_safe(#[trigger] r@[i]),
{
    nanoid::format(nanoid::rngs::default, &nanoid::alphabet::SAFE, size)
}

/// Unique identifier for statements or branches.
#[derive(Clone, Debug, PartialEq, Eq, PartialOrd, Ord, Hash)]
pub struct Uid(String);

impl View for Uid {
    type V = Seq<char>;

    closed spec fn view(&self) -> Seq<char> {
        self.0@
    }
}

impl Uid {
    /// A fresh random identifier of ten URL-safe characters.
    pub fn new() -> (r: Uid)
        ensures
            r@.len() == 10,
            forall|i: int| 0 <= i < r@.len() ==> is_url_safe(#[trigger] r@[i]),
    {
        Uid(random_id(10))
    }

    /// An identifier with the given text.
    pub fn from_text(value: &str) -> (r: Uid)
        ensures
            r@ == value@,
    {
        Uid(String::from_str(value))
    }

    /// Another identifier with the same text.
    pub fn copy(&self) -> (r: Uid)
        ensures
            r@ == self@,
    {
        Uid(self.0.clone())
    }

    /// The identifier's text.
    pub fn as_str(&self) -> (r: &str)
        ensures
            r@ == self@,
    {
        self.0.as_str()
    }

    /// The identifier's text, as an owned string.
    pub fn to_string(&self) -> (r: String)
        ensures
            r@ == self@,
    {
        self.0.clone()
    }
}

} // verus!
