//! Compiled regular expressions and byte encodings, as the library relies on them.
use vstd::prelude::*;

verus! {

#[verifier::external_type_specification]
#[verifier::external_body]
pub struct ExRegex(regex::Regex);

/// Whether `regex::Regex::new` accepts a pattern text.
pub uninterp spec fn regex_compiles(src: Seq<char>) -> bool;

/// The leftmost-first match of a pattern text in a haystack, as character
/// positions `(start, end)`, as `regex::Regex::find` reports it.
pub uninterp spec fn leftmost_match(src: Seq<char>, hay: Seq<char>) -> Option<(int, int)>;

/// What `base64::encode` makes of some bytes (standard alphabet, padded).
pub uninterp spec fn base64_text(b: Seq<u8>) -> Seq<char>;

/// A regular expression together with the text it was compiled from.
pub struct Matcher {
    source: String,
    re: regex::Regex,
}

impl Matcher {
    /// The pattern text this matcher was compiled from.
    pub closed spec fn source(&self) -> Seq<char> {
        self.source@
    }

    /// Relies on `regex::Regex::new`: whether it compiles depends on the text alone.
    #[verifier::external_body]
    pub(crate) fn compile(src: &str) -> (r: Option<Matcher>)
        ensures
            r is Some <==> regex_compiles(src@),
            r matches Some(m) ==> m.source() == src@,
    {
        match regex::Regex::new(src) {
            Ok(re) => Some(Matcher { source: src.to_string(), re }),
            Err(_) => None,
        }
    }

    /// Relies on `regex::Regex::find`: the first match, with its byte offsets
    /// turned into character positions; a match lies within the haystack.
    #[verifier::external_body]
    pub(crate) fn find(&self, hay: &str) -> (r: Option<(usize, usize)>)
        ensures
            match r {
                Some((s, e)) => leftmost_match(self.source(), hay@) == Some((s as int, e as int))
                    && s <= e <= hay@.len(),
                None => leftmost_match(self.source(), hay@) is None,
            },
    {
        match self.re.find(hay) {
            Some(m) => Some((hay[..m.start()].chars().count(), hay[..m.end()].chars().count())),
            None => None,
        }
    }
}

/// Relies on `base64::encode`: the encoding depends on the bytes alone, and no
/// bytes give no text.
#[verifier::external_body]
pub(crate) fn encode_base64(b: &[u8]) -> (r: String)
    ensures
        r@ == base64_text(b@),
        b@.len() == 0 ==> r@.len() == 0,
{
    base64::encode(b)
}

} // verus!
