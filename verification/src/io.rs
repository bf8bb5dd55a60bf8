use vstd::prelude::*;

verus! {

/// The characters that `String::from_utf8_lossy` of std decodes from `bytes`.
pub uninterp spec fn utf8_lossy_chars(bytes: Seq<u8>) -> Seq<char>;

/// `Read::read_to_end` of std: the bytes that `r` gives up to its end or to
/// the first read error other than an interruption, and whether its end was
/// reached without such an error. The bytes read before an error are kept, as
/// `read_to_end` appends them. They depend on the input, so nothing is stated
/// of them.
#[verifier::external_body]
fn read_all<R: std::io::Read>(r: &mut R) -> (res: (Vec<u8>, bool)) {
    let mut bytes: Vec<u8> = Vec::new();
    match r.read_to_end(&mut bytes) {
        Ok(_) => (bytes, true),
        Err(_) => (bytes, false),
    }
}

/// `String::from_utf8_lossy` of std: the characters of `bytes` decoded as
/// UTF-8, each invalid sequence standing for U+FFFD; a function of the bytes
/// alone, named by `utf8_lossy_chars`.
#[verifier::external_body]
fn decode_utf8_lossy(bytes: &Vec<u8>) -> (res: Vec<char>)
    ensures
        res@ == utf8_lossy_chars(bytes@),
{
    String::from_utf8_lossy(bytes.as_slice()).chars().collect()
}

/// The characters of an input, read ahead of lexing.
pub struct CharReader {
    chars: Vec<char>,
}

impl CharReader {
    /// The characters not yet handed to a lexer.
    pub closed spec fn chars(&self) -> Seq<char> {
        self.chars@
    }

    /// Reads the whole input of `r` and decodes it as UTF-8, each invalid
    /// sequence standing for U+FFFD. A read error ends the input.
    pub fn new<R: std::io::Read>(r: &mut R) -> (res: CharReader)
        ensures
            exists|bytes: Seq<u8>| res.chars() == utf8_lossy_chars(bytes),
    {
        // A read error ends the input: whether or not the end was reached,
        // the characters are those of the bytes that were read.
        let (bytes, _reached_end) = read_all(r);
        CharReader::from_bytes(&bytes)
    }

    /// A reader of `bytes` decoded as UTF-8, each invalid sequence standing
    /// for U+FFFD.
    pub fn from_bytes(bytes: &Vec<u8>) -> (res: CharReader)
        ensures
            res.chars() == utf8_lossy_chars(bytes@),
    {
        let chars = decode_utf8_lossy(bytes);
        CharReader { chars }
    }

    /// A reader of the given characters.
    pub fn from_chars(chars: Vec<char>) -> (res: CharReader)
        ensures
            res.chars() == chars@,
    {
        CharReader { chars }
    }

    /// Hands over the characters not yet taken and leaves none.
    pub fn take_chars(&mut self) -> (res: Vec<char>)
        ensures
            res@ == old(self).chars(),
            final(self).chars() == Seq::<char>::empty(),
    {
        let mut res: Vec<char> = Vec::new();
        std::mem::swap(&mut res, &mut self.chars);
        res
    }
}

} // verus!
