//! Byte signatures: patterns of concrete bytes and wildcards, their text
//! form, and the search for one in a buffer.

use vstd::prelude::*;
use crate::error::ParseSignatureError;
use crate::text::{
    chars_of, digit_char, digit_of, digit_to_char, digit_value, is_digit, is_word,
    lemma_pieces_push_word, pieces, split, string_of, views, Separator,
};

verus! {

/// One element of a signature.
#[derive(Debug, Clone, Copy, PartialEq, Eq, Structural)]
pub enum SignatureByte {
    /// Matches this byte alone.
    Byte(u8),
    /// The wildcard: matches every byte.
    Any,
}

impl SignatureByte {
    /// Does the element match the byte `b`?
    pub open spec fn matches(&self, b: u8) -> bool {
        match *self {
            SignatureByte::Byte(v) => v == b,
            SignatureByte::Any => true,
        }
    }

    /// Does the element match the byte `b`?
    pub fn is_match(&self, b: u8) -> (r: bool)
        ensures
            r == self.matches(b),
    {
        match *self {
            SignatureByte::Byte(v) => v == b,
            SignatureByte::Any => true,
        }
    }
}

/// A signature: one pattern element or more. It does not change once made.
#[derive(Debug)]
pub struct Signature {
    bytes: Vec<SignatureByte>,
}

impl View for Signature {
    type V = Seq<SignatureByte>;

    /// The elements of the signature, in order.
    closed spec fn view(&self) -> Seq<SignatureByte> {
        self.bytes@
    }
}

/// The element that one token of a pattern text stands for: `??` is the
/// wildcard, two hexadecimal digits are a byte. A token of another length is
/// an `InvalidLength`, any other token of two characters an `InvalidInt`.
pub open spec fn parse_token(token: Seq<char>) -> Result<SignatureByte, ParseSignatureError> {
    if token.len() != 2 {
        Err(ParseSignatureError::InvalidLength(token.len() as usize))
    } else if token[0] == '?' && token[1] == '?' {
        Ok(SignatureByte::Any)
    } else if is_digit(token[0], 16) && is_digit(token[1], 16) {
        Ok(SignatureByte::Byte((digit_value(token[0]) * 16 + digit_value(token[1])) as u8))
    } else {
        Err(ParseSignatureError::InvalidInt)
    }
}

/// The elements that the tokens stand for, or the error of the first token
/// that stands for none.
pub open spec fn parse_tokens(tokens: Seq<Seq<char>>) -> Result<
    Seq<SignatureByte>,
    ParseSignatureError,
>
    decreases tokens.len(),
{
    if tokens.len() == 0 {
        Ok(Seq::empty())
    } else {
        match parse_tokens(tokens.drop_last()) {
            Err(e) => Err(e),
            Ok(elements) => match parse_token(tokens.last()) {
                Ok(element) => Ok(elements.push(element)),
                Err(e) => Err(e),
            },
        }
    }
}

/// The elements that a pattern text stands for. Its tokens are kept apart by
/// whitespace; a text without a token is an `InvalidLength` of zero.
pub open spec fn parse_pattern(text: Seq<char>) -> Result<Seq<SignatureByte>, ParseSignatureError> {
    let tokens = pieces(text, Separator::Whitespace);
    if tokens.len() == 0 {
        Err(ParseSignatureError::InvalidLength(0))
    } else {
        parse_tokens(tokens)
    }
}

/// The token that stands for an element.
pub open spec fn render_element(e: SignatureByte) -> Seq<char> {
    match e {
        SignatureByte::Byte(v) => seq![digit_char(v as int / 16), digit_char(v as int % 16)],
        SignatureByte::Any => seq!['?', '?'],
    }
}

/// The text of a pattern: the tokens of its elements with one space between
/// each two.
pub open spec fn render(elements: Seq<SignatureByte>) -> Seq<char>
    decreases elements.len(),
{
    if elements.len() == 0 {
        Seq::empty()
    } else if elements.len() == 1 {
        render_element(elements[0])
    } else {
        render(elements.drop_last()) + seq![' '] + render_element(elements.last())
    }
}

/// The token of an element is a word, and stands for the element.
pub proof fn lemma_token_round_trip(e: SignatureByte)
    ensures
        is_word(render_element(e), Separator::Whitespace),
        parse_token(render_element(e)) == Ok::<SignatureByte, ParseSignatureError>(e),
{
    match e {
        SignatureByte::Byte(v) => {
            let high = v as int / 16;
            let low = v as int % 16;
            assert(digit_value(digit_char(high)) == high);
            assert(digit_value(digit_char(low)) == low);
            assert(high * 16 + low == v);
        },
        SignatureByte::Any => {},
    }
}

/// The tokens of each of the elements, in order.
pub open spec fn render_tokens(elements: Seq<SignatureByte>) -> Seq<Seq<char>> {
    elements.map_values(|e: SignatureByte| render_element(e))
}

/// The pieces of a pattern's text are the tokens of its elements.
pub proof fn lemma_render_pieces(elements: Seq<SignatureByte>)
    ensures
        pieces(render(elements), Separator::Whitespace) == render_tokens(elements),
    decreases elements.len(),
{
    let sep = Separator::Whitespace;
    if elements.len() == 0 {
        assert(render_tokens(elements) == Seq::<Seq<char>>::empty());
    } else {
        let token = render_element(elements.last());
        lemma_token_round_trip(elements.last());
        if elements.len() == 1 {
            let none = Seq::<char>::empty();
            lemma_pieces_push_word(none, token, sep);
            assert(none + token == token);
            assert(render(elements) == token);
            assert(render_tokens(elements) == Seq::<Seq<char>>::empty().push(token));
        } else {
            let before = elements.drop_last();
            lemma_render_pieces(before);
            let head = render(before) + seq![' '];
            assert(head.drop_last() == render(before));
            assert(pieces(head, sep) == pieces(render(before), sep));
            lemma_pieces_push_word(head, token, sep);
            assert(render(elements) == head + token);
            assert(render_tokens(elements) == render_tokens(before).push(token));
        }
    }
}

/// The tokens of elements stand for those elements.
pub proof fn lemma_parse_rendered_tokens(elements: Seq<SignatureByte>)
    ensures
        parse_tokens(render_tokens(elements)) == Ok::<Seq<SignatureByte>, ParseSignatureError>(
            elements,
        ),
    decreases elements.len(),
{
    if elements.len() == 0 {
        assert(render_tokens(elements) == Seq::<Seq<char>>::empty());
        assert(elements == Seq::<SignatureByte>::empty());
    } else {
        let before = elements.drop_last();
        lemma_parse_rendered_tokens(before);
        lemma_token_round_trip(elements.last());
        assert(render_tokens(elements).drop_last() == render_tokens(before));
        assert(before.push(elements.last()) == elements);
    }
}

/// The text of a pattern says all of it: compiling the text of a pattern of
/// one element or more gives the pattern back.
pub proof fn lemma_pattern_round_trip(elements: Seq<SignatureByte>)
    requires
        elements.len() >= 1,
    ensures
        parse_pattern(render(elements)) == Ok::<Seq<SignatureByte>, ParseSignatureError>(elements),
{
    lemma_render_pieces(elements);
    lemma_parse_rendered_tokens(elements);
}

/// Does the pattern match the bytes of `buff` that start at offset `i`? It
/// has to lie within `buff`, and each element has to match the byte under it.
pub open spec fn matches_at(buff: Seq<u8>, pattern: Seq<SignatureByte>, i: int) -> bool {
    &&& 0 <= i
    &&& i + pattern.len() <= buff.len()
    &&& forall|k: int| 0 <= k < pattern.len() ==> (#[trigger] pattern[k]).matches(buff[i + k])
}

/// The least offset at or after `i` at which the pattern matches, if any.
pub open spec fn scan_from(buff: Seq<u8>, pattern: Seq<SignatureByte>, i: int) -> Option<int>
    decreases buff.len() - i,
{
    if i + pattern.len() > buff.len() {
        None
    } else if matches_at(buff, pattern, i) {
        Some(i)
    } else {
        scan_from(buff, pattern, i + 1)
    }
}

/// The least offset at which the pattern matches, if any.
pub open spec fn scan(buff: Seq<u8>, pattern: Seq<SignatureByte>) -> Option<int> {
    scan_from(buff, pattern, 0)
}

/// Leftmost match: `scan_from` finds an offset exactly where the pattern
/// matches somewhere at or after `i`, and then the least such offset.
pub proof fn lemma_scan_from(buff: Seq<u8>, pattern: Seq<SignatureByte>, i: int)
    requires
        0 <= i,
    ensures
        match scan_from(buff, pattern, i) {
            Some(at) => i <= at && matches_at(buff, pattern, at) && forall|j: int|
                i <= j < at ==> !matches_at(buff, pattern, j),
            None => forall|j: int| i <= j ==> !matches_at(buff, pattern, j),
        },
    decreases buff.len() - i,
{
    if i + pattern.len() <= buff.len() && !matches_at(buff, pattern, i) {
        lemma_scan_from(buff, pattern, i + 1);
    }
}

/// Leftmost match, from the other side: where the pattern matches at an
/// offset and at none before it, the scan finds that offset.
pub proof fn lemma_scan_leftmost(buff: Seq<u8>, pattern: Seq<SignatureByte>, i: int)
    requires
        matches_at(buff, pattern, i),
        forall|j: int| 0 <= j < i ==> !matches_at(buff, pattern, j),
    ensures
        scan(buff, pattern) == Some(i),
{
    lemma_scan_from(buff, pattern, 0);
}

/// A wildcard matches every byte: a match stays one when the bytes under the
/// wildcards are replaced by any others.
pub proof fn lemma_wildcards_match_any_byte(
    buff: Seq<u8>,
    other: Seq<u8>,
    pattern: Seq<SignatureByte>,
    i: int,
)
    requires
        matches_at(buff, pattern, i),
        other.len() == buff.len(),
        forall|k: int|
            0 <= k < buff.len() && other[k] != buff[k] ==> i <= k < i + pattern.len() && pattern[k
                - i] == SignatureByte::Any,
    ensures
        matches_at(other, pattern, i),
{
    assert forall|k: int| 0 <= k < pattern.len() implies (#[trigger] pattern[k]).matches(
        other[i + k],
    ) by {
        assert(pattern[k].matches(buff[i + k]));
        if other[i + k] != buff[i + k] {
            assert(pattern[i + k - i] == SignatureByte::Any);
        }
    }
}

impl Signature {
    /// A signature is never empty.
    #[verifier::type_invariant]
    spec fn inv(self) -> bool {
        self.bytes@.len() >= 1
    }

    /// The number of elements.
    pub fn len(&self) -> (n: usize)
        ensures
            n == self@.len(),
            n >= 1,
    {
        proof {
            use_type_invariant(self);
        }
        self.bytes.len()
    }

    /// The element at `index`.
    pub fn get(&self, index: usize) -> (e: Option<SignatureByte>)
        ensures
            e == (if index < self@.len() {
                Some(self@[index as int])
            } else {
                None
            }),
    {
        if index < self.bytes.len() {
            Some(self.bytes[index])
        } else {
            None
        }
    }

    /// The signature with the given elements; none where there is no element.
    pub fn new(bytes: Vec<SignatureByte>) -> (r: Option<Signature>)
        ensures
            match r {
                Some(sign) => bytes@.len() >= 1 && sign@ == bytes@,
                None => bytes@.len() == 0,
            },
    {
        if bytes.len() == 0 {
            None
        } else {
            Some(Signature { bytes })
        }
    }

    /// Reads one token of a pattern text.
    fn token_element(token: &Vec<char>) -> (r: Result<SignatureByte, ParseSignatureError>)
        ensures
            r == parse_token(token@),
    {
        if token.len() != 2 {
            return Err(ParseSignatureError::InvalidLength(token.len()));
        }
        if token[0] == '?' && token[1] == '?' {
            return Ok(SignatureByte::Any);
        }
        match (digit_of(token[0], 16), digit_of(token[1], 16)) {
            (Some(high), Some(low)) => Ok(SignatureByte::Byte(high * 16 + low)),
            _ => Err(ParseSignatureError::InvalidInt),
        }
    }

    /// Compiles a pattern text: tokens kept apart by whitespace, each `??` or
    /// two hexadecimal digits. The first token that is neither decides the
    /// error; a text without a token is an `InvalidLength` of zero.
    pub fn from_str(s: &str) -> (r: Result<Signature, ParseSignatureError>)
        ensures
            match r {
                Ok(sign) => parse_pattern(s@) == Ok::<Seq<SignatureByte>, ParseSignatureError>(sign@),
                Err(e) => parse_pattern(s@) == Err::<Seq<SignatureByte>, ParseSignatureError>(e),
            },
    {
        let text = chars_of(s);
        let tokens = split(&text, Separator::Whitespace);
        if tokens.len() == 0 {
            return Err(ParseSignatureError::InvalidLength(0));
        }
        let mut bytes: Vec<SignatureByte> = Vec::new();
        let mut i: usize = 0;
        while i < tokens.len()
            invariant
                i <= tokens@.len(),
                tokens@.len() > 0,
                views(tokens@) == pieces(s@, Separator::Whitespace),
                parse_tokens(views(tokens@).take(i as int)) == Ok::<
                    Seq<SignatureByte>,
                    ParseSignatureError,
                >(bytes@),
                bytes@.len() == i,
            decreases tokens.len() - i,
        {
            proof {
                let t = views(tokens@).take(i + 1);
                assert(t.drop_last() == views(tokens@).take(i as int));
                assert(t.last() == tokens@[i as int]@);
            }
            match Self::token_element(&tokens[i]) {
                Ok(element) => {
                    bytes.push(element);
                },
                Err(e) => {
                    proof {
                        let t = views(tokens@).take(i + 1);
                        assert(parse_tokens(t) == Err::<Seq<SignatureByte>, ParseSignatureError>(e));
                        Self::lemma_parse_error_stays(views(tokens@), i + 1);
                    }
                    return Err(e);
                },
            }
            i += 1;
        }
        proof {
            assert(views(tokens@).take(i as int) == views(tokens@));
        }
        Ok(Signature { bytes })
    }

    /// Once a token fails, the tokens that follow do not change the error.
    proof fn lemma_parse_error_stays(tokens: Seq<Seq<char>>, k: int)
        requires
            0 <= k <= tokens.len(),
            parse_tokens(tokens.take(k)) is Err,
        ensures
            parse_tokens(tokens) == parse_tokens(tokens.take(k)),
        decreases tokens.len() - k,
    {
        if k == tokens.len() {
            assert(tokens.take(k) == tokens);
        } else {
            assert(tokens.take(k + 1).drop_last() == tokens.take(k));
            Self::lemma_parse_error_stays(tokens, k + 1);
        }
    }

    /// The pattern text of the signature: upper-case hexadecimal bytes and
    /// `??` for wildcards, one space between each two.
    pub fn to_string(&self) -> (s: String)
        ensures
            s@ == render(self@),
    {
        let mut text: Vec<char> = Vec::new();
        let mut i: usize = 0;
        while i < self.bytes.len()
            invariant
                i <= self.bytes@.len(),
                text@ == render(self.bytes@.take(i as int)),
            decreases self.bytes.len() - i,
        {
            proof {
                let t = self.bytes@.take(i + 1);
                assert(t.drop_last() == self.bytes@.take(i as int));
                assert(t.last() == self.bytes@[i as int]);
                assert(t[0] == self.bytes@[0]);
            }
            if i > 0 {
                text.push(' ');
            }
            match self.bytes[i] {
                SignatureByte::Byte(v) => {
                    text.push(digit_to_char(v / 16));
                    text.push(digit_to_char(v % 16));
                },
                SignatureByte::Any => {
                    text.push('?');
                    text.push('?');
                },
            }
            i += 1;
        }
        proof {
            assert(self.bytes@.take(i as int) == self.bytes@);
        }
        string_of(&text)
    }
}

/// Does the signature match `buff` at offset `i`?
pub fn matches_offset(buff: &[u8], sign: &Signature, i: usize) -> (r: bool)
    requires
        i + sign@.len() <= buff@.len(),
    ensures
        r == matches_at(buff@, sign@, i as int),
{
    let n = sign.len();
    assert(buff@.len() == buff.len());
    let mut k: usize = 0;
    while k < n
        invariant
            k <= n,
            n == sign@.len(),
            i + n <= buff@.len() <= usize::MAX,
            forall|j: int| 0 <= j < k ==> (#[trigger] sign@[j]).matches(buff@[i + j]),
        decreases n - k,
    {
        let element = match sign.get(k) {
            Some(e) => e,
            None => {
                return false;
            },
        };
        if !element.is_match(buff[i + k]) {
            return false;
        }
        k += 1;
    }
    true
}

/// Searches `buff` for the signature, window by window from the left, and
/// gives the offset of the first match.
pub fn find_signature(buff: &[u8], sign: &Signature) -> (r: Option<usize>)
    ensures
        match r {
            Some(at) => scan(buff@, sign@) == Some(at as int),
            None => scan(buff@, sign@) is None,
        },
{
    let n = sign.len();
    if n > buff.len() {
        return None;
    }
    let last: usize = buff.len() - n;
    let mut i: usize = 0;
    while i < last
        invariant
            i <= last,
            n == sign@.len(),
            last == buff@.len() - n,
            scan_from(buff@, sign@, i as int) == scan(buff@, sign@),
        decreases last - i,
    {
        if matches_offset(buff, sign, i) {
            return Some(i);
        }
        i += 1;
    }
    if matches_offset(buff, sign, last) {
        Some(last)
    } else {
        assert(scan_from(buff@, sign@, last + 1) is None);
        None
    }
}

} // verus!
