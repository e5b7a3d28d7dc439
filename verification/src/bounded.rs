//! Texts of limited size, kept in `heapless` strings.

use vstd::prelude::*;

verus! {

/// How many bytes characters take in UTF-8.
pub open spec fn byte_len(chars: Seq<char>) -> nat {
    vstd::utf8::encode_utf8(chars).len()
}

/// A text that holds at most a fixed number of bytes.
///
/// The text lives in a `heapless::String`, seen through its capacity-erased
/// view, so that one type serves every capacity.
#[verifier::external_body]
pub struct Text {
    inner: Box<heapless::string::StringView>,
}

/// The characters that a bounded text holds.
pub uninterp spec fn text_chars(text: Text) -> Seq<char>;

/// How many bytes a bounded text can hold.
pub uninterp spec fn text_capacity(text: Text) -> nat;

impl View for Text {
    type V = Seq<char>;

    open spec fn view(&self) -> Seq<char> {
        text_chars(*self)
    }
}

/// `heapless::String::new`: an empty text with room for `N` bytes.
#[verifier::external_body]
fn new_string<const N: usize>() -> (r: Text)
    ensures
        text_chars(r) == Seq::<char>::empty(),
        text_capacity(r) == N,
{
    Text { inner: Box::new(heapless::String::<N>::new()) }
}

/// `heapless::String::push_str`: appends the whole piece when its bytes still
/// fit, and leaves the text as it was when they do not. Tells which.
#[verifier::external_body]
fn push_piece(text: &mut Text, piece: &str) -> (r: bool)
    ensures
        r == (byte_len(text_chars(*old(text))) + byte_len(piece@) <= text_capacity(*old(text))),
        text_chars(*final(text)) == (if r {
            text_chars(*old(text)) + piece@
        } else {
            text_chars(*old(text))
        }),
        text_capacity(*final(text)) == text_capacity(*old(text)),
{
    text.inner.push_str(piece).is_ok()
}

/// `heapless::String::as_str`: the text as a string slice.
#[verifier::external_body]
fn string_slice(text: &Text) -> (r: &str)
    ensures
        r@ == text_chars(*text),
{
    text.inner.as_str()
}

impl Text {
    /// An empty text with room for `N` bytes.
    pub fn new<const N: usize>() -> (r: Text)
        ensures
            r@ == Seq::<char>::empty(),
            text_capacity(r) == N,
    {
        new_string::<N>()
    }

    /// Appends a piece, all of it or nothing. `false` when it does not fit.
    pub fn push_str(&mut self, piece: &str) -> (r: bool)
        ensures
            r == (byte_len(old(self)@) + byte_len(piece@) <= text_capacity(*old(self))),
            final(self)@ == (if r {
                old(self)@ + piece@
            } else {
                old(self)@
            }),
            text_capacity(*final(self)) == text_capacity(*old(self)),
    {
        push_piece(self, piece)
    }

    /// A text of capacity `N` that holds exactly `piece`. `None` when it does
    /// not fit.
    pub fn holding<const N: usize>(piece: &str) -> (r: Option<Text>)
        ensures
            r is Some <==> byte_len(piece@) <= N,
            r matches Some(text) ==> text@ == piece@ && text_capacity(text) == N,
    {
        let mut text = Text::new::<N>();
        proof {
            lemma_byte_len_empty();
        }
        if text.push_str(piece) {
            assert(text@ =~= piece@);
            Some(text)
        } else {
            None
        }
    }

    /// The text as a string slice.
    pub fn as_str(&self) -> (r: &str)
        ensures
            r@ == self@,
    {
        string_slice(self)
    }
}

/// Nothing takes no bytes.
pub proof fn lemma_byte_len_empty()
    ensures
        byte_len(Seq::empty()) == 0,
{
}

/// Joining texts adds up their bytes.
pub proof fn lemma_byte_len_add(a: Seq<char>, b: Seq<char>)
    ensures
        byte_len(a + b) == byte_len(a) + byte_len(b),
    decreases a.len(),
{
    if a.len() == 0 {
        assert(a + b =~= b);
    } else {
        assert((a + b).drop_first() =~= a.drop_first() + b);
        lemma_byte_len_add(a.drop_first(), b);
    }
}

/// ASCII characters take one byte each.
pub proof fn lemma_byte_len_ascii(a: Seq<char>)
    requires
        forall|i: int| 0 <= i < a.len() ==> (#[trigger] a[i] as u32) < 128,
    ensures
        byte_len(a) == a.len(),
    decreases a.len(),
{
    if a.len() > 0 {
        lemma_byte_len_ascii(a.drop_first());
    }
}

} // verus!
