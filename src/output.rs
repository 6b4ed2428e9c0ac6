//! Captured output: decoding raw bytes to text and splitting the text into
//! argument tokens, one per non-empty line.
use vstd::prelude::*;
use vstd::string::StrSliceExecFns;
use vstd::string::StringExecFns;

verus! {

/// The text that lossy UTF-8 decoding makes of a byte sequence.
pub uninterp spec fn lossy_text(b: Seq<u8>) -> Seq<char>;

/// Relies on `String::from_utf8_lossy`: valid text is kept as it is, and each
/// invalid sequence becomes one U+FFFD, so the text is empty exactly when the
/// bytes are.
#[verifier::external_body]
pub(crate) fn decode_lossy(bytes: &[u8]) -> (r: String)
    ensures
        r@ == lossy_text(bytes@),
        bytes@.len() == 0 <==> r@.len() == 0,
{
    String::from_utf8_lossy(bytes).into_owned()
}

/// The pieces of a text between line feeds, in order: `n` line feeds give
/// `n + 1` pieces, some of which may be empty.
pub open spec fn pieces(s: Seq<char>) -> Seq<Seq<char>>
    decreases s.len(),
{
    if s.len() == 0 {
        seq![Seq::empty()]
    } else {
        let before = pieces(s.drop_last());
        if s.last() == '\n' {
            before.push(Seq::empty())
        } else {
            before.update(before.len() - 1, before.last().push(s.last()))
        }
    }
}

/// A piece that holds at least one character.
pub open spec fn non_empty(p: Seq<char>) -> bool {
    p.len() > 0
}

/// The tokens of a text: its non-empty lines, in order.
pub open spec fn tokens(s: Seq<char>) -> Seq<Seq<char>> {
    pieces(s).filter(|p: Seq<char>| non_empty(p))
}

proof fn lemma_pieces_non_empty(s: Seq<char>)
    ensures
        pieces(s).len() >= 1,
    decreases s.len(),
{
    if s.len() > 0 {
        lemma_pieces_non_empty(s.drop_last());
    }
}

/// The characters of a text, in order.
fn chars_of(text: &str) -> (r: Vec<char>)
    ensures
        r@ == text@,
{
    let mut r: Vec<char> = Vec::new();
    for c in it: text.chars()
        invariant
            r@ == it.seq().take(it.index() as int),
    {
        r.push(c);
    }
    r
}

/// Splits a text at its line feeds and keeps the non-empty lines, in order;
/// the empty piece that a final line feed leaves is dropped with the others.
pub fn split_tokens(text: &str) -> (r: Vec<String>)
    ensures
        r.deep_view() == tokens(text@),
{
    let chars = chars_of(text);
    let n = chars.len();
    let mut r: Vec<String> = Vec::new();
    let mut start: usize = 0;
    let mut i: usize = 0;
    proof {
        reveal_with_fuel(Seq::filter, 2);
        assert(text@.take(0) =~= Seq::<char>::empty());
        assert(text@.subrange(0, 0) =~= Seq::<char>::empty());
        assert(pieces(text@.take(0)).drop_last() =~= Seq::<Seq<char>>::empty());
    }
    while i < n
        invariant
            n == chars@.len(),
            chars@ == text@,
            start <= i <= n,
            pieces(text@.take(i as int)).last() == text@.subrange(start as int, i as int),
            r.deep_view() == pieces(text@.take(i as int)).drop_last().filter(
                |p: Seq<char>| non_empty(p),
            ),
        decreases n - i,
    {
        let ghost before = pieces(text@.take(i as int));
        proof {
            let s = text@.take(i as int + 1);
            assert(s.drop_last() =~= text@.take(i as int));
            assert(s.last() == chars@[i as int]);
            lemma_pieces_non_empty(text@.take(i as int));
        }
        if chars[i] == '\n' {
            if start < i {
                let piece = text.substring_char(start, i);
                r.push(String::from_str(piece));
            }
            proof {
                let after = pieces(text@.take(i as int + 1));
                assert(after =~= before.push(Seq::empty()));
                assert(after.drop_last() =~= before);
                reveal_with_fuel(Seq::filter, 1);
                assert(r.deep_view() =~= before.filter(|p: Seq<char>| non_empty(p)));
            }
            start = i + 1;
        } else {
            proof {
                let after = pieces(text@.take(i as int + 1));
                assert(after.drop_last() =~= before.drop_last());
                assert(after.last() =~= text@.subrange(start as int, i as int + 1));
            }
        }
        i = i + 1;
    }
    proof {
        assert(text@.take(n as int) =~= text@);
        lemma_pieces_non_empty(text@);
    }
    if start < n {
        let piece = text.substring_char(start, n);
        r.push(String::from_str(piece));
    }
    proof {
        reveal_with_fuel(Seq::filter, 1);
        let all = pieces(text@);
        assert(r.deep_view() =~= all.filter(|p: Seq<char>| non_empty(p)));
    }
    r
}

} // verus!
