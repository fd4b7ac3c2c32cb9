//! Query strings, read by hand: `name=value` pairs joined by `&`, values
//! percent-decoded, and a parameter nobody declared ignored rather than
//! refused.

use vstd::prelude::*;
use vstd::utf8::*;

use crate::text::{parsed_u64, push_char};
use crate::window::ListWindow;

verus! {

/// The pieces of `s[..n]` that a `sep` ended, and the piece still open.
pub open spec fn pieces_upto(s: Seq<char>, sep: char, n: nat) -> (Seq<Seq<char>>, Seq<char>)
    decreases n,
{
    if n == 0 || n > s.len() {
        (Seq::empty(), Seq::empty())
    } else {
        let (done, current) = pieces_upto(s, sep, (n - 1) as nat);
        if s[n - 1] == sep {
            (done.push(current), Seq::empty())
        } else {
            (done, current.push(s[n - 1]))
        }
    }
}

/// The pieces of `s` between the separators, as std's `str::split` hands
/// them out: one more than there are separators, empty ones included.
pub open spec fn spec_pieces(s: Seq<char>, sep: char) -> Seq<Seq<char>> {
    let (done, current) = pieces_upto(s, sep, s.len());
    done.push(current)
}

/// The pieces of a text between the separators.
pub fn split_pieces(text: &str, sep: char) -> (pieces: Vec<String>)
    ensures
        crate::text::views(pieces@) == spec_pieces(text@, sep),
{
    let chars = crate::text::chars_of(text);
    let mut pieces: Vec<String> = Vec::new();
    let mut current: Vec<char> = Vec::new();
    let mut i: usize = 0;
    while i < chars.len()
        invariant
            i <= chars.len(),
            chars@ == text@,
            crate::text::views(pieces@) == pieces_upto(text@, sep, i as nat).0,
            current@ == pieces_upto(text@, sep, i as nat).1,
        decreases chars.len() - i,
    {
        let c = chars[i];
        if c == sep {
            let ghost before = pieces@;
            pieces.push(crate::text::string_of(&current));
            assert(crate::text::views(pieces@) =~= crate::text::views(before).push(current@));
            current = Vec::new();
        } else {
            current.push(c);
        }
        i += 1;
    }
    let ghost before = pieces@;
    pieces.push(crate::text::string_of(&current));
    assert(crate::text::views(pieces@) =~= crate::text::views(before).push(current@));
    pieces
}

/// Where `c` first stands in `s`, if it does.
pub open spec fn first_of(s: Seq<char>, c: char) -> Option<nat>
    decreases s.len(),
{
    if s.len() == 0 {
        None
    } else if s[0] == c {
        Some(0)
    } else {
        match first_of(s.drop_first(), c) {
            Some(k) => Some(k + 1),
            None => None,
        }
    }
}

proof fn lemma_first_of_prefix(s: Seq<char>, c: char, k: nat)
    requires
        k <= s.len(),
        forall|j: int| 0 <= j < k ==> s[j] != c,
    ensures
        k == s.len() ==> first_of(s, c) is None,
        k < s.len() && s[k as int] == c ==> first_of(s, c) == Some(k),
    decreases k,
{
    if k > 0 {
        lemma_first_of_prefix(s.drop_first(), c, (k - 1) as nat);
    }
}

/// A piece split at its first `=`, as std's `str::split_once` does.
pub open spec fn spec_split_pair(piece: Seq<char>) -> Option<(Seq<char>, Seq<char>)> {
    match first_of(piece, '=') {
        Some(k) => Some((piece.take(k as int), piece.skip((k + 1) as int))),
        None => None,
    }
}

/// A piece split at its first `=`: the name before it and the value after.
pub fn split_pair(piece: &str) -> (pair: Option<(String, String)>)
    ensures
        pair is None <==> spec_split_pair(piece@) is None,
        pair matches Some((name, value)) ==> spec_split_pair(piece@) == Some((name@, value@)),
{
    let chars = crate::text::chars_of(piece);
    let mut k: usize = 0;
    while k < chars.len()
        invariant
            k <= chars.len(),
            chars@ == piece@,
            forall|j: int| 0 <= j < k ==> chars@[j] != '=',
        ensures
            k <= chars.len(),
            forall|j: int| 0 <= j < k ==> chars@[j] != '=',
            k == chars.len() || chars@[k as int] == '=',
        decreases chars.len() - k,
    {
        if chars[k] == '=' {
            break;
        }
        k += 1;
    }
    proof {
        lemma_first_of_prefix(piece@, '=', k as nat);
    }
    if k == chars.len() {
        return None;
    }
    let name = crate::events::store::char_range(&chars, 0, k);
    let value = crate::events::store::char_range(&chars, k + 1, chars.len());
    assert(name@ =~= piece@.take(k as int));
    assert(value@ =~= piece@.skip(k + 1));
    Some((crate::text::string_of(&name), crate::text::string_of(&value)))
}

/// The value of an ASCII hexadecimal digit byte, if it is one.
pub open spec fn hex_byte(b: u8) -> Option<u8> {
    if 48 <= b && b <= 57 {
        Some((b - 48) as u8)
    } else if 65 <= b && b <= 70 {
        Some((b - 55) as u8)
    } else if 97 <= b && b <= 102 {
        Some((b - 87) as u8)
    } else {
        None
    }
}

/// The bytes `%XY` escapes stand for: each `%` followed by two hexadecimal
/// digits is the byte they spell; every other byte is itself.
pub open spec fn unescaped(bytes: Seq<u8>) -> Seq<u8>
    decreases bytes.len(),
{
    if bytes.len() == 0 {
        Seq::empty()
    } else if bytes.len() >= 3 && bytes[0] == 37 && hex_byte(bytes[1]) is Some && hex_byte(bytes[2]) is Some {
        seq![(hex_byte(bytes[1]).unwrap() * 16 + hex_byte(bytes[2]).unwrap()) as u8] + unescaped(bytes.skip(3))
    } else {
        seq![bytes[0]] + unescaped(bytes.skip(1))
    }
}

/// A text with every `+` read as a space.
pub open spec fn plus_as_space(s: Seq<char>) -> Seq<char> {
    Seq::new(s.len(), |i: int| if s[i] == '+' { ' ' } else { s[i] })
}

/// What std's `String::from_utf8_lossy` makes of `bytes`.
pub uninterp spec fn lossy_text(bytes: Seq<u8>) -> Seq<char>;

/// Reads bytes as text, replacing what is not UTF-8, by std's
/// `String::from_utf8_lossy`. Claimed: the text is a function of the bytes,
/// named `lossy_text`, and is their decoding where they are valid UTF-8.
#[verifier::external_body]
fn utf8_lossy(bytes: &[u8]) -> (text: String)
    ensures
        text@ == lossy_text(bytes@),
        valid_utf8(bytes@) ==> text@ == decode_utf8(bytes@),
{
    String::from_utf8_lossy(bytes).into_owned()
}

/// The value of one hexadecimal digit byte.
fn hex_of(b: u8) -> (value: Option<u8>)
    ensures
        value == hex_byte(b),
{
    if 48 <= b && b <= 57 {
        Some(b - 48)
    } else if 65 <= b && b <= 70 {
        Some(b - 55)
    } else if 97 <= b && b <= 102 {
        Some(b - 87)
    } else {
        None
    }
}

/// Decodes one query value: `+` is a space, `%XY` the byte it spells, and
/// what does not form UTF-8 afterwards is replaced.
pub fn percent_decode(value: &str) -> (decoded: String)
    ensures
        decoded@ == lossy_text(unescaped(encode_utf8(plus_as_space(value@)))),
        valid_utf8(unescaped(encode_utf8(plus_as_space(value@))))
            ==> decoded@ == decode_utf8(unescaped(encode_utf8(plus_as_space(value@)))),
{
    let chars = crate::text::chars_of(value);
    let mut spaced = String::new();
    let mut i: usize = 0;
    while i < chars.len()
        invariant
            i <= chars.len(),
            chars@ == value@,
            spaced@ == plus_as_space(value@).take(i as int),
        decreases chars.len() - i,
    {
        let c = if chars[i] == '+' { ' ' } else { chars[i] };
        push_char(&mut spaced, c);
        assert(spaced@ =~= plus_as_space(value@).take(i + 1));
        i += 1;
    }
    assert(spaced@ =~= plus_as_space(value@));
    let bytes = spaced.as_str().as_bytes();
    let mut out: Vec<u8> = Vec::new();
    let mut index: usize = 0;
    assert(bytes@.skip(0) =~= bytes@);
    assert(out@ + bytes@ =~= bytes@);
    while index < bytes.len()
        invariant
            index <= bytes.len(),
            out@ + unescaped(bytes@.skip(index as int)) == unescaped(bytes@),
        decreases bytes.len() - index,
    {
        let ghost rest = bytes@.skip(index as int);
        if bytes[index] == 37 && bytes.len() >= 3 && index < bytes.len() - 2 {
            if let (Some(high), Some(low)) = (hex_of(bytes[index + 1]), hex_of(bytes[index + 2])) {
                let byte = high * 16 + low;
                assert(rest.skip(3) =~= bytes@.skip(index + 3));
                assert(rest[1] == bytes@[index + 1] && rest[2] == bytes@[index + 2]);
                out.push(byte);
                index += 3;
                assert(out@ + unescaped(bytes@.skip(index as int)) =~= unescaped(bytes@)) by {
                    assert(unescaped(rest) == seq![byte] + unescaped(rest.skip(3)));
                }
                continue;
            }
        }
        assert(rest.skip(1) =~= bytes@.skip(index + 1));
        assert(rest[0] == bytes@[index as int]);
        if bytes.len() >= 3 && index < bytes.len() - 2 {
            assert(rest[1] == bytes@[index + 1] && rest[2] == bytes@[index + 2]);
        }
        out.push(bytes[index]);
        index += 1;
        assert(out@ + unescaped(bytes@.skip(index as int)) =~= unescaped(bytes@)) by {
            assert(unescaped(rest) == seq![rest[0]] + unescaped(rest.skip(1)));
        }
    }
    assert(bytes@.skip(index as int) =~= Seq::<u8>::empty());
    assert(out@ =~= unescaped(bytes@));
    utf8_lossy(out.as_slice())
}

/// What std's `str::parse::<u32>` answers.
pub open spec fn parsed_u32(s: Seq<char>) -> Option<u32> {
    match parsed_u64(s) {
        Some(v) => if v <= u32::MAX { Some(v as u32) } else { None },
        None => None,
    }
}

/// Reads a `u32` the way std's `str::parse` does.
pub fn parse_u32(text: &str) -> (value: Option<u32>)
    ensures
        value == parsed_u32(text@),
{
    let chars = crate::text::chars_of(text);
    match crate::text::parse_u64(chars.as_slice()) {
        Some(v) => if v <= 4294967295 { Some(v as u32) } else { None },
        None => None,
    }
}

/// A positive page number or size read from a query value, if it is one.
pub open spec fn positive(value: Seq<char>) -> Option<u32> {
    match parsed_u32(value) {
        Some(n) => if n > 0 { Some(n) } else { None },
        None => None,
    }
}

/// The listing window the first `n` pieces of a query ask for: each `page` or
/// `size` overrides the one before it, and anything else is ignored.
pub open spec fn window_after(pieces: Seq<Seq<char>>, n: nat) -> ListWindow
    decreases n,
{
    if n == 0 || n > pieces.len() {
        ListWindow { page: None, size: None }
    } else {
        let before = window_after(pieces, (n - 1) as nat);
        match spec_split_pair(pieces[n - 1]) {
            Some((name, value)) => if name == "page"@ {
                ListWindow { page: positive(value), ..before }
            } else if name == "size"@ {
                ListWindow { size: positive(value), ..before }
            } else {
                before
            },
            None => before,
        }
    }
}

/// The paging a catalog listing was asked for: `?page=2&size=50`. Absent
/// means the whole listing.
pub fn catalog_window_of(query: Option<&str>) -> (window: ListWindow)
    ensures
        window == window_after(spec_pieces(match query { Some(q) => q@, None => Seq::empty() }, '&'),
            spec_pieces(match query { Some(q) => q@, None => Seq::empty() }, '&').len()),
{
    let text: &str = match query {
        Some(q) => q,
        None => "",
    };
    proof {
        reveal_strlit("");
    }
    let pieces = split_pieces(text, '&');
    let ghost all = crate::text::views(pieces@);
    let mut window = ListWindow { page: None, size: None };
    let mut i: usize = 0;
    while i < pieces.len()
        invariant
            i <= pieces.len(),
            all == crate::text::views(pieces@),
            all.len() == pieces.len(),
            window == window_after(all, i as nat),
        decreases pieces.len() - i,
    {
        assert(all[i as int] == pieces@[i as int]@);
        if let Some((name, value)) = split_pair(pieces[i].as_str()) {
            if crate::text::same_text(name.as_str(), "page") {
                window.page = match parse_u32(value.as_str()) {
                    Some(n) => if n > 0 { Some(n) } else { None },
                    None => None,
                };
            } else if crate::text::same_text(name.as_str(), "size") {
                window.size = match parse_u32(value.as_str()) {
                    Some(n) => if n > 0 { Some(n) } else { None },
                    None => None,
                };
            }
        }
        i += 1;
    }
    window
}

} // verus!
