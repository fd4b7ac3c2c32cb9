//! Where events are kept, and how a tenant's are found: the names the store
//! gives its directories and files, and the positions it records.

use vstd::prelude::*;
use vstd::utf8::*;

use crate::events::ingest::{Producer, Stream};
use crate::text::{decimal, lex_lt, precedes, push_char, push_decimal, push_str, same_text};

verus! {

/// Whether a byte is an ASCII letter or digit.
pub open spec fn is_alnum(b: u8) -> bool {
    (48 <= b && b <= 57) || (65 <= b && b <= 90) || (97 <= b && b <= 122)
}

/// The upper-case hexadecimal digit of a nibble.
pub open spec fn hex_upper(nibble: u8) -> char {
    if nibble < 10 { ((48 + nibble) as u8) as char } else { ((55 + nibble) as u8) as char }
}

/// The value of a hexadecimal digit, either case.
pub open spec fn spec_hex_value(c: char) -> Option<u8> {
    if '0' <= c && c <= '9' {
        Some((c as u32 - 48) as u8)
    } else if 'a' <= c && c <= 'f' {
        Some((c as u32 - 97 + 10) as u8)
    } else if 'A' <= c && c <= 'F' {
        Some((c as u32 - 65 + 10) as u8)
    } else {
        None
    }
}

/// How one byte of a type name is spelled in a file name: letters and digits
/// as themselves, `.` as `-`, `/` as `_`, anything else percent-encoded.
pub open spec fn slug_byte(b: u8) -> Seq<char> {
    if is_alnum(b) {
        seq![b as char]
    } else if b == 46 {
        seq!['-']
    } else if b == 47 {
        seq!['_']
    } else {
        seq!['%', hex_upper(b / 16), hex_upper(b % 16)]
    }
}

/// The file-name spelling of a sequence of bytes.
pub open spec fn slug_bytes(bytes: Seq<u8>) -> Seq<char>
    decreases bytes.len(),
{
    if bytes.len() == 0 {
        Seq::empty()
    } else {
        slug_byte(bytes[0]) + slug_bytes(bytes.drop_first())
    }
}

/// The file-name spelling of a registered event type: its UTF-8 bytes, slugged.
pub open spec fn spec_slug(event_type: Seq<char>) -> Seq<char> {
    slug_bytes(encode_utf8(event_type))
}

/// The bytes a file-name spelling stands for, or `None` where it is not one.
pub open spec fn unslug_chars(s: Seq<char>) -> Option<Seq<u8>>
    decreases s.len(),
{
    if s.len() == 0 {
        Some(Seq::empty())
    } else {
        let c = s[0];
        if ('0' <= c && c <= '9') || ('A' <= c && c <= 'Z') || ('a' <= c && c <= 'z') {
            match unslug_chars(s.drop_first()) {
                Some(rest) => Some(seq![c as u8] + rest),
                None => None,
            }
        } else if c == '-' {
            match unslug_chars(s.drop_first()) {
                Some(rest) => Some(seq![46u8] + rest),
                None => None,
            }
        } else if c == '_' {
            match unslug_chars(s.drop_first()) {
                Some(rest) => Some(seq![47u8] + rest),
                None => None,
            }
        } else if c == '%' && s.len() >= 3 && spec_hex_value(s[1]) is Some && spec_hex_value(s[2]) is Some {
            match unslug_chars(s.skip(3)) {
                Some(rest) => Some(seq![(spec_hex_value(s[1])->0 * 16 + spec_hex_value(s[2])->0) as u8] + rest),
                None => None,
            }
        } else {
            None
        }
    }
}

/// The registered type name a file name stands for: refused when empty, when
/// it is not a spelling [`slug`] writes, or when the bytes are not UTF-8.
pub open spec fn spec_unslug(s: Seq<char>) -> Option<Seq<char>> {
    if s.len() == 0 {
        None
    } else {
        match unslug_chars(s) {
            Some(bytes) => if valid_utf8(bytes) { Some(decode_utf8(bytes)) } else { None },
            None => None,
        }
    }
}

proof fn lemma_slug_bytes_append(a: Seq<u8>, b: Seq<u8>)
    ensures
        slug_bytes(a + b) == slug_bytes(a) + slug_bytes(b),
    decreases a.len(),
{
    if a.len() == 0 {
        assert(a + b =~= b);
    } else {
        assert((a + b).drop_first() =~= a.drop_first() + b);
        lemma_slug_bytes_append(a.drop_first(), b);
    }
}

fn hex_digit(nibble: u8) -> (c: char)
    requires
        nibble < 16,
    ensures
        c == hex_upper(nibble),
{
    if nibble < 10 { (48 + nibble) as char } else { (55 + nibble) as char }
}

/// The value of a hexadecimal digit, either case.
pub fn hex_value(c: char) -> (value: Option<u8>)
    ensures
        value == spec_hex_value(c),
{
    if '0' <= c && c <= '9' {
        Some((c as u32 - 48) as u8)
    } else if 'a' <= c && c <= 'f' {
        Some((c as u32 - 97 + 10) as u8)
    } else if 'A' <= c && c <= 'F' {
        Some((c as u32 - 65 + 10) as u8)
    } else {
        None
    }
}

/// A registered type name as a file name: reversible, so the indexed types can
/// be listed back, and collision-free, so `a.b`, `a-b`, `a/b` and `a_b` are
/// four different indexes.
pub fn slug(event_type: &str) -> (encoded: String)
    ensures
        encoded@ == spec_slug(event_type@),
{
    let bytes = event_type.as_bytes();
    let mut encoded = String::new();
    let mut i: usize = 0;
    while i < bytes.len()
        invariant
            i <= bytes.len(),
            bytes@ == encode_utf8(event_type@),
            encoded@ == slug_bytes(bytes@.take(i as int)),
        decreases bytes.len() - i,
    {
        let b = bytes[i];
        proof {
            assert(bytes@.take(i + 1) =~= bytes@.take(i as int) + seq![b]);
            lemma_slug_bytes_append(bytes@.take(i as int), seq![b]);
            assert(seq![b].drop_first() =~= Seq::<u8>::empty());
            assert(slug_bytes(seq![b].drop_first()) == Seq::<char>::empty());
            assert(slug_byte(b) + Seq::<char>::empty() =~= slug_byte(b));
            assert(slug_bytes(seq![b]) =~= slug_byte(b));
        }
        if (48 <= b && b <= 57) || (65 <= b && b <= 90) || (97 <= b && b <= 122) {
            push_char(&mut encoded, b as char);
        } else if b == 46 {
            push_char(&mut encoded, '-');
        } else if b == 47 {
            push_char(&mut encoded, '_');
        } else {
            push_char(&mut encoded, '%');
            push_char(&mut encoded, hex_digit(b / 16));
            push_char(&mut encoded, hex_digit(b % 16));
            assert(encoded@ =~= slug_bytes(bytes@.take(i as int)) + slug_byte(b));
        }
        i += 1;
    }
    assert(bytes@.take(bytes.len() as int) =~= bytes@);
    encoded
}

/// The text of a byte string, when it is UTF-8 (std's `String::from_utf8`).
#[verifier::external_body]
fn string_from_utf8(bytes: Vec<u8>) -> (text: Option<String>)
    ensures
        text is Some <==> valid_utf8(bytes@),
        text matches Some(t) ==> t@ == decode_utf8(bytes@),
{
    String::from_utf8(bytes).ok()
}

/// The registered type name a file name stands for, or `None` when the file
/// name is not one [`slug`] writes.
pub fn unslug(slug: &str) -> (decoded: Option<String>)
    ensures
        decoded matches Some(t) ==> spec_unslug(slug@) == Some(t@),
        decoded is None ==> spec_unslug(slug@) is None,
{
    let chars = crate::text::chars_of(slug);
    if chars.len() == 0 {
        return None;
    }
    let mut decoded: Vec<u8> = Vec::new();
    let mut at: usize = 0;
    assert(chars@.skip(0) =~= chars@);
    proof {
        match unslug_chars(chars@) {
            Some(rest) => assert(decoded@ + rest =~= rest),
            None => {},
        }
    }
    while at < chars.len()
        invariant
            at <= chars.len(),
            chars@ == slug@,
            unslug_chars(chars@) == match unslug_chars(chars@.skip(at as int)) {
                Some(rest) => Some(decoded@ + rest),
                None => None::<Seq<u8>>,
            },
        decreases chars.len() - at,
    {
        let c = chars[at];
        let ghost here = chars@.skip(at as int);
        assert(here[0] == c);
        assert(here.drop_first() =~= chars@.skip(at + 1));
        if ('0' <= c && c <= '9') || ('A' <= c && c <= 'Z') || ('a' <= c && c <= 'z') {
            let ghost before = decoded@;
            decoded.push(c as u8);
            proof {
                match unslug_chars(chars@.skip(at + 1)) {
                    Some(rest) => assert(before + (seq![c as u8] + rest) =~= decoded@ + rest),
                    None => {},
                }
            }
        } else if c == '-' {
            let ghost before = decoded@;
            decoded.push(46);
            proof {
                match unslug_chars(chars@.skip(at + 1)) {
                    Some(rest) => assert(before + (seq![46u8] + rest) =~= decoded@ + rest),
                    None => {},
                }
            }
        } else if c == '_' {
            let ghost before = decoded@;
            decoded.push(47);
            proof {
                match unslug_chars(chars@.skip(at + 1)) {
                    Some(rest) => assert(before + (seq![47u8] + rest) =~= decoded@ + rest),
                    None => {},
                }
            }
        } else if c == '%' {
            if chars.len() - at <= 2 {
                return None;
            }
            let high = match hex_value(chars[at + 1]) {
                Some(high) => high,
                None => return None,
            };
            let low = match hex_value(chars[at + 2]) {
                Some(low) => low,
                None => return None,
            };
            assert(here[1] == chars@[at + 1]);
            assert(here[2] == chars@[at + 2]);
            assert(here.skip(3) =~= chars@.skip(at + 3));
            let ghost before = decoded@;
            decoded.push(high * 16 + low);
            proof {
                match unslug_chars(chars@.skip(at + 3)) {
                    Some(rest) => assert(before + (seq![(high * 16 + low) as u8] + rest) =~= decoded@ + rest),
                    None => {},
                }
            }
            at += 2;
        } else {
            return None;
        }
        at += 1;
    }
    assert(chars@.skip(at as int) =~= Seq::<char>::empty());
    assert(decoded@ + Seq::<u8>::empty() =~= decoded@);
    string_from_utf8(decoded)
}

} // verus!

verus! {

proof fn lemma_hex_round_trip(n: u8)
    requires
        n < 16,
    ensures
        spec_hex_value(hex_upper(n)) == Some(n),
{
    if n < 10 {
        assert(((48 + n) as u8) as char as u32 == 48 + n);
    } else {
        assert(((55 + n) as u8) as char as u32 == 55 + n);
    }
}

/// Reading back a slugged byte string gives the bytes.
pub proof fn lemma_unslug_slug_bytes(bytes: Seq<u8>)
    ensures
        unslug_chars(slug_bytes(bytes)) == Some(bytes),
    decreases bytes.len(),
{
    if bytes.len() == 0 {
        assert(slug_bytes(bytes) =~= Seq::<char>::empty());
    } else {
        let b = bytes[0];
        let rest = bytes.drop_first();
        lemma_unslug_slug_bytes(rest);
        let s = slug_bytes(bytes);
        assert(s == slug_byte(b) + slug_bytes(rest));
        if is_alnum(b) {
            assert(s[0] == b as char);
            assert((b as char) as u8 == b);
            assert(s.drop_first() =~= slug_bytes(rest));
            assert(seq![b] + rest =~= bytes);
        } else if b == 46 {
            assert(s[0] == '-');
            assert(s.drop_first() =~= slug_bytes(rest));
            assert(seq![46u8] + rest =~= bytes);
        } else if b == 47 {
            assert(s[0] == '_');
            assert(s.drop_first() =~= slug_bytes(rest));
            assert(seq![47u8] + rest =~= bytes);
        } else {
            lemma_hex_round_trip(b / 16);
            lemma_hex_round_trip(b % 16);
            assert(s[0] == '%');
            assert(s[1] == hex_upper(b / 16));
            assert(s[2] == hex_upper(b % 16));
            assert(s.skip(3) =~= slug_bytes(rest));
            assert(((b / 16) * 16 + b % 16) as u8 == b);
            assert(seq![b] + rest =~= bytes);
        }
    }
}

/// A registered event type read back from its file name is the type: the
/// spelling is reversible for every non-empty type name.
pub proof fn law_slug_is_reversible(event_type: Seq<char>)
    requires
        event_type.len() > 0,
    ensures
        spec_unslug(spec_slug(event_type)) == Some(event_type),
{
    let bytes = encode_utf8(event_type);
    encode_utf8_valid_utf8(event_type);
    encode_utf8_decode_utf8(event_type);
    lemma_unslug_slug_bytes(bytes);
    encode_utf8_first_scalar(event_type);
    assert(bytes.len() > 0);
    assert(slug_bytes(bytes).len() > 0);
}

/// Two different type names never share a file name.
pub proof fn law_slug_is_collision_free(left: Seq<char>, right: Seq<char>)
    requires
        spec_slug(left) == spec_slug(right),
    ensures
        left == right,
{
    if left.len() > 0 && right.len() > 0 {
        law_slug_is_reversible(left);
        law_slug_is_reversible(right);
    } else if left.len() > 0 {
        law_slug_is_reversible(left);
        assert(encode_utf8(right) =~= Seq::<u8>::empty());
    } else if right.len() > 0 {
        law_slug_is_reversible(right);
        assert(encode_utf8(left) =~= Seq::<u8>::empty());
    } else {
        assert(left =~= right);
    }
}

} // verus!

verus! {

/// How many records one segment holds before the next is started.
pub const SEGMENT_RECORDS: u64 = 10000;

/// Whether a name is one path segment a store can make a directory of: not
/// empty, not `.` or `..`, and free of `/`, `\` and NUL.
pub open spec fn spec_is_safe(name: Seq<char>) -> bool {
    &&& name.len() > 0
    &&& name != "."@
    &&& name != ".."@
    &&& !name.contains('/')
    &&& !name.contains('\\')
    &&& !name.contains('\0')
}

/// The refusal of a name that is not one path segment.
pub open spec fn unsafe_name_message(name: Seq<char>) -> Seq<char> {
    "`"@ + name + "` is not a name this store can make a directory of"@
}

/// A path segment that is one segment, or why not. Refused rather than
/// sanitized: a sanitized name is a different name, and two producers could
/// sanitize to one.
pub fn safe(name: &str) -> (held: Result<String, String>)
    ensures
        spec_is_safe(name@) ==> (held matches Ok(n) && n@ == name@),
        !spec_is_safe(name@) ==> (held matches Err(m) && m@ == unsafe_name_message(name@)),
{
    let chars = crate::text::chars_of(name);
    let mut clean = chars.len() > 0;
    let mut i: usize = 0;
    while i < chars.len()
        invariant
            i <= chars.len(),
            chars@ == name@,
            clean <==> (chars.len() > 0 && forall|j: int| 0 <= j < i ==> #[trigger] chars@[j] != '/' && chars@[j] != '\\' && chars@[j] != '\0'),
        decreases chars.len() - i,
    {
        let c = chars[i];
        if c == '/' || c == '\\' || c == '\0' {
            clean = false;
        }
        i += 1;
    }
    proof {
        reveal_strlit(".");
        reveal_strlit("..");
        if clean {
            assert(!name@.contains('/'));
            assert(!name@.contains('\\'));
            assert(!name@.contains('\0'));
        } else if chars.len() > 0 {
            let j = choose|j: int| 0 <= j < chars.len() && !(chars@[j] != '/' && chars@[j] != '\\' && chars@[j] != '\0');
            assert(name@[j] == chars@[j]);
        }
    }
    let dot = chars.len() == 1 && chars[0] == '.';
    let dots = chars.len() == 2 && chars[0] == '.' && chars[1] == '.';
    proof {
        if chars.len() == 1 {
            assert(dot <==> name@ =~= "."@);
        }
        if chars.len() == 2 {
            assert(dots <==> name@ =~= ".."@);
        }
    }
    if !clean || dot || dots {
        let mut text = String::new();
        push_str(&mut text, "`");
        push_str(&mut text, name);
        push_str(&mut text, "` is not a name this store can make a directory of");
        return Err(text);
    }
    Ok(name.to_owned())
}

/// The first position of the segment a position belongs in.
pub open spec fn spec_segment_first(position: u64) -> u64 {
    ((if position == 0 { 0 } else { position - 1 }) as u64 / SEGMENT_RECORDS * SEGMENT_RECORDS + 1) as u64
}

/// The line inside its segment a position is written at.
pub open spec fn spec_line_in_segment(position: u64) -> u64 {
    (if position == 0 { 0 } else { position - 1 }) as u64 % SEGMENT_RECORDS
}

/// The first position of the segment a position belongs in.
pub fn segment_first(position: u64) -> (first: u64)
    ensures
        first == spec_segment_first(position),
{
    position.saturating_sub(1) / SEGMENT_RECORDS * SEGMENT_RECORDS + 1
}

/// The line inside its segment a position is written at.
pub fn line_in_segment(position: u64) -> (line: u64)
    ensures
        line == spec_line_in_segment(position),
{
    position.saturating_sub(1) % SEGMENT_RECORDS
}

/// The segment file a position is appended to: the one named by the first
/// position of its segment.
pub fn segment_for(position: u64) -> (name: String)
    ensures
        name@ == "seg-"@ + padded(spec_segment_first(position)) + ".events"@,
{
    segment_file_name(segment_first(position))
}

/// Where a type's index lives, as the path under a scope's directory:
/// `index/<slug>.idx`.
pub fn index_path(event_type: &str) -> (path: (String, String))
    ensures
        path.0@ == "index"@,
        path.1@ == spec_slug(event_type@) + ".idx"@,
{
    let mut name = slug(event_type);
    push_str(&mut name, ".idx");
    ("index".to_string(), name)
}

/// A position is found again from its segment and its line: segments are
/// numbered by their first position, hold `SEGMENT_RECORDS` positions each,
/// and never overlap.
pub proof fn law_segment_and_line_locate_a_position(position: u64)
    requires
        position >= 1,
    ensures
        spec_segment_first(position) + spec_line_in_segment(position) == position,
        spec_segment_first(position) <= position < spec_segment_first(position) + SEGMENT_RECORDS,
        (spec_segment_first(position) - 1) % (SEGMENT_RECORDS as int) == 0,
{
    let p = (position - 1) as u64;
    assert(p / SEGMENT_RECORDS * SEGMENT_RECORDS + p % SEGMENT_RECORDS == p);
}

/// Twenty '0's and then some: the fixed-width spelling segment and batch file
/// names carry, so that they sort as they number.
pub open spec fn padded(n: u64) -> Seq<char> {
    Seq::new((20 - decimal(n as nat).len()) as nat, |i: int| '0') + decimal(n as nat)
}

/// Ten to the `k`.
pub open spec fn pow10(k: nat) -> nat
    decreases k,
{
    if k == 0 { 1 } else { 10 * pow10((k - 1) as nat) }
}

proof fn lemma_decimal_len(n: nat, k: nat)
    requires
        k >= 1,
        n < pow10(k),
    ensures
        decimal(n).len() <= k,
    decreases k,
{
    if n >= 10 {
        assert(k >= 2) by {
            if k == 1 {
                assert(pow10(1) == 10 * pow10(0));
            }
        }
        assert(n / 10 < pow10((k - 1) as nat)) by {
            assert(pow10(k) == 10 * pow10((k - 1) as nat));
        }
        lemma_decimal_len(n / 10, (k - 1) as nat);
    }
}

/// A u64 never needs more than twenty digits.
pub proof fn lemma_decimal_fits(n: u64)
    ensures
        decimal(n as nat).len() <= 20,
{
    reveal_with_fuel(pow10, 21);
    assert(pow10(20) == 100000000000000000000nat);
    lemma_decimal_len(n as nat, 20);
}

/// Appends the fixed-width spelling of `n`.
pub fn push_padded(text: &mut String, n: u64)
    ensures
        final(text)@ == old(text)@ + padded(n),
{
    let digits = crate::text::decimal_chars(n);
    proof {
        lemma_decimal_fits(n);
    }
    let ghost start = text@;
    let mut zeros: usize = 20 - digits.len();
    let ghost total = zeros;
    while zeros > 0
        invariant
            zeros <= total,
            total == 20 - decimal(n as nat).len(),
            text@ == start + Seq::new((total - zeros) as nat, |i: int| '0'),
        decreases zeros,
    {
        push_char(text, '0');
        assert(start + Seq::new((total - zeros) as nat, |i: int| '0').push('0') =~= start + Seq::new((total - zeros + 1) as nat, |i: int| '0'));
        zeros -= 1;
    }
    crate::text::push_all(text, &digits);
    assert(start + Seq::new(total as nat, |i: int| '0') + decimal(n as nat) =~= start + padded(n));
}

/// The file name of the event segment starting at `first`.
pub fn segment_file_name(first: u64) -> (name: String)
    ensures
        name@ == "seg-"@ + padded(first) + ".events"@,
{
    let mut name = String::new();
    push_str(&mut name, "seg-");
    push_padded(&mut name, first);
    push_str(&mut name, ".events");
    name
}

/// The file name of the envelope attesting the batch starting at `first_seq`.
pub fn batch_file_name(first_seq: u64) -> (name: String)
    ensures
        name@ == "batch-"@ + padded(first_seq) + ".jws"@,
{
    let mut name = String::new();
    push_str(&mut name, "batch-");
    push_padded(&mut name, first_seq);
    push_str(&mut name, ".jws");
    name
}

} // verus!

verus! {

/// What the store knows about one producer stream.
#[derive(Debug, Clone, PartialEq, Eq)]
pub struct StreamState {
    /// The highest contiguous durable sequence. Never the highest accepted.
    pub acked: u64,
    /// The digest at that point, which the next record must name.
    pub head: String,
    /// Set when the stream was closed permanently, and why.
    pub closed: Option<String>,
}

impl StreamState {
    /// The state of a stream nobody has shipped: nothing acknowledged, the
    /// chain at its genesis digest, open.
    pub fn fresh(genesis: &str) -> (state: Self)
        ensures
            state.acked == 0,
            state.head@ == genesis@,
            state.closed is None,
    {
        StreamState { acked: 0, head: genesis.to_owned(), closed: None }
    }
}

/// Which records a reader is asking for.
#[derive(Debug, Clone, PartialEq, Eq)]
pub enum Scope {
    /// One producer's whole stream: the privileged, deployment-wide read.
    Stream { zone: String, ledger: String, class: String, producer: String, instance: String },
    /// One tenant's records, merged from every producer that contributed.
    Tenant { zone: String, ledger: String },
}

/// The stable name of a scope, which an offset is bound to.
pub open spec fn spec_scope_key(scope: Scope) -> Seq<char> {
    match scope {
        Scope::Stream { zone, ledger, class, producer, instance } =>
            "stream:"@ + zone@ + ":"@ + ledger@ + ":"@ + class@ + ":"@ + producer@ + ":"@ + instance@,
        Scope::Tenant { zone, ledger } => "tenant:"@ + zone@ + ":"@ + ledger@,
    }
}

impl Scope {
    /// The scope of one producer stream.
    pub fn for_stream(stream: &Stream) -> (scope: Self)
        ensures
            scope matches Scope::Stream { zone, ledger, class, producer, instance } && zone@ == stream.zone@
                && ledger@ == stream.ledger@ && class@ == stream.producer.class@ && producer@ == stream.producer.id@
                && instance@ == stream.producer.instance@,
    {
        Scope::Stream {
            zone: stream.zone.clone(),
            ledger: stream.ledger.clone(),
            class: stream.producer.class.clone(),
            producer: stream.producer.id.clone(),
            instance: stream.producer.instance.clone(),
        }
    }

    /// A stable name for this scope, which an offset is bound to.
    pub fn key(&self) -> (key: String)
        ensures
            key@ == spec_scope_key(*self),
    {
        let mut key = String::new();
        match self {
            Scope::Stream { zone, ledger, class, producer, instance } => {
                push_str(&mut key, "stream:");
                push_str(&mut key, zone.as_str());
                push_str(&mut key, ":");
                push_str(&mut key, ledger.as_str());
                push_str(&mut key, ":");
                push_str(&mut key, class.as_str());
                push_str(&mut key, ":");
                push_str(&mut key, producer.as_str());
                push_str(&mut key, ":");
                push_str(&mut key, instance.as_str());
            },
            Scope::Tenant { zone, ledger } => {
                push_str(&mut key, "tenant:");
                push_str(&mut key, zone.as_str());
                push_str(&mut key, ":");
                push_str(&mut key, ledger.as_str());
            },
        }
        key
    }
}

/// One stream, as the single key its write gate is found by.
pub fn stream_key(stream: &Stream) -> (key: String)
    ensures
        key@ == stream.zone@ + ":"@ + stream.ledger@ + ":"@ + stream.producer.class@ + ":"@
            + stream.producer.id@ + ":"@ + stream.producer.instance@,
{
    let mut key = String::new();
    push_str(&mut key, stream.zone.as_str());
    push_str(&mut key, ":");
    push_str(&mut key, stream.ledger.as_str());
    push_str(&mut key, ":");
    push_str(&mut key, stream.producer.class.as_str());
    push_str(&mut key, ":");
    push_str(&mut key, stream.producer.id.as_str());
    push_str(&mut key, ":");
    push_str(&mut key, stream.producer.instance.as_str());
    key
}

/// A `(class, producer, instance)` position in a ledger's stream index.
pub type Position3 = (String, String, String);

/// Whether one index position sorts strictly before another.
pub open spec fn triple_lt(a: (Seq<char>, Seq<char>, Seq<char>), b: (Seq<char>, Seq<char>, Seq<char>)) -> bool {
    lex_lt(a.0, b.0) || (a.0 == b.0 && (lex_lt(a.1, b.1) || (a.1 == b.1 && lex_lt(a.2, b.2))))
}

/// The view of one index position.
pub open spec fn triple_view(t: Position3) -> (Seq<char>, Seq<char>, Seq<char>) {
    (t.0@, t.1@, t.2@)
}

/// What a page is narrowed to.
pub struct StreamFilter<'a> {
    pub class: Option<&'a str>,
    pub producer: Option<&'a str>,
    pub instance: Option<&'a str>,
    /// The last position of the previous page.
    pub after: Option<(&'a str, &'a str, &'a str)>,
}

/// Whether a position is on the walk a filter describes.
pub open spec fn selected(t: (Seq<char>, Seq<char>, Seq<char>), filter: StreamFilter) -> bool {
    &&& (filter.class matches Some(w) ==> t.0 == w@)
    &&& (filter.producer matches Some(w) ==> t.1 == w@)
    &&& (filter.instance matches Some(w) ==> t.2 == w@)
    &&& (filter.after matches Some(last) ==> triple_lt((last.0@, last.1@, last.2@), t))
}

/// The selected positions among the first `n` of `held`, in order.
pub open spec fn selected_prefix(held: Seq<Position3>, filter: StreamFilter, n: nat) -> Seq<(Seq<char>, Seq<char>, Seq<char>)>
    decreases n,
{
    if n == 0 {
        Seq::empty()
    } else if selected(triple_view(held[n - 1]), filter) {
        selected_prefix(held, filter, (n - 1) as nat).push(triple_view(held[n - 1]))
    } else {
        selected_prefix(held, filter, (n - 1) as nat)
    }
}

/// The selected positions of a prefix begin the selected positions of a longer prefix.
pub proof fn lemma_selected_prefix_grows(held: Seq<Position3>, filter: StreamFilter, n: nat, m: nat)
    requires
        n <= m,
    ensures
        selected_prefix(held, filter, n).len() <= selected_prefix(held, filter, m).len(),
        selected_prefix(held, filter, m).take(selected_prefix(held, filter, n).len() as int) == selected_prefix(held, filter, n),
    decreases m - n,
{
    if n < m {
        lemma_selected_prefix_grows(held, filter, n, (m - 1) as nat);
        let a = selected_prefix(held, filter, n);
        let b = selected_prefix(held, filter, (m - 1) as nat);
        let c = selected_prefix(held, filter, m);
        assert(c.take(a.len() as int) =~= b.take(a.len() as int));
    } else {
        let a = selected_prefix(held, filter, n);
        assert(a.take(a.len() as int) =~= a);
    }
}

/// Strict order on index positions is irreflexive.
proof fn lemma_triple_lt_irreflexive(a: (Seq<char>, Seq<char>, Seq<char>))
    ensures
        !triple_lt(a, a),
{
    crate::text::lemma_lex_lt_irreflexive(a.0);
    crate::text::lemma_lex_lt_irreflexive(a.1);
    crate::text::lemma_lex_lt_irreflexive(a.2);
}

/// Strict order on index positions is transitive.
proof fn lemma_triple_lt_transitive(
    a: (Seq<char>, Seq<char>, Seq<char>),
    b: (Seq<char>, Seq<char>, Seq<char>),
    c: (Seq<char>, Seq<char>, Seq<char>),
)
    requires
        triple_lt(a, b),
        triple_lt(b, c),
    ensures
        triple_lt(a, c),
{
    if lex_lt(a.0, b.0) && lex_lt(b.0, c.0) {
        crate::text::lemma_lex_lt_transitive(a.0, b.0, c.0);
    }
    if a.0 == b.0 && b.0 == c.0 {
        if lex_lt(a.1, b.1) && lex_lt(b.1, c.1) {
            crate::text::lemma_lex_lt_transitive(a.1, b.1, c.1);
        }
        if a.1 == b.1 && b.1 == c.1 && lex_lt(a.2, b.2) && lex_lt(b.2, c.2) {
            crate::text::lemma_lex_lt_transitive(a.2, b.2, c.2);
        }
    }
}

/// Whether a ledger's positions are held in strictly increasing order, as its
/// index keeps them.
pub open spec fn strictly_sorted(held: Seq<Position3>) -> bool {
    forall|i: int, j: int| 0 <= i < j < held.len() ==> triple_lt(triple_view(#[trigger] held[i]), triple_view(#[trigger] held[j]))
}

/// What is selected among the first `n` positions sorts before any later one.
proof fn lemma_selected_below(held: Seq<Position3>, filter: StreamFilter, n: nat, m: int)
    requires
        strictly_sorted(held),
        n <= m < held.len(),
    ensures
        forall|k: int| 0 <= k < selected_prefix(held, filter, n).len()
            ==> triple_lt(#[trigger] selected_prefix(held, filter, n)[k], triple_view(held[m])),
    decreases n,
{
    if n > 0 {
        lemma_selected_below(held, filter, (n - 1) as nat, m);
        let before = selected_prefix(held, filter, (n - 1) as nat);
        let v = triple_view(held[n - 1]);
        assert(triple_lt(v, triple_view(held[m])));
        if selected(v, filter) {
            assert forall|k: int| 0 <= k < before.len() + 1 implies triple_lt(#[trigger] before.push(v)[k], triple_view(held[m])) by {
                if k < before.len() {
                    assert(before.push(v)[k] == before[k]);
                }
            }
        }
    }
}

/// Every position a walk selects passes its filter.
proof fn lemma_selected_pass(held: Seq<Position3>, filter: StreamFilter, n: nat)
    ensures
        forall|k: int| 0 <= k < selected_prefix(held, filter, n).len() ==> selected(#[trigger] selected_prefix(held, filter, n)[k], filter),
    decreases n,
{
    if n > 0 {
        lemma_selected_pass(held, filter, (n - 1) as nat);
        let before = selected_prefix(held, filter, (n - 1) as nat);
        let v = triple_view(held[n - 1]);
        if selected(v, filter) {
            assert forall|k: int| 0 <= k < before.len() + 1 implies selected(#[trigger] before.push(v)[k], filter) by {
                if k < before.len() {
                    assert(before.push(v)[k] == before[k]);
                }
            }
        }
    }
}

/// The selected positions are strictly increasing.
proof fn lemma_selected_sorted(held: Seq<Position3>, filter: StreamFilter, n: nat)
    requires
        strictly_sorted(held),
        n <= held.len(),
    ensures
        forall|i: int, j: int| 0 <= i < j < selected_prefix(held, filter, n).len()
            ==> triple_lt(#[trigger] selected_prefix(held, filter, n)[i], #[trigger] selected_prefix(held, filter, n)[j]),
    decreases n,
{
    if n > 0 {
        lemma_selected_sorted(held, filter, (n - 1) as nat);
        lemma_selected_below(held, filter, (n - 1) as nat, n - 1);
        let before = selected_prefix(held, filter, (n - 1) as nat);
        let v = triple_view(held[n - 1]);
        if selected(v, filter) {
            let after = before.push(v);
            assert forall|i: int, j: int| 0 <= i < j < after.len() implies triple_lt(#[trigger] after[i], #[trigger] after[j]) by {
                assert(after[i] == before[i]);
                if j < before.len() {
                    assert(after[j] == before[j]);
                }
            }
        }
    }
}

/// A walk resumed after the `limit`-th selected position selects exactly
/// what follows it, step by step.
proof fn lemma_resumed_walk(
    held: Seq<Position3>,
    first: StreamFilter,
    next: StreamFilter,
    limit: nat,
    n: nat,
)
    requires
        strictly_sorted(held),
        n <= held.len(),
        next.class == first.class,
        next.producer == first.producer,
        next.instance == first.instance,
        0 < limit <= selected_prefix(held, first, held.len() as nat).len(),
        next.after matches Some(l) && (l.0@, l.1@, l.2@) == selected_prefix(held, first, held.len() as nat)[limit - 1],
    ensures
        selected_prefix(held, first, n).len() >= limit
            ==> selected_prefix(held, next, n) == selected_prefix(held, first, n).skip(limit as int),
        selected_prefix(held, first, n).len() < limit ==> selected_prefix(held, next, n) == Seq::<(Seq<char>, Seq<char>, Seq<char>)>::empty(),
    decreases n,
{
    let all = selected_prefix(held, first, held.len() as nat);
    let last = all[limit - 1];
    if n > 0 {
        let m = (n - 1) as nat;
        lemma_resumed_walk(held, first, next, limit, m);
        let before = selected_prefix(held, first, m);
        let t = triple_view(held[m as int]);
        lemma_selected_prefix_grows(held, first, m, held.len() as nat);
        lemma_selected_prefix_grows(held, first, n, held.len() as nat);
        lemma_selected_sorted(held, first, held.len() as nat);
        lemma_selected_pass(held, first, held.len() as nat);
        assert(selected(last, first));
        lemma_triple_lt_irreflexive(last);
        if before.len() >= limit {
            // The cursor lies behind `t`, so only the shared narrowing decides.
            lemma_selected_below(held, first, m, m as int);
            assert(before[limit - 1] == last);
            assert(triple_lt(last, t));
            if let Some(a) = first.after {
                if selected(t, next) {
                    assert(triple_lt((a.0@, a.1@, a.2@), last)) by {
                        assert(all[limit - 1] == last);
                    }
                    lemma_triple_lt_transitive((a.0@, a.1@, a.2@), last, t);
                }
            }
            assert(selected(t, next) == selected(t, first));
            if selected(t, first) {
                assert(before.push(t).skip(limit as int) =~= before.skip(limit as int).push(t));
            }
        } else {
            // Up to the cursor, nothing is past it.
            if selected(t, first) {
                let now = selected_prefix(held, first, n);
                assert(now == before.push(t));
                assert(now[before.len() as int] == t);
                assert(all.take(now.len() as int)[before.len() as int] == all[before.len() as int]);
                assert(all[before.len() as int] == t);
                if before.len() + 1 < limit {
                    assert(triple_lt(t, last));
                    lemma_triple_lt_irreflexive(t);
                    if triple_lt(last, t) {
                        lemma_triple_lt_transitive(t, last, t);
                    }
                } else {
                    assert(t == last);
                    assert(before.push(t).skip(limit as int) =~= Seq::<(Seq<char>, Seq<char>, Seq<char>)>::empty());
                }
                assert(!selected(t, next));
            } else if selected(t, next) {
                // `t` passes the shared narrowing, so only `first`'s own cursor
                // refused it; but that cursor sorts before `last`.
                let a = first.after.unwrap();
                assert(all[limit - 1] == last);
                lemma_selected_sorted(held, first, held.len() as nat);
                assert(triple_lt((a.0@, a.1@, a.2@), last));
                lemma_triple_lt_transitive((a.0@, a.1@, a.2@), last, t);
                assert(false);
            }
        }
    } else {
        assert(selected_prefix(held, first, 0) == Seq::<(Seq<char>, Seq<char>, Seq<char>)>::empty());
    }
}

/// Pages tile the walk: resumed with the last stream of a page as its cursor,
/// under the same narrowing, a walk over the positions a ledger holds in order
/// selects exactly the positions that follow that page's.
pub proof fn law_pages_continue_from_their_last_stream(
    held: Seq<Position3>,
    first: StreamFilter,
    next: StreamFilter,
    limit: nat,
)
    requires
        strictly_sorted(held),
        next.class == first.class,
        next.producer == first.producer,
        next.instance == first.instance,
        0 < limit <= selected_prefix(held, first, held.len() as nat).len(),
        next.after matches Some(l) && (l.0@, l.1@, l.2@) == selected_prefix(held, first, held.len() as nat)[limit - 1],
    ensures
        selected_prefix(held, next, held.len() as nat) == selected_prefix(held, first, held.len() as nat).skip(limit as int),
{
    lemma_resumed_walk(held, first, next, limit, held.len() as nat);
}

/// One bounded page of a ledger's producer streams, and whether more follow it.
#[derive(Debug, Clone)]
pub struct StreamPage {
    pub streams: Vec<Stream>,
    /// The walk stopped at the bound with positions still unvisited: the last
    /// stream's `(class, producer, instance)` is the cursor for the next page.
    pub truncated: bool,
}

/// Whether every stream of `streams` belongs to the ledger `zone`/`ledger`.
pub open spec fn all_in_ledger(streams: Seq<Stream>, zone: Seq<char>, ledger: Seq<char>) -> bool {
    forall|k: int| 0 <= k < streams.len() ==> (#[trigger] streams[k]).zone@ == zone && streams[k].ledger@ == ledger
}

/// The view of a stream as its index position.
pub open spec fn stream_position(s: Stream) -> (Seq<char>, Seq<char>, Seq<char>) {
    (s.producer.class@, s.producer.id@, s.producer.instance@)
}

/// One bounded, filtered page of a ledger's producer streams, from `held`, the
/// ledger's acknowledged positions in `(class, producer, instance)` order:
/// the first `limit` positions the filter selects, strictly after the cursor,
/// and whether any further one was seen.
pub fn producer_streams_page(
    held: &Vec<Position3>,
    zone: &str,
    ledger: &str,
    filter: StreamFilter,
    limit: usize,
) -> (page: Result<StreamPage, String>)
    ensures
        !spec_is_safe(zone@) ==> (page matches Err(m) && m@ == unsafe_name_message(zone@)),
        spec_is_safe(zone@) && !spec_is_safe(ledger@) ==> (page matches Err(m) && m@ == unsafe_name_message(ledger@)),
        spec_is_safe(zone@) && spec_is_safe(ledger@) ==> page is Ok,
        page matches Ok(p) ==> p.streams@.map_values(|s: Stream| stream_position(s)) == selected_prefix(held@, filter, held.len() as nat).take(
            if selected_prefix(held@, filter, held.len() as nat).len() < limit { selected_prefix(held@, filter, held.len() as nat).len() as int } else { limit as int },
        ),
        page matches Ok(p) ==> p.truncated == (selected_prefix(held@, filter, held.len() as nat).len() > limit),
        page matches Ok(p) ==> all_in_ledger(p.streams@, zone@, ledger@),
{
    let _ = safe(zone)?;
    let _ = safe(ledger)?;
    let mut streams: Vec<Stream> = Vec::new();
    let mut i: usize = 0;
    while i < held.len()
        invariant
            i <= held.len(),
            spec_is_safe(zone@),
            spec_is_safe(ledger@),
            streams.len() <= limit,
            streams@.map_values(|s: Stream| stream_position(s)) == selected_prefix(held@, filter, i as nat),
            all_in_ledger(streams@, zone@, ledger@),
        decreases held.len() - i,
    {
        let (class, id, instance) = &held[i];
        let wanted = match filter.class { Some(w) => same_text(class.as_str(), w), None => true }
            && match filter.producer { Some(w) => same_text(id.as_str(), w), None => true }
            && match filter.instance { Some(w) => same_text(instance.as_str(), w), None => true }
            && match filter.after {
                Some(last) => after_position(last, class.as_str(), id.as_str(), instance.as_str()),
                None => true,
            };
        assert(wanted == selected(triple_view(held@[i as int]), filter));
        if wanted {
            if streams.len() == limit {
                proof {
                    lemma_selected_prefix_grows(held@, filter, (i + 1) as nat, held.len() as nat);
                    lemma_selected_prefix_grows(held@, filter, i as nat, held.len() as nat);
                    let all = selected_prefix(held@, filter, held.len() as nat);
                    assert(selected_prefix(held@, filter, (i + 1) as nat).len() == limit + 1);
                    assert(all.len() > limit);
                    assert(all.take(limit as int) == selected_prefix(held@, filter, i as nat));
                    assert(streams@.map_values(|s: Stream| stream_position(s)) == all.take(
                        if all.len() < limit { all.len() as int } else { limit as int }));
                }
                let page = StreamPage { streams, truncated: true };
                return Ok(page);
            }
            let ghost before = streams@;
            streams.push(Stream {
                producer: Producer { class: class.clone(), id: id.clone(), instance: instance.clone() },
                zone: zone.to_owned(),
                ledger: ledger.to_owned(),
            });
            assert(streams@.map_values(|s: Stream| stream_position(s)) =~= before.map_values(|s: Stream| stream_position(s)).push(triple_view(held@[i as int])));
        }
        i += 1;
    }
    proof {
        let all = selected_prefix(held@, filter, held.len() as nat);
        assert(all.take(all.len() as int) =~= all);
        assert(all.len() <= limit);
        assert(all.take(if all.len() < limit { all.len() as int } else { limit as int }) == all);
    }
    Ok(StreamPage { streams, truncated: false })
}

/// Whether `(class, id, instance)` sorts strictly after `last`.
fn after_position(last: (&str, &str, &str), class: &str, id: &str, instance: &str) -> (after: bool)
    ensures
        after == triple_lt((last.0@, last.1@, last.2@), (class@, id@, instance@)),
{
    if precedes(last.0, class) {
        return true;
    }
    if precedes(class, last.0) {
        return false;
    }
    proof {
        crate::text::lemma_lex_lt_total(last.0@, class@);
        crate::text::lemma_lex_lt_irreflexive(class@);
    }
    if precedes(last.1, id) {
        return true;
    }
    if precedes(id, last.1) {
        return false;
    }
    proof {
        crate::text::lemma_lex_lt_total(last.1@, id@);
        crate::text::lemma_lex_lt_irreflexive(id@);
    }
    precedes(last.2, instance)
}

} // verus!

verus! {

/// What a file name of the shape `prefix<number>suffix` numbers: `None` when
/// the name does not have that shape, `Some(None)` when its middle is not a number.
pub open spec fn spec_numbered(name: Seq<char>, prefix: Seq<char>, suffix: Seq<char>) -> Option<Option<u64>> {
    if name.len() >= prefix.len() + suffix.len() && name.take(prefix.len() as int) == prefix
        && name.skip(name.len() - suffix.len()) == suffix
    {
        Some(crate::text::parsed_u64(name.subrange(prefix.len() as int, name.len() - suffix.len())))
    } else {
        None
    }
}

/// The characters `v[from..to]`.
pub fn char_range(v: &Vec<char>, from: usize, to: usize) -> (out: Vec<char>)
    requires
        from <= to <= v.len(),
    ensures
        out@ == v@.subrange(from as int, to as int),
{
    let mut out: Vec<char> = Vec::new();
    let mut i = from;
    while i < to
        invariant
            from <= i <= to <= v.len(),
            out@ == v@.subrange(from as int, i as int),
        decreases to - i,
    {
        out.push(v[i]);
        assert(v@.subrange(from as int, i + 1) =~= v@.subrange(from as int, i as int).push(v@[i as int]));
        i += 1;
    }
    out
}

/// Whether `v[at..at + part.len()]` is `part`.
fn holds_at(v: &Vec<char>, at: usize, part: &Vec<char>) -> (same: bool)
    requires
        at + part.len() <= v.len(),
    ensures
        same == (v@.subrange(at as int, at + part.len()) == part@),
{
    let mut i: usize = 0;
    while i < part.len()
        invariant
            i <= part.len(),
            at + part.len() <= v.len(),
            forall|j: int| 0 <= j < i ==> v@[at + j] == part@[j],
        decreases part.len() - i,
    {
        if v[at + i] != part[i] {
            assert(v@.subrange(at as int, at + part.len())[i as int] != part@[i as int]);
            return false;
        }
        i += 1;
    }
    assert(v@.subrange(at as int, at + part.len()) =~= part@);
    true
}

/// Reads the number a file name of the shape `prefix<number>suffix` carries.
pub fn numbered(name: &str, prefix: &str, suffix: &str) -> (out: Option<Option<u64>>)
    ensures
        out == spec_numbered(name@, prefix@, suffix@),
{
    let n = crate::text::chars_of(name);
    let p = crate::text::chars_of(prefix);
    let s = crate::text::chars_of(suffix);
    if p.len() > n.len() || s.len() > n.len() - p.len() {
        return None;
    }
    let end = n.len() - s.len();
    if !holds_at(&n, 0, &p) {
        assert(name@.take(prefix@.len() as int) =~= name@.subrange(0, prefix@.len() as int));
        return None;
    }
    if !holds_at(&n, end, &s) {
        assert(name@.skip(name@.len() - suffix@.len()) =~= name@.subrange(end as int, end + suffix@.len()));
        return None;
    }
    assert(name@.take(prefix@.len() as int) =~= name@.subrange(0, prefix@.len() as int));
    assert(name@.skip(name@.len() - suffix@.len()) =~= name@.subrange(end as int, end + suffix@.len()));
    let middle = char_range(&n, p.len(), end);
    Some(crate::text::parse_u64(middle.as_slice()))
}

/// The first position a segment file's name carries: `None` for a file that is
/// not a segment, `Some(None)` for a segment name whose number is not one.
pub fn segment_name_first(name: &str) -> (first: Option<Option<u64>>)
    ensures
        first == spec_numbered(name@, "seg-"@, ".events"@),
{
    numbered(name, "seg-", ".events")
}

/// The first sequence a batch envelope's file name carries, if it is one.
pub fn batch_name_first(name: &str) -> (first: Option<u64>)
    ensures
        first == (match spec_numbered(name@, "batch-"@, ".jws"@) {
            Some(Some(n)) => Some(n),
            _ => None,
        }),
{
    match numbered(name, "batch-", ".jws") {
        Some(Some(n)) => Some(n),
        _ => None,
    }
}

/// A run of '0's adds nothing to the value of the digits after it.
proof fn lemma_leading_zeros(k: nat, s: Seq<char>)
    ensures
        crate::text::digits_value(Seq::new(k, |i: int| '0') + s) == crate::text::digits_value(s),
    decreases s.len(), k,
{
    let z = Seq::new(k, |i: int| '0');
    if s.len() == 0 {
        assert(z + s =~= z);
        if k > 0 {
            lemma_leading_zeros((k - 1) as nat, s);
            assert(z.drop_last() =~= Seq::new((k - 1) as nat, |i: int| '0'));
            assert(Seq::new((k - 1) as nat, |i: int| '0') + s =~= Seq::new((k - 1) as nat, |i: int| '0'));
            assert(crate::text::digit_value('0') == 0);
        }
    } else {
        lemma_leading_zeros(k, s.drop_last());
        assert((z + s).drop_last() =~= z + s.drop_last());
    }
}

/// The fixed-width spelling of a number parses back to the number.
pub proof fn lemma_padded_reads_back(n: u64)
    ensures
        crate::text::parsed_u64(padded(n)) == Some(n),
{
    crate::text::lemma_decimal_reads_back(n as nat);
    lemma_decimal_fits(n);
    let k = (20 - decimal(n as nat).len()) as nat;
    lemma_leading_zeros(k, decimal(n as nat));
    let p = padded(n);
    assert(p.len() > 0);
    assert(p[0] != '+') by {
        if k > 0 {
            assert(p[0] == '0');
        } else {
            assert(p[0] == decimal(n as nat)[0]);
        }
    }
    assert forall|i: int| 0 <= i < p.len() implies crate::text::is_digit(#[trigger] p[i]) by {
        if i >= k {
            assert(p[i] == decimal(n as nat)[i - k]);
        }
    }
}

/// A segment file name, read back, gives the position it was named for.
pub proof fn law_segment_names_read_back(first: u64)
    ensures
        spec_numbered("seg-"@ + padded(first) + ".events"@, "seg-"@, ".events"@) == Some(Some(first)),
{
    reveal_strlit("seg-");
    reveal_strlit(".events");
    lemma_padded_reads_back(first);
    lemma_decimal_fits(first);
    let name = "seg-"@ + padded(first) + ".events"@;
    assert(name.take(4) =~= "seg-"@);
    assert(name.skip(name.len() - 7) =~= ".events"@);
    assert(name.subrange(4, name.len() - 7) =~= padded(first));
}

/// A batch envelope's file name, read back, gives the sequence it was named for.
pub proof fn law_batch_names_read_back(first_seq: u64)
    ensures
        spec_numbered("batch-"@ + padded(first_seq) + ".jws"@, "batch-"@, ".jws"@) == Some(Some(first_seq)),
{
    reveal_strlit("batch-");
    reveal_strlit(".jws");
    lemma_padded_reads_back(first_seq);
    lemma_decimal_fits(first_seq);
    let name = "batch-"@ + padded(first_seq) + ".jws"@;
    assert(name.take(6) =~= "batch-"@);
    assert(name.skip(name.len() - 4) =~= ".jws"@);
    assert(name.subrange(6, name.len() - 4) =~= padded(first_seq));
}

/// Whether a listed batch starts at or before `sequence`.
pub open spec fn starts_by(first: Option<u64>, sequence: u64) -> bool {
    first matches Some(f) && f <= sequence
}

/// Of the batches listed by their first sequence (`None` for a file that is
/// not a batch), the one that can hold `sequence`: the greatest first sequence
/// not after it, the earliest listed on a tie.
pub fn covering_choice(firsts: &Vec<Option<u64>>, sequence: u64) -> (chosen: Option<usize>)
    ensures
        chosen is None <==> (forall|j: int| 0 <= j < firsts.len() ==> !starts_by(#[trigger] firsts@[j], sequence)),
        chosen matches Some(i) ==> i < firsts.len() && starts_by(firsts@[i as int], sequence),
        chosen matches Some(i) ==> (forall|j: int| 0 <= j < firsts.len() && starts_by(#[trigger] firsts@[j], sequence)
            ==> firsts@[j].unwrap() <= firsts@[i as int].unwrap()),
        chosen matches Some(i) ==> (forall|j: int| 0 <= j < i && starts_by(#[trigger] firsts@[j], sequence)
            ==> firsts@[j].unwrap() < firsts@[i as int].unwrap()),
{
    let mut chosen: Option<usize> = None;
    let mut best: u64 = 0;
    let mut k: usize = 0;
    while k < firsts.len()
        invariant
            k <= firsts.len(),
            chosen is None <==> (forall|j: int| 0 <= j < k ==> !starts_by(#[trigger] firsts@[j], sequence)),
            chosen matches Some(i) ==> i < k && starts_by(firsts@[i as int], sequence) && firsts@[i as int].unwrap() == best,
            chosen is Some ==> (forall|j: int| 0 <= j < k && starts_by(#[trigger] firsts@[j], sequence) ==> firsts@[j].unwrap() <= best),
            chosen matches Some(i) ==> (forall|j: int| 0 <= j < i && starts_by(#[trigger] firsts@[j], sequence) ==> firsts@[j].unwrap() < best),
        decreases firsts.len() - k,
    {
        if let Some(first) = firsts[k] {
            if first <= sequence && (chosen.is_none() || first > best) {
                chosen = Some(k);
                best = first;
            }
        }
        k += 1;
    }
    chosen
}

} // verus!

verus! {

/// Where the first ':' of `s` stands, if it has one.
pub open spec fn colon_at(s: Seq<char>) -> Option<nat>
    decreases s.len(),
{
    if s.len() == 0 {
        None
    } else if s[0] == ':' {
        Some(0)
    } else {
        match colon_at(s.drop_first()) {
            Some(k) => Some(k + 1),
            None => None,
        }
    }
}

/// The position one line of a type index records, `<segment>:<line>`, if it
/// is well formed.
pub open spec fn spec_index_entry(line: Seq<char>) -> Option<(u64, u64)> {
    match colon_at(line) {
        None => None,
        Some(k) => match (crate::text::parsed_u64(line.take(k as int)), crate::text::parsed_u64(line.skip((k + 1) as int))) {
            (Some(segment), Some(offset)) => Some((segment, offset)),
            _ => None,
        },
    }
}

/// The line a type index holds for one position.
pub open spec fn spec_index_line(segment: u64, line: u64) -> Seq<char> {
    decimal(segment as nat) + seq![':'] + decimal(line as nat)
}

/// The index line recording that a type's record sits at `line` of segment
/// `segment`, with its line break.
pub fn index_line(segment: u64, line: u64) -> (text: String)
    ensures
        text@ == spec_index_line(segment, line).push('\n'),
{
    let mut text = String::new();
    push_decimal(&mut text, segment);
    push_char(&mut text, ':');
    push_decimal(&mut text, line);
    push_char(&mut text, '\n');
    text
}

/// Reads one line of a type index.
pub fn index_entry(line: &str) -> (entry: Option<(u64, u64)>)
    ensures
        entry == spec_index_entry(line@),
{
    let chars = crate::text::chars_of(line);
    let mut k: usize = 0;
    while k < chars.len()
        invariant
            k <= chars.len(),
            chars@ == line@,
            forall|j: int| 0 <= j < k ==> chars@[j] != ':',
        ensures
            k <= chars.len(),
            forall|j: int| 0 <= j < k ==> chars@[j] != ':',
            k == chars.len() || chars@[k as int] == ':',
        decreases chars.len() - k,
    {
        if chars[k] == ':' {
            break;
        }
        k += 1;
    }
    proof {
        lemma_colon_at_prefix(line@, k as nat);
    }
    if k == chars.len() {
        return None;
    }
    let head = char_range(&chars, 0, k);
    let tail = char_range(&chars, k + 1, chars.len());
    assert(head@ =~= line@.take(k as int));
    assert(tail@ =~= line@.skip(k + 1));
    match (crate::text::parse_u64(head.as_slice()), crate::text::parse_u64(tail.as_slice())) {
        (Some(segment), Some(offset)) => Some((segment, offset)),
        _ => None,
    }
}

/// With no ':' among the first `k` characters, the first ':' is the one at `k`, if any.
proof fn lemma_colon_at_prefix(s: Seq<char>, k: nat)
    requires
        k <= s.len(),
        forall|j: int| 0 <= j < k ==> s[j] != ':',
    ensures
        k == s.len() ==> colon_at(s) is None,
        k < s.len() && s[k as int] == ':' ==> colon_at(s) == Some(k),
    decreases k,
{
    if k > 0 {
        lemma_colon_at_prefix(s.drop_first(), (k - 1) as nat);
    } else if s.len() == 0 {
    }
}

/// Digits hold no ':'.
proof fn lemma_no_colon_in_digits(s: Seq<char>, rest: Seq<char>)
    requires
        crate::text::all_digits(s),
    ensures
        colon_at(s + rest) == (match colon_at(rest) {
            Some(k) => Some(k + s.len()),
            None => None,
        }),
    decreases s.len(),
{
    if s.len() > 0 {
        assert(crate::text::is_digit(s[0]));
        assert((s + rest).drop_first() =~= s.drop_first() + rest);
        lemma_no_colon_in_digits(s.drop_first(), rest);
    } else {
        assert(s + rest =~= rest);
    }
}

/// A position written to a type index reads back as that position.
pub proof fn law_index_entries_read_back(segment: u64, line: u64)
    ensures
        spec_index_entry(spec_index_line(segment, line)) == Some((segment, line)),
{
    crate::text::lemma_decimal_reads_back(segment as nat);
    crate::text::lemma_parse_decimal(segment);
    crate::text::lemma_parse_decimal(line);
    let s = decimal(segment as nat);
    let rest = seq![':'] + decimal(line as nat);
    lemma_no_colon_in_digits(s, rest);
    assert(colon_at(rest) == Some(0nat));
    let text = spec_index_line(segment, line);
    assert(text =~= s + rest);
    assert(text.take(s.len() as int) =~= s);
    assert(text.skip((s.len() + 1) as int) =~= decimal(line as nat));
}

/// A line as std's `str::lines` hands it out: without its '\n', and without a
/// '\r' just before that '\n'.
pub open spec fn strip_cr(line: Seq<char>) -> Seq<char> {
    if line.len() > 0 && line.last() == '\r' { line.drop_last() } else { line }
}

/// The lines of `s[..n]` that a '\n' ended, and the unfinished rest.
pub open spec fn lines_upto(s: Seq<char>, n: nat) -> (Seq<Seq<char>>, Seq<char>)
    decreases n,
{
    if n == 0 || n > s.len() {
        (Seq::empty(), Seq::empty())
    } else {
        let (done, current) = lines_upto(s, (n - 1) as nat);
        if s[n - 1] == '\n' {
            (done.push(strip_cr(current)), Seq::empty())
        } else {
            (done, current.push(s[n - 1]))
        }
    }
}

/// The lines of a text, as std's `str::lines` splits it: at each '\n', with a
/// final line that needs no '\n' of its own.
pub open spec fn spec_lines(s: Seq<char>) -> Seq<Seq<char>> {
    let (done, current) = lines_upto(s, s.len());
    if current.len() > 0 { done.push(current) } else { done }
}

/// The lines of a text.
pub fn lines_of(text: &str) -> (lines: Vec<String>)
    ensures
        crate::text::views(lines@) == spec_lines(text@),
{
    let chars = crate::text::chars_of(text);
    let mut lines: Vec<String> = Vec::new();
    let mut current: Vec<char> = Vec::new();
    let mut i: usize = 0;
    while i < chars.len()
        invariant
            i <= chars.len(),
            chars@ == text@,
            crate::text::views(lines@) == lines_upto(text@, i as nat).0,
            current@ == lines_upto(text@, i as nat).1,
        decreases chars.len() - i,
    {
        let c = chars[i];
        if c == '\n' {
            let mut line = current;
            if line.len() > 0 && line[line.len() - 1] == '\r' {
                line.pop();
                assert(line@ =~= strip_cr(lines_upto(text@, i as nat).1));
            }
            let ghost before = lines@;
            lines.push(crate::text::string_of(&line));
            assert(crate::text::views(lines@) =~= crate::text::views(before).push(line@));
            current = Vec::new();
        } else {
            current.push(c);
        }
        i += 1;
    }
    if current.len() > 0 {
        let ghost before = lines@;
        lines.push(crate::text::string_of(&current));
        assert(crate::text::views(lines@) =~= crate::text::views(before).push(current@));
    }
    lines
}

} // verus!

verus! {

/// The positions the non-empty lines among the first `n` of an index hold, in
/// order, where each of them is well formed.
pub open spec fn index_positions(lines: Seq<Seq<char>>, n: nat) -> Seq<(u64, u64)>
    decreases n,
{
    if n == 0 || n > lines.len() {
        Seq::empty()
    } else if lines[n - 1].len() == 0 {
        index_positions(lines, (n - 1) as nat)
    } else {
        match spec_index_entry(lines[n - 1]) {
            Some(p) => index_positions(lines, (n - 1) as nat).push(p),
            None => index_positions(lines, (n - 1) as nat),
        }
    }
}

/// Whether line `k` of an index is damaged: not empty, and not a position.
pub open spec fn damaged(lines: Seq<Seq<char>>, k: int) -> bool {
    lines[k].len() > 0 && spec_index_entry(lines[k]) is None
}

/// The positions a type index holds, in the order they were written. A damaged
/// line is not a missing one: the answer is then the number, counted from one,
/// of the first damaged line, so that the index is rebuilt rather than read as
/// shorter than it is.
pub fn read_index_lines(lines: &Vec<String>) -> (positions: Result<Vec<(u64, u64)>, usize>)
    ensures
        positions matches Ok(held) ==> held@ == index_positions(crate::text::views(lines@), lines.len() as nat),
        positions is Ok <==> (forall|k: int| 0 <= k < lines.len() ==> !damaged(crate::text::views(lines@), k)),
        positions matches Err(number) ==> 1 <= number <= lines.len() && damaged(crate::text::views(lines@), number - 1)
            && (forall|k: int| 0 <= k < number - 1 ==> !damaged(crate::text::views(lines@), k)),
{
    let ghost all = crate::text::views(lines@);
    let mut positions: Vec<(u64, u64)> = Vec::new();
    let mut k: usize = 0;
    while k < lines.len()
        invariant
            k <= lines.len(),
            all == crate::text::views(lines@),
            all.len() == lines.len(),
            positions@ == index_positions(all, k as nat),
            forall|j: int| 0 <= j < k ==> !damaged(all, j),
        decreases lines.len() - k,
    {
        assert(all[k as int] == lines@[k as int]@);
        if crate::text::chars_of(lines[k].as_str()).len() == 0 {
            assert(lines@[k as int]@.len() == 0);
        } else {
            match index_entry(lines[k].as_str()) {
                Some(p) => positions.push(p),
                None => {
                    assert(damaged(all, k as int));
                    return Err(k + 1);
                },
            }
        }
        k += 1;
    }
    Ok(positions)
}

/// How many of the first `n` records are dropped: those of the producer being
/// rolled back (`owned`) above its acknowledgement.
pub open spec fn dropped_count(seqs: Seq<u64>, owned: Seq<bool>, acked: u64, n: nat) -> nat
    decreases n,
{
    if n == 0 || n > seqs.len() || n > owned.len() {
        0
    } else if owned[n - 1] && seqs[n - 1] > acked {
        dropped_count(seqs, owned, acked, (n - 1) as nat) + 1
    } else {
        dropped_count(seqs, owned, acked, (n - 1) as nat)
    }
}

/// The text of the first `n` records that stay, each with its line break.
pub open spec fn kept_text(lines: Seq<Seq<char>>, seqs: Seq<u64>, owned: Seq<bool>, acked: u64, n: nat) -> Seq<char>
    decreases n,
{
    if n == 0 || n > lines.len() || n > seqs.len() || n > owned.len() {
        Seq::empty()
    } else if owned[n - 1] && seqs[n - 1] > acked {
        kept_text(lines, seqs, owned, acked, (n - 1) as nat)
    } else {
        kept_text(lines, seqs, owned, acked, (n - 1) as nat) + lines[n - 1] + seq!['\n']
    }
}

/// Rolls a file of records back to an acknowledgement: given each record's
/// line, its sequence, and whether it is the rolled-back producer's, the text
/// that stays and how many records went. A segment of one producer owns every
/// line; a tenant view owns only that producer's.
pub fn keep_up_to(lines: &Vec<String>, seqs: &Vec<u64>, owned: &Vec<bool>, acked: u64) -> (kept: (String, u64))
    requires
        lines.len() == seqs.len(),
        lines.len() == owned.len(),
    ensures
        kept.0@ == kept_text(crate::text::views(lines@), seqs@, owned@, acked, lines.len() as nat),
        kept.1 == dropped_count(seqs@, owned@, acked, lines.len() as nat),
{
    let ghost all = crate::text::views(lines@);
    let mut text = String::new();
    let mut dropped: u64 = 0;
    let mut k: usize = 0;
    while k < lines.len()
        invariant
            k <= lines.len(),
            lines.len() == seqs.len(),
            lines.len() == owned.len(),
            all == crate::text::views(lines@),
            text@ == kept_text(all, seqs@, owned@, acked, k as nat),
            dropped == dropped_count(seqs@, owned@, acked, k as nat),
            dropped <= k,
        decreases lines.len() - k,
    {
        if owned[k] && seqs[k] > acked {
            dropped += 1;
        } else {
            push_str(&mut text, lines[k].as_str());
            push_char(&mut text, '\n');
            assert(all[k as int] == lines@[k as int]@);
        }
        k += 1;
    }
    (text, dropped)
}

} // verus!

verus! {

/// `a + b`, held at `u64::MAX`.
pub open spec fn sat_add(a: u64, b: u64) -> u64 {
    if a + b > u64::MAX { u64::MAX } else { (a + b) as u64 }
}

/// `a - b`, held at zero.
pub open spec fn sat_sub(a: u64, b: u64) -> u64 {
    if a < b { 0 } else { (a - b) as u64 }
}

/// The part of the segment starting at `segment` that the producer range
/// `first..=last` covers: the offset of its first record there and how many
/// records to read, or `None` when the segment holds none of the range.
pub open spec fn spec_range_in_segment(segment: u64, first: u64, last: u64) -> Option<(u64, u64)> {
    let segment_last = sat_add(segment, (SEGMENT_RECORDS - 1) as u64);
    if segment_last < first || segment > last {
        None
    } else {
        let start = if first > segment { first } else { segment };
        let end = if last < segment_last { last } else { segment_last };
        Some((sat_sub(start, segment), sat_add(sat_sub(end, start), 1)))
    }
}

/// What [`spec_range_in_segment`] states.
pub fn range_in_segment(segment: u64, first: u64, last: u64) -> (part: Option<(u64, u64)>)
    ensures
        part == spec_range_in_segment(segment, first, last),
{
    let segment_last = segment.saturating_add(SEGMENT_RECORDS - 1);
    if segment_last < first || segment > last {
        return None;
    }
    let start = if first > segment { first } else { segment };
    let end = if last < segment_last { last } else { segment_last };
    Some((start.saturating_sub(segment), end.saturating_sub(start).saturating_add(1)))
}

/// How many records the producer range `first..=last` holds.
pub open spec fn range_len(first: u64, last: u64) -> u64 {
    sat_add(sat_sub(last, first), 1)
}

/// Why a producer range read back short or long.
pub open spec fn range_count_message(first: u64, last: u64, held: u64) -> Seq<char> {
    "the producer range "@ + decimal(first as nat) + "..="@ + decimal(last as nat) + " contains "@
        + decimal(held as nat) + " records instead of "@ + decimal(range_len(first, last) as nat)
}

/// Why a producer range read back with a hole in it.
pub open spec fn range_hole_message(first: u64, last: u64, missing: u64) -> Seq<char> {
    "the producer range "@ + decimal(first as nat) + "..="@ + decimal(last as nat)
        + " has no record at sequence "@ + decimal(missing as nat)
}

/// Whether the record read `k`-th for a range starting at `first` carries the
/// sequence it should.
pub open spec fn in_place(seqs: Seq<Option<u64>>, first: u64, k: int) -> bool {
    seqs[k] == Some(sat_add(first, k as u64))
}

/// Checks what was read for the producer range `first..=last`, given the
/// sequence each record carried (`None` for a record without one): exactly
/// the range, each record at its own sequence, or why not.
pub fn check_range(first: u64, last: u64, seqs: &Vec<Option<u64>>) -> (checked: Result<(), String>)
    ensures
        checked is Ok <==> (seqs.len() == range_len(first, last)
            && forall|k: int| 0 <= k < seqs.len() ==> #[trigger] in_place(seqs@, first, k)),
        seqs.len() != range_len(first, last) ==> (checked matches Err(m)
            && m@ == range_count_message(first, last, seqs.len() as u64)),
        seqs.len() == range_len(first, last) ==> (checked matches Err(m) ==> exists|k: int|
            0 <= k < seqs.len() && !#[trigger] in_place(seqs@, first, k)
            && (forall|j: int| 0 <= j < k ==> in_place(seqs@, first, j))
            && m@ == range_hole_message(first, last, sat_add(first, k as u64))),
{
    let expected = last.saturating_sub(first).saturating_add(1);
    if seqs.len() as u64 != expected {
        let mut message = String::new();
        push_str(&mut message, "the producer range ");
        push_decimal(&mut message, first);
        push_str(&mut message, "..=");
        push_decimal(&mut message, last);
        push_str(&mut message, " contains ");
        push_decimal(&mut message, seqs.len() as u64);
        push_str(&mut message, " records instead of ");
        push_decimal(&mut message, expected);
        return Err(message);
    }
    let mut k: usize = 0;
    while k < seqs.len()
        invariant
            k <= seqs.len(),
            seqs.len() == range_len(first, last),
            forall|j: int| 0 <= j < k ==> in_place(seqs@, first, j),
        decreases seqs.len() - k,
    {
        let wanted = first.saturating_add(k as u64);
        if seqs[k] != Some(wanted) {
            assert(!in_place(seqs@, first, k as int));
            let mut message = String::new();
            push_str(&mut message, "the producer range ");
            push_decimal(&mut message, first);
            push_str(&mut message, "..=");
            push_decimal(&mut message, last);
            push_str(&mut message, " has no record at sequence ");
            push_decimal(&mut message, wanted);
            return Err(message);
        }
        k += 1;
    }
    Ok(())
}

} // verus!

verus! {

/// Scope keys tell event scopes apart: two scopes whose names hold no ':'
/// share a key only when they are the same scope, so a cursor bound to one
/// scope's key is never read under another.
#[verifier::rlimit(80)]
pub proof fn law_scope_keys_tell_scopes_apart(a: Scope, b: Scope)
    requires
        match a {
            Scope::Stream { zone, ledger, class, producer, instance } => crate::decisions::store::colon_free(zone@)
                && crate::decisions::store::colon_free(ledger@) && crate::decisions::store::colon_free(class@)
                && crate::decisions::store::colon_free(producer@) && crate::decisions::store::colon_free(instance@),
            Scope::Tenant { zone, ledger } => crate::decisions::store::colon_free(zone@)
                && crate::decisions::store::colon_free(ledger@),
        },
        match b {
            Scope::Stream { zone, ledger, class, producer, instance } => crate::decisions::store::colon_free(zone@)
                && crate::decisions::store::colon_free(ledger@) && crate::decisions::store::colon_free(class@)
                && crate::decisions::store::colon_free(producer@) && crate::decisions::store::colon_free(instance@),
            Scope::Tenant { zone, ledger } => crate::decisions::store::colon_free(zone@)
                && crate::decisions::store::colon_free(ledger@),
        },
        spec_scope_key(a) == spec_scope_key(b),
    ensures
        match (a, b) {
            (Scope::Stream { zone: z1, ledger: l1, class: c1, producer: p1, instance: i1 },
             Scope::Stream { zone: z2, ledger: l2, class: c2, producer: p2, instance: i2 }) =>
                z1@ == z2@ && l1@ == l2@ && c1@ == c2@ && p1@ == p2@ && i1@ == i2@,
            (Scope::Tenant { zone: z1, ledger: l1 }, Scope::Tenant { zone: z2, ledger: l2 }) => z1@ == z2@ && l1@ == l2@,
            _ => false,
        },
{
    reveal_strlit("stream:");
    reveal_strlit("tenant:");
    reveal_strlit(":");
    match (a, b) {
        (Scope::Stream { zone: z1, ledger: l1, class: c1, producer: p1, instance: i1 },
         Scope::Stream { zone: z2, ledger: l2, class: c2, producer: p2, instance: i2 }) => {
            let colon = ":"@;
            let r1 = l1@ + colon + c1@ + colon + p1@ + colon + i1@;
            let r2 = l2@ + colon + c2@ + colon + p2@ + colon + i2@;
            assert(spec_scope_key(a).skip(7) =~= z1@ + colon + r1);
            assert(spec_scope_key(b).skip(7) =~= z2@ + colon + r2);
            crate::decisions::store::lemma_split_at_colon(z1@, r1, z2@, r2);
            let s1 = c1@ + colon + p1@ + colon + i1@;
            let s2 = c2@ + colon + p2@ + colon + i2@;
            assert(r1 =~= l1@ + colon + s1);
            assert(r2 =~= l2@ + colon + s2);
            crate::decisions::store::lemma_split_at_colon(l1@, s1, l2@, s2);
            let t1 = p1@ + colon + i1@;
            let t2 = p2@ + colon + i2@;
            assert(s1 =~= c1@ + colon + t1);
            assert(s2 =~= c2@ + colon + t2);
            crate::decisions::store::lemma_split_at_colon(c1@, t1, c2@, t2);
            crate::decisions::store::lemma_split_at_colon(p1@, i1@, p2@, i2@);
        },
        (Scope::Tenant { zone: z1, ledger: l1 }, Scope::Tenant { zone: z2, ledger: l2 }) => {
            assert(spec_scope_key(a).skip(7) =~= z1@ + ":"@ + l1@);
            assert(spec_scope_key(b).skip(7) =~= z2@ + ":"@ + l2@);
            crate::decisions::store::lemma_split_at_colon(z1@, l1@, z2@, l2@);
        },
        (Scope::Stream { .. }, Scope::Tenant { .. }) => {
            assert(spec_scope_key(a)[0] == 's');
            assert(spec_scope_key(b)[0] == 't');
        },
        (Scope::Tenant { .. }, Scope::Stream { .. }) => {
            assert(spec_scope_key(a)[0] == 't');
            assert(spec_scope_key(b)[0] == 's');
        },
    }
}

} // verus!

verus! {

/// Where the complete lines of a segment end. Only a final line without its
/// line break can be told apart as an interrupted append, so only that is
/// ever cut away in recovery.
pub fn complete_prefix(bytes: &[u8]) -> (complete: usize)
    ensures
        complete <= bytes@.len(),
        complete > 0 ==> bytes@[complete - 1] == 10,
        forall|j: int| complete <= j < bytes@.len() ==> bytes@[j] != 10,
{
    let mut k: usize = bytes.len();
    while k > 0
        invariant
            k <= bytes@.len(),
            forall|j: int| k <= j < bytes@.len() ==> bytes@[j] != 10,
        decreases k,
    {
        if bytes[k - 1] == 10 {
            return k;
        }
        k -= 1;
    }
    0
}

/// What recovery does with one segment of a tenant view, given the last
/// acknowledged position and how many records the segment holds: a segment
/// that starts past it goes, one that ends at or before it stays, and one
/// that straddles it keeps its first `keep` records.
#[derive(Debug, Clone, Copy, PartialEq, Eq, Structural)]
pub enum ViewCut {
    Remove,
    Keep,
    Truncate { keep: u64 },
}

/// What recovery does with one segment of a tenant view.
pub fn view_cut(first: u64, committed: u64, records: u64) -> (cut: ViewCut)
    ensures
        first > committed ==> cut == ViewCut::Remove,
        first <= committed && sat_add(sat_sub(committed, first), 1) >= records ==> cut == ViewCut::Keep,
        first <= committed && sat_add(sat_sub(committed, first), 1) < records
            ==> cut == (ViewCut::Truncate { keep: sat_add(sat_sub(committed, first), 1) }),
{
    if first > committed {
        return ViewCut::Remove;
    }
    let keep = committed.saturating_sub(first).saturating_add(1);
    if keep >= records {
        ViewCut::Keep
    } else {
        ViewCut::Truncate { keep }
    }
}

/// The first `keep` lines, each with its line break.
pub open spec fn spec_first_lines(lines: Seq<Seq<char>>, keep: nat) -> Seq<char>
    decreases keep,
{
    if keep == 0 || keep > lines.len() {
        Seq::empty()
    } else {
        spec_first_lines(lines, (keep - 1) as nat) + lines[keep - 1] + seq!['\n']
    }
}

/// The text of the first `keep` records of a segment.
pub fn first_lines(lines: &Vec<String>, keep: usize) -> (text: String)
    requires
        keep <= lines.len(),
    ensures
        text@ == spec_first_lines(crate::text::views(lines@), keep as nat),
{
    let mut text = String::new();
    let mut k: usize = 0;
    while k < keep
        invariant
            k <= keep <= lines.len(),
            text@ == spec_first_lines(crate::text::views(lines@), k as nat),
        decreases keep - k,
    {
        push_str(&mut text, lines[k].as_str());
        push_char(&mut text, '\n');
        k += 1;
    }
    text
}

/// A tenant view's append position and its acknowledged prefix, as rebuilt
/// from its records in order.
#[derive(Debug, Clone, Copy, PartialEq, Eq, Structural)]
pub struct ViewRebuild {
    /// The next position to append at.
    pub next: u64,
    /// The last position whose record its producer acknowledged, where every
    /// earlier one is acknowledged too.
    pub committed: u64,
    /// Whether no unacknowledged record has been met yet.
    pub durable_prefix: bool,
}

impl ViewRebuild {
    /// A view with nothing in it.
    pub fn empty() -> (state: Self)
        ensures
            state == (ViewRebuild { next: 1, committed: 0, durable_prefix: true }),
    {
        ViewRebuild { next: 1, committed: 0, durable_prefix: true }
    }

    /// Takes in the record at `position`, of sequence `seq`, whose producer
    /// acknowledged through `acked` (asked only while the prefix is durable).
    /// Returns the sequence its stream is covered through, when it is
    /// acknowledged. Once an unacknowledged record is met, nothing later is
    /// ever counted as committed: no position is published around a hole.
    pub fn take(&mut self, position: u64, seq: u64, acked: u64) -> (covered: Option<u64>)
        ensures
            final(self).next == (if old(self).next > sat_add(position, 1) { old(self).next } else { sat_add(position, 1) }),
            old(self).durable_prefix && seq <= acked ==> final(self).committed == position && final(self).durable_prefix
                && covered == Some(sat_add(seq, 1)),
            old(self).durable_prefix && seq > acked ==> final(self).committed == old(self).committed
                && !final(self).durable_prefix && covered is None,
            !old(self).durable_prefix ==> final(self).committed == old(self).committed && !final(self).durable_prefix
                && covered is None,
    {
        let after = position.saturating_add(1);
        if after > self.next {
            self.next = after;
        }
        if !self.durable_prefix {
            return None;
        }
        if seq <= acked {
            self.committed = position;
            Some(seq.saturating_add(1))
        } else {
            self.durable_prefix = false;
            None
        }
    }

    /// Whether the view holds records past what is acknowledged, which
    /// recovery cuts away: they are scratch the producer still owns and resends.
    pub fn has_scratch(&self) -> (scratch: bool)
        ensures
            scratch == (self.committed < sat_sub(self.next, 1)),
    {
        self.committed < self.next.saturating_sub(1)
    }
}

/// The body of one type index: a line per position, in order.
pub open spec fn spec_index_body(positions: Seq<(u64, u64)>) -> Seq<char>
    decreases positions.len(),
{
    if positions.len() == 0 {
        Seq::empty()
    } else {
        spec_index_body(positions.drop_last()) + spec_index_line(positions.last().0, positions.last().1).push('\n')
    }
}

/// The body of one type index.
pub fn index_body(positions: &Vec<(u64, u64)>) -> (body: String)
    ensures
        body@ == spec_index_body(positions@),
{
    let mut body = String::new();
    let mut k: usize = 0;
    while k < positions.len()
        invariant
            k <= positions.len(),
            body@ == spec_index_body(positions@.take(k as int)),
        decreases positions.len() - k,
    {
        let line = index_line(positions[k].0, positions[k].1);
        push_str(&mut body, line.as_str());
        assert(positions@.take(k + 1).drop_last() =~= positions@.take(k as int));
        k += 1;
    }
    assert(positions@.take(positions.len() as int) =~= positions@);
    body
}

/// The lines of `s[..n]` depend on nothing after `n`.
proof fn lemma_lines_upto_prefix(s: Seq<char>, t: Seq<char>, n: nat)
    requires
        n <= s.len(),
    ensures
        lines_upto(s + t, n) == lines_upto(s, n),
    decreases n,
{
    if n > 0 {
        lemma_lines_upto_prefix(s, t, (n - 1) as nat);
        assert((s + t)[n - 1] == s[n - 1]);
    }
}

/// A run without line breaks, after a finished line, is the unfinished line.
proof fn lemma_lines_upto_run(s: Seq<char>, start: nat, j: nat)
    requires
        start + j <= s.len(),
        lines_upto(s, start).1 == Seq::<char>::empty(),
        forall|i: int| start <= i < start + j ==> s[i] != '\n',
    ensures
        lines_upto(s, start + j) == (lines_upto(s, start).0, s.subrange(start as int, (start + j) as int)),
    decreases j,
{
    if j > 0 {
        lemma_lines_upto_run(s, start, (j - 1) as nat);
        assert(s.subrange(start as int, (start + j - 1) as int).push(s[start + j - 1])
            =~= s.subrange(start as int, (start + j) as int));
    } else {
        assert(s.subrange(start as int, start as int) =~= Seq::<char>::empty());
    }
}

/// The lines of an index body: one per position.
pub open spec fn index_lines_of(positions: Seq<(u64, u64)>) -> Seq<Seq<char>> {
    Seq::new(positions.len(), |k: int| spec_index_line(positions[k].0, positions[k].1))
}

/// An index line holds digits and one ':', and ends in a digit.
proof fn lemma_index_line_shape(segment: u64, line: u64)
    ensures
        spec_index_line(segment, line).len() > 0,
        forall|i: int| 0 <= i < spec_index_line(segment, line).len() ==> spec_index_line(segment, line)[i] != '\n',
        spec_index_line(segment, line).last() != '\r',
{
    crate::text::lemma_decimal_reads_back(segment as nat);
    crate::text::lemma_decimal_reads_back(line as nat);
    let a = decimal(segment as nat);
    let b = decimal(line as nat);
    let l = spec_index_line(segment, line);
    assert forall|i: int| 0 <= i < l.len() implies l[i] != '\n' by {
        if i < a.len() {
            assert(l[i] == a[i]);
            assert(crate::text::is_digit(a[i]));
        } else if i > a.len() {
            assert(l[i] == b[i - a.len() - 1]);
            assert(crate::text::is_digit(b[i - a.len() - 1]));
        }
    }
    assert(l.last() == b.last());
    assert(crate::text::is_digit(b[b.len() - 1]));
}

/// The whole body splits back into its lines, with nothing unfinished.
#[verifier::rlimit(40)]
proof fn lemma_index_body_lines(positions: Seq<(u64, u64)>)
    ensures
        lines_upto(spec_index_body(positions), spec_index_body(positions).len())
            == (index_lines_of(positions), Seq::<char>::empty()),
    decreases positions.len(),
{
    let body = spec_index_body(positions);
    if positions.len() == 0 {
        assert(index_lines_of(positions) =~= Seq::<Seq<char>>::empty());
    } else {
        let rest = positions.drop_last();
        lemma_index_body_lines(rest);
        let before = spec_index_body(rest);
        let l = spec_index_line(positions.last().0, positions.last().1);
        lemma_index_line_shape(positions.last().0, positions.last().1);
        let tail = l.push('\n');
        assert(body == before + tail);
        lemma_lines_upto_prefix(before, tail, before.len());
        assert forall|i: int| before.len() <= i < before.len() + l.len() implies body[i] != '\n' by {
            assert(body[i] == l[i - before.len()]);
        }
        lemma_lines_upto_run(body, before.len(), l.len());
        assert(body.subrange(before.len() as int, (before.len() + l.len()) as int) =~= l);
        assert(body[body.len() - 1] == '\n');
        assert(strip_cr(l) == l);
        assert(index_lines_of(rest).push(l) =~= index_lines_of(positions));
    }
}

/// What the positions of a rebuilt index read back as, line by line.
proof fn lemma_index_positions_of_lines(positions: Seq<(u64, u64)>, n: nat)
    requires
        n <= positions.len(),
    ensures
        index_positions(index_lines_of(positions), n) == positions.take(n as int),
    decreases n,
{
    if n > 0 {
        lemma_index_positions_of_lines(positions, (n - 1) as nat);
        let p = positions[n - 1];
        lemma_index_line_shape(p.0, p.1);
        law_index_entries_read_back(p.0, p.1);
        assert(positions.take(n as int) =~= positions.take(n - 1).push(p));
    } else {
        assert(positions.take(0) =~= Seq::<(u64, u64)>::empty());
    }
}

/// A type index body, split into lines and read, gives back every position it
/// was written from, in order, with no line taken for damaged.
pub proof fn law_index_bodies_read_back(positions: Seq<(u64, u64)>)
    ensures
        spec_lines(spec_index_body(positions)) == index_lines_of(positions),
        forall|k: int| 0 <= k < positions.len() ==> !damaged(spec_lines(spec_index_body(positions)), k),
        index_positions(spec_lines(spec_index_body(positions)), positions.len()) == positions,
{
    lemma_index_body_lines(positions);
    lemma_index_positions_of_lines(positions, positions.len());
    assert(positions.take(positions.len() as int) =~= positions);
    assert forall|k: int| 0 <= k < positions.len() implies !damaged(index_lines_of(positions), k) by {
        lemma_index_line_shape(positions[k].0, positions[k].1);
        law_index_entries_read_back(positions[k].0, positions[k].1);
    }
}

/// Why a producer range could not be read back.
#[derive(Debug, Clone, PartialEq, Eq)]
pub enum RangeError {
    /// A line of the segment starting at `segment`, counted from zero, that
    /// is not a record.
    Unreadable { segment: u64, line: usize },
    /// The records read are not exactly the range, each at its own sequence.
    Mismatch(String),
}

/// How many records a segment read asks for, given how many the range needs
/// there.
pub open spec fn asked_count(count: u64) -> nat {
    if count <= usize::MAX { count as nat } else { usize::MAX as nat }
}

/// Segments, each its first sequence and its lines, as texts.
pub open spec fn segments_view(segments: Seq<(u64, Vec<String>)>) -> Seq<(u64, Seq<Seq<char>>)> {
    Seq::new(segments.len(), |k: int| (segments[k].0, crate::text::views(segments[k].1@)))
}

/// The record lines a producer range `first..=last` is read from, over the
/// first `n` segments, oldest first: in each segment the range touches, the
/// lines of its part; or the segment and line of the first that is not a
/// record.
pub open spec fn range_walk(segments: Seq<(u64, Seq<Seq<char>>)>, first: u64, last: u64, n: nat)
    -> Result<Seq<Seq<char>>, (u64, nat)>
    decreases n,
{
    if n == 0 || n > segments.len() {
        Ok(Seq::empty())
    } else {
        match range_walk(segments, first, last, (n - 1) as nat) {
            Err(e) => Err(e),
            Ok(before) => {
                let segment = segments[n - 1].0;
                let lines = segments[n - 1].1;
                match spec_range_in_segment(segment, first, last) {
                    None => Ok(before),
                    Some((offset, count)) => match crate::records::segment_walk(
                        lines, asked_count(count), crate::records::walk_start(lines, offset), Seq::empty()) {
                        Err(line) => Err((segment, line)),
                        Ok((taken, _)) => Ok(before + taken),
                    },
                }
            },
        }
    }
}

/// A segment that is not read stops the walk: so does it over every later one.
proof fn lemma_range_walk_stops(segments: Seq<(u64, Seq<Seq<char>>)>, first: u64, last: u64, k: nat, m: nat)
    requires
        k <= m <= segments.len(),
        range_walk(segments, first, last, k) is Err,
    ensures
        range_walk(segments, first, last, m) == range_walk(segments, first, last, k),
    decreases m - k,
{
    if k < m {
        lemma_range_walk_stops(segments, first, last, k, (m - 1) as nat);
    }
}

/// The records of one producer stream for the range `first..=last`, given its
/// segments oldest first (each its first sequence and its lines): the k-th
/// record returned is the parse of the k-th record line read and carries the
/// sequence `first + k`; a line that is not a record, or a range read back
/// short, long or out of place, is refused, never answered shorter.
pub fn records_between(segments: &Vec<(u64, Vec<String>)>, first: u64, last: u64)
    -> (records: Result<Vec<serde_json::Value>, RangeError>)
    ensures
        match range_walk(segments_view(segments@), first, last, segments.len() as nat) {
            Err((segment, line)) => records == Err::<Vec<serde_json::Value>, RangeError>(
                RangeError::Unreadable { segment, line: line as usize }),
            Ok(taken) => {
                let seqs = crate::records::seqs_of(taken);
                &&& (seqs.len() == range_len(first, last) && forall|k: int| 0 <= k < seqs.len() ==> #[trigger] in_place(seqs, first, k))
                    ==> (records matches Ok(v) && v@ == crate::records::values_of(taken))
                &&& seqs.len() != range_len(first, last) ==> (records matches Err(RangeError::Mismatch(m))
                    && m@ == range_count_message(first, last, seqs.len() as u64))
                &&& (seqs.len() == range_len(first, last) && !(forall|k: int| 0 <= k < seqs.len() ==> #[trigger] in_place(seqs, first, k)))
                    ==> (records matches Err(RangeError::Mismatch(m)) && exists|k: int|
                        0 <= k < seqs.len() && !#[trigger] in_place(seqs, first, k)
                        && (forall|j: int| 0 <= j < k ==> in_place(seqs, first, j))
                        && m@ == range_hole_message(first, last, sat_add(first, k as u64)))
            },
        },
{
    let ghost view = segments_view(segments@);
    let mut records: Vec<serde_json::Value> = Vec::new();
    let mut seqs: Vec<Option<u64>> = Vec::new();
    let ghost mut taken: Seq<Seq<char>> = Seq::empty();
    assert(records@ =~= crate::records::values_of(taken));
    assert(seqs@ =~= crate::records::seqs_of(taken));
    let mut n: usize = 0;
    while n < segments.len()
        invariant
            n <= segments.len(),
            view == segments_view(segments@),
            range_walk(view, first, last, n as nat) == Ok::<Seq<Seq<char>>, (u64, nat)>(taken),
            records@ == crate::records::values_of(taken),
            seqs@ == crate::records::seqs_of(taken),
        decreases segments.len() - n,
    {
        let segment = segments[n].0;
        assert(view[n as int].0 == segment);
        assert(view[n as int].1 == crate::text::views(segments[n as int].1@));
        match range_in_segment(segment, first, last) {
            None => {},
            Some((offset, count)) => {
                let asked: usize = if count <= usize::MAX as u64 { count as usize } else { usize::MAX };
                assert(asked as nat == asked_count(count));
                assert(spec_range_in_segment(segment, first, last) == Some((offset, count)));
                match crate::records::segment_records(&segments[n].1, offset, asked) {
                    Err(line) => {
                        proof {
                            let lines = view[n as int].1;
                            assert(crate::records::segment_walk(lines, asked_count(count),
                                crate::records::walk_start(lines, offset), Seq::empty())
                                == Err::<(Seq<Seq<char>>, nat), nat>(line as nat));
                            assert(range_walk(view, first, last, (n + 1) as nat) == Err::<Seq<Seq<char>>, (u64, nat)>((segment, line as nat)));
                            lemma_range_walk_stops(view, first, last, (n + 1) as nat, segments.len() as nat);
                        }
                        return Err(RangeError::Unreadable { segment, line });
                    },
                    Ok((mut part, mut part_seqs, _)) => {
                        let ghost before = taken;
                        proof {
                            let lines = view[n as int].1;
                            if let Ok((t, _)) = crate::records::segment_walk(
                                lines, asked_count(count), crate::records::walk_start(lines, offset), Seq::empty()) {
                                taken = before + t;
                                assert(crate::records::values_of(taken) =~= crate::records::values_of(before) + crate::records::values_of(t));
                                assert(crate::records::seqs_of(taken) =~= crate::records::seqs_of(before) + crate::records::seqs_of(t));
                            }
                        }
                        records.append(&mut part);
                        seqs.append(&mut part_seqs);
                    },
                }
            },
        }
        n += 1;
    }
    match check_range(first, last, &seqs) {
        Ok(()) => Ok(records),
        Err(m) => Err(RangeError::Mismatch(m)),
    }
}

/// Every stream a page walk selects passes the page's narrowing: the asked
/// class, producer and instance, each exactly, and a position strictly past
/// the previous page's last.
pub proof fn law_a_page_holds_only_what_its_filter_asks(held: Seq<Position3>, filter: StreamFilter, n: nat)
    ensures
        forall|k: int| 0 <= k < selected_prefix(held, filter, n).len() ==> {
            let t = #[trigger] selected_prefix(held, filter, n)[k];
            &&& filter.class matches Some(w) ==> t.0 == w@
            &&& filter.producer matches Some(w) ==> t.1 == w@
            &&& filter.instance matches Some(w) ==> t.2 == w@
            &&& filter.after matches Some(last) ==> triple_lt((last.0@, last.1@, last.2@), t)
        },
{
    lemma_selected_pass(held, filter, n);
}

/// A name the store makes a directory of is one path segment: not empty, not
/// `.` or `..`, and holding no `/`, `\\` or NUL, so it cannot climb out of
/// the store or name a second level.
pub proof fn law_a_safe_name_is_one_path_segment(name: Seq<char>)
    ensures
        spec_is_safe(name) ==> name.len() > 0 && name != "."@ && name != ".."@
            && forall|i: int| 0 <= i < name.len() ==> #[trigger] name[i] != '/' && name[i] != '\\' && name[i] != '\0',
{
    if spec_is_safe(name) {
        assert forall|i: int| 0 <= i < name.len() implies #[trigger] name[i] != '/' && name[i] != '\\' && name[i] != '\0' by {
            if name[i] == '/' {
                assert(name.contains('/'));
            }
            if name[i] == '\\' {
                assert(name.contains('\\'));
            }
            if name[i] == '\0' {
                assert(name.contains('\0'));
            }
        }
    }
}

/// The part of a segment a producer range is read from: none where the range
/// and the segment's positions do not meet; else from the later of the two
/// starts, counted from the segment's first line, through the earlier of the
/// two ends.
pub proof fn law_a_range_is_read_where_it_meets_the_segment(segment: u64, first: u64, last: u64)
    requires
        first <= last,
        segment >= 1,
        segment + SEGMENT_RECORDS <= u64::MAX,
    ensures
        spec_range_in_segment(segment, first, last) is None
            <==> (last < segment || segment + SEGMENT_RECORDS - 1 < first),
        spec_range_in_segment(segment, first, last) matches Some((offset, count)) ==> {
            let start = if first > segment { first } else { segment };
            let end = if last < segment + SEGMENT_RECORDS - 1 { last as int } else { segment + SEGMENT_RECORDS - 1 };
            &&& segment + offset == start
            &&& offset < SEGMENT_RECORDS
            &&& start + count - 1 == end
            &&& offset + count <= SEGMENT_RECORDS
        },
{
}

} // verus!
