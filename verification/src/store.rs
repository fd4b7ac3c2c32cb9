//! The object store of one ledger: where its objects, refs and signatures
//! live, the record a ref is kept in, and the idempotent compare-and-swap a
//! ref moves by.
//!
//! A digest is carried as its text, `sha256:<hex>`, which is also how a ref
//! record names its head.

use vstd::prelude::*;

use crate::text::{decimal, push_decimal, push_str};

verus! {

/// The one layout this build reads and writes, pinned in `FORMAT`.
pub const FORMAT: &'static str = "1";

/// The state of one ref: its head and its monotonic counter.
#[derive(Debug, Clone, PartialEq, Eq)]
pub struct RefState {
    pub head: String,
    pub counter: u64,
}

/// The outcome of a compare-and-swap ref update.
#[derive(Debug, Clone, PartialEq, Eq)]
pub enum RefUpdate {
    /// The head moved: a genuine update, counter incremented.
    Updated(RefState),
    /// The current head already equals the new head: a retry landed, which
    /// is a success that leaves the counter untouched.
    AlreadyCurrent(RefState),
}

/// What the compare-and-swap decides, given the ref's current state, the
/// head the caller expects (`None` to create the ref) and the new head: a
/// retry that already landed succeeds unchanged; an expectation that holds
/// moves the head and counts one more update (the first is number 1);
/// anything else is refused, with what is current.
pub open spec fn spec_update(current: Option<(Seq<char>, u64)>, expected: Option<Seq<char>>, new: Seq<char>)
    -> Result<(bool, Seq<char>, u64), Option<(Seq<char>, u64)>>
{
    match current {
        Some((head, counter)) => if head == new {
            Ok((false, head, counter))
        } else if expected == Some(head) {
            Ok((true, new, (counter + 1) as u64))
        } else {
            Err(current)
        },
        None => if expected is None {
            Ok((true, new, 1))
        } else {
            Err(None)
        },
    }
}

/// A ref state's view: its head's text and its counter.
pub open spec fn ref_view(state: RefState) -> (Seq<char>, u64) {
    (state.head@, state.counter)
}

/// The view of a ref state that may be absent.
pub open spec fn opt_ref_view(state: Option<RefState>) -> Option<(Seq<char>, u64)> {
    match state {
        Some(s) => Some(ref_view(s)),
        None => None,
    }
}

/// The view of a text that may be absent.
pub open spec fn opt_text(text: Option<&str>) -> Option<Seq<char>> {
    match text {
        Some(t) => Some(t@),
        None => None,
    }
}

/// The view of an update's outcome: whether the head moved, and the state.
pub open spec fn update_view(update: RefUpdate) -> (bool, Seq<char>, u64) {
    match update {
        RefUpdate::Updated(s) => (true, s.head@, s.counter),
        RefUpdate::AlreadyCurrent(s) => (false, s.head@, s.counter),
    }
}

/// The store of one ledger directory.
#[derive(Debug, Clone)]
pub struct FileObjectStore {
    root: String,
}

impl FileObjectStore {
    /// The ledger directory this store lives in.
    pub closed spec fn spec_root(&self) -> Seq<char> {
        self.root@
    }

    /// The store over a ledger directory. Nothing is created until something
    /// is stored.
    pub fn new(ledger_directory: String) -> (store: Self)
        ensures
            store.spec_root() == ledger_directory@,
    {
        FileObjectStore { root: ledger_directory }
    }

    /// The ledger directory this store lives in.
    pub fn root(&self) -> (root: &str)
        ensures
            root@ == self.spec_root(),
    {
        self.root.as_str()
    }

    /// Where an object lives, as the path under the root:
    /// `objects/<first two digits>/<the other digits>` of its digest's text,
    /// `sha256:` and then its hexadecimal digits.
    pub fn object_path(&self, digest: &str) -> (path: (String, String, String))
        requires
            digest@.len() >= 9,
            digest@.take(7) == "sha256:"@,
            forall|i: int| 7 <= i < digest@.len() ==> (digest@[i] as u32) < 128,
        ensures
            path.0@ == "objects"@,
            path.1@ == digest@.subrange(7, 9),
            path.2@ == digest@.skip(9),
    {
        let chars = crate::text::chars_of(digest);
        let fan = crate::events::store::char_range(&chars, 7, 9);
        let rest = crate::events::store::char_range(&chars, 9, chars.len());
        assert(rest@ =~= digest@.skip(9));
        ("objects".to_string(), crate::text::string_of(&fan), crate::text::string_of(&rest))
    }

    /// Where a ref's record lives, as the path under the root: `refs/<name>`.
    pub fn ref_path(&self, name: &str) -> (path: (String, String))
        ensures
            path.0@ == "refs"@,
            path.1@ == name@,
    {
        ("refs".to_string(), name.to_string())
    }

    /// Where a ref's signed head statement lives: `signatures/<name>`, which
    /// mirrors the ref's own path.
    pub fn signature_path(&self, name: &str) -> (path: (String, String))
        ensures
            path.0@ == "signatures"@,
            path.1@ == name@,
    {
        ("signatures".to_string(), name.to_string())
    }

    /// The idempotent compare-and-swap of a ref, given what is current.
    ///
    /// | current head   | result                                |
    /// |----------------|---------------------------------------|
    /// | `== new`       | `AlreadyCurrent`, counter untouched   |
    /// | `== expected`  | `Updated`, counter incremented        |
    /// | anything else  | refused, carrying what is current     |
    ///
    /// `expected = None` is the creation case: it succeeds only while the ref
    /// does not exist, and the counter starts at 1.
    pub fn compare_and_swap(&self, current: Option<RefState>, expected: Option<&str>, new: &str)
        -> (update: Result<RefUpdate, Option<RefState>>)
        requires
            current matches Some(s) ==> s.counter < u64::MAX,
        ensures
            update matches Ok(u) ==> spec_update(opt_ref_view(current), opt_text(expected), new@)
                == Ok::<(bool, Seq<char>, u64), Option<(Seq<char>, u64)>>(update_view(u)),
            update matches Err(held) ==> spec_update(opt_ref_view(current), opt_text(expected), new@)
                == Err::<(bool, Seq<char>, u64), Option<(Seq<char>, u64)>>(opt_ref_view(held)),
    {
        match current {
            Some(state) => {
                if crate::text::same_text(state.head.as_str(), new) {
                    return Ok(RefUpdate::AlreadyCurrent(state));
                }
                let holds = match expected {
                    Some(e) => crate::text::same_text(state.head.as_str(), e),
                    None => false,
                };
                if !holds {
                    return Err(Some(state));
                }
                Ok(RefUpdate::Updated(RefState { head: new.to_string(), counter: state.counter + 1 }))
            },
            None => {
                if expected.is_some() {
                    return Err(None);
                }
                Ok(RefUpdate::Updated(RefState { head: new.to_string(), counter: 1 }))
            },
        }
    }
}

/// A retry of an update that landed is answered with success and changes
/// nothing: presenting the same expectation and new head again, against the
/// state the first call produced, finds the head already current.
pub proof fn law_retried_updates_are_idempotent(current: Option<(Seq<char>, u64)>, expected: Option<Seq<char>>, new: Seq<char>)
    requires
        spec_update(current, expected, new) is Ok,
    ensures
        ({
            let (_, head, counter) = spec_update(current, expected, new)->Ok_0;
            spec_update(Some((head, counter)), expected, new) == Ok::<(bool, Seq<char>, u64), Option<(Seq<char>, u64)>>((false, head, counter))
        }),
{
}

/// Every update that moves a head counts exactly one more: the counter is the
/// number of updates the ref has taken, and a conflict or a retry takes none.
pub proof fn law_counters_count_updates(current: Option<(Seq<char>, u64)>, expected: Option<Seq<char>>, new: Seq<char>)
    requires
        current matches Some((_, c)) ==> c < u64::MAX,
    ensures
        spec_update(current, expected, new) matches Ok((true, head, counter)) ==> head == new
            && counter == (match current { Some((_, c)) => c + 1, None => 1 }),
        spec_update(current, expected, new) matches Ok((false, head, counter)) ==> current == Some((head, counter)),
        spec_update(current, expected, new) matches Err(held) ==> held == current,
{
}

/// The record a ref is kept in: one line of three fields.
pub open spec fn spec_render_ref(head: Seq<char>, counter: u64) -> Seq<char> {
    "{\"version\":1,\"head\":\""@ + head + "\",\"counter\":"@ + decimal(counter as nat) + "}\n"@
}

/// Renders a ref's record.
pub fn render_ref(state: &RefState) -> (text: String)
    ensures
        text@ == spec_render_ref(state.head@, state.counter),
{
    let mut text = String::new();
    push_str(&mut text, "{\"version\":1,\"head\":\"");
    push_str(&mut text, state.head.as_str());
    push_str(&mut text, "\",\"counter\":");
    push_decimal(&mut text, state.counter);
    push_str(&mut text, "}\n");
    text
}

/// Where `pattern` first occurs in `s` at or after `from`, if it does.
pub open spec fn find_from(s: Seq<char>, pattern: Seq<char>, from: nat) -> Option<nat>
    decreases s.len() - from,
{
    if from + pattern.len() > s.len() {
        None
    } else if s.subrange(from as int, (from + pattern.len()) as int) == pattern {
        Some(from)
    } else if from >= s.len() {
        None
    } else {
        find_from(s, pattern, from + 1)
    }
}

/// Where a pattern is found, it fits: it starts no earlier than the search
/// did and ends within the text.
pub proof fn lemma_find_from_fits(s: Seq<char>, pattern: Seq<char>, from: nat)
    ensures
        find_from(s, pattern, from) matches Some(k) ==> from <= k && k + pattern.len() <= s.len(),
    decreases s.len() - from,
{
    if from + pattern.len() <= s.len() && s.subrange(from as int, (from + pattern.len()) as int) != pattern && from < s.len() {
        lemma_find_from_fits(s, pattern, from + 1);
    }
}

/// The index of the first character at or after `from` that is not an ASCII
/// digit, or the length of `s`.
pub open spec fn digits_end(s: Seq<char>, from: nat) -> nat
    decreases s.len() - from,
{
    if from >= s.len() {
        s.len()
    } else if !crate::text::is_digit(s[from as int]) {
        from
    } else {
        digits_end(s, from + 1)
    }
}

/// The digits after `from` end no earlier than `from` and within the text.
pub proof fn lemma_digits_end_bounds(s: Seq<char>, from: nat)
    requires
        from <= s.len(),
    ensures
        from <= digits_end(s, from) <= s.len(),
    decreases s.len() - from,
{
    if from < s.len() && crate::text::is_digit(s[from as int]) {
        lemma_digits_end_bounds(s, from + 1);
    }
}

/// Whether a character is a lowercase hexadecimal digit.
pub open spec fn is_lower_hex(c: char) -> bool {
    ('0' <= c && c <= '9') || ('a' <= c && c <= 'f')
}

/// Whether a text is a digest as the ledger spells it: `sha256:` and then
/// sixty-four lowercase hexadecimal digits.
pub open spec fn is_digest_text(t: Seq<char>) -> bool {
    &&& t.len() == 71
    &&& t.take(7) == "sha256:"@
    &&& forall|i: int| 7 <= i < 71 ==> is_lower_hex(#[trigger] t[i])
}

/// Whether a text spells a digest.
pub fn is_digest(t: &Vec<char>) -> (digest: bool)
    ensures
        digest == is_digest_text(t@),
{
    proof {
        reveal_strlit("sha256:");
    }
    let prefix = crate::text::chars_of("sha256:");
    assert(prefix@.len() == 7);
    if t.len() != 71 {
        return false;
    }
    let mut i: usize = 0;
    while i < 7
        invariant
            i <= 7,
            t.len() == 71,
            prefix@ == "sha256:"@,
            prefix@.len() == 7,
            forall|j: int| 0 <= j < i ==> t@[j] == prefix@[j],
        decreases 7 - i,
    {
        if t[i] != prefix[i] {
            assert(t@.take(7)[i as int] != "sha256:"@[i as int]);
            return false;
        }
        i += 1;
    }
    assert(t@.take(7) =~= "sha256:"@);
    while i < 71
        invariant
            7 <= i <= 71,
            t.len() == 71,
            t@.take(7) == "sha256:"@,
            forall|j: int| 7 <= j < i ==> is_lower_hex(#[trigger] t@[j]),
        decreases 71 - i,
    {
        let c = t[i];
        if !(('0' <= c && c <= '9') || ('a' <= c && c <= 'f')) {
            return false;
        }
        i += 1;
    }
    true
}

/// What a ref record holds, when it holds a digest: the text after
/// `"head":"` up to the next quote, and the digits after `"counter":` as a
/// number.
pub open spec fn spec_parse_ref(text: Seq<char>) -> Option<(Seq<char>, u64)> {
    match spec_ref_fields(text) {
        Some((head, counter)) => if is_digest_text(head) { Some((head, counter)) } else { None },
        None => None,
    }
}

/// The text after `"head":"` up to the next quote, and the digits after
/// `"counter":` as a number.
pub open spec fn spec_ref_fields(text: Seq<char>) -> Option<(Seq<char>, u64)> {
    let head_key = "\"head\":\""@;
    let counter_key = "\"counter\":"@;
    match find_from(text, head_key, 0) {
        None => None,
        Some(h) => {
            let head_start = h + head_key.len();
            match find_from(text, "\""@, head_start) {
                None => None,
                Some(head_end) => match find_from(text, counter_key, 0) {
                    None => None,
                    Some(c) => {
                        let counter_start = c + counter_key.len();
                        let counter_end = digits_end(text, counter_start);
                        match crate::text::parsed_u64(text.subrange(counter_start as int, counter_end as int)) {
                            None => None,
                            Some(counter) => Some((text.subrange(head_start as int, head_end as int), counter)),
                        }
                    },
                },
            }
        },
    }
}

/// Where `pattern` first occurs in `s` at or after `from`.
fn find(s: &Vec<char>, pattern: &Vec<char>, from: usize) -> (at: Option<usize>)
    requires
        from <= s.len(),
    ensures
        at matches Some(k) ==> find_from(s@, pattern@, from as nat) == Some(k as nat),
        at is None ==> find_from(s@, pattern@, from as nat) is None,
    decreases s.len() - from,
{
    if pattern.len() > s.len() - from {
        return None;
    }
    let mut i: usize = 0;
    let mut same = true;
    while i < pattern.len()
        invariant
            i <= pattern.len(),
            from + pattern.len() <= s.len(),
            same <==> (forall|j: int| 0 <= j < i ==> s@[from + j] == pattern@[j]),
        decreases pattern.len() - i,
    {
        if s[from + i] != pattern[i] {
            same = false;
        }
        i += 1;
    }
    assert(same <==> s@.subrange(from as int, from + pattern.len()) =~= pattern@);
    if same {
        Some(from)
    } else if from >= s.len() {
        None
    } else {
        find(s, pattern, from + 1)
    }
}

/// The index of the first non-digit at or after `from`.
fn digits_end_of(s: &Vec<char>, from: usize) -> (end: usize)
    requires
        from <= s.len(),
    ensures
        end as nat == digits_end(s@, from as nat),
    decreases s.len() - from,
{
    if from >= s.len() {
        s.len()
    } else if !('0' <= s[from] && s[from] <= '9') {
        from
    } else {
        digits_end_of(s, from + 1)
    }
}

/// Reads a ref record: its head's text and its counter.
pub fn parse_ref(text: &str) -> (state: Option<(String, u64)>)
    ensures
        state is None <==> spec_parse_ref(text@) is None,
        state matches Some((head, counter)) ==> spec_parse_ref(text@) == Some((head@, counter)),
{
    proof {
        reveal_strlit("\"head\":\"");
        reveal_strlit("\"counter\":");
        reveal_strlit("\"");
    }
    let s = crate::text::chars_of(text);
    let head_key = crate::text::chars_of("\"head\":\"");
    let counter_key = crate::text::chars_of("\"counter\":");
    let quote = crate::text::chars_of("\"");
    let h = match find(&s, &head_key, 0) {
        Some(h) => h,
        None => return None,
    };
    proof {
        lemma_find_from_fits(s@, head_key@, 0);
    }
    let head_start = h + head_key.len();
    let head_end = match find(&s, &quote, head_start) {
        Some(e) => e,
        None => return None,
    };
    let c = match find(&s, &counter_key, 0) {
        Some(c) => c,
        None => return None,
    };
    proof {
        lemma_find_from_fits(s@, counter_key@, 0);
        lemma_find_from_fits(s@, quote@, head_start as nat);
    }
    let counter_start = c + counter_key.len();
    let counter_end = digits_end_of(&s, counter_start);
    proof {
        lemma_digits_end_bounds(s@, counter_start as nat);
    }
    let digits = crate::events::store::char_range(&s, counter_start, counter_end);
    let counter = match crate::text::parse_u64(digits.as_slice()) {
        Some(n) => n,
        None => return None,
    };
    let head = crate::events::store::char_range(&s, head_start, head_end);
    if !is_digest(&head) {
        return None;
    }
    Some((crate::text::string_of(&head), counter))
}

} // verus!

verus! {

/// Whether `pattern` stands in `s` at `j`.
spec fn fits_at(s: Seq<char>, pattern: Seq<char>, j: nat) -> bool {
    s.subrange(j as int, (j + pattern.len()) as int) == pattern
}

/// A pattern found where it first fits, with no earlier fit from `from` on,
/// is what the search finds.
proof fn lemma_found_at(s: Seq<char>, pattern: Seq<char>, from: nat, k: nat)
    requires
        from <= k,
        k + pattern.len() <= s.len(),
        s.subrange(k as int, (k + pattern.len()) as int) == pattern,
        forall|j: nat| from <= j < k ==> !#[trigger] fits_at(s, pattern, j),
    ensures
        find_from(s, pattern, from) == Some(k),
    decreases k - from,
{
    if from < k {
        assert(!fits_at(s, pattern, from));
        lemma_found_at(s, pattern, from + 1, k);
    }
}

/// A window whose first character differs from the pattern's is no match.
proof fn lemma_differs_at(s: Seq<char>, pattern: Seq<char>, j: nat, i: nat)
    requires
        i < pattern.len(),
        j + pattern.len() <= s.len(),
        s[(j + i) as int] != pattern[i as int],
    ensures
        !fits_at(s, pattern, j),
{
    assert(s.subrange(j as int, (j + pattern.len()) as int)[i as int] == s[(j + i) as int]);
}

/// Digits run exactly to the first non-digit.
proof fn lemma_digits_run(s: Seq<char>, from: nat, end: nat)
    requires
        from <= end < s.len(),
        forall|j: int| from <= j < end ==> crate::text::is_digit(s[j]),
        !crate::text::is_digit(s[end as int]),
    ensures
        digits_end(s, from) == end,
    decreases end - from,
{
    if from < end {
        lemma_digits_run(s, from + 1, end);
    }
}

/// Whether a text holds no '"'.
pub open spec fn quote_free(text: Seq<char>) -> bool {
    forall|i: int| 0 <= i < text.len() ==> text[i] != '"'
}

/// A ref record reads back as the state it was rendered from, for every
/// head that is a digest.
pub proof fn law_ref_records_read_back(head: Seq<char>, counter: u64)
    requires
        is_digest_text(head),
    ensures
        spec_parse_ref(spec_render_ref(head, counter)) == Some((head, counter)),
{
    reveal_strlit("sha256:");
    assert forall|i: int| 0 <= i < head.len() implies head[i] != '"' by {
        if i < 7 {
            assert(head.take(7)[i] == head[i]);
        } else {
            assert(is_lower_hex(head[i]));
        }
    }
    lemma_ref_fields_read_back(head, counter);
}

/// The fields of a record read back as they were rendered, for every head
/// whose text holds no '"'.
#[verifier::rlimit(100)]
proof fn lemma_ref_fields_read_back(head: Seq<char>, counter: u64)
    requires
        quote_free(head),
    ensures
        spec_ref_fields(spec_render_ref(head, counter)) == Some((head, counter)),
{
    let prefix = "{\"version\":1,\"head\":\""@;
    let middle = "\",\"counter\":"@;
    let suffix = "}\n"@;
    let head_key = "\"head\":\""@;
    let counter_key = "\"counter\":"@;
    let quote = "\""@;
    reveal_strlit("{\"version\":1,\"head\":\"");
    reveal_strlit("\",\"counter\":");
    reveal_strlit("}\n");
    reveal_strlit("\"head\":\"");
    reveal_strlit("\"counter\":");
    reveal_strlit("\"");
    crate::text::lemma_decimal_reads_back(counter as nat);
    crate::text::lemma_parse_decimal(counter);
    let digits = decimal(counter as nat);
    let text = spec_render_ref(head, counter);
    let h = head.len();
    assert(prefix.len() == 21);
    assert(middle.len() == 12);
    assert(text =~= prefix + head + middle + digits + suffix);
    assert(forall|i: int| 0 <= i < 21 ==> text[i] == prefix[i]);
    assert(forall|i: int| 0 <= i < h ==> text[21 + i] == head[i]);
    assert(forall|i: int| 0 <= i < 12 ==> text[21 + h + i] == middle[i]);
    assert(forall|i: int| 0 <= i < digits.len() ==> text[33 + h + i] == digits[i]);
    assert(text[(33 + h + digits.len()) as int] == '}');

    // `"head":"` first fits at 13.
    assert(text.subrange(13, 21) =~= head_key);
    assert forall|j: nat| 0 <= j < 13 implies !fits_at(text, head_key, j) by {
        if j == 1 || j == 9 {
            lemma_differs_at(text, head_key, j, 1);
        } else {
            lemma_differs_at(text, head_key, j, 0);
        }
    }
    lemma_found_at(text, head_key, 0, 13);

    // The head runs to the next '"'.
    assert(text.subrange((21 + h) as int, (22 + h) as int) =~= quote);
    assert forall|j: nat| 21 <= j < 21 + h implies !fits_at(text, quote, j) by {
        lemma_differs_at(text, quote, j, 0);
    }
    lemma_found_at(text, quote, 21, (21 + h) as nat);

    // `"counter":` first fits just after the head's closing `",`.
    let c = (23 + h) as nat;
    assert(text.subrange(c as int, (c + 10) as int) =~= counter_key);
    assert forall|j: nat| 0 <= j < c implies !fits_at(text, counter_key, j) by {
        if j == 1 || j == 9 || j == 13 || j == 18 || j == 21 + h {
            lemma_differs_at(text, counter_key, j, 1);
        } else if j == 20 {
            if h == 0 {
                lemma_differs_at(text, counter_key, j, 1);
            } else if head[0] != 'c' {
                lemma_differs_at(text, counter_key, j, 1);
            } else if h >= 8 {
                lemma_differs_at(text, counter_key, j, 8);
            } else if h == 7 {
                lemma_differs_at(text, counter_key, j, 9);
            } else {
                lemma_differs_at(text, counter_key, j, (h + 1) as nat);
            }
        } else {
            lemma_differs_at(text, counter_key, j, 0);
        }
    }
    lemma_found_at(text, counter_key, 0, c);
    lemma_digits_run(text, (33 + h) as nat, (33 + h + digits.len()) as nat);
    assert(text.subrange((33 + h) as int, (33 + h + digits.len()) as int) =~= digits);
    assert(text.subrange(21, (21 + h) as int) =~= head);
}

} // verus!
