//! Where decision records are kept: verbatim, append-only, and partitioned
//! into per-tenant views. This module holds the store's naming and the rules
//! of its files; the files themselves are read and written around it.

use vstd::prelude::*;

use crate::events::store::{keep_up_to, numbered, padded, push_padded, spec_numbered};
use crate::text::{push_char, push_str, same_text};

verus! {

/// How much one segment holds before the next is started: a file an operator
/// can still open by hand.
pub const SEGMENT_BYTES: u64 = 33554432;

/// What the store knows about one producer stream.
#[derive(Debug, Clone, PartialEq, Eq)]
pub struct StreamState {
    /// The highest contiguous durable sequence. Never the highest accepted.
    pub acked: u64,
    /// The digest at that point, which the next record must name.
    pub head: String,
    /// Set when the stream was closed permanently, and why.
    pub closed: Option<String>,
}

impl StreamState {
    /// The state of a stream nobody has shipped: nothing acknowledged, the
    /// chain at its genesis digest, open.
    pub fn fresh(genesis: &str) -> (state: Self)
        ensures
            state.acked == 0,
            state.head@ == genesis@,
            state.closed is None,
    {
        StreamState { acked: 0, head: genesis.to_owned(), closed: None }
    }
}


/// Which records a reader is asking for.
#[derive(Debug, Clone, PartialEq, Eq)]
pub enum Scope {
    /// One producer's whole stream: the privileged, deployment-wide read.
    Stream { pdp_id: String, instance: String },
    /// One tenant's records.
    Tenant { zone: String, ledger: String },
}

/// The stable name of a scope, which an offset is bound to.
pub open spec fn spec_scope_key(scope: Scope) -> Seq<char> {
    match scope {
        Scope::Stream { pdp_id, instance } => "stream:"@ + pdp_id@ + ":"@ + instance@,
        Scope::Tenant { zone, ledger } => "tenant:"@ + zone@ + ":"@ + ledger@,
    }
}

impl Scope {
    /// A stable name for this scope, which an offset is bound to.
    pub fn key(&self) -> (key: String)
        ensures
            key@ == spec_scope_key(*self),
    {
        let mut key = String::new();
        match self {
            Scope::Stream { pdp_id, instance } => {
                push_str(&mut key, "stream:");
                push_str(&mut key, pdp_id.as_str());
                push_str(&mut key, ":");
                push_str(&mut key, instance.as_str());
            },
            Scope::Tenant { zone, ledger } => {
                push_str(&mut key, "tenant:");
                push_str(&mut key, zone.as_str());
                push_str(&mut key, ":");
                push_str(&mut key, ledger.as_str());
            },
        }
        key
    }
}

/// Whether a name holds no ':', as every name a directory may carry.
pub open spec fn colon_free(name: Seq<char>) -> bool {
    forall|i: int| 0 <= i < name.len() ==> name[i] != ':'
}

/// Two names joined by ':' come apart again where neither holds a ':'.
pub proof fn lemma_split_at_colon(x: Seq<char>, y: Seq<char>, u: Seq<char>, v: Seq<char>)
    requires
        colon_free(x),
        colon_free(u),
        x + ":"@ + y == u + ":"@ + v,
    ensures
        x == u,
        y == v,
{
    reveal_strlit(":");
    let l = x + ":"@ + y;
    let r = u + ":"@ + v;
    if x.len() < u.len() {
        assert(l[x.len() as int] == ':');
        assert(r[x.len() as int] == u[x.len() as int]);
    } else if u.len() < x.len() {
        assert(r[u.len() as int] == ':');
        assert(l[u.len() as int] == x[u.len() as int]);
    }
    assert(x =~= l.take(x.len() as int));
    assert(u =~= r.take(u.len() as int));
    assert(y =~= l.skip((x.len() + 1) as int));
    assert(v =~= r.skip((u.len() + 1) as int));
}

/// Scope keys tell scopes apart: two scopes whose names hold no ':' share a
/// key only when they are the same scope, so an offset bound to one scope's
/// key is refused under any other.
pub proof fn law_scope_keys_tell_scopes_apart(a: Scope, b: Scope)
    requires
        match a {
            Scope::Stream { pdp_id, instance } => colon_free(pdp_id@) && colon_free(instance@),
            Scope::Tenant { zone, ledger } => colon_free(zone@) && colon_free(ledger@),
        },
        match b {
            Scope::Stream { pdp_id, instance } => colon_free(pdp_id@) && colon_free(instance@),
            Scope::Tenant { zone, ledger } => colon_free(zone@) && colon_free(ledger@),
        },
        spec_scope_key(a) == spec_scope_key(b),
    ensures
        match (a, b) {
            (Scope::Stream { pdp_id: p1, instance: i1 }, Scope::Stream { pdp_id: p2, instance: i2 }) => p1@ == p2@ && i1@ == i2@,
            (Scope::Tenant { zone: z1, ledger: l1 }, Scope::Tenant { zone: z2, ledger: l2 }) => z1@ == z2@ && l1@ == l2@,
            _ => false,
        },
{
    reveal_strlit("stream:");
    reveal_strlit("tenant:");
    reveal_strlit(":");
    match (a, b) {
        (Scope::Stream { pdp_id: p1, instance: i1 }, Scope::Stream { pdp_id: p2, instance: i2 }) => {
            let k1 = spec_scope_key(a);
            assert(k1.skip(7) =~= p1@ + ":"@ + i1@);
            assert(spec_scope_key(b).skip(7) =~= p2@ + ":"@ + i2@);
            lemma_split_at_colon(p1@, i1@, p2@, i2@);
        },
        (Scope::Tenant { zone: z1, ledger: l1 }, Scope::Tenant { zone: z2, ledger: l2 }) => {
            assert(spec_scope_key(a).skip(7) =~= z1@ + ":"@ + l1@);
            assert(spec_scope_key(b).skip(7) =~= z2@ + ":"@ + l2@);
            lemma_split_at_colon(z1@, l1@, z2@, l2@);
        },
        (Scope::Stream { .. }, Scope::Tenant { .. }) => {
            assert(spec_scope_key(a)[0] == 's');
            assert(spec_scope_key(b)[0] == 't');
        },
        (Scope::Tenant { .. }, Scope::Stream { .. }) => {
            assert(spec_scope_key(a)[0] == 't');
            assert(spec_scope_key(b)[0] == 's');
        },
    }
}

/// Why a name is refused as a directory.
pub open spec fn refused_name_message(name: Seq<char>, what: Seq<char>) -> Seq<char> {
    "`"@ + name + "` is not "@ + what
}

/// Refuses a name that would escape the store, for a caller that only has one.
/// `portable` is whether the name is one a directory may carry.
pub fn check_name(name: &str, portable: bool) -> (checked: Result<(), String>)
    ensures
        portable ==> checked is Ok,
        !portable ==> (checked matches Err(m) && m@ == refused_name_message(name@, "a name this store accepts"@)),
{
    if !portable {
        return Err(refused(name, "a name this store accepts"));
    }
    Ok(())
}

/// The message refusing `name` as `what`.
fn refused(name: &str, what: &str) -> (message: String)
    ensures
        message@ == refused_name_message(name@, what@),
{
    let mut message = String::new();
    push_str(&mut message, "`");
    push_str(&mut message, name);
    push_str(&mut message, "` is not ");
    push_str(&mut message, what);
    message
}

/// The append-only store of decision records, rooted at one directory.
#[derive(Debug, Clone)]
pub struct DecisionStore {
    root: String,
}

impl DecisionStore {
    /// Where the store lives.
    pub closed spec fn spec_root(&self) -> Seq<char> {
        self.root@
    }

    /// The store rooted at `root`.
    pub fn new(root: String) -> (store: Self)
        ensures
            store.spec_root() == root@,
    {
        DecisionStore { root }
    }

    /// Where the store lives.
    pub fn root(&self) -> (root: &str)
        ensures
            root@ == self.spec_root(),
    {
        self.root.as_str()
    }

    /// The directory of one producer stream, as the path components under the
    /// root: `streams/<pdp-id>/<instance>`, for names a directory may carry.
    pub fn stream_path(&self, pdp_id: &str, pdp_portable: bool, instance: &str, instance_portable: bool)
        -> (path: Result<Vec<String>, String>)
        ensures
            !pdp_portable ==> (path matches Err(m) && m@ == refused_name_message(pdp_id@, "a producer name"@)),
            pdp_portable && !instance_portable ==> (path matches Err(m) && m@ == refused_name_message(instance@, "an incarnation id"@)),
            pdp_portable && instance_portable ==> (path matches Ok(p) && p@.len() == 4 && p@[0]@ == self.spec_root()
                && p@[1]@ == "streams"@ && p@[2]@ == pdp_id@ && p@[3]@ == instance@),
    {
        if !pdp_portable {
            return Err(refused(pdp_id, "a producer name"));
        }
        if !instance_portable {
            return Err(refused(instance, "an incarnation id"));
        }
        let mut path: Vec<String> = Vec::new();
        path.push(self.root.clone());
        path.push("streams".to_string());
        path.push(pdp_id.to_string());
        path.push(instance.to_string());
        Ok(path)
    }

    /// The directory of one tenant view, as the path components under the
    /// root: `views/<zone>/<ledger>`, for names a directory may carry.
    pub fn view_path(&self, zone: &str, zone_portable: bool, ledger: &str, ledger_portable: bool)
        -> (path: Result<Vec<String>, String>)
        ensures
            !zone_portable ==> (path matches Err(m) && m@ == refused_name_message(zone@, "a zone name"@)),
            zone_portable && !ledger_portable ==> (path matches Err(m) && m@ == refused_name_message(ledger@, "a ledger name"@)),
            zone_portable && ledger_portable ==> (path matches Ok(p) && p@.len() == 4 && p@[0]@ == self.spec_root()
                && p@[1]@ == "views"@ && p@[2]@ == zone@ && p@[3]@ == ledger@),
    {
        if !zone_portable {
            return Err(refused(zone, "a zone name"));
        }
        if !ledger_portable {
            return Err(refused(ledger, "a ledger name"));
        }
        let mut path: Vec<String> = Vec::new();
        path.push(self.root.clone());
        path.push("views".to_string());
        path.push(zone.to_string());
        path.push(ledger.to_string());
        Ok(path)
    }

    /// What a stream's state becomes once everything up to `acked` is
    /// durable: acknowledged there, with `head` the digest the next record
    /// must name, and closed exactly when it was.
    pub fn acknowledge(&self, state: StreamState, acked: u64, head: &str) -> (next: StreamState)
        ensures
            next.acked == acked,
            next.head@ == head@,
            next.closed == state.closed,
    {
        StreamState { acked, head: head.to_string(), closed: state.closed }
    }

    /// The segments among a scope directory's file names, oldest first: each
    /// as the first sequence its name carries and the index of the name.
    pub fn segments(&self, names: &Vec<String>) -> (found: Vec<(u64, u64)>)
        ensures
            crate::events::read::strictly_sorted(found@, |a: (u64, u64), b: (u64, u64)| crate::events::read::pair_lt(a, b)),
            forall|x: (u64, u64)| #[trigger] found@.contains(x) <==> (x.1 < names.len()
                && spec_numbered(names@[x.1 as int]@, "seg-"@, ".jsonl"@) == Some(Some(x.0))),
    {
        let mut parsed: Vec<(u64, u64)> = Vec::new();
        let mut i: usize = 0;
        while i < names.len()
            invariant
                i <= names.len(),
                forall|x: (u64, u64)| #[trigger] parsed@.contains(x) <==> (x.1 < i
                    && spec_numbered(names@[x.1 as int]@, "seg-"@, ".jsonl"@) == Some(Some(x.0))),
            decreases names.len() - i,
        {
            let ghost before = parsed@;
            if let Some(Some(first)) = numbered(names[i].as_str(), "seg-", ".jsonl") {
                parsed.push((first, i as u64));
                proof {
                    assert forall|x: (u64, u64)| #[trigger] parsed@.contains(x) <==> (before.contains(x) || x == (first, i as u64)) by {
                        if parsed@.contains(x) {
                            let k = choose|k: int| 0 <= k < parsed@.len() && parsed@[k] == x;
                            if k < before.len() {
                                assert(before[k] == x);
                            }
                        }
                        if before.contains(x) {
                            let k = choose|k: int| 0 <= k < before.len() && before[k] == x;
                            assert(parsed@[k] == x);
                        }
                        if x == (first, i as u64) {
                            assert(parsed@[before.len() as int] == x);
                        }
                    }
                }
            }
            i += 1;
        }
        let mut lists: Vec<Vec<(u64, u64)>> = Vec::new();
        lists.push(parsed);
        let found = crate::events::read::merge_positions(&lists);
        proof {
            assert forall|x: (u64, u64)| #[trigger] found@.contains(x) <==> lists@[0]@.contains(x) by {
                if found@.contains(x) {
                    let p = choose|p: int| 0 <= p < lists.len() && lists@[p]@.contains(x);
                    assert(p == 0);
                }
            }
        }
        found
    }
}

/// Whether the next record of a directory starts a new segment, given the
/// size of its newest one (`None` when it holds none): a segment is sealed
/// once it holds `SEGMENT_BYTES`.
pub fn starts_new_segment(newest_len: Option<u64>) -> (new: bool)
    ensures
        new == (match newest_len {
            None => true,
            Some(len) => len >= SEGMENT_BYTES,
        }),
{
    match newest_len {
        None => true,
        Some(len) => len >= SEGMENT_BYTES,
    }
}

/// The file name of the segment starting at `seq`.
pub fn segment_file_name(seq: u64) -> (name: String)
    ensures
        name@ == "seg-"@ + padded(seq) + ".jsonl"@,
{
    let mut name = String::new();
    push_str(&mut name, "seg-");
    push_padded(&mut name, seq);
    push_str(&mut name, ".jsonl");
    name
}

/// The file name of the envelope attesting the batch starting at `first_seq`.
pub fn batch_file_name(first_seq: u64) -> (name: String)
    ensures
        name@ == "batch-"@ + padded(first_seq) + ".jws"@,
{
    crate::events::store::batch_file_name(first_seq)
}

/// The line recording that a stream wrote to the view of `zone`/`ledger`.
pub open spec fn spec_view_line(zone: Seq<char>, ledger: Seq<char>) -> Seq<char> {
    zone + seq!['\t'] + ledger
}

/// The line recording that a stream wrote to a tenant view, with its line break.
pub fn view_line(zone: &str, ledger: &str) -> (line: String)
    ensures
        line@ == spec_view_line(zone@, ledger@).push('\n'),
{
    let mut line = String::new();
    push_str(&mut line, zone);
    push_char(&mut line, '\t');
    push_str(&mut line, ledger);
    push_char(&mut line, '\n');
    line
}

/// Whether a stream's list of views already names `zone`/`ledger`.
pub fn names_view(lines: &Vec<String>, zone: &str, ledger: &str) -> (named: bool)
    ensures
        named == exists|i: int| 0 <= i < lines.len() && #[trigger] lines@[i]@ == spec_view_line(zone@, ledger@),
{
    let mut wanted = String::new();
    push_str(&mut wanted, zone);
    push_char(&mut wanted, '\t');
    push_str(&mut wanted, ledger);
    let mut i: usize = 0;
    while i < lines.len()
        invariant
            i <= lines.len(),
            wanted@ == spec_view_line(zone@, ledger@),
            forall|j: int| 0 <= j < i ==> #[trigger] lines@[j]@ != spec_view_line(zone@, ledger@),
        decreases lines.len() - i,
    {
        if same_text(lines[i].as_str(), wanted.as_str()) {
            return true;
        }
        i += 1;
    }
    false
}

/// Where the first tab of `s` stands, if it has one.
pub open spec fn tab_at(s: Seq<char>) -> Option<nat>
    decreases s.len(),
{
    if s.len() == 0 {
        None
    } else if s[0] == '\t' {
        Some(0)
    } else {
        match tab_at(s.drop_first()) {
            Some(k) => Some(k + 1),
            None => None,
        }
    }
}

proof fn lemma_tab_at_prefix(s: Seq<char>, k: nat)
    requires
        k <= s.len(),
        forall|j: int| 0 <= j < k ==> s[j] != '\t',
    ensures
        k == s.len() ==> tab_at(s) is None,
        k < s.len() && s[k as int] == '\t' ==> tab_at(s) == Some(k),
    decreases k,
{
    if k > 0 {
        lemma_tab_at_prefix(s.drop_first(), (k - 1) as nat);
    }
}

/// The tenant view one line of a stream's list of views names: what stands
/// before its first tab, and what after.
pub fn view_entry(line: &str) -> (entry: Option<(String, String)>)
    ensures
        entry is None <==> tab_at(line@) is None,
        entry matches Some((zone, ledger)) ==> tab_at(line@) matches Some(k)
            && zone@ == line@.take(k as int) && ledger@ == line@.skip((k + 1) as int),
{
    let chars = crate::text::chars_of(line);
    let mut k: usize = 0;
    while k < chars.len()
        invariant
            k <= chars.len(),
            chars@ == line@,
            forall|j: int| 0 <= j < k ==> chars@[j] != '\t',
        ensures
            k <= chars.len(),
            forall|j: int| 0 <= j < k ==> chars@[j] != '\t',
            k == chars.len() || chars@[k as int] == '\t',
        decreases chars.len() - k,
    {
        if chars[k] == '\t' {
            break;
        }
        k += 1;
    }
    proof {
        lemma_tab_at_prefix(line@, k as nat);
    }
    if k == chars.len() {
        return None;
    }
    let zone = crate::events::store::char_range(&chars, 0, k);
    let ledger = crate::events::store::char_range(&chars, k + 1, chars.len());
    assert(zone@ =~= line@.take(k as int));
    assert(ledger@ =~= line@.skip(k + 1));
    Some((crate::text::string_of(&zone), crate::text::string_of(&ledger)))
}

/// What rolling a file of records back to an acknowledgement does to it.
#[derive(Debug, Clone, PartialEq, Eq)]
pub enum Rollback {
    /// Nothing was above the acknowledgement: the file is not rewritten.
    Untouched,
    /// Everything was: the file goes.
    Remove,
    /// The file is rewritten with what stays.
    Rewrite(String),
}

/// Rolls a file of decision records back to `acked`, given its non-empty
/// lines and the sequence each record carries: the records above it leave,
/// and how many did; nothing at or below it is ever touched.
pub fn roll_back(lines: &Vec<String>, seqs: &Vec<u64>, acked: u64) -> (rolled: (Rollback, u64))
    requires
        lines.len() == seqs.len(),
    ensures
        rolled.1 == crate::events::store::dropped_count(seqs@, Seq::new(seqs.len() as nat, |i: int| true), acked, lines.len() as nat),
        rolled.1 == 0 ==> rolled.0 == Rollback::Untouched,
        rolled.1 > 0 ==> (match rolled.0 {
            Rollback::Remove => crate::events::store::kept_text(crate::text::views(lines@), seqs@,
                Seq::new(seqs.len() as nat, |i: int| true), acked, lines.len() as nat).len() == 0,
            Rollback::Rewrite(kept) => kept@.len() > 0 && kept@ == crate::events::store::kept_text(crate::text::views(lines@), seqs@,
                Seq::new(seqs.len() as nat, |i: int| true), acked, lines.len() as nat),
            Rollback::Untouched => false,
        }),
{
    let mut owned: Vec<bool> = Vec::new();
    let mut i: usize = 0;
    while i < seqs.len()
        invariant
            i <= seqs.len(),
            owned@ == Seq::new(i as nat, |j: int| true),
        decreases seqs.len() - i,
    {
        owned.push(true);
        assert(owned@ =~= Seq::new((i + 1) as nat, |j: int| true));
        i += 1;
    }
    let (kept, dropped) = keep_up_to(lines, seqs, &owned, acked);
    if dropped == 0 {
        return (Rollback::Untouched, 0);
    }
    if crate::text::chars_of(kept.as_str()).len() == 0 {
        (Rollback::Remove, dropped)
    } else {
        (Rollback::Rewrite(kept), dropped)
    }
}

} // verus!
