//! Segments as lines of JSON records, read from a position up to a limit, as
//! both stores keep them.

use vstd::prelude::*;

verus! {

/// `serde_json::Value`, what one segment line parses to.
#[verifier::external_type_specification]
#[verifier::external_body]
pub struct ExValue(serde_json::Value);

/// What `serde_json` makes of one line: `None` where it is not JSON, else the
/// record's `seq` field where that is an unsigned integer.
pub uninterp spec fn record_of(line: Seq<char>) -> Option<Option<u64>>;

/// The JSON value `serde_json` parses one line to, where it parses.
pub uninterp spec fn value_of(line: Seq<char>) -> serde_json::Value;

/// Parses one line by `serde_json::from_str::<serde_json::Value>`, and reads
/// its `seq` field by `Value::get` and `Value::as_u64`. Claimed: whether it
/// parses, the value it parses to and the `seq` it carries are functions of
/// the line alone, named `record_of` and `value_of`.
#[verifier::external_body]
fn parse_record(line: &str) -> (r: Option<(serde_json::Value, Option<u64>)>)
    ensures
        r is None <==> record_of(line@) is None,
        r matches Some((_, s)) ==> record_of(line@) == Some(s),
        r matches Some((v, _)) ==> v == value_of(line@),
{
    let value: serde_json::Value = serde_json::from_str(line).ok()?;
    let seq = value.get("seq").and_then(serde_json::Value::as_u64);
    Some((value, seq))
}

/// The walk over `lines` from index `i`, having taken the record lines
/// `taken`: an empty line is passed over, a non-empty one is taken while
/// fewer than `limit` were, and the walk stops at the limit or at the end.
/// The answer is the lines taken, in file order, and the index after the last
/// line consumed, or the index of the first line that is not a record.
pub open spec fn segment_walk(lines: Seq<Seq<char>>, limit: nat, i: nat, taken: Seq<Seq<char>>)
    -> Result<(Seq<Seq<char>>, nat), nat>
    decreases lines.len() - i,
{
    if i >= lines.len() || taken.len() >= limit {
        Ok((taken, i))
    } else if lines[i as int].len() == 0 {
        segment_walk(lines, limit, i + 1, taken)
    } else {
        match record_of(lines[i as int]) {
            None => Err(i),
            Some(_) => segment_walk(lines, limit, i + 1, taken.push(lines[i as int])),
        }
    }
}

/// The sequences the taken record lines carry.
pub open spec fn seqs_of(taken: Seq<Seq<char>>) -> Seq<Option<u64>> {
    Seq::new(taken.len(), |k: int| record_of(taken[k]).unwrap())
}

/// The values the taken record lines parse to.
pub open spec fn values_of(taken: Seq<Seq<char>>) -> Seq<serde_json::Value> {
    Seq::new(taken.len(), |k: int| value_of(taken[k]))
}

/// The first line a read from `position` looks at.
pub open spec fn walk_start(lines: Seq<Seq<char>>, position: u64) -> nat {
    if position < lines.len() { position as nat } else { lines.len() }
}

/// Where the walk stops, from its index after the last consumed line.
proof fn lemma_segment_walk_bounds(lines: Seq<Seq<char>>, limit: nat, i: nat, taken: Seq<Seq<char>>)
    requires
        i <= lines.len(),
        taken.len() <= limit,
    ensures
        segment_walk(lines, limit, i, taken) matches Ok((t, end)) ==> i <= end <= lines.len() && t.len() <= limit
            && taken.len() <= t.len() && t.take(taken.len() as int) == taken,
        segment_walk(lines, limit, i, taken) matches Err(k) ==> i <= k < lines.len(),
    decreases lines.len() - i,
{
    if i < lines.len() && taken.len() < limit {
        if lines[i as int].len() == 0 {
            lemma_segment_walk_bounds(lines, limit, i + 1, taken);
        } else if record_of(lines[i as int]) is Some {
            let seq = lines[i as int];
            lemma_segment_walk_bounds(lines, limit, i + 1, taken.push(seq));
            if let Ok((t, end)) = segment_walk(lines, limit, i + 1, taken.push(seq)) {
                assert(t.take(taken.len() as int) =~= t.take((taken.len() + 1) as int).take(taken.len() as int));
                assert(taken.push(seq).take(taken.len() as int) =~= taken);
            }
        }
    } else {
        assert(taken.take(taken.len() as int) =~= taken);
    }
}

/// The records of a segment's `lines` from line `position` on: the first
/// `position` lines are skipped; after them, empty lines are counted in the
/// offset and not returned, and at most `limit` non-empty lines are returned,
/// parsed, with the sequence each carries. The offset returned is `position`
/// plus the lines consumed. `Err(i)` names the first line, counted from zero,
/// that is not a record.
pub fn segment_records(lines: &Vec<String>, position: u64, limit: usize)
    -> (read: Result<(Vec<serde_json::Value>, Vec<Option<u64>>, u64), usize>)
    ensures
        ({
            let all = crate::text::views(lines@);
            let start = walk_start(all, position);
            match segment_walk(all, limit as nat, start, Seq::empty()) {
                Ok((taken, end)) => read matches Ok((records, found, offset))
                    && records@ == values_of(taken)
                    && found@ == seqs_of(taken)
                    && offset == position + (end - start),
                Err(i) => i < lines.len() && read == Err::<(Vec<serde_json::Value>, Vec<Option<u64>>, u64), usize>(i as usize),
            }
        }),
{
    let ghost all = crate::text::views(lines@);
    let start: usize = if position < lines.len() as u64 { position as usize } else { lines.len() };
    proof {
        lemma_segment_walk_bounds(all, limit as nat, start as nat, Seq::empty());
    }
    let ghost answer = segment_walk(all, limit as nat, start as nat, Seq::empty());
    let mut records: Vec<serde_json::Value> = Vec::new();
    let mut found: Vec<Option<u64>> = Vec::new();
    let ghost mut taken: Seq<Seq<char>> = Seq::empty();
    assert(records@ =~= values_of(taken));
    assert(found@ =~= seqs_of(taken));
    let mut i: usize = start;
    while i < lines.len() && found.len() < limit
        invariant
            start <= i <= lines.len(),
            all == crate::text::views(lines@),
            all.len() == lines.len(),
            start as nat == walk_start(all, position),
            records@ == values_of(taken),
            found@ == seqs_of(taken),
            found.len() <= limit,
            forall|k: int| 0 <= k < taken.len() ==> record_of(#[trigger] taken[k]) is Some,
            segment_walk(all, limit as nat, i as nat, taken) == answer,
            answer == segment_walk(all, limit as nat, start as nat, Seq::empty()),
        decreases lines.len() - i,
    {
        let line = lines[i].as_str();
        if line.is_empty() {
            i += 1;
            continue;
        }
        match parse_record(line) {
            None => {
                return Err(i);
            },
            Some((value, seq)) => {
                assert(all[i as int] == line@);
                records.push(value);
                found.push(seq);
                proof {
                    let before = taken;
                    taken = before.push(line@);
                    assert(records@ =~= values_of(taken));
                    assert forall|k: int| 0 <= k < taken.len() implies record_of(#[trigger] taken[k]) is Some by {
                        if k < before.len() {
                            assert(taken[k] == before[k]);
                        }
                    }
                    assert(found@ =~= seqs_of(taken));
                }
            },
        }
        i += 1;
    }
    proof {
        lemma_segment_walk_bounds(all, limit as nat, start as nat, Seq::empty());
    }
    let offset: u64 = position + (i - start) as u64;
    Ok((records, found, offset))
}

} // verus!
