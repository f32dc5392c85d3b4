//! `jingle audit`: the human-readable report of recent audit records and
//! of whether the log's hash chain verifies. Reading the log and checking
//! the chain are the caller's.

use vstd::prelude::*;

use crate::model::{clone_opt, opt_view, strs_view};
use crate::output::{join, joined, sanitized_opt};
use crate::redact::{sanitize, sanitized};
use crate::text::{concat, decimal, decimal_string};

verus! {

broadcast use vstd::string::group_string_axioms;

/// One line of the audit log.
#[derive(Debug, Clone, PartialEq, Eq)]
pub struct AuditRecord {
    pub ts: String,
    pub cmd: String,
    pub entry: Option<String>,
    pub field: Option<String>,
    pub outcome: String,
    pub locked: Option<bool>,
}

/// What `audit` prints: lines for standard output, and a warning for
/// standard error when the chain is broken.
pub struct AuditReport {
    pub lines: Vec<String>,
    pub warning: Option<String>,
}

/// Index of the first of the `limit` most recent records.
pub fn recent_start(total: usize, limit: usize) -> (s: usize)
    ensures
        s == if total > limit {
            total - limit
        } else {
            0
        },
{
    if total > limit {
        total - limit
    } else {
        0
    }
}

/// `s` padded with spaces on the right to at least `w` characters
/// (`format!("{s:<w$}")`).
pub open spec fn padded(s: Seq<char>, w: nat) -> Seq<char> {
    if s.len() < w {
        s + Seq::new((w - s.len()) as nat, |i: int| ' ')
    } else {
        s
    }
}

fn pad(s: &str, w: usize) -> (r: String)
    ensures
        r@ == padded(s@, w as nat),
{
    let mut r = s.to_owned();
    let n = crate::text::chars_of(s).len();
    let mut k = n;
    while k < w
        invariant
            n == s@.len(),
            n <= k <= w || (k == n && n >= w),
            r@ == s@ + Seq::new((k - n) as nat, |i: int| ' '),
        decreases w - k,
    {
        r.push(' ');
        k = k + 1;
        assert(r@ =~= s@ + Seq::new((k - n) as nat, |i: int| ' '));
    }
    assert(r@ =~= padded(s@, w as nat));
    r
}

/// The report line of one record.
pub open spec fn record_line(r: AuditRecord) -> Seq<char> {
    r.ts@ + "  "@ + padded(r.cmd@, 14) + " "@ + padded(r.outcome@, 16) + (match r.entry {
        Some(e) => " entry="@ + sanitized(e@, false),
        None => ""@,
    }) + (match r.field {
        Some(f) => " field="@ + f@,
        None => ""@,
    }) + (if r.locked == Some(true) {
        " [locked]"@
    } else {
        ""@
    })
}

/// `[a, b, c]`, the debug rendering of a list of record numbers.
pub open spec fn number_list(ns: Seq<usize>) -> Seq<char> {
    "["@ + joined(ns.map_values(|n: usize| decimal(n as nat)), ", "@) + "]"@
}

/// The report for `records` (the whole log, oldest first), showing the
/// `limit` most recent, given the record numbers at which the hash chain
/// breaks.
pub fn audit_report(records: &Vec<AuditRecord>, limit: usize, breaks: &Vec<usize>) -> (rep: AuditReport)
    ensures
        records@.len() == 0 ==> strs_view(rep.lines@) == seq!["(audit log is empty)"@] && rep.warning is None,
        records@.len() > 0 ==> {
            let start = if records@.len() > limit {
                records@.len() - limit
            } else {
                0
            };
            let recent = records@.skip(start);
            &&& strs_view(rep.lines@) == recent.map_values(|r: AuditRecord| record_line(r)).push(
                "-- "@ + decimal(records@.len() as nat) + " records total; hash chain: "@ + (if breaks@.len() == 0 {
                    "OK"@
                } else {
                    "BROKEN"@
                }),
            )
            &&& breaks@.len() == 0 ==> rep.warning is None
            &&& breaks@.len() > 0 ==> (rep.warning matches Some(w) && w@ == "jingle: WARNING: audit chain broken at record(s) "@ + number_list(breaks@) + " — the log has been edited or truncated"@)
        },
{
    let mut lines: Vec<String> = Vec::new();
    if records.len() == 0 {
        lines.push("(audit log is empty)".to_owned());
        assert(strs_view(lines@) =~= seq!["(audit log is empty)"@]);
        return AuditReport { lines, warning: None };
    }
    let start = recent_start(records.len(), limit);
    let ghost recent = records@.skip(start as int);
    let mut i = start;
    while i < records.len()
        invariant
            start <= i <= records@.len(),
            recent == records@.skip(start as int),
            strs_view(lines@) == recent.take(i - start).map_values(|r: AuditRecord| record_line(r)),
        decreases records.len() - i,
    {
        let r = &records[i];
        let a = concat(r.ts.as_str(), "  ");
        let b = concat(a.as_str(), pad(r.cmd.as_str(), 14).as_str());
        let c = concat(b.as_str(), " ");
        let base = concat(c.as_str(), pad(r.outcome.as_str(), 16).as_str());
        let entry_part = match &r.entry {
            Some(e) => concat(" entry=", sanitize(e.as_str()).as_str()),
            None => String::new(),
        };
        let field_part = match &r.field {
            Some(f) => concat(" field=", f.as_str()),
            None => String::new(),
        };
        let locked_part = match r.locked {
            Some(true) => " [locked]",
            _ => "",
        };
        let x = concat(base.as_str(), entry_part.as_str());
        let y = concat(x.as_str(), field_part.as_str());
        let line = concat(y.as_str(), locked_part);
        let ghost before = strs_view(lines@);
        proof {
            reveal_strlit("");
            assert(line@ =~= record_line(*r));
            assert(recent[i - start] == *r);
            assert(recent.take(i + 1 - start) =~= recent.take(i - start).push(*r));
        }
        lines.push(line);
        proof {
            assert(strs_view(lines@) =~= before.push(record_line(*r)));
            assert(recent.take(i + 1 - start).map_values(|r: AuditRecord| record_line(r)) =~= recent.take(i - start).map_values(|r: AuditRecord| record_line(r)).push(record_line(*r)));
        }
        i = i + 1;
    }
    assert(recent.take(records@.len() - start) =~= recent);
    let a = concat("-- ", decimal_string(records.len() as u64).as_str());
    let b = concat(a.as_str(), " records total; hash chain: ");
    let summary = concat(b.as_str(), if breaks.len() == 0 {
        "OK"
    } else {
        "BROKEN"
    });
    let ghost before = strs_view(lines@);
    lines.push(summary);
    assert(strs_view(lines@) =~= before.push(summary@));
    if breaks.len() == 0 {
        return AuditReport { lines, warning: None };
    }
    let mut numbers: Vec<String> = Vec::new();
    let mut k: usize = 0;
    while k < breaks.len()
        invariant
            k <= breaks@.len(),
            strs_view(numbers@) == breaks@.take(k as int).map_values(|n: usize| decimal(n as nat)),
        decreases breaks.len() - k,
    {
        let d = decimal_string(breaks[k] as u64);
        let ghost before = strs_view(numbers@);
        numbers.push(d);
        proof {
            assert(strs_view(numbers@) =~= before.push(d@));
            assert(breaks@.take(k + 1).map_values(|n: usize| decimal(n as nat)) =~= breaks@.take(k as int).map_values(|n: usize| decimal(n as nat)).push(decimal(breaks@[k as int] as nat)));
        }
        k = k + 1;
    }
    assert(breaks@.take(breaks@.len() as int) =~= breaks@);
    let list = concat("[", join(&numbers, ", ").as_str());
    let list = concat(list.as_str(), "]");
    let w = concat("jingle: WARNING: audit chain broken at record(s) ", list.as_str());
    let w = concat(w.as_str(), " — the log has been edited or truncated");
    AuditReport { lines, warning: Some(w) }
}

/// The record as `--json` output renders it: the entry name scrubbed as
/// single-line text, every other field as it is.
pub open spec fn json_record_of(r: AuditRecord, j: AuditRecord) -> bool {
    &&& j.ts@ == r.ts@
    &&& j.cmd@ == r.cmd@
    &&& opt_view(j.entry) == sanitized_opt(opt_view(r.entry), false)
    &&& opt_view(j.field) == opt_view(r.field)
    &&& j.outcome@ == r.outcome@
    &&& j.locked == r.locked
}

/// One record for `--json` output (see `json_record_of`).
pub fn json_record(r: &AuditRecord) -> (j: AuditRecord)
    ensures
        json_record_of(*r, j),
{
    AuditRecord {
        ts: r.ts.clone(),
        cmd: r.cmd.clone(),
        entry: match &r.entry {
            Some(e) => Some(sanitize(e.as_str())),
            None => None,
        },
        field: clone_opt(&r.field),
        outcome: r.outcome.clone(),
        locked: r.locked,
    }
}

/// The records `--json` output lists: the `limit` most recent of
/// `records` (the whole log, oldest first), each as `json_record` renders it.
pub fn json_records(records: &Vec<AuditRecord>, limit: usize) -> (out: Vec<AuditRecord>)
    ensures
        ({
            let recent = records@.skip(if records@.len() > limit {
                records@.len() - limit
            } else {
                0
            });
            &&& out@.len() == recent.len()
            &&& forall|k: int| 0 <= k < recent.len() ==> json_record_of(recent[k], #[trigger] out@[k])
        }),
{
    let start = recent_start(records.len(), limit);
    let ghost recent = records@.skip(start as int);
    let mut out: Vec<AuditRecord> = Vec::new();
    let mut i = start;
    while i < records.len()
        invariant
            start <= i <= records@.len(),
            recent == records@.skip(start as int),
            out@.len() == i - start,
            forall|k: int| 0 <= k < i - start ==> json_record_of(recent[k], #[trigger] out@[k]),
        decreases records.len() - i,
    {
        let j = json_record(&records[i]);
        assert(recent[i - start] == records@[i as int]);
        out.push(j);
        i = i + 1;
    }
    out
}

} // verus!
