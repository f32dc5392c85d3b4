//! Human-readable rendering of entry views. Only `EntryView` reaches this
//! module, so secret values cannot be rendered; every metadata field is
//! sanitized and notes are framed as untrusted.

use vstd::prelude::*;

use crate::model::{opt_view, strs_view, EntryView, REDACTED};
use crate::redact::sanitize_with;
use crate::redact::{frame_untrusted, framed, sanitize, sanitized};
use crate::text::concat;

verus! {

broadcast use vstd::string::group_string_axioms;

/// `parts` joined with `sep` between consecutive parts.
pub open spec fn joined(parts: Seq<Seq<char>>, sep: Seq<char>) -> Seq<char>
    decreases parts.len(),
{
    if parts.len() == 0 {
        Seq::empty()
    } else if parts.len() == 1 {
        parts[0]
    } else {
        joined(parts.drop_last(), sep) + sep + parts.last()
    }
}

/// Join strings with a separator.
pub fn join(parts: &Vec<String>, sep: &str) -> (r: String)
    ensures
        r@ == joined(strs_view(parts@), sep@),
{
    let mut r = String::new();
    let mut i: usize = 0;
    while i < parts.len()
        invariant
            i <= parts@.len(),
            r@ == joined(strs_view(parts@.take(i as int)), sep@),
        decreases parts.len() - i,
    {
        let ghost before = strs_view(parts@.take(i as int));
        proof {
            assert(strs_view(parts@.take(i + 1)).drop_last() =~= before);
            assert(strs_view(parts@.take(i + 1)).last() == parts@[i as int]@);
        }
        if i > 0 {
            r.append(sep);
        }
        r.append(parts[i].as_str());
        proof {
            if i == 0 {
                assert(strs_view(parts@.take(1)) =~= seq![parts@[0]@]);
            }
        }
        i = i + 1;
    }
    assert(parts@.take(parts@.len() as int) =~= parts@);
    r
}

pub open spec fn sanitized_all(ts: Seq<Seq<char>>) -> Seq<Seq<char>> {
    ts.map_values(|t: Seq<char>| sanitized(t, false))
}

fn sanitize_all(ts: &Vec<String>) -> (r: Vec<String>)
    ensures
        strs_view(r@) == sanitized_all(strs_view(ts@)),
{
    let mut r: Vec<String> = Vec::new();
    let mut i: usize = 0;
    while i < ts.len()
        invariant
            i <= ts@.len(),
            strs_view(r@) == sanitized_all(strs_view(ts@.take(i as int))),
        decreases ts.len() - i,
    {
        let s = sanitize(ts[i].as_str());
        let ghost before = strs_view(r@);
        r.push(s);
        proof {
            assert(strs_view(r@) =~= before.push(s@));
            assert(sanitized_all(strs_view(ts@.take(i + 1))) =~= sanitized_all(strs_view(ts@.take(i as int))).push(sanitized(ts@[i as int]@, false)));
        }
        i = i + 1;
    }
    assert(ts@.take(ts@.len() as int) =~= ts@);
    r
}

/// The `list` line of one view.
pub open spec fn list_line(v: EntryView) -> Seq<char> {
    sanitized(v.name@, false) + (if v.locked {
        " [locked]"@
    } else {
        ""@
    }) + "  service="@ + sanitized(v.service@, false) + "  user="@ + (match v.username {
        Some(u) => sanitized(u@, false),
        None => "-"@,
    }) + "  secrets="@ + (if v.secret_fields@.len() == 0 {
        "-"@
    } else {
        joined(strs_view(v.secret_fields@), ","@)
    })
}

/// The lines `list` prints: one per view, or `(no entries)`.
pub fn entry_list_lines(views: &Vec<EntryView>) -> (lines: Vec<String>)
    ensures
        views@.len() == 0 ==> strs_view(lines@) == seq!["(no entries)"@],
        views@.len() > 0 ==> strs_view(lines@) == views@.map_values(|v: EntryView| list_line(v)),
{
    let mut lines: Vec<String> = Vec::new();
    if views.len() == 0 {
        lines.push("(no entries)".to_owned());
        assert(strs_view(lines@) =~= seq!["(no entries)"@]);
        return lines;
    }
    let mut i: usize = 0;
    while i < views.len()
        invariant
            i <= views@.len(),
            strs_view(lines@) == views@.take(i as int).map_values(|v: EntryView| list_line(v)),
        decreases views.len() - i,
    {
        let v = &views[i];
        let name = sanitize(v.name.as_str());
        let a = concat(name.as_str(), if v.locked {
            " [locked]"
        } else {
            ""
        });
        let b = concat(a.as_str(), "  service=");
        let c = concat(b.as_str(), sanitize(v.service.as_str()).as_str());
        let d = concat(c.as_str(), "  user=");
        let user = match &v.username {
            Some(u) => sanitize(u.as_str()),
            None => "-".to_owned(),
        };
        let e = concat(d.as_str(), user.as_str());
        let f = concat(e.as_str(), "  secrets=");
        let fields = if v.secret_fields.len() == 0 {
            "-".to_owned()
        } else {
            join(&v.secret_fields, ",")
        };
        let line = concat(f.as_str(), fields.as_str());
        let ghost before = strs_view(lines@);
        lines.push(line);
        proof {
            assert(line@ =~= list_line(*v));
            assert(strs_view(lines@) =~= before.push(line@));
            assert(views@.take(i + 1).map_values(|v: EntryView| list_line(v)) =~= views@.take(i as int).map_values(|v: EntryView| list_line(v)).push(list_line(*v)));
        }
        i = i + 1;
    }
    assert(views@.take(views@.len() as int) =~= views@);
    lines
}

/// `field=[REDACTED]` for each secret field name.
pub open spec fn redacted_fields(fs: Seq<Seq<char>>) -> Seq<Seq<char>> {
    fs.map_values(|f: Seq<char>| f + "="@ + REDACTED@)
}

/// The lines `show` prints for a view (the framed notes, when present, are
/// one multi-line block).
pub open spec fn detail_lines(v: EntryView) -> Seq<Seq<char>> {
    let a = seq!["name:     "@ + sanitized(v.name@, false), "service:  "@ + sanitized(v.service@, false)];
    let b = match v.username {
        Some(u) => a.push("username: "@ + sanitized(u@, false)),
        None => a,
    };
    let c = match v.url {
        Some(u) => b.push("url:      "@ + sanitized(u@, false)),
        None => b,
    };
    let d = if v.tags@.len() > 0 {
        c.push("tags:     "@ + joined(sanitized_all(strs_view(v.tags@)), ", "@))
    } else {
        c
    };
    let e = d.push("locked:   "@ + (if v.locked {
        "yes"@
    } else {
        "no"@
    })).push("created:  "@ + v.created_at@).push("updated:  "@ + v.updated_at@).push(
        if v.secret_fields@.len() == 0 {
            "secrets:  (none)"@
        } else {
            "secrets:  "@ + joined(redacted_fields(strs_view(v.secret_fields@)), "  "@)
        },
    );
    match v.notes {
        Some(n) => e.push(framed("notes"@, n@)),
        None => e,
    }
}

/// The lines `show` prints for a view.
pub fn entry_detail_lines(v: &EntryView) -> (lines: Vec<String>)
    ensures
        strs_view(lines@) == detail_lines(*v),
{
    let mut lines: Vec<String> = Vec::new();
    lines.push(concat("name:     ", sanitize(v.name.as_str()).as_str()));
    lines.push(concat("service:  ", sanitize(v.service.as_str()).as_str()));
    match &v.username {
        Some(u) => lines.push(concat("username: ", sanitize(u.as_str()).as_str())),
        None => {},
    }
    match &v.url {
        Some(u) => lines.push(concat("url:      ", sanitize(u.as_str()).as_str())),
        None => {},
    }
    if v.tags.len() > 0 {
        let tags = sanitize_all(&v.tags);
        lines.push(concat("tags:     ", join(&tags, ", ").as_str()));
    }
    lines.push(concat("locked:   ", if v.locked {
        "yes"
    } else {
        "no"
    }));
    lines.push(concat("created:  ", v.created_at.as_str()));
    lines.push(concat("updated:  ", v.updated_at.as_str()));
    if v.secret_fields.len() == 0 {
        lines.push("secrets:  (none)".to_owned());
    } else {
        let mut fields: Vec<String> = Vec::new();
        let mut i: usize = 0;
        while i < v.secret_fields.len()
            invariant
                i <= v.secret_fields@.len(),
                strs_view(fields@) == redacted_fields(strs_view(v.secret_fields@.take(i as int))),
            decreases v.secret_fields.len() - i,
        {
            let a = concat(v.secret_fields[i].as_str(), "=");
            let item = concat(a.as_str(), REDACTED);
            let ghost before = strs_view(fields@);
            fields.push(item);
            proof {
                assert(strs_view(fields@) =~= before.push(item@));
                assert(redacted_fields(strs_view(v.secret_fields@.take(i + 1))) =~= redacted_fields(strs_view(v.secret_fields@.take(i as int))).push(v.secret_fields@[i as int]@ + "="@ + REDACTED@));
            }
            i = i + 1;
        }
        assert(v.secret_fields@.take(v.secret_fields@.len() as int) =~= v.secret_fields@);
        lines.push(concat("secrets:  ", join(&fields, "  ").as_str()));
    }
    match &v.notes {
        Some(n) => lines.push(frame_untrusted("notes", n.as_str())),
        None => {},
    }
    proof {
        assert(strs_view(lines@) =~= detail_lines(*v));
    }
    lines
}

/// An optional text, scrubbed.
pub open spec fn sanitized_opt(o: Option<Seq<char>>, multiline: bool) -> Option<Seq<char>> {
    match o {
        Some(t) => Some(sanitized(t, multiline)),
        None => None,
    }
}

fn sanitize_opt(o: &Option<String>, multiline: bool) -> (r: Option<String>)
    ensures
        opt_view(r) == sanitized_opt(opt_view(*o), multiline),
{
    match o {
        Some(t) => Some(sanitize_with(t.as_str(), multiline)),
        None => None,
    }
}

/// The view as `--json` output renders it: every metadata text scrubbed
/// (notes as multi-line text, everything else as single-line text), so
/// that consumers that unescape the JSON cannot bring terminal escapes
/// back; the lock state, timestamps and secret field names as they are.
pub fn json_view(v: &EntryView) -> (r: EntryView)
    ensures
        r.name@ == sanitized(v.name@, false),
        r.service@ == sanitized(v.service@, false),
        opt_view(r.username) == sanitized_opt(opt_view(v.username), false),
        opt_view(r.url) == sanitized_opt(opt_view(v.url), false),
        opt_view(r.notes) == sanitized_opt(opt_view(v.notes), true),
        strs_view(r.tags@) == sanitized_all(strs_view(v.tags@)),
        r.locked == v.locked,
        r.created_at@ == v.created_at@,
        r.updated_at@ == v.updated_at@,
        strs_view(r.secret_fields@) == strs_view(v.secret_fields@),
{
    EntryView {
        name: sanitize(v.name.as_str()),
        service: sanitize(v.service.as_str()),
        username: sanitize_opt(&v.username, false),
        url: sanitize_opt(&v.url, false),
        notes: sanitize_opt(&v.notes, true),
        tags: sanitize_all(&v.tags),
        locked: v.locked,
        created_at: v.created_at.clone(),
        updated_at: v.updated_at.clone(),
        secret_fields: crate::model::clone_strs(&v.secret_fields),
    }
}

} // verus!
