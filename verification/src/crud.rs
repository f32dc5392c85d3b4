//! Entry management: what `add`, `set`, `unset`, `generate`, `list`, `show`,
//! `edit` and `lock`/`unlock` do to a vault's contents. Reading input,
//! asking for confirmation, saving the vault and printing are the caller's.

use vstd::prelude::*;

use crate::egress::{confirmed, refusal};
use crate::error::{refused_for, usage_error, JingleError, Result};
use crate::model::{
    ViewModel, entry_model, entry_name_problem, field_name_problem, opt_view, strs_view, view_model, view_of,
    validate_entry_name, validate_field_name, Entry, EntryView, SecretString, VaultPayload,
    is_entry_id,
};
use crate::redact::{sanitize, sanitized};
use crate::text::{
    contains_run, contains_run_str, eq_ignore_case, eq_ignore_case_str, lemma_lex_total,
    lemma_lex_transitive, lex_le, lex_lt, chars_of, lex_compare,
};
use crate::totp::{normalize_seed, normalized_seed, usage_outcome};
use crate::vault::{answers_to, is_not_found, lemma_lookup_found, lookup, not_found};

verus! {

broadcast use vstd::string::group_string_axioms;

// ---------------------------------------------------------------------------
// Outside function
// ---------------------------------------------------------------------------

/// The Unicode lower-case form of `s` (`str::to_lowercase`).
pub uninterp spec fn unicode_lower(s: Seq<char>) -> Seq<char>;

/// `str::to_lowercase`: every character replaced by its Unicode lower-case
/// mapping.
#[verifier::external_body]
fn to_lowercase(s: &str) -> (r: String)
    ensures
        r@ == unicode_lower(s@),
{
    s.to_lowercase()
}

// ---------------------------------------------------------------------------
// Small shared pieces
// ---------------------------------------------------------------------------

pub open spec fn opt_str(o: Option<&str>) -> Option<Seq<char>> {
    match o {
        Some(s) => Some(s@),
        None => None,
    }
}

/// The non-empty strings of `ts`, in order.
pub open spec fn non_empty(ts: Seq<Seq<char>>) -> Seq<Seq<char>>
    decreases ts.len(),
{
    if ts.len() == 0 {
        Seq::empty()
    } else if ts.last().len() == 0 {
        non_empty(ts.drop_last())
    } else {
        non_empty(ts.drop_last()).push(ts.last())
    }
}

fn keep_non_empty(ts: Vec<String>) -> (r: Vec<String>)
    ensures
        strs_view(r@) == non_empty(strs_view(ts@)),
{
    let mut r: Vec<String> = Vec::new();
    let mut i: usize = 0;
    while i < ts.len()
        invariant
            i <= ts@.len(),
            strs_view(r@) == non_empty(strs_view(ts@.take(i as int))),
        decreases ts.len() - i,
    {
        proof {
            assert(strs_view(ts@.take(i + 1)).drop_last() =~= strs_view(ts@.take(i as int)));
            assert(strs_view(ts@.take(i + 1)).last() == ts@[i as int]@);
        }
        if !ts[i].as_str().is_empty() {
            let c = ts[i].clone();
            let ghost before = strs_view(r@);
            r.push(c);
            proof {
                assert(strs_view(r@) =~= before.push(c@));
            }
        }
        i = i + 1;
    }
    assert(ts@.take(ts@.len() as int) =~= ts@);
    r
}

/// `new` is `old` after a modification: the same entry (id and creation
/// time kept), with `updated_at` freshly taken from the clock in UTC.
pub open spec fn touched(old: Entry, new: Entry) -> bool {
    &&& new.id == old.id
    &&& new.created_at == old.created_at
    &&& new.updated_at.offset_seconds == 0
}

/// `new` has the metadata of `old` (name, service, username, url, notes,
/// tags, lock state).
pub open spec fn same_metadata(old: Entry, new: Entry) -> bool {
    &&& new.name == old.name
    &&& new.service == old.service
    &&& new.username == old.username
    &&& new.url == old.url
    &&& new.notes == old.notes
    &&& new.tags == old.tags
    &&& new.locked == old.locked
}

/// The entries after replacing the one at `i` by `e`, the others untouched.
pub open spec fn replaced_at(before: Seq<Entry>, after: Seq<Entry>, i: int) -> bool {
    &&& after.len() == before.len()
    &&& forall|j: int| 0 <= j < before.len() && j != i ==> after[j] == before[j]
}

// ---------------------------------------------------------------------------
// list / show
// ---------------------------------------------------------------------------

/// Whether `list` shows entry `e` under the given filters: a tag filter
/// matches any tag without regard to ASCII case; a service filter matches
/// when it occurs in the service, both lower-cased.
pub open spec fn listed(e: Entry, tag: Option<Seq<char>>, service: Option<Seq<char>>) -> bool {
    &&& tag matches Some(t) ==> exists|k: int|
        0 <= k < e.tags@.len() && eq_ignore_case(#[trigger] e.tags@[k]@, t)
    &&& service matches Some(s) ==> contains_run(unicode_lower(e.service@), unicode_lower(s))
}

/// The entries `list` shows, in vault order.
pub open spec fn listed_entries(es: Seq<Entry>, tag: Option<Seq<char>>, service: Option<Seq<char>>) -> Seq<Entry>
    decreases es.len(),
{
    if es.len() == 0 {
        Seq::empty()
    } else if listed(es.last(), tag, service) {
        listed_entries(es.drop_last(), tag, service).push(es.last())
    } else {
        listed_entries(es.drop_last(), tag, service)
    }
}

fn passes_filters(e: &Entry, tag: Option<&str>, service: Option<&str>) -> (r: bool)
    ensures
        r == listed(*e, opt_str(tag), opt_str(service)),
{
    match tag {
        Some(t) => {
            let mut found = false;
            let mut k: usize = 0;
            while k < e.tags.len()
                invariant
                    k <= e.tags@.len(),
                    found == exists|j: int| 0 <= j < k && eq_ignore_case(#[trigger] e.tags@[j]@, t@),
                decreases e.tags.len() - k,
            {
                if eq_ignore_case_str(e.tags[k].as_str(), t) {
                    found = true;
                }
                k = k + 1;
            }
            if !found {
                return false;
            }
        },
        None => {},
    }
    match service {
        Some(s) => {
            let hay = to_lowercase(e.service.as_str());
            let needle = to_lowercase(s);
            contains_run_str(hay.as_str(), needle.as_str())
        },
        None => true,
    }
}

proof fn lemma_insert_multiset<A>(s: Seq<A>, p: int, x: A)
    requires
        0 <= p <= s.len(),
    ensures
        s.insert(p, x).to_multiset() == s.to_multiset().insert(x),
{
    broadcast use vstd::seq_lib::group_to_multiset_ensures;
    broadcast use vstd::multiset::group_multiset_axioms;

    let t = s.insert(p, x);
    assert(t.remove(p) =~= s);
    assert(t[p] == x);
    assert(t.contains(x));
    assert(t.to_multiset().count(x) > 0);
    assert(t.to_multiset() =~= s.to_multiset().insert(x));
}

/// Where a name `x` goes among `names` in a stable sort: after every name
/// that is not greater, before the first that is.
pub open spec fn insert_point(names: Seq<Seq<char>>, x: Seq<char>) -> int
    decreases names.len(),
{
    if names.len() == 0 {
        0
    } else if lex_lt(x, names[0]) {
        0
    } else {
        1 + insert_point(names.drop_first(), x)
    }
}

/// The views `ms` stably sorted by name: each goes after every earlier view
/// whose name is not greater than its own.
pub open spec fn name_sorted(ms: Seq<ViewModel>) -> Seq<ViewModel>
    decreases ms.len(),
{
    if ms.len() == 0 {
        Seq::empty()
    } else {
        let s = name_sorted(ms.drop_last());
        s.insert(insert_point(s.map_values(|m: ViewModel| m.0), ms.last().0), ms.last())
    }
}

proof fn lemma_insert_point(names: Seq<Seq<char>>, x: Seq<char>, p: int)
    requires
        0 <= p <= names.len(),
        forall|a: int| 0 <= a < p ==> !lex_lt(x, #[trigger] names[a]),
        p < names.len() ==> lex_lt(x, names[p]),
    ensures
        insert_point(names, x) == p,
    decreases p,
{
    if p > 0 {
        assert(!lex_lt(x, names[0]));
        let rest = names.drop_first();
        assert forall|a: int| 0 <= a < p - 1 implies !lex_lt(x, #[trigger] rest[a]) by {
            assert(rest[a] == names[a + 1]);
        }
        if p < names.len() {
            assert(rest[p - 1] == names[p]);
        }
        lemma_insert_point(rest, x, p - 1);
    }
}

/// Metadata views of the entries that pass the filters, sorted by name.
pub fn list(entries: &Vec<Entry>, tag: Option<&str>, service: Option<&str>) -> (r: Vec<EntryView>)
    ensures
        r@.map_values(|x: EntryView| view_model(x)).to_multiset() == listed_entries(
            entries@,
            opt_str(tag),
            opt_str(service),
        ).map_values(|x: Entry| entry_model(x)).to_multiset(),
        forall|i: int, j: int| 0 <= i < j < r@.len() ==> lex_le(#[trigger] r@[i].name@, #[trigger] r@[j].name@),
        r@.map_values(|x: EntryView| view_model(x)) == name_sorted(listed_entries(
            entries@,
            opt_str(tag),
            opt_str(service),
        ).map_values(|x: Entry| entry_model(x))),
        forall|i: int|
            0 <= i < entries@.len()
            && (tag matches Some(t) ==> exists|k: int| 0 <= k < entries@[i].tags@.len() && eq_ignore_case(#[trigger] entries@[i].tags@[k]@, t@))
            && (service matches Some(sv) ==> contains_run(unicode_lower(entries@[i].service@), unicode_lower(sv@)))
            ==> r@.map_values(|x: EntryView| view_model(x)).contains(entry_model(#[trigger] entries@[i])),
        forall|j: int| 0 <= j < r@.len() ==> exists|i: int|
            0 <= i < entries@.len()
            && view_model(#[trigger] r@[j]) == entry_model(entries@[i])
            && (tag matches Some(t) ==> exists|k: int| 0 <= k < entries@[i].tags@.len() && eq_ignore_case(#[trigger] entries@[i].tags@[k]@, t@))
            && (service matches Some(sv) ==> contains_run(unicode_lower(entries@[i].service@), unicode_lower(sv@))),
{
    broadcast use vstd::seq_lib::group_to_multiset_ensures;

    let mut out: Vec<EntryView> = Vec::new();
    let mut i: usize = 0;
    while i < entries.len()
        invariant
            i <= entries@.len(),
            out@.map_values(|x: EntryView| view_model(x)).to_multiset() == listed_entries(
                entries@.take(i as int),
                opt_str(tag),
                opt_str(service),
            ).map_values(|x: Entry| entry_model(x)).to_multiset(),
            forall|a: int, b: int| 0 <= a < b < out@.len() ==> lex_le(#[trigger] out@[a].name@, #[trigger] out@[b].name@),
            out@.map_values(|x: EntryView| view_model(x)) == name_sorted(listed_entries(
                entries@.take(i as int),
                opt_str(tag),
                opt_str(service),
            ).map_values(|x: Entry| entry_model(x))),
        decreases entries.len() - i,
    {
        let e = &entries[i];
        let ghost prev = entries@.take(i as int);
        assert(entries@.take(i + 1).drop_last() =~= prev);
        assert(entries@.take(i + 1).last() == *e);
        if passes_filters(e, tag, service) {
            let v = e.view();
            let name = chars_of(v.name.as_str());
            // Stable insertion: after every view whose name is not greater.
            let mut p: usize = 0;
            let mut stop = false;
            while p < out.len() && !stop
                invariant
                    p <= out@.len(),
                    name@ == v.name@,
                    forall|a: int| 0 <= a < p ==> !lex_lt(v.name@, #[trigger] out@[a].name@),
                    stop ==> p < out@.len() && lex_lt(v.name@, out@[p as int].name@),
                decreases out.len() - p + (if stop { 0int } else { 1int }),
            {
                let other = chars_of(out[p].name.as_str());
                if lex_compare(&name, &other) == -1 {
                    stop = true;
                } else {
                    p = p + 1;
                }
            }
            let ghost old_out = out@;
            let ghost old_models = out@.map_values(|x: EntryView| view_model(x));
            proof {
                let names = old_models.map_values(|m: ViewModel| m.0);
                assert forall|a: int| 0 <= a < p implies !lex_lt(v.name@, #[trigger] names[a]) by {
                    assert(names[a] == old_out[a].name@);
                }
                if p < old_out.len() {
                    assert(names[p as int] == old_out[p as int].name@);
                }
                lemma_insert_point(names, v.name@, p as int);
            }
            out.insert(p, v);
            proof {
                assert(out@ =~= old_out.insert(p as int, v));
                assert(out@.map_values(|x: EntryView| view_model(x)) =~= old_models.insert(p as int, view_model(v)));
                lemma_insert_multiset(old_models, p as int, view_model(v));
                assert(view_model(v) == entry_model(*e));

                let ms = listed_entries(prev, opt_str(tag), opt_str(service));
                assert(listed_entries(entries@.take(i + 1), opt_str(tag), opt_str(service)) == ms.push(*e));
                let msm = ms.map_values(|x: Entry| entry_model(x));
                msm.to_multiset_ensures();
                assert(msm.push(entry_model(*e)).to_multiset() =~= msm.to_multiset().insert(entry_model(*e)));
                assert(ms.push(*e).map_values(|x: Entry| entry_model(x)) =~= ms.map_values(|x: Entry| entry_model(x)).push(entry_model(*e)));
                let grown = msm.push(entry_model(*e));
                assert(grown.drop_last() =~= msm);
                assert(grown.last() == view_model(v));
                assert(name_sorted(grown) == old_models.insert(p as int, view_model(v)));
                assert forall|a: int, b: int| 0 <= a < b < out@.len() implies lex_le(#[trigger] out@[a].name@, #[trigger] out@[b].name@) by {
                    if b < p {
                        assert(out@[a] == old_out[a] && out@[b] == old_out[b]);
                    } else if b == p {
                        assert(out@[a] == old_out[a]);
                        lemma_lex_total(old_out[a].name@, v.name@);
                    } else if a < p {
                        assert(out@[a] == old_out[a] && out@[b] == old_out[b - 1]);
                    } else if a == p {
                        assert(out@[b] == old_out[b - 1]);
                        assert(lex_lt(v.name@, old_out[p as int].name@));
                        if b - 1 > p {
                            assert(lex_le(old_out[p as int].name@, old_out[b - 1].name@));
                            if lex_lt(old_out[p as int].name@, old_out[b - 1].name@) {
                                lemma_lex_transitive(v.name@, old_out[p as int].name@, old_out[b - 1].name@);
                            }
                        }
                    } else {
                        assert(out@[a] == old_out[a - 1] && out@[b] == old_out[b - 1]);
                    }
                }
            }
        } else {
            assert(listed_entries(entries@.take(i + 1), opt_str(tag), opt_str(service)) == listed_entries(prev, opt_str(tag), opt_str(service)));
        }
        i = i + 1;
    }
    assert(entries@.take(entries@.len() as int) =~= entries@);
    proof {
        law_list_filters(entries@, opt_str(tag), opt_str(service));
        let ls = listed_entries(entries@, opt_str(tag), opt_str(service));
        let lm = ls.map_values(|x: Entry| entry_model(x));
        let om = out@.map_values(|x: EntryView| view_model(x));
        lm.to_multiset_ensures();
        om.to_multiset_ensures();
        assert forall|i: int|
            0 <= i < entries@.len()
            && (tag matches Some(t) ==> exists|k: int| 0 <= k < entries@[i].tags@.len() && eq_ignore_case(#[trigger] entries@[i].tags@[k]@, t@))
            && (service matches Some(sv) ==> contains_run(unicode_lower(entries@[i].service@), unicode_lower(sv@)))
            implies om.contains(entry_model(#[trigger] entries@[i])) by {
            assert(ls.contains(entries@[i]));
            let k = choose|k: int| 0 <= k < ls.len() && ls[k] == entries@[i];
            assert(lm[k] == entry_model(entries@[i]));
            assert(lm.contains(entry_model(entries@[i])));
            assert(lm.to_multiset().count(entry_model(entries@[i])) > 0);
        }
        assert forall|j: int| 0 <= j < out@.len() implies exists|i: int|
            0 <= i < entries@.len()
            && view_model(#[trigger] out@[j]) == entry_model(entries@[i])
            && (tag matches Some(t) ==> exists|k: int| 0 <= k < entries@[i].tags@.len() && eq_ignore_case(#[trigger] entries@[i].tags@[k]@, t@))
            && (service matches Some(sv) ==> contains_run(unicode_lower(entries@[i].service@), unicode_lower(sv@))) by {
            assert(om[j] == view_model(out@[j]));
            assert(om.contains(view_model(out@[j])));
            assert(om.to_multiset().count(view_model(out@[j])) > 0);
            assert(lm.contains(view_model(out@[j])));
            let k = choose|k: int| 0 <= k < lm.len() && lm[k] == view_model(out@[j]);
            assert(ls.contains(ls[k]));
            let i = choose|i: int| 0 <= i < entries@.len() && entries@[i] == ls[k] && (
                (opt_str(tag) matches Some(t) ==> exists|k: int| 0 <= k < entries@[i].tags@.len() && eq_ignore_case(#[trigger] entries@[i].tags@[k]@, t))
                && (opt_str(service) matches Some(sv) ==> contains_run(unicode_lower(entries@[i].service@), unicode_lower(sv))));
            assert(view_model(out@[j]) == entry_model(entries@[i]));
        }
    }
    out
}

/// What `list` keeps: an entry is listed exactly when it has a tag equal
/// to the tag filter ignoring ASCII case (or there is no tag filter) and
/// the lower-cased service filter occurs in its lower-cased service (or
/// there is no service filter).
pub proof fn law_list_filters(es: Seq<Entry>, tag: Option<Seq<char>>, service: Option<Seq<char>>)
    ensures
        forall|i: int|
            0 <= i < es.len()
            && (tag matches Some(t) ==> exists|k: int| 0 <= k < es[i].tags@.len() && eq_ignore_case(#[trigger] es[i].tags@[k]@, t))
            && (service matches Some(sv) ==> contains_run(unicode_lower(es[i].service@), unicode_lower(sv)))
            ==> listed_entries(es, tag, service).contains(#[trigger] es[i]),
        forall|x: Entry| #[trigger] listed_entries(es, tag, service).contains(x) ==> exists|i: int|
            0 <= i < es.len() && es[i] == x
            && (tag matches Some(t) ==> exists|k: int| 0 <= k < es[i].tags@.len() && eq_ignore_case(#[trigger] es[i].tags@[k]@, t))
            && (service matches Some(sv) ==> contains_run(unicode_lower(es[i].service@), unicode_lower(sv))),
    decreases es.len(),
{
    if es.len() > 0 {
        let p = es.drop_last();
        law_list_filters(p, tag, service);
        let lp = listed_entries(p, tag, service);
        let l = listed_entries(es, tag, service);
        let e = es.last();
        assert forall|i: int|
            0 <= i < es.len()
            && (tag matches Some(t) ==> exists|k: int| 0 <= k < es[i].tags@.len() && eq_ignore_case(#[trigger] es[i].tags@[k]@, t))
            && (service matches Some(sv) ==> contains_run(unicode_lower(es[i].service@), unicode_lower(sv)))
            implies l.contains(#[trigger] es[i]) by {
            if i == es.len() - 1 {
                assert(listed(e, tag, service));
                assert(l == lp.push(e));
                assert(l[lp.len() as int] == e);
            } else {
                assert(es[i] == p[i]);
                assert(lp.contains(p[i]));
                let k = choose|k: int| 0 <= k < lp.len() && lp[k] == p[i];
                if listed(e, tag, service) {
                    assert(l[k] == lp[k]);
                } else {
                    assert(l == lp);
                }
            }
        }
        assert forall|x: Entry| #[trigger] l.contains(x) implies exists|i: int|
            0 <= i < es.len() && es[i] == x
            && (tag matches Some(t) ==> exists|k: int| 0 <= k < es[i].tags@.len() && eq_ignore_case(#[trigger] es[i].tags@[k]@, t))
            && (service matches Some(sv) ==> contains_run(unicode_lower(es[i].service@), unicode_lower(sv))) by {
            let k = choose|k: int| 0 <= k < l.len() && l[k] == x;
            if listed(e, tag, service) && k == lp.len() {
                assert(x == e);
                assert(es[es.len() - 1] == e);
            } else {
                if listed(e, tag, service) {
                    assert(l[k] == lp[k]);
                }
                assert(lp.contains(x));
                let i = choose|i: int| 0 <= i < p.len() && p[i] == x
                    && (tag matches Some(t) ==> exists|k: int| 0 <= k < p[i].tags@.len() && eq_ignore_case(#[trigger] p[i].tags@[k]@, t))
                    && (service matches Some(sv) ==> contains_run(unicode_lower(p[i].service@), unicode_lower(sv)));
                assert(es[i] == p[i]);
            }
        }
    }
}

/// The metadata view of the entry that answers to `name`.
pub fn show(vault: &VaultPayload, name: &str) -> (r: Result<EntryView>)
    ensures
        match lookup(vault.entries@, name@) {
            Some(i) => r matches Ok(v) && view_of(vault.entries@[i], v),
            None => r matches Err(e) && is_not_found(e, name@),
        },
{
    let e = vault.find(name)?;
    Ok(e.view())
}

// ---------------------------------------------------------------------------
// add / set / generate / unset
// ---------------------------------------------------------------------------

/// `r` failed because an entry already answers to `name`.
pub open spec fn already_exists<T>(r: Result<T>, name: Seq<char>) -> bool {
    r matches Err(JingleError::AlreadyExists(x)) && x@ == sanitized(name, false)
}

/// The entry `add` creates: named `name`, with the given metadata (the
/// service defaults to the name, empty tags are dropped) and the single
/// secret field `field`.
pub open spec fn added_entry(
    e: Entry,
    name: Seq<char>,
    service: Option<Seq<char>>,
    username: Option<Seq<char>>,
    url: Option<Seq<char>>,
    notes: Option<Seq<char>>,
    tags: Seq<Seq<char>>,
    field: Seq<char>,
    value: Seq<char>,
) -> bool {
    &&& e.name@ == name
    &&& e.service@ == (match service {
        Some(s) => s,
        None => name,
    })
    &&& opt_view(e.username) == username
    &&& opt_view(e.url) == url
    &&& opt_view(e.notes) == notes
    &&& strs_view(e.tags@) == non_empty(tags)
    &&& !e.locked
    &&& is_entry_id(e.id@)
    &&& e.created_at == e.updated_at
    &&& e.created_at.offset_seconds == 0
    &&& e.secrets@ == Map::<Seq<char>, Seq<char>>::empty().insert(field, value)
}

/// Create entry `name` holding `value` under `field`. Refused, in this
/// order, for an invalid entry name, an invalid field name, or a name an
/// entry already answers to; fails if no random id can be drawn.
pub fn add(
    vault: &mut VaultPayload,
    name: String,
    service: Option<String>,
    username: Option<String>,
    url: Option<String>,
    notes: Option<String>,
    tags: Vec<String>,
    field: String,
    value: SecretString,
) -> (r: Result<()>)
    ensures
        refused_for(r, entry_name_problem(name@)),
        entry_name_problem(name@) is None ==> refused_for(r, field_name_problem(field@)),
        entry_name_problem(name@) is None && field_name_problem(field@) is None && lookup(old(vault).entries@, name@) is Some ==> already_exists(r, name@),
        entry_name_problem(name@) is None && field_name_problem(field@) is None && lookup(old(vault).entries@, name@) is None && r is Err ==> r matches Err(JingleError::Other(_)),
        r is Err ==> final(vault).entries@ == old(vault).entries@,
        r is Ok ==> {
            &&& entry_name_problem(name@) is None
            &&& field_name_problem(field@) is None
            &&& lookup(old(vault).entries@, name@) is None
            &&& final(vault).entries@.len() == old(vault).entries@.len() + 1
            &&& final(vault).entries@.drop_last() == old(vault).entries@
            &&& added_entry(final(vault).entries@.last(), name@, opt_view(service), opt_view(username), opt_view(url), opt_view(notes), strs_view(tags@), field@, value@)
        },
        final(vault).schema == old(vault).schema,
{
    validate_entry_name(name.as_str())?;
    validate_field_name(field.as_str())?;
    if vault.contains(name.as_str()) {
        return Err(JingleError::AlreadyExists(sanitize(name.as_str())));
    }
    let mut entry = Entry::new(name.clone())?;
    entry.service = match service {
        Some(s) => s,
        None => name,
    };
    entry.username = username;
    entry.url = url;
    entry.notes = notes;
    entry.tags = keep_non_empty(tags);
    let _ = entry.secrets.insert(field, value);
    proof {
        assert(entry.secrets@ =~= Map::<Seq<char>, Seq<char>>::empty().insert(field@, value@));
    }
    let ghost e = entry;
    vault.add(entry)?;
    proof {
        assert(final(vault).entries@.drop_last() =~= old(vault).entries@);
    }
    Ok(())
}

/// Whether `field` names the TOTP seed (`totp` in any ASCII case).
pub open spec fn is_totp_field(field: Seq<char>) -> bool {
    eq_ignore_case(field, "totp"@)
}

/// A TOTP seed comes from the service, so it cannot be generated: refused
/// before any secret is gathered.
pub fn refuse_generated_totp(field: &str, generate: bool) -> (r: Result<()>)
    ensures
        r is Err <==> generate && is_totp_field(field@),
        r matches Err(e) ==> (e matches JingleError::Usage(m) && m@ == "--generate cannot create a TOTP seed; pipe the service's base32 seed or otpauth:// URI via --stdin"@),
{
    if generate && eq_ignore_case_str(field, "totp") {
        return Err(JingleError::Usage("--generate cannot create a TOTP seed; pipe the service's base32 seed or otpauth:// URI via --stdin".to_owned()));
    }
    Ok(())
}

/// The value to store under `field` from the secret gathered for it: a TOTP
/// seed is validated and normalized; anything else is kept as given.
pub fn finish_field_value(field: &str, raw: SecretString) -> (r: Result<SecretString>)
    ensures
        is_totp_field(field@) ==> usage_outcome(r, |s: SecretString| s@, normalized_seed(raw@)),
        !is_totp_field(field@) ==> (r matches Ok(s) && s@ == raw@),
{
    if eq_ignore_case_str(field, "totp") {
        normalize_seed(raw.expose())
    } else {
        Ok(raw)
    }
}

/// Replace the entry at `i` by the result of inserting `field` = `value`
/// into its secrets and touching it; returns whether the field existed.
fn put_secret(vault: &mut VaultPayload, i: usize, field: String, value: SecretString) -> (existed: bool)
    requires
        i < old(vault).entries@.len(),
    ensures
        replaced_at(old(vault).entries@, final(vault).entries@, i as int),
        same_metadata(old(vault).entries@[i as int], final(vault).entries@[i as int]),
        touched(old(vault).entries@[i as int], final(vault).entries@[i as int]),
        final(vault).entries@[i as int].secrets@ == old(vault).entries@[i as int].secrets@.insert(field@, value@),
        existed == old(vault).entries@[i as int].secrets@.dom().contains(field@),
        final(vault).schema == old(vault).schema,
{
    let mut e = vault.entries.remove(i);
    let existed = e.secrets.insert(field, value).is_some();
    e.touch();
    vault.entries.insert(i, e);
    proof {
        assert forall|j: int| 0 <= j < old(vault).entries@.len() && j != i implies final(vault).entries@[j] == old(vault).entries@[j] by {
            if j < i {
            } else {
            }
        }
    }
    existed
}

/// Set `field` of the entry that answers to `name` to `value`; returns
/// whether it replaced an existing value. Refused for an invalid field name
/// or an unknown entry.
pub fn set(vault: &mut VaultPayload, name: &str, field: &str, value: SecretString) -> (r: Result<bool>)
    ensures
        refused_for(r, field_name_problem(field@)),
        field_name_problem(field@) is None && lookup(old(vault).entries@, name@) is None ==> not_found(r, name@),
        field_name_problem(field@) is None && lookup(old(vault).entries@, name@) is Some ==> r is Ok,
        r is Err ==> final(vault).entries@ == old(vault).entries@,
        r matches Ok(existed) ==> {
            &&& field_name_problem(field@) is None
            &&& lookup(old(vault).entries@, name@) matches Some(i) && {
                &&& replaced_at(old(vault).entries@, final(vault).entries@, i)
                &&& same_metadata(old(vault).entries@[i], final(vault).entries@[i])
                &&& touched(old(vault).entries@[i], final(vault).entries@[i])
                &&& final(vault).entries@[i].secrets@ == old(vault).entries@[i].secrets@.insert(field@, value@)
                &&& existed == old(vault).entries@[i].secrets@.dom().contains(field@)
            }
        },
        final(vault).schema == old(vault).schema,
{
    validate_field_name(field)?;
    let i = match vault.find_index(name) {
        Some(i) => i,
        None => return Err(JingleError::NotFound(sanitize(name))),
    };
    Ok(put_secret(vault, i, field.to_owned(), value))
}

/// Store a freshly generated value under `field` of the entry that answers
/// to `name`; returns whether it replaced an existing value. Refused, in
/// this order, for an invalid field name, an unknown entry, or the TOTP
/// field (a seed cannot be generated).
pub fn generate(vault: &mut VaultPayload, name: &str, field: &str, value: SecretString) -> (r: Result<bool>)
    ensures
        refused_for(r, field_name_problem(field@)),
        field_name_problem(field@) is None && lookup(old(vault).entries@, name@) is None ==> not_found(r, name@),
        field_name_problem(field@) is None && lookup(old(vault).entries@, name@) is Some && is_totp_field(field@) ==> usage_error(r, "cannot generate a TOTP seed; use `jingle set NAME totp --stdin`"@),
        field_name_problem(field@) is None && lookup(old(vault).entries@, name@) is Some && !is_totp_field(field@) ==> r is Ok,
        r is Err ==> final(vault).entries@ == old(vault).entries@,
        r matches Ok(existed) ==> {
            &&& field_name_problem(field@) is None
            &&& !is_totp_field(field@)
            &&& lookup(old(vault).entries@, name@) matches Some(i) && {
                &&& replaced_at(old(vault).entries@, final(vault).entries@, i)
                &&& same_metadata(old(vault).entries@[i], final(vault).entries@[i])
                &&& touched(old(vault).entries@[i], final(vault).entries@[i])
                &&& final(vault).entries@[i].secrets@ == old(vault).entries@[i].secrets@.insert(field@, value@)
                &&& existed == old(vault).entries@[i].secrets@.dom().contains(field@)
            }
        },
        final(vault).schema == old(vault).schema,
{
    validate_field_name(field)?;
    let i = match vault.find_index(name) {
        Some(i) => i,
        None => return Err(JingleError::NotFound(sanitize(name))),
    };
    if eq_ignore_case_str(field, "totp") {
        return Err(JingleError::Usage("cannot generate a TOTP seed; use `jingle set NAME totp --stdin`".to_owned()));
    }
    Ok(put_secret(vault, i, field.to_owned(), value))
}

/// The error for an entry that lacks the field being removed: both names
/// sanitized.
pub open spec fn is_missing_field(e: JingleError, entry: Seq<char>, field: Seq<char>) -> bool {
    e matches JingleError::FieldNotFound { entry: en, field: f } && en@ == sanitized(entry, false) && f@ == sanitized(field, false)
}

/// Check that `unset` can remove `field` from the entry that answers to
/// `name`; gives the entry's display name (for the confirmation prompt).
pub fn unset_target(vault: &VaultPayload, name: &str, field: &str) -> (r: Result<String>)
    ensures
        match lookup(vault.entries@, name@) {
            None => r matches Err(e) && is_not_found(e, name@),
            Some(i) => if vault.entries@[i].secrets@.dom().contains(field@) {
                r matches Ok(d) && d@ == sanitized(vault.entries@[i].name@, false)
            } else {
                r matches Err(e) && is_missing_field(e, vault.entries@[i].name@, field@)
            },
        },
{
    let e = vault.find(name)?;
    if !e.secrets.contains_key(field) {
        return Err(JingleError::FieldNotFound { entry: sanitize(e.name.as_str()), field: sanitize(field) });
    }
    Ok(sanitize(e.name.as_str()))
}

/// Remove `field` from the entry that answers to `name` (refused as in
/// `unset_target`); gives the entry's display name.
pub fn unset(vault: &mut VaultPayload, name: &str, field: &str) -> (r: Result<String>)
    ensures
        match lookup(old(vault).entries@, name@) {
            None => r matches Err(e) && is_not_found(e, name@),
            Some(i) => if old(vault).entries@[i].secrets@.dom().contains(field@) {
                &&& r matches Ok(d) && d@ == sanitized(old(vault).entries@[i].name@, false)
                &&& replaced_at(old(vault).entries@, final(vault).entries@, i)
                &&& same_metadata(old(vault).entries@[i], final(vault).entries@[i])
                &&& touched(old(vault).entries@[i], final(vault).entries@[i])
                &&& final(vault).entries@[i].secrets@ == old(vault).entries@[i].secrets@.remove(field@)
            } else {
                r matches Err(e) && is_missing_field(e, old(vault).entries@[i].name@, field@)
            },
        },
        r is Err ==> final(vault).entries@ == old(vault).entries@,
        final(vault).schema == old(vault).schema,
{
    let display = unset_target(vault, name, field)?;
    let i = match vault.find_index(name) {
        Some(i) => i,
        None => return Err(JingleError::NotFound(sanitize(name))),
    };
    let mut e = vault.entries.remove(i);
    let _ = e.secrets.remove(field);
    e.touch();
    vault.entries.insert(i, e);
    proof {
        assert forall|j: int| 0 <= j < old(vault).entries@.len() && j != i implies final(vault).entries@[j] == old(vault).entries@[j] by {
            if j < i {
            } else {
            }
        }
    }
    Ok(display)
}

// ---------------------------------------------------------------------------
// edit / lock
// ---------------------------------------------------------------------------

/// An optional text field after an edit: an empty replacement clears it.
pub open spec fn edited_opt(update: Option<Seq<char>>, old: Option<Seq<char>>) -> Option<Seq<char>> {
    match update {
        Some(u) => if u.len() == 0 {
            None
        } else {
            Some(u)
        },
        None => old,
    }
}

fn apply_opt(update: Option<String>, old: Option<String>) -> (r: Option<String>)
    ensures
        opt_view(r) == edited_opt(opt_view(update), opt_view(old)),
{
    match update {
        Some(u) => if u.as_str().is_empty() {
            None
        } else {
            Some(u)
        },
        None => old,
    }
}

/// Entry `new` is `old` edited as requested.
pub open spec fn edited_entry(
    old: Entry,
    new: Entry,
    service: Option<Seq<char>>,
    username: Option<Seq<char>>,
    url: Option<Seq<char>>,
    notes: Option<Seq<char>>,
    tags: Option<Seq<Seq<char>>>,
    rename: Option<Seq<char>>,
) -> bool {
    &&& new.name@ == (match rename {
        Some(n) => n,
        None => old.name@,
    })
    &&& new.service@ == (match service {
        Some(s) => s,
        None => old.service@,
    })
    &&& opt_view(new.username) == edited_opt(username, opt_view(old.username))
    &&& opt_view(new.url) == edited_opt(url, opt_view(old.url))
    &&& opt_view(new.notes) == edited_opt(notes, opt_view(old.notes))
    &&& strs_view(new.tags@) == (match tags {
        Some(t) => non_empty(t),
        None => strs_view(old.tags@),
    })
    &&& new.locked == old.locked
    &&& new.secrets == old.secrets
    &&& touched(old, new)
}

pub open spec fn opt_strs(o: Option<Vec<String>>) -> Option<Seq<Seq<char>>> {
    match o {
        Some(v) => Some(strs_view(v@)),
        None => None,
    }
}

/// The rename `rename` of the entry addressed as `name` is refused because
/// another entry already answers to the new name.
pub open spec fn rename_taken(entries: Seq<Entry>, name: Seq<char>, rename: Seq<char>) -> bool {
    !eq_ignore_case(rename, name) && lookup(entries, rename) is Some
}

/// Edit the metadata of the entry that answers to `name`; gives its (new)
/// display name. Refused, in this order, when nothing is to change, when the
/// new name is invalid or already taken by another entry, or when no entry
/// answers to `name`. Secrets and the lock state are never touched.
pub fn edit(
    vault: &mut VaultPayload,
    name: &str,
    service: Option<String>,
    username: Option<String>,
    url: Option<String>,
    notes: Option<String>,
    tags: Option<Vec<String>>,
    rename: Option<String>,
) -> (r: Result<String>)
    ensures
        ({
            let nothing = service is None && username is None && url is None && notes is None
                && tags is None && rename is None;
            let rn = opt_view(rename);
            &&& nothing ==> usage_error(r, "nothing to edit: pass at least one of --service/--username/--url/--notes/--tags/--rename"@)
            &&& !nothing && rn is Some ==> refused_for(r, entry_name_problem(rn->0))
            &&& !nothing && rn is Some && entry_name_problem(rn->0) is None && rename_taken(old(vault).entries@, name@, rn->0) ==> already_exists(r, rn->0)
            &&& !nothing && (rn is Some ==> entry_name_problem(rn->0) is None && !rename_taken(old(vault).entries@, name@, rn->0)) && lookup(old(vault).entries@, name@) is None ==> not_found(r, name@)
            &&& !nothing && (rn is Some ==> entry_name_problem(rn->0) is None && !rename_taken(old(vault).entries@, name@, rn->0)) && lookup(old(vault).entries@, name@) is Some ==> r is Ok
            &&& r is Ok ==> {
                &&& !nothing
                &&& lookup(old(vault).entries@, name@) matches Some(i) && {
                    &&& replaced_at(old(vault).entries@, final(vault).entries@, i)
                    &&& edited_entry(old(vault).entries@[i], final(vault).entries@[i], opt_view(service), opt_view(username), opt_view(url), opt_view(notes), opt_strs(tags), rn)
                    &&& (service matches Some(sv) ==> final(vault).entries@[i].service@ == sv@)
                    &&& (service is None ==> final(vault).entries@[i].service@ == old(vault).entries@[i].service@)
                    &&& (username matches Some(u) ==> opt_view(final(vault).entries@[i].username) == (if u@.len() == 0 { None } else { Some(u@) }))
                    &&& (username is None ==> opt_view(final(vault).entries@[i].username) == opt_view(old(vault).entries@[i].username))
                    &&& (url matches Some(u) ==> opt_view(final(vault).entries@[i].url) == (if u@.len() == 0 { None } else { Some(u@) }))
                    &&& (url is None ==> opt_view(final(vault).entries@[i].url) == opt_view(old(vault).entries@[i].url))
                    &&& (notes matches Some(u) ==> opt_view(final(vault).entries@[i].notes) == (if u@.len() == 0 { None } else { Some(u@) }))
                    &&& (notes is None ==> opt_view(final(vault).entries@[i].notes) == opt_view(old(vault).entries@[i].notes))
                    &&& (rename matches Some(n) ==> final(vault).entries@[i].name@ == n@)
                    &&& (rename is None ==> final(vault).entries@[i].name@ == old(vault).entries@[i].name@)
                    &&& final(vault).entries@[i].secrets@ == old(vault).entries@[i].secrets@
                    &&& final(vault).entries@[i].locked == old(vault).entries@[i].locked
                    &&& r matches Ok(d) && d@ == sanitized(final(vault).entries@[i].name@, false)
                }
                &&& rn matches Some(n) ==> entry_name_problem(n) is None && !rename_taken(old(vault).entries@, name@, n)
            }
        }),
        r is Err ==> final(vault).entries@ == old(vault).entries@,
        final(vault).schema == old(vault).schema,
{
    if service.is_none() && username.is_none() && url.is_none() && notes.is_none() && tags.is_none()
        && rename.is_none() {
        return Err(JingleError::Usage("nothing to edit: pass at least one of --service/--username/--url/--notes/--tags/--rename".to_owned()));
    }
    match &rename {
        Some(new_name) => {
            validate_entry_name(new_name.as_str())?;
            if !eq_ignore_case_str(new_name.as_str(), name) && vault.contains(new_name.as_str()) {
                return Err(JingleError::AlreadyExists(sanitize(new_name.as_str())));
            }
        },
        None => {},
    }
    let i = match vault.find_index(name) {
        Some(i) => i,
        None => return Err(JingleError::NotFound(sanitize(name))),
    };
    let mut e = vault.entries.remove(i);
    let ghost old_e = e;
    match service {
        Some(s) => e.service = s,
        None => {},
    }
    e.username = apply_opt(username, e.username);
    e.url = apply_opt(url, e.url);
    e.notes = apply_opt(notes, e.notes);
    match tags {
        Some(t) => e.tags = keep_non_empty(t),
        None => {},
    }
    match rename {
        Some(n) => e.name = n,
        None => {},
    }
    e.touch();
    let display = sanitize(e.name.as_str());
    proof {
        law_edit_applies(old_e, e, opt_view(service), opt_view(username), opt_view(url), opt_view(notes), opt_strs(tags), opt_view(rename));
    }
    vault.entries.insert(i, e);
    proof {
        assert forall|j: int| 0 <= j < old(vault).entries@.len() && j != i implies final(vault).entries@[j] == old(vault).entries@[j] by {
            if j < i {
            } else {
            }
        }
    }
    Ok(display)
}

/// What an edit does to an entry, field by field: a given service or name
/// replaces the old one; a given username, url or notes replaces the old
/// one, or clears it when empty; whatever is not given stays; the secrets,
/// the lock state and the id never change.
pub proof fn law_edit_applies(
    old: Entry,
    new: Entry,
    service: Option<Seq<char>>,
    username: Option<Seq<char>>,
    url: Option<Seq<char>>,
    notes: Option<Seq<char>>,
    tags: Option<Seq<Seq<char>>>,
    rename: Option<Seq<char>>,
)
    requires
        edited_entry(old, new, service, username, url, notes, tags, rename),
    ensures
        service matches Some(s) ==> new.service@ == s,
        service is None ==> new.service@ == old.service@,
        username matches Some(u) ==> opt_view(new.username) == (if u.len() == 0 { None } else { Some(u) }),
        username is None ==> opt_view(new.username) == opt_view(old.username),
        url matches Some(u) ==> opt_view(new.url) == (if u.len() == 0 { None } else { Some(u) }),
        url is None ==> opt_view(new.url) == opt_view(old.url),
        notes matches Some(u) ==> opt_view(new.notes) == (if u.len() == 0 { None } else { Some(u) }),
        notes is None ==> opt_view(new.notes) == opt_view(old.notes),
        rename matches Some(n) ==> new.name@ == n,
        rename is None ==> new.name@ == old.name@,
        new.secrets@ == old.secrets@,
        new.locked == old.locked,
        new.id == old.id,
{
}

/// Lock or unlock the entry that answers to `name`; gives its display name.
/// A locked entry refuses secret egress unless the access repeats its exact
/// name.
pub fn set_locked(vault: &mut VaultPayload, name: &str, locked: bool) -> (r: Result<String>)
    ensures
        match lookup(old(vault).entries@, name@) {
            None => not_found(r, name@) && final(vault).entries@ == old(vault).entries@,
            Some(i) => {
                &&& r matches Ok(d) && d@ == sanitized(old(vault).entries@[i].name@, false)
                &&& replaced_at(old(vault).entries@, final(vault).entries@, i)
                &&& final(vault).entries@[i].locked == locked
                &&& final(vault).entries@[i].name == old(vault).entries@[i].name
                &&& final(vault).entries@[i].service == old(vault).entries@[i].service
                &&& final(vault).entries@[i].username == old(vault).entries@[i].username
                &&& final(vault).entries@[i].url == old(vault).entries@[i].url
                &&& final(vault).entries@[i].notes == old(vault).entries@[i].notes
                &&& final(vault).entries@[i].tags == old(vault).entries@[i].tags
                &&& final(vault).entries@[i].secrets == old(vault).entries@[i].secrets
                &&& touched(old(vault).entries@[i], final(vault).entries@[i])
            },
        },
        final(vault).schema == old(vault).schema,
{
    let i = match vault.find_index(name) {
        Some(i) => i,
        None => return Err(JingleError::NotFound(sanitize(name))),
    };
    let mut e = vault.entries.remove(i);
    let display = sanitize(e.name.as_str());
    e.locked = locked;
    e.touch();
    vault.entries.insert(i, e);
    proof {
        assert forall|j: int| 0 <= j < old(vault).entries@.len() && j != i implies final(vault).entries@[j] == old(vault).entries@[j] by {
            if j < i {
            } else {
            }
        }
    }
    Ok(display)
}

// ---------------------------------------------------------------------------
// Laws
// ---------------------------------------------------------------------------

/// No two entries answer to the same handle.
pub open spec fn names_unique(es: Seq<Entry>) -> bool {
    forall|i: int, j: int| 0 <= i < j < es.len() ==> !eq_ignore_case(#[trigger] es[i].name@, #[trigger] es[j].name@)
}

proof fn lemma_eq_ignore_case_symmetric(a: Seq<char>, b: Seq<char>)
    requires
        eq_ignore_case(a, b),
    ensures
        eq_ignore_case(b, a),
{
    assert forall|i: int| 0 <= i < b.len() implies crate::text::lower(#[trigger] b[i]) == crate::text::lower(a[i]) by {
        assert(crate::text::lower(a[i]) == crate::text::lower(b[i]));
    }
}

proof fn lemma_eq_ignore_case_transitive(a: Seq<char>, b: Seq<char>, c: Seq<char>)
    requires
        eq_ignore_case(a, b),
        eq_ignore_case(b, c),
    ensures
        eq_ignore_case(a, c),
{
    assert forall|i: int| 0 <= i < a.len() implies crate::text::lower(#[trigger] a[i]) == crate::text::lower(c[i]) by {
        assert(crate::text::lower(a[i]) == crate::text::lower(b[i]));
        assert(crate::text::lower(b[i]) == crate::text::lower(c[i]));
    }
}

/// The entry at `i` of `after` still answers to `name` exactly as before,
/// and nothing before it does: `name` still looks up `i`.
proof fn lemma_lookup_kept(before: Seq<Entry>, after: Seq<Entry>, name: Seq<char>, i: int)
    requires
        lookup(before, name) == Some(i),
        replaced_at(before, after, i),
        after[i].name == before[i].name,
    ensures
        lookup(after, name) == Some(i),
{
    lemma_lookup_found(before, name);
    assert forall|j: int| 0 <= j < i implies !answers_to(#[trigger] after[j], name) by {
        assert(after[j] == before[j]);
        assert(!answers_to(before[j], name));
    }
    crate::vault::lemma_lookup(after, name, i);
}

/// `add` keeps handles unique: it appends only an entry whose name no
/// entry answers to.
pub proof fn law_add_keeps_names_unique(before: Seq<Entry>, after: Seq<Entry>, e: Entry)
    requires
        names_unique(before),
        lookup(before, e.name@) is None,
        after == before.push(e),
    ensures
        names_unique(after),
{
    lemma_lookup_found(before, e.name@);
    assert forall|i: int, j: int| 0 <= i < j < after.len() implies !eq_ignore_case(#[trigger] after[i].name@, #[trigger] after[j].name@) by {
        if j == before.len() {
            assert(after[i] == before[i]);
            assert(!answers_to(before[i], e.name@));
        } else {
            assert(after[i] == before[i] && after[j] == before[j]);
        }
    }
}

/// After a successful `add`, the new entry is what its name looks up.
pub proof fn law_add_then_lookup(before: Seq<Entry>, after: Seq<Entry>, e: Entry)
    requires
        lookup(before, e.name@) is None,
        after == before.push(e),
    ensures
        lookup(after, e.name@) == Some(before.len() as int),
        after[before.len() as int] == e,
{
    lemma_lookup_found(before, e.name@);
    assert forall|j: int| 0 <= j < before.len() implies !answers_to(#[trigger] after[j], e.name@) by {
        assert(after[j] == before[j]);
    }
    assert(eq_ignore_case(e.name@, e.name@));
    crate::vault::lemma_lookup(after, e.name@, before.len() as int);
}

/// `edit` keeps handles unique: a rename is refused when another entry
/// already answers to the new name.
pub proof fn law_edit_keeps_names_unique(before: Seq<Entry>, after: Seq<Entry>, name: Seq<char>, i: int, rename: Option<Seq<char>>)
    requires
        names_unique(before),
        lookup(before, name) == Some(i),
        replaced_at(before, after, i),
        after[i].name@ == (match rename {
            Some(n) => n,
            None => before[i].name@,
        }),
        rename matches Some(n) ==> !rename_taken(before, name, n),
    ensures
        names_unique(after),
{
    lemma_lookup_found(before, name);
    let n = after[i].name@;
    assert forall|j: int| 0 <= j < before.len() && j != i implies !eq_ignore_case(before[j].name@, n) by {
        if eq_ignore_case(before[j].name@, n) {
            match rename {
                None => {
                    if j > i {
                        lemma_eq_ignore_case_symmetric(before[j].name@, n);
                    }
                },
                Some(rn) => {
                    if eq_ignore_case(rn, name) {
                        lemma_eq_ignore_case_transitive(before[j].name@, rn, name);
                        lemma_eq_ignore_case_symmetric(before[i].name@, name);
                        lemma_eq_ignore_case_transitive(before[j].name@, name, before[i].name@);
                        if j > i {
                            lemma_eq_ignore_case_symmetric(before[j].name@, before[i].name@);
                        }
                    } else {
                        lemma_lookup_found(before, rn);
                        assert(answers_to(before[j], rn));
                    }
                },
            }
        }
    }
    assert forall|a: int, b: int| 0 <= a < b < after.len() implies !eq_ignore_case(#[trigger] after[a].name@, #[trigger] after[b].name@) by {
        if a == i {
            assert(after[b] == before[b]);
            if eq_ignore_case(n, before[b].name@) {
                lemma_eq_ignore_case_symmetric(n, before[b].name@);
            }
        } else if b == i {
            assert(after[a] == before[a]);
        } else {
            assert(after[a] == before[a] && after[b] == before[b]);
        }
    }
}

/// A read after a write: once `set` (or `generate`) stored `value` under
/// `field` of the entry addressed as `name`, `name` still looks up that
/// entry, and its `field` holds `value`.
pub proof fn law_set_then_read(before: Seq<Entry>, after: Seq<Entry>, name: Seq<char>, field: Seq<char>, value: Seq<char>, i: int)
    requires
        lookup(before, name) == Some(i),
        replaced_at(before, after, i),
        same_metadata(before[i], after[i]),
        after[i].secrets@ == before[i].secrets@.insert(field, value),
    ensures
        lookup(after, name) == Some(i),
        after[i].secrets@.dom().contains(field),
        after[i].secrets@[field] == value,
{
    lemma_lookup_kept(before, after, name, i);
}

/// After `unset` removed `field` from the entry addressed as `name`, `name`
/// still looks up that entry and it no longer has `field`; its other
/// fields are as they were.
pub proof fn law_unset_then_read(before: Seq<Entry>, after: Seq<Entry>, name: Seq<char>, field: Seq<char>, i: int)
    requires
        lookup(before, name) == Some(i),
        replaced_at(before, after, i),
        same_metadata(before[i], after[i]),
        after[i].secrets@ == before[i].secrets@.remove(field),
    ensures
        lookup(after, name) == Some(i),
        !after[i].secrets@.dom().contains(field),
        forall|f: Seq<char>| f != field && #[trigger] before[i].secrets@.dom().contains(f) ==> after[i].secrets@.dom().contains(f) && after[i].secrets@[f] == before[i].secrets@[f],
{
    lemma_lookup_kept(before, after, name, i);
}

/// Once the entry a handle looks up is removed from a vault whose handles
/// are unique, the handle looks up nothing.
pub proof fn law_remove_then_lookup(before: Seq<Entry>, name: Seq<char>, i: int)
    requires
        names_unique(before),
        lookup(before, name) == Some(i),
    ensures
        lookup(before.remove(i), name) is None,
{
    lemma_lookup_found(before, name);
    let after = before.remove(i);
    assert forall|j: int| 0 <= j < after.len() implies !answers_to(#[trigger] after[j], name) by {
        if j < i {
            assert(after[j] == before[j]);
        } else {
            assert(after[j] == before[j + 1]);
            if answers_to(before[j + 1], name) {
                lemma_eq_ignore_case_symmetric(before[i].name@, name);
                lemma_eq_ignore_case_transitive(before[j + 1].name@, name, before[i].name@);
                lemma_eq_ignore_case_symmetric(before[j + 1].name@, before[i].name@);
            }
        }
    }
    crate::vault::lemma_lookup(after, name, after.len() as int);
}

/// Locking guards egress: once `lock` has locked the entry addressed as
/// `name`, every access to one of its fields through that handle is refused
/// as locked unless a confirmation repeats the entry's exact name; with such
/// a confirmation, only a missing field refuses it.
pub proof fn law_lock_then_refused(before: Seq<Entry>, after: Seq<Entry>, name: Seq<char>, field: Seq<char>, confirm: Seq<String>, i: int)
    requires
        lookup(before, name) == Some(i),
        replaced_at(before, after, i),
        after[i].name == before[i].name,
        after[i].locked,
    ensures
        !confirmed(before[i].name@, confirm) ==> refusal(after, name, field, confirm) == Some(1int),
        confirmed(before[i].name@, confirm) ==> (refusal(after, name, field, confirm) is None
            <==> after[i].secrets@.dom().contains(field)),
{
    lemma_lookup_kept(before, after, name, i);
}

/// Unlocking lifts the guard: once `unlock` has unlocked the entry
/// addressed as `name`, an access through that handle is refused only when
/// the field is missing.
pub proof fn law_unlock_then_granted(before: Seq<Entry>, after: Seq<Entry>, name: Seq<char>, field: Seq<char>, confirm: Seq<String>, i: int)
    requires
        lookup(before, name) == Some(i),
        replaced_at(before, after, i),
        after[i].name == before[i].name,
        !after[i].locked,
    ensures
        refusal(after, name, field, confirm) is None <==> after[i].secrets@.dom().contains(field),
{
    lemma_lookup_kept(before, after, name, i);
}

} // verus!
