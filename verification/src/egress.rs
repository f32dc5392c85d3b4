//! Secret egress decisions for `exec` (env injection), `copy` (clipboard)
//! and `totp`: parsing `REF=ENVVAR` mappings, the locked-entry gate, what a
//! child process is given, and the audit events every refusal produces.
//! Spawning processes, touching the clipboard and writing the audit log are
//! the caller's.

use sha2::Digest;
use vstd::utf8::encode_utf8;
use vstd::prelude::*;

use crate::error::{outcome_of, usage_error, JingleError, Result};
use crate::model::{strs_view, Entry, SecretString, VaultPayload};
use crate::redact::{sanitize, sanitized};
use crate::text::{
    chars_of, concat, decimal, decimal_string, find_char, first_index, hex_lower, hex_string,
    is_digit, is_digit_char, is_upper, is_upper_char, string_of_range,
};
use crate::vault::{is_not_found, lookup};

verus! {

broadcast use vstd::string::group_string_axioms;

// ---------------------------------------------------------------------------
// Mappings
// ---------------------------------------------------------------------------

/// One `--secret REF=ENVVAR` request: inject `entry`'s `field` as `env_var`.
#[derive(Debug, Clone, PartialEq, Eq)]
pub struct Mapping {
    pub entry: String,
    pub field: String,
    pub env_var: String,
}

/// `[A-Z_][A-Z0-9_]*`.
pub open spec fn valid_env_name(v: Seq<char>) -> bool {
    &&& v.len() > 0
    &&& !is_digit(v[0])
    &&& forall|i: int| 0 <= i < v.len() ==> is_upper(#[trigger] v[i]) || is_digit(v[i]) || v[i] == '_'
}

/// What `parse_mapping` makes of a spec: (entry, field, env var), or the
/// usage message. A reference without `:field` means the password.
pub open spec fn mapping_of(s: Seq<char>) -> std::result::Result<(Seq<char>, Seq<char>, Seq<char>), Seq<char>> {
    match first_index(s, '=') {
        None => Err(
            "invalid --secret '"@ + sanitized(s, false)
                + "': expected REF=ENVVAR (e.g. github=GH_PASS or github:api_key=GH_KEY)"@,
        ),
        Some(q) => {
            let reference = s.take(q);
            let env = s.skip(q + 1);
            let entry = match first_index(reference, ':') {
                Some(c) => reference.take(c),
                None => reference,
            };
            let field = match first_index(reference, ':') {
                Some(c) => reference.skip(c + 1),
                None => "password"@,
            };
            if entry.len() == 0 || field.len() == 0 {
                Err("invalid --secret '"@ + sanitized(s, false) + "': empty entry or field"@)
            } else if !valid_env_name(env) {
                Err(
                    "invalid environment variable name '"@ + sanitized(env, false)
                        + "': use [A-Z_][A-Z0-9_]*"@,
                )
            } else {
                Ok((entry, field, env))
            }
        },
    }
}

pub open spec fn mapping_view(m: Mapping) -> (Seq<char>, Seq<char>, Seq<char>) {
    (m.entry@, m.field@, m.env_var@)
}

fn valid_env_name_chars(v: &Vec<char>, from: usize) -> (r: bool)
    requires
        from <= v.len(),
    ensures
        r == valid_env_name(v@.skip(from as int)),
{
    if from == v.len() {
        return false;
    }
    if is_digit_char(v[from]) {
        return false;
    }
    let mut i = from;
    while i < v.len()
        invariant
            from <= i <= v.len(),
            forall|j: int| from <= j < i ==> is_upper(#[trigger] v@[j]) || is_digit(v@[j]) || v@[j] == '_',
        decreases v.len() - i,
    {
        let c = v[i];
        if !(is_upper_char(c) || is_digit_char(c) || c == '_') {
            assert(v@.skip(from as int)[i - from] == c);
            return false;
        }
        i = i + 1;
    }
    assert forall|j: int| 0 <= j < v@.skip(from as int).len() implies is_upper(#[trigger] v@.skip(from as int)[j]) || is_digit(v@.skip(from as int)[j]) || v@.skip(from as int)[j] == '_' by {
        assert(v@.skip(from as int)[j] == v@[from + j]);
    }
    true
}

/// Parse `REF=ENVVAR`, where `REF` is `entry` (meaning the password) or
/// `entry:field`, and `ENVVAR` matches `[A-Z_][A-Z0-9_]*`.
pub fn parse_mapping(spec: &str) -> (r: Result<Mapping>)
    ensures
        match (r, mapping_of(spec@)) {
            (Ok(m), Ok(t)) => mapping_view(m) == t,
            (Err(JingleError::Usage(x)), Err(t)) => x@ == t,
            _ => false,
        },
{
    proof {
        reveal_strlit("password");
    }
    let cs = chars_of(spec);
    assert(cs@.skip(0) =~= cs@);
    let q = match find_char(&cs, 0, '=') {
        Some(q) => q,
        None => {
            let a = concat("invalid --secret '", sanitize(spec).as_str());
            let m = concat(a.as_str(), "': expected REF=ENVVAR (e.g. github=GH_PASS or github:api_key=GH_KEY)");
            return Err(JingleError::Usage(m));
        },
    };
    let reference: Vec<char> = {
        let s = string_of_range(&cs, 0, q);
        chars_of(s.as_str())
    };
    assert(reference@ =~= cs@.take(q as int));
    assert(reference@.skip(0) =~= reference@);
    let (entry, field) = match find_char(&reference, 0, ':') {
        Some(c) => {
            let e = string_of_range(&reference, 0, c);
            let f = string_of_range(&reference, c + 1, reference.len());
            assert(e@ =~= reference@.take(c as int));
            assert(f@ =~= reference@.skip(c + 1));
            (e, f)
        },
        None => {
            let e = string_of_range(&reference, 0, reference.len());
            assert(e@ =~= reference@);
            (e, "password".to_owned())
        },
    };
    if entry.as_str().is_empty() || field.as_str().is_empty() {
        let a = concat("invalid --secret '", sanitize(spec).as_str());
        let m = concat(a.as_str(), "': empty entry or field");
        return Err(JingleError::Usage(m));
    }
    let env_var = string_of_range(&cs, q + 1, cs.len());
    assert(env_var@ =~= cs@.skip(q + 1));
    if !valid_env_name_chars(&cs, q + 1) {
        let a = concat("invalid environment variable name '", sanitize(env_var.as_str()).as_str());
        let m = concat(a.as_str(), "': use [A-Z_][A-Z0-9_]*");
        return Err(JingleError::Usage(m));
    }
    Ok(Mapping { entry, field, env_var })
}

// ---------------------------------------------------------------------------
// The locked-entry gate and audit events
// ---------------------------------------------------------------------------

/// Some confirmation repeats the entry's exact (case-sensitive) name.
pub open spec fn confirmed(name: Seq<char>, confirm_locked: Seq<String>) -> bool {
    exists|k: int| 0 <= k < confirm_locked.len() && (#[trigger] confirm_locked[k])@ == name
}

/// A locked entry gives up secrets only when a confirmation repeats its
/// exact name: deliberate friction that an injected "run it again with the
/// bypass flag" instruction has to reproduce precisely.
pub fn check_locked(entry: &Entry, confirm_locked: &[String]) -> (r: Result<()>)
    ensures
        r is Err <==> entry.locked && !confirmed(entry.name@, confirm_locked@),
        r matches Err(e) ==> (e matches JingleError::Locked(m) && m@ == sanitized(entry.name@, false)),
{
    if entry.locked {
        let mut k: usize = 0;
        while k < confirm_locked.len()
            invariant
                k <= confirm_locked@.len(),
                forall|j: int| 0 <= j < k ==> (#[trigger] confirm_locked@[j])@ != entry.name@,
            decreases confirm_locked.len() - k,
        {
            if confirm_locked[k] == entry.name {
                return Ok(());
            }
            k = k + 1;
        }
        return Err(JingleError::Locked(sanitize(entry.name.as_str())));
    }
    Ok(())
}

/// One record for the audit log: which command touched which entry and
/// field, with what outcome, and the entry's lock state where it matters.
#[derive(Debug, Clone, PartialEq, Eq)]
pub struct AuditEvent {
    pub cmd: String,
    pub entry: Option<String>,
    pub field: Option<String>,
    pub outcome: String,
    pub locked: Option<bool>,
}

pub open spec fn opt_str_view(o: Option<&str>) -> Option<Seq<char>> {
    match o {
        Some(s) => Some(s@),
        None => None,
    }
}

pub open spec fn opt_string_view(o: Option<String>) -> Option<Seq<char>> {
    match o {
        Some(s) => Some(s@),
        None => None,
    }
}

fn own_opt(o: Option<&str>) -> (r: Option<String>)
    ensures
        opt_string_view(r) == opt_str_view(o),
{
    match o {
        Some(s) => Some(s.to_owned()),
        None => None,
    }
}

/// The audit event for a refused or failed access.
pub open spec fn failure_event(ev: AuditEvent, cmd: Seq<char>, entry: Option<Seq<char>>, field: Option<Seq<char>>, err: JingleError) -> bool {
    &&& ev.cmd@ == cmd
    &&& opt_string_view(ev.entry) == entry
    &&& opt_string_view(ev.field) == field
    &&& ev.outcome@ == outcome_of(err)
    &&& ev.locked is None
}

/// Every refused or failed egress attempt is audited: the event to record,
/// and the error, unchanged.
pub fn audited_failure(cmd: &str, entry: Option<&str>, field: Option<&str>, err: JingleError) -> (r: (AuditEvent, JingleError))
    ensures
        failure_event(r.0, cmd@, opt_str_view(entry), opt_str_view(field), err),
        r.1 == err,
{
    let ev = AuditEvent {
        cmd: cmd.to_owned(),
        entry: own_opt(entry),
        field: own_opt(field),
        outcome: err.audit_outcome().to_owned(),
        locked: None,
    };
    (ev, err)
}

/// Why the access of `field` of the entry addressed as `name` is refused,
/// if it is: 0 no such entry, 1 locked and not confirmed, 2 no such field.
pub open spec fn refusal(entries: Seq<Entry>, name: Seq<char>, field: Seq<char>, confirm_locked: Seq<String>) -> Option<int> {
    match lookup(entries, name) {
        None => Some(0),
        Some(i) => if entries[i].locked && !confirmed(entries[i].name@, confirm_locked) {
            Some(1)
        } else if !entries[i].secrets@.dom().contains(field) {
            Some(2)
        } else {
            None
        },
    }
}

/// The error that refusal `kind` of that access carries.
pub open spec fn refusal_error(entries: Seq<Entry>, name: Seq<char>, field: Seq<char>, kind: int, e: JingleError) -> bool {
    if kind == 0 {
        is_not_found(e, name)
    } else if kind == 1 {
        e matches JingleError::Locked(m) && m@ == sanitized(entries[lookup(entries, name)->0].name@, false)
    } else {
        e matches JingleError::FieldNotFound { entry, field: f } && entry@ == entries[lookup(entries, name)->0].name@ && f@ == field
    }
}

/// Resolve and authorize one access: the entry must exist, must not be
/// locked unless confirmed by exact name, and must hold the field. A refusal
/// comes with its audit event.
pub fn authorize(vault: &VaultPayload, cmd: &str, name: &str, field: &str, confirm_locked: &[String]) -> (r: std::result::Result<usize, (JingleError, AuditEvent)>)
    ensures
        match refusal(vault.entries@, name@, field@, confirm_locked@) {
            None => r matches Ok(i) && lookup(vault.entries@, name@) == Some(i as int),
            Some(kind) => r matches Err((e, ev)) && refusal_error(vault.entries@, name@, field@, kind, e)
                && failure_event(ev, cmd@, Some(name@), Some(field@), e),
        },
{
    let i = match vault.find_index(name) {
        Some(i) => i,
        None => {
            let (ev, e) = audited_failure(cmd, Some(name), Some(field), JingleError::NotFound(sanitize(name)));
            return Err((e, ev));
        },
    };
    let entry = &vault.entries[i];
    match check_locked(entry, confirm_locked) {
        Ok(()) => {},
        Err(e) => {
            let (ev, e) = audited_failure(cmd, Some(name), Some(field), e);
            return Err((e, ev));
        },
    }
    match entry.secret(field) {
        Ok(_) => Ok(i),
        Err(e) => {
            let (ev, e) = audited_failure(cmd, Some(name), Some(field), e);
            Err((e, ev))
        },
    }
}

// ---------------------------------------------------------------------------
// exec
// ---------------------------------------------------------------------------

/// A secret to place in the child's environment.
pub struct Injection {
    pub env_var: String,
    pub value: SecretString,
}

/// A granted access, to be recorded in the audit log.
#[derive(Debug, Clone, PartialEq, Eq)]
pub struct Grant {
    pub entry: String,
    pub field: String,
    pub locked: bool,
}

/// What `exec` hands the child, and the grants to record before it runs.
pub struct ExecPlan {
    pub injections: Vec<Injection>,
    pub grants: Vec<Grant>,
}

/// The `i`-th spec is the first that does not parse.
pub open spec fn first_bad_spec(specs: Seq<String>, i: int) -> bool {
    &&& 0 <= i < specs.len()
    &&& mapping_of(specs[i]@) is Err
    &&& forall|j: int| 0 <= j < i ==> mapping_of((#[trigger] specs[j])@) is Ok
}

pub open spec fn all_parse(specs: Seq<String>) -> bool {
    forall|j: int| 0 <= j < specs.len() ==> mapping_of((#[trigger] specs[j])@) is Ok
}

/// The parsed mappings of specs that all parse.
pub open spec fn parsed(specs: Seq<String>) -> Seq<(Seq<char>, Seq<char>, Seq<char>)> {
    specs.map_values(|s: String| mapping_of(s@)->Ok_0)
}

/// The `j`-th mapping is the first to repeat an earlier env var.
pub open spec fn first_repeat(ms: Seq<(Seq<char>, Seq<char>, Seq<char>)>, j: int) -> bool {
    &&& 0 <= j < ms.len()
    &&& exists|k: int| 0 <= k < j && (#[trigger] ms[k]).2 == ms[j].2
    &&& forall|a: int, b: int| 0 <= a < b < j ==> (#[trigger] ms[a]).2 != (#[trigger] ms[b]).2
}

pub open spec fn env_vars_distinct(ms: Seq<(Seq<char>, Seq<char>, Seq<char>)>) -> bool {
    forall|a: int, b: int| 0 <= a < b < ms.len() ==> (#[trigger] ms[a]).2 != (#[trigger] ms[b]).2
}

/// The `k`-th mapping is the first whose access is refused.
pub open spec fn first_refused(entries: Seq<Entry>, ms: Seq<(Seq<char>, Seq<char>, Seq<char>)>, confirm: Seq<String>, k: int) -> bool {
    &&& 0 <= k < ms.len()
    &&& refusal(entries, ms[k].0, ms[k].1, confirm) is Some
    &&& forall|j: int| 0 <= j < k ==> refusal(entries, (#[trigger] ms[j]).0, ms[j].1, confirm) is None
}

pub open spec fn none_refused(entries: Seq<Entry>, ms: Seq<(Seq<char>, Seq<char>, Seq<char>)>, confirm: Seq<String>) -> bool {
    forall|j: int| 0 <= j < ms.len() ==> refusal(entries, (#[trigger] ms[j]).0, ms[j].1, confirm) is None
}

/// The environment already has variable `v`.
pub open spec fn env_has(existing: Seq<String>, v: Seq<char>) -> bool {
    exists|k: int| 0 <= k < existing.len() && (#[trigger] existing[k])@ == v
}

/// The `k`-th mapping is the first that would overwrite an existing variable.
pub open spec fn first_collision(ms: Seq<(Seq<char>, Seq<char>, Seq<char>)>, existing: Seq<String>, k: int) -> bool {
    &&& 0 <= k < ms.len()
    &&& env_has(existing, ms[k].2)
    &&& forall|j: int| 0 <= j < k ==> !env_has(existing, (#[trigger] ms[j]).2)
}

pub open spec fn no_collision(ms: Seq<(Seq<char>, Seq<char>, Seq<char>)>, existing: Seq<String>) -> bool {
    forall|j: int| 0 <= j < ms.len() ==> !env_has(existing, (#[trigger] ms[j]).2)
}

/// The plan for mappings `ms`: mapping `k` injects the entry's field under
/// its env var, and grants are recorded in the same order.
pub open spec fn plan_matches(entries: Seq<Entry>, ms: Seq<(Seq<char>, Seq<char>, Seq<char>)>, plan: ExecPlan) -> bool {
    &&& plan.injections@.len() == ms.len()
    &&& plan.grants@.len() == ms.len()
    &&& forall|k: int| 0 <= k < ms.len() ==> {
        let e = entries[lookup(entries, ms[k].0)->0];
        &&& (#[trigger] plan.injections@[k]).env_var@ == ms[k].2
        &&& plan.injections@[k].value@ == e.secrets@[ms[k].1]
        &&& plan.grants@[k].entry@ == e.name@
        &&& plan.grants@[k].field@ == ms[k].1
        &&& plan.grants@[k].locked == e.locked
    }
}

/// Parse every `--secret` mapping, in order, and reject an env var mapped
/// twice: the first spec that does not parse, else the first mapping that
/// repeats an earlier env var, is refused with its usage error.
#[verifier::loop_isolation(false)]
pub fn parse_mappings(specs: &[String]) -> (r: Result<Vec<Mapping>>)
    ensures
        !all_parse(specs@) ==> exists|i: int| first_bad_spec(specs@, i) && (r matches Err(JingleError::Usage(m)) && Err::<(Seq<char>, Seq<char>, Seq<char>), Seq<char>>(m@) == mapping_of(specs@[i]@)),
        all_parse(specs@) && !env_vars_distinct(parsed(specs@)) ==> exists|j: int| first_repeat(parsed(specs@), j) && (r matches Err(JingleError::Usage(m)) && m@ == "environment variable "@ + parsed(specs@)[j].2 + " is mapped more than once"@),
        r is Ok <==> all_parse(specs@) && env_vars_distinct(parsed(specs@)),
        r matches Ok(maps) ==> {
            &&& maps@.len() == specs@.len()
            &&& forall|a: int| 0 <= a < maps@.len() ==> mapping_view(#[trigger] maps@[a]) == parsed(specs@)[a]
        },
{
    // Parse every mapping.
    let mut maps: Vec<Mapping> = Vec::new();
    let mut i: usize = 0;
    while i < specs.len()
        invariant
            i <= specs@.len(),
            maps@.len() == i,
            forall|j: int| 0 <= j < i ==> mapping_of((#[trigger] specs@[j])@) is Ok,
            forall|j: int| 0 <= j < i ==> mapping_view(#[trigger] maps@[j]) == mapping_of(specs@[j]@)->Ok_0,
        decreases specs.len() - i,
    {
        match parse_mapping(specs[i].as_str()) {
            Ok(m) => maps.push(m),
            Err(e) => {
                assert(first_bad_spec(specs@, i as int));
                return Err(e);
            },
        }
        i = i + 1;
    }
    let ghost ms = parsed(specs@);
    assert(all_parse(specs@));
    assert forall|j: int| 0 <= j < maps@.len() implies mapping_view(#[trigger] maps@[j]) == ms[j] by {}
    // Each env var at most once.
    let mut j: usize = 0;
    while j < maps.len()
        invariant
            j <= maps@.len(),
            maps@.len() == ms.len(),
            forall|a: int| 0 <= a < maps@.len() ==> mapping_view(#[trigger] maps@[a]) == ms[a],
            forall|a: int, b: int| 0 <= a < b < j ==> (#[trigger] ms[a]).2 != (#[trigger] ms[b]).2,
        decreases maps.len() - j,
    {
        let mut k: usize = 0;
        while k < j
            invariant
                k <= j < maps@.len(),
                maps@.len() == ms.len(),
                forall|a: int| 0 <= a < maps@.len() ==> mapping_view(#[trigger] maps@[a]) == ms[a],
                forall|a: int, b: int| 0 <= a < b < j ==> (#[trigger] ms[a]).2 != (#[trigger] ms[b]).2,
                forall|a: int| 0 <= a < k ==> (#[trigger] ms[a]).2 != ms[j as int].2,
            decreases j - k,
        {
            assert(mapping_view(maps@[k as int]) == ms[k as int]);
            assert(mapping_view(maps@[j as int]) == ms[j as int]);
            if maps[k].env_var == maps[j].env_var {
                let a = concat("environment variable ", maps[j].env_var.as_str());
                let m = concat(a.as_str(), " is mapped more than once");
                assert(first_repeat(ms, j as int));
                return Err(JingleError::Usage(m));
            }
            k = k + 1;
        }
        j = j + 1;
    }
    Ok(maps)
}

/// Decide an `exec`: parse every mapping, reject env vars mapped twice,
/// resolve and authorize every mapping, and refuse to overwrite a variable
/// of `existing` (the names of the child's starting environment) unless
/// `allow_overwrite`; all before anything is injected, so a refusal never
/// launches a partially injected process. Only authorization refusals come
/// with an audit event.
#[verifier::loop_isolation(false)]
#[verifier::rlimit(30)]
pub fn plan_exec(
    vault: &VaultPayload,
    specs: &[String],
    confirm_locked: &[String],
    existing: &[String],
    allow_overwrite: bool,
) -> (r: std::result::Result<ExecPlan, (JingleError, Option<AuditEvent>)>)
    ensures
        !all_parse(specs@) ==> exists|i: int| first_bad_spec(specs@, i) && (r matches Err((JingleError::Usage(m), None)) && Err::<(Seq<char>, Seq<char>, Seq<char>), Seq<char>>(m@) == mapping_of(specs@[i]@)),
        all_parse(specs@) && !env_vars_distinct(parsed(specs@)) ==> exists|j: int| first_repeat(parsed(specs@), j) && (r matches Err((JingleError::Usage(m), None)) && m@ == "environment variable "@ + parsed(specs@)[j].2 + " is mapped more than once"@),
        all_parse(specs@) && env_vars_distinct(parsed(specs@)) && !none_refused(vault.entries@, parsed(specs@), confirm_locked@) ==> exists|k: int| first_refused(vault.entries@, parsed(specs@), confirm_locked@, k) && (r matches Err((e, Some(ev))) && refusal_error(vault.entries@, parsed(specs@)[k].0, parsed(specs@)[k].1, refusal(vault.entries@, parsed(specs@)[k].0, parsed(specs@)[k].1, confirm_locked@)->0, e) && failure_event(ev, "exec"@, Some(parsed(specs@)[k].0), Some(parsed(specs@)[k].1), e)),
        all_parse(specs@) && env_vars_distinct(parsed(specs@)) && none_refused(vault.entries@, parsed(specs@), confirm_locked@) && !allow_overwrite && !no_collision(parsed(specs@), existing@) ==> exists|k: int| first_collision(parsed(specs@), existing@, k) && (r matches Err((JingleError::Usage(m), None)) && m@ == "environment variable "@ + parsed(specs@)[k].2 + " already exists; pass --allow-overwrite to replace it"@),
        all_parse(specs@) && env_vars_distinct(parsed(specs@)) && none_refused(vault.entries@, parsed(specs@), confirm_locked@) && (allow_overwrite || no_collision(parsed(specs@), existing@)) ==> r is Ok,
        r matches Ok(plan) ==> {
            &&& all_parse(specs@)
            &&& env_vars_distinct(parsed(specs@))
            &&& none_refused(vault.entries@, parsed(specs@), confirm_locked@)
            &&& allow_overwrite || no_collision(parsed(specs@), existing@)
            &&& plan_matches(vault.entries@, parsed(specs@), plan)
        },
{
    proof {
        reveal_strlit("exec");
    }
    let maps = match parse_mappings(specs) {
        Ok(maps) => maps,
        Err(e) => return Err((e, None)),
    };
    let ghost ms = parsed(specs@);
    // Resolve and authorize every mapping before anything is injected.
    let mut found: Vec<usize> = Vec::new();
    let mut k: usize = 0;
    while k < maps.len()
        invariant
            k <= maps@.len(),
            maps@.len() == ms.len(),
            found@.len() == k,
            forall|a: int| 0 <= a < maps@.len() ==> mapping_view(#[trigger] maps@[a]) == ms[a],
            env_vars_distinct(ms),
            forall|a: int| 0 <= a < k ==> refusal(vault.entries@, (#[trigger] ms[a]).0, ms[a].1, confirm_locked@) is None,
            forall|a: int| 0 <= a < k ==> lookup(vault.entries@, ms[a].0) == Some((#[trigger] found@[a]) as int),
            forall|a: int| 0 <= a < k ==> (#[trigger] found@[a]) < vault.entries@.len(),
        decreases maps.len() - k,
    {
        assert(mapping_view(maps@[k as int]) == ms[k as int]);
        match authorize(vault, "exec", maps[k].entry.as_str(), maps[k].field.as_str(), confirm_locked) {
            Ok(idx) => {
                proof {
                    crate::vault::lemma_lookup_found(vault.entries@, ms[k as int].0);
                }
                found.push(idx);
            },
            Err((e, ev)) => {
                assert(first_refused(vault.entries@, ms, confirm_locked@, k as int));
                return Err((e, Some(ev)));
            },
        }
        k = k + 1;
    }
    // No silent overwrite of the starting environment.
    if !allow_overwrite {
        let mut a: usize = 0;
        while a < maps.len()
            invariant
                a <= maps@.len(),
                maps@.len() == ms.len(),
                forall|x: int| 0 <= x < maps@.len() ==> mapping_view(#[trigger] maps@[x]) == ms[x],
                forall|x: int| 0 <= x < a ==> !env_has(existing@, (#[trigger] ms[x]).2),
            decreases maps.len() - a,
        {
            assert(mapping_view(maps@[a as int]) == ms[a as int]);
            let mut b: usize = 0;
            while b < existing.len()
                invariant
                    a < maps@.len(),
                    maps@.len() == ms.len(),
                    mapping_view(maps@[a as int]) == ms[a as int],
                    b <= existing@.len(),
                    forall|y: int| 0 <= y < b ==> (#[trigger] existing@[y])@ != ms[a as int].2,
                decreases existing.len() - b,
            {
                if existing[b] == maps[a].env_var {
                    assert(existing@[b as int]@ == ms[a as int].2);
                    let s = concat("environment variable ", maps[a].env_var.as_str());
                    let m = concat(s.as_str(), " already exists; pass --allow-overwrite to replace it");
                    assert(first_collision(ms, existing@, a as int));
                    return Err((JingleError::Usage(m), None));
                }
                b = b + 1;
            }
            a = a + 1;
        }
    }
    assert(none_refused(vault.entries@, ms, confirm_locked@));
    assert(allow_overwrite || no_collision(ms, existing@));
    // The injections and the grants to record.
    let mut injections: Vec<Injection> = Vec::new();
    let mut grants: Vec<Grant> = Vec::new();
    let mut t: usize = 0;
    while t < maps.len()
        invariant
            t <= maps@.len(),
            maps@.len() == ms.len(),
            found@.len() == ms.len(),
            forall|a: int| 0 <= a < maps@.len() ==> mapping_view(#[trigger] maps@[a]) == ms[a],
            forall|a: int| 0 <= a < ms.len() ==> refusal(vault.entries@, (#[trigger] ms[a]).0, ms[a].1, confirm_locked@) is None,
            forall|a: int| 0 <= a < ms.len() ==> lookup(vault.entries@, ms[a].0) == Some((#[trigger] found@[a]) as int),
            forall|a: int| 0 <= a < ms.len() ==> (#[trigger] found@[a]) < vault.entries@.len(),
            injections@.len() == t,
            grants@.len() == t,
            forall|x: int| 0 <= x < t ==> {
                let e = vault.entries@[lookup(vault.entries@, ms[x].0)->0];
                &&& (#[trigger] injections@[x]).env_var@ == ms[x].2
                &&& injections@[x].value@ == e.secrets@[ms[x].1]
                &&& grants@[x].entry@ == e.name@
                &&& grants@[x].field@ == ms[x].1
                &&& grants@[x].locked == e.locked
            },
        decreases maps.len() - t,
    {
        assert(mapping_view(maps@[t as int]) == ms[t as int]);
        assert(lookup(vault.entries@, ms[t as int].0) == Some(found@[t as int] as int));
        let e = &vault.entries[found[t]];
        let value = match e.secrets.get(maps[t].field.as_str()) {
            Some(s) => SecretString::new(s.expose().to_owned()),
            None => {
                assert(false);
                SecretString::new(String::new())
            },
        };
        let env_var = maps[t].env_var.clone();
        let entry_name = e.name.clone();
        let field = maps[t].field.clone();
        let ghost old_inj = injections@;
        let ghost old_grants = grants@;
        let ghost ent = *e;
        assert(value@ == ent.secrets@[ms[t as int].1]);
        injections.push(Injection { env_var, value });
        grants.push(Grant { entry: entry_name, field, locked: e.locked });
        proof {
            assert forall|x: int| 0 <= x < t + 1 implies {
                let e = vault.entries@[lookup(vault.entries@, ms[x].0)->0];
                &&& (#[trigger] injections@[x]).env_var@ == ms[x].2
                &&& injections@[x].value@ == e.secrets@[ms[x].1]
                &&& grants@[x].entry@ == e.name@
                &&& grants@[x].field@ == ms[x].1
                &&& grants@[x].locked == e.locked
            } by {
                if x < t {
                    assert(injections@[x] == old_inj[x]);
                    assert(grants@[x] == old_grants[x]);
                }
            }
        }
        t = t + 1;
    }
    let plan = ExecPlan { injections, grants };
    assert(plan_matches(vault.entries@, ms, plan));
    Ok(plan)
}

/// The exit code `exec` passes on where a child can be ended by a signal:
/// the child's own exit code, else 128 plus the signal that ended it, else
/// 128 plus 1.
pub fn exit_code(code: Option<i32>, signal: Option<i32>) -> (r: i32)
    requires
        code is None && signal is Some ==> signal->0 <= i32::MAX - 128,
    ensures
        r == match code {
            Some(c) => c as int,
            None => match signal {
                Some(s) => 128 + s,
                None => 129,
            },
        },
{
    match code {
        Some(c) => c,
        None => match signal {
            Some(s) => 128 + s,
            None => 129,
        },
    }
}

/// The exit code `exec` passes on where there are no signals: the child's
/// own exit code, else 1.
pub fn exit_code_without_signals(code: Option<i32>) -> (r: i32)
    ensures
        r == match code {
            Some(c) => c,
            None => 1i32,
        },
{
    match code {
        Some(c) => c,
        None => 1,
    }
}

/// The variables of the parent environment that the child starts with: with
/// `no_inherit_env`, only `PATH`, `HOME`, `TMPDIR`, `TEMP`, `TMP` and
/// `SYSTEMROOT`; otherwise everything except `JINGLE_*` (so the child cannot
/// discover the keyfile or vault location).
pub open spec fn inherited(name: Seq<char>, no_inherit_env: bool) -> bool {
    if no_inherit_env {
        name == "PATH"@ || name == "HOME"@ || name == "TMPDIR"@ || name == "TEMP"@ || name == "TMP"@
            || name == "SYSTEMROOT"@
    } else {
        !(name.len() >= 7 && name.take(7) == "JINGLE_"@)
    }
}

/// Which parent variables a child starts with. With `--no-inherit-env`,
/// a variable is passed on exactly when its name is one of `PATH`, `HOME`,
/// `TMPDIR`, `TEMP`, `TMP` and `SYSTEMROOT`; otherwise every variable is
/// passed on except those whose name starts with `JINGLE_`.
pub proof fn law_child_environment(name: Seq<char>)
    ensures
        inherited(name, true) <==> seq!["PATH"@, "HOME"@, "TMPDIR"@, "TEMP"@, "TMP"@, "SYSTEMROOT"@].contains(name),
        inherited(name, false) <==> !(exists|rest: Seq<char>| name == "JINGLE_"@ + rest),
{
    let keep = seq!["PATH"@, "HOME"@, "TMPDIR"@, "TEMP"@, "TMP"@, "SYSTEMROOT"@];
    if inherited(name, true) {
        if name == "PATH"@ {
            assert(keep[0] == name);
        } else if name == "HOME"@ {
            assert(keep[1] == name);
        } else if name == "TMPDIR"@ {
            assert(keep[2] == name);
        } else if name == "TEMP"@ {
            assert(keep[3] == name);
        } else if name == "TMP"@ {
            assert(keep[4] == name);
        } else {
            assert(keep[5] == name);
        }
    }
    if keep.contains(name) {
        let k = choose|k: int| 0 <= k < keep.len() && keep[k] == name;
        if k == 0 {
        } else if k == 1 {
        } else if k == 2 {
        } else if k == 3 {
        } else if k == 4 {
        } else {
        }
    }
    reveal_strlit("JINGLE_");
    let p = "JINGLE_"@;
    if exists|rest: Seq<char>| name == p + rest {
        let rest = choose|rest: Seq<char>| name == p + rest;
        assert(name.take(7) =~= p);
    }
    if name.len() >= 7 && name.take(7) == p {
        let rest = name.skip(7);
        assert(name =~= p + rest);
    }
}

#[verifier::loop_isolation(false)]
pub fn inherits_env_var(name: &str, no_inherit_env: bool) -> (r: bool)
    ensures
        r == inherited(name@, no_inherit_env),
        no_inherit_env ==> (r <==> seq!["PATH"@, "HOME"@, "TMPDIR"@, "TEMP"@, "TMP"@, "SYSTEMROOT"@].contains(name@)),
        !no_inherit_env ==> (r <==> !(exists|rest: Seq<char>| name@ == "JINGLE_"@ + rest)),
{
    proof {
        law_child_environment(name@);
    }
    proof {
        reveal_strlit("JINGLE_");
    }
    let cs = chars_of(name);
    if no_inherit_env {
        let n = name.to_owned();
        let keep = ["PATH", "HOME", "TMPDIR", "TEMP", "TMP", "SYSTEMROOT"];
        let mut k: usize = 0;
        while k < 6
            invariant
                n@ == name@,
                k <= 6,
                keep@ == seq!["PATH", "HOME", "TMPDIR", "TEMP", "TMP", "SYSTEMROOT"],
                forall|j: int| 0 <= j < k ==> (#[trigger] keep@[j])@ != name@,
            decreases 6 - k,
        {
            let candidate = keep[k].to_owned();
            if candidate == n {
                proof {
                    if k == 0 {
                    } else if k == 1 {
                    } else if k == 2 {
                    } else if k == 3 {
                    } else if k == 4 {
                    } else {
                    }
                }
                return true;
            }
            k = k + 1;
        }
        assert(keep@[0]@ != name@ && keep@[1]@ != name@ && keep@[2]@ != name@);
        assert(keep@[3]@ != name@ && keep@[4]@ != name@ && keep@[5]@ != name@);
        false
    } else {
        let prefix = chars_of("JINGLE_");
        if cs.len() < 7 {
            return true;
        }
        let mut k: usize = 0;
        while k < 7
            invariant
                cs@ == name@,
                cs@.len() >= 7,
                prefix@ == "JINGLE_"@,
                prefix@.len() == 7,
                k <= 7,
                forall|j: int| 0 <= j < k ==> cs@[j] == prefix@[j],
            decreases 7 - k,
        {
            if cs[k] != prefix[k] {
                assert(cs@.take(7)[k as int] != "JINGLE_"@[k as int]);
                return true;
            }
            k = k + 1;
        }
        assert(cs@.take(7) =~= "JINGLE_"@);
        false
    }
}

// ---------------------------------------------------------------------------
// copy
// ---------------------------------------------------------------------------

/// The SHA-256 digest of `bytes`.
pub uninterp spec fn sha256(bytes: Seq<u8>) -> Seq<u8>;

/// `Sha256::digest(bytes)`: the 32-byte SHA-256 digest.
#[verifier::external_body]
fn sha256_digest(bytes: &[u8]) -> (d: [u8; 32])
    ensures
        d@ == sha256(bytes@),
{
    sha2::Sha256::digest(bytes).into()
}

/// The fingerprint the clipboard helper compares against: the lower-case
/// hex SHA-256 of the text's UTF-8 bytes. The helper learns only this, never
/// the value.
pub fn clipboard_hash(text: &str) -> (h: String)
    ensures
        h@ == hex_lower(sha256(encode_utf8(text@))),
{
    let d = sha256_digest(text.as_bytes());
    hex_string(&d)
}

/// The clipboard is cleared only if it still holds the value that was
/// copied, recognized by its fingerprint.
pub fn should_clear_clipboard(current: &str, expected_hash: &str) -> (r: bool)
    ensures
        r == (hex_lower(sha256(encode_utf8(current@))) == expected_hash@),
{
    let h = clipboard_hash(current);
    let e = expected_hash.to_owned();
    h == e
}

/// More distinct entries than this within the window trip the wire.
pub const BURST_THRESHOLD: u64 = 5;

/// The tripwire's window, in seconds.
pub const BURST_WINDOW_SECS: u64 = 60;

/// One earlier grant of a secret: when (Unix seconds) and of which entry.
#[derive(Debug, Clone, PartialEq, Eq)]
pub struct Access {
    pub at: u64,
    pub entry: String,
}

/// A grant at `at` lies within the window that ends at `now`.
pub open spec fn in_window(at: u64, now: u64) -> bool {
    at <= now && now - at < BURST_WINDOW_SECS
}

/// The entries granted within the window ending at `now`, oldest first.
pub open spec fn recent_names(h: Seq<Access>, now: u64) -> Seq<Seq<char>>
    decreases h.len(),
{
    if h.len() == 0 {
        Seq::empty()
    } else {
        let p = recent_names(h.drop_last(), now);
        if in_window(h.last().at, now) {
            p.push(h.last().entry@)
        } else {
            p
        }
    }
}

/// `s` without repetitions, each name where it first occurs.
pub open spec fn distinct_names(s: Seq<Seq<char>>) -> Seq<Seq<char>>
    decreases s.len(),
{
    if s.len() == 0 {
        Seq::empty()
    } else {
        let d = distinct_names(s.drop_last());
        if d.contains(s.last()) {
            d
        } else {
            d.push(s.last())
        }
    }
}

/// How many distinct entries have been granted within the window ending at
/// `now`, counting a grant of `entry` now.
pub open spec fn burst_size(h: Seq<Access>, now: u64, entry: Seq<char>) -> nat {
    distinct_names(recent_names(h, now).push(entry)).len()
}

fn holds_name(names: &Vec<String>, x: &str) -> (r: bool)
    ensures
        r == strs_view(names@).contains(x@),
{
    let wanted = x.to_owned();
    let mut k: usize = 0;
    while k < names.len()
        invariant
            wanted@ == x@,
            k <= names@.len(),
            forall|j: int| 0 <= j < k ==> (#[trigger] names@[j])@ != x@,
        decreases names.len() - k,
    {
        if names[k] == wanted {
            assert(strs_view(names@)[k as int] == x@);
            return true;
        }
        k = k + 1;
    }
    proof {
        if strs_view(names@).contains(x@) {
            let j = choose|j: int| 0 <= j < strs_view(names@).len() && strs_view(names@)[j] == x@;
            assert(names@[j]@ == x@);
        }
    }
    false
}

/// The burst tripwire: a grant of `entry` at `now`, given the earlier
/// grants `history`, trips it when secrets from more than five distinct
/// entries have been granted within the last 60 seconds; the answer is then
/// that number.
pub fn burst_count(history: &[Access], now: u64, entry: &str) -> (r: Option<u64>)
    ensures
        burst_size(history@, now, entry@) > BURST_THRESHOLD ==> r == Some(burst_size(history@, now, entry@) as u64),
        burst_size(history@, now, entry@) <= BURST_THRESHOLD ==> r is None,
{
    let mut names: Vec<String> = Vec::new();
    let mut i: usize = 0;
    while i < history.len()
        invariant
            i <= history@.len(),
            strs_view(names@) == distinct_names(recent_names(history@.take(i as int), now)),
            names@.len() <= i,
        decreases history.len() - i,
    {
        let a = &history[i];
        let ghost pre = history@.take(i as int);
        assert(history@.take(i + 1).drop_last() =~= pre);
        assert(history@.take(i + 1).last() == *a);
        if a.at <= now && now - a.at < BURST_WINDOW_SECS {
            let ghost rn = recent_names(history@.take(i + 1), now);
            assert(rn == recent_names(pre, now).push(a.entry@));
            assert(rn.drop_last() =~= recent_names(pre, now));
            if !holds_name(&names, a.entry.as_str()) {
                let ghost before = strs_view(names@);
                names.push(a.entry.clone());
                assert(strs_view(names@) =~= before.push(a.entry@));
            }
        }
        i = i + 1;
    }
    assert(history@.take(history@.len() as int) =~= history@);
    let ghost all = recent_names(history@, now).push(entry@);
    assert(all.drop_last() =~= recent_names(history@, now));
    if !holds_name(&names, entry) {
        let ghost before = strs_view(names@);
        names.push(entry.to_owned());
        assert(strs_view(names@) =~= before.push(entry@));
    }
    let n = names.len();
    if n as u64 > BURST_THRESHOLD {
        Some(n as u64)
    } else {
        None
    }
}

/// The warning printed when secrets from `n` distinct entries were
/// accessed within the last minute.
pub fn burst_warning(n: u64) -> (s: String)
    ensures
        s@ == "jingle: WARNING: secrets from "@ + decimal(n as nat)
            + " distinct entries were accessed within the last 60s — if you did not intend a bulk access, inspect `jingle audit` (possible prompt-injection/exfiltration)"@,
{
    let a = concat("jingle: WARNING: secrets from ", decimal_string(n).as_str());
    concat(a.as_str(), " distinct entries were accessed within the last 60s — if you did not intend a bulk access, inspect `jingle audit` (possible prompt-injection/exfiltration)")
}

} // verus!
