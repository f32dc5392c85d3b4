//! Data model: `Entry`, the secret value `SecretString`, and the redaction
//! boundary `EntryView`, which carries the names of an entry's secret fields
//! but never their values.

use vstd::prelude::*;

use crate::clock::{format_rfc3339, now_utc, rfc3339_text, Timestamp};
use crate::error::{JingleError, Result};
use crate::random::fill_random;
use crate::redact::{sanitize, sanitized};
use crate::secrets::{sorted_names, SecretMap};
use vstd::utf8::encode_utf8;
use crate::text::{chars_of, concat, hex_lower, hex_string, is_alnum, is_alnum_char};

verus! {

broadcast use vstd::string::group_string_axioms;

pub const REDACTED: &'static str = "[REDACTED]";

/// A secret value. Its only textual rendering is `[REDACTED]`; the raw value
/// is reachable only through the deliberately named [`SecretString::expose`].
#[derive(Clone)]
pub struct SecretString {
    value: String,
}

impl View for SecretString {
    type V = Seq<char>;

    closed spec fn view(&self) -> Seq<char> {
        self.value@
    }
}

impl SecretString {
    pub fn new(value: String) -> (s: SecretString)
        ensures
            s@ == value@,
    {
        SecretString { value }
    }

    /// Access the raw secret. Call sites of this method are the complete set
    /// of places secret material can leave the model.
    pub fn expose(&self) -> (s: &str)
        ensures
            s@ == self@,
    {
        self.value.as_str()
    }

    /// What the value displays as, whatever it holds: `[REDACTED]`.
    pub fn redacted_text(&self) -> (s: String)
        ensures
            s@ == REDACTED@,
    {
        REDACTED.to_owned()
    }
}

pub open spec fn opt_view(o: Option<String>) -> Option<Seq<char>> {
    match o {
        Some(s) => Some(s@),
        None => None,
    }
}

pub open spec fn strs_view(v: Seq<String>) -> Seq<Seq<char>> {
    v.map_values(|s: String| s@)
}

pub fn clone_opt(o: &Option<String>) -> (r: Option<String>)
    ensures
        opt_view(r) == opt_view(*o),
{
    match o {
        Some(s) => Some(s.clone()),
        None => None,
    }
}

pub fn clone_strs(v: &Vec<String>) -> (r: Vec<String>)
    ensures
        strs_view(r@) == strs_view(v@),
{
    let mut r: Vec<String> = Vec::new();
    let mut i: usize = 0;
    while i < v.len()
        invariant
            i <= v.len(),
            strs_view(r@) == strs_view(v@.take(i as int)),
        decreases v.len() - i,
    {
        let c = v[i].clone();
        assert(c@ == v@[i as int]@);
        let ghost before = strs_view(r@);
        r.push(c);
        proof {
            assert(strs_view(r@) =~= before.push(c@));
            assert(strs_view(v@.take(i + 1)) =~= strs_view(v@.take(i as int)).push(c@));
        }
        i = i + 1;
    }
    proof {
        assert(v@.take(v.len() as int) =~= v@);
    }
    r
}

/// A stored credential: metadata plus named secret fields.
pub struct Entry {
    /// Random 16-hex-char identifier, stable across renames.
    pub id: String,
    /// Unique handle used to address the entry (case-insensitive).
    pub name: String,
    pub service: String,
    pub username: Option<String>,
    pub url: Option<String>,
    /// Free text, often sourced from the web: treated as UNTRUSTED on display.
    pub notes: Option<String>,
    pub tags: Vec<String>,
    /// Locked entries refuse secret egress without confirmation.
    pub locked: bool,
    pub created_at: Timestamp,
    pub updated_at: Timestamp,
    /// All secret material lives here; everything above is metadata.
    pub secrets: SecretMap,
}

/// The redaction boundary: an entry's metadata and the names of its secret
/// fields. It has no field that could hold a secret value.
#[derive(Clone, Debug, PartialEq, Eq)]
pub struct EntryView {
    pub name: String,
    pub service: String,
    pub username: Option<String>,
    pub url: Option<String>,
    pub notes: Option<String>,
    pub tags: Vec<String>,
    pub locked: bool,
    pub created_at: String,
    pub updated_at: String,
    /// Names of the secret fields present on the entry, never their values.
    pub secret_fields: Vec<String>,
}

/// The decrypted contents of a vault.
pub struct VaultPayload {
    pub schema: u32,
    pub entries: Vec<Entry>,
}

impl Default for VaultPayload {
    fn default() -> (p: VaultPayload)
        ensures
            p.schema == 0,
            p.entries@.len() == 0,
    {
        VaultPayload { schema: 0, entries: Vec::new() }
    }
}

/// The text a timestamp displays as: its RFC 3339 form, or `?` when it has none.
pub open spec fn ts_text(t: Timestamp) -> Seq<char> {
    match rfc3339_text(t.unix_nanos as int, t.offset_seconds as int) {
        Some(s) => s,
        None => "?"@,
    }
}

pub fn format_ts(ts: Timestamp) -> (s: String)
    ensures
        s@ == ts_text(ts),
{
    match format_rfc3339(ts) {
        Some(s) => s,
        None => "?".to_owned(),
    }
}

/// Whether `id` is the text `new_id` produces: 8 random bytes in lower-case hex.
pub open spec fn is_entry_id(id: Seq<char>) -> bool {
    exists|b: Seq<u8>| b.len() == 8 && id == hex_lower(b)
}

/// A fresh random identifier: 8 bytes from the OS random source, as 16
/// lower-case hex digits.
pub fn new_id() -> (r: Result<String>)
    ensures
        r matches Ok(id) ==> is_entry_id(id@),
        r matches Err(e) ==> (e matches JingleError::Other(m) && m@ == "OS randomness unavailable"@),
{
    let mut bytes: Vec<u8> = vec![0u8, 0u8, 0u8, 0u8, 0u8, 0u8, 0u8, 0u8];
    match fill_random(&mut bytes) {
        Ok(()) => {
            let s = hex_string(bytes.as_slice());
            assert(bytes@.len() == 8 && s@ == hex_lower(bytes@));
            Ok(s)
        },
        Err(_) => Err(JingleError::Other("OS randomness unavailable".to_owned())),
    }
}

impl Entry {
    /// A new entry named `name` with no metadata and no secrets, a fresh id,
    /// and both timestamps set to now.
    pub fn new(name: String) -> (r: Result<Entry>)
        ensures
            r matches Ok(e) ==> {
                &&& e.name@ == name@
                &&& is_entry_id(e.id@)
                &&& e.service@ == Seq::<char>::empty()
                &&& e.username is None
                &&& e.url is None
                &&& e.notes is None
                &&& e.tags@.len() == 0
                &&& !e.locked
                &&& e.created_at == e.updated_at
                &&& e.created_at.offset_seconds == 0
                &&& e.secrets@ == Map::<Seq<char>, Seq<char>>::empty()
            },
            r matches Err(e) ==> (e matches JingleError::Other(m) && m@ == "OS randomness unavailable"@),
    {
        let id = new_id()?;
        let now = now_utc();
        Ok(
            Entry {
                id,
                name,
                service: String::new(),
                username: None,
                url: None,
                notes: None,
                tags: Vec::new(),
                locked: false,
                created_at: now,
                updated_at: now,
                secrets: SecretMap::new(),
            },
        )
    }

    /// Record a modification: `updated_at` becomes now, all else is kept.
    pub fn touch(&mut self)
        ensures
            final(self).updated_at.offset_seconds == 0,
            final(self).id == old(self).id,
            final(self).name == old(self).name,
            final(self).service == old(self).service,
            final(self).username == old(self).username,
            final(self).url == old(self).url,
            final(self).notes == old(self).notes,
            final(self).tags == old(self).tags,
            final(self).locked == old(self).locked,
            final(self).created_at == old(self).created_at,
            final(self).secrets == old(self).secrets,
    {
        self.updated_at = now_utc();
    }

    /// The secret field `field`, or `FieldNotFound` naming the entry and field.
    pub fn secret(&self, field: &str) -> (r: Result<&SecretString>)
        ensures
            r is Ok == self.secrets@.dom().contains(field@),
            r matches Ok(s) ==> s@ == self.secrets@[field@],
            r matches Err(e) ==> (e matches JingleError::FieldNotFound { entry, field: f } && entry@
                == self.name@ && f@ == field@),
    {
        match self.secrets.get(field) {
            Some(s) => Ok(s),
            None => Err(JingleError::FieldNotFound { entry: self.name.clone(), field: field.to_owned() }),
        }
    }

    /// The redacted view: all metadata, timestamps as text, and the secret
    /// field names in ascending order.
    pub fn view(&self) -> (v: EntryView)
        ensures
            view_of(*self, v),
    {
        EntryView {
            name: self.name.clone(),
            service: self.service.clone(),
            username: clone_opt(&self.username),
            url: clone_opt(&self.url),
            notes: clone_opt(&self.notes),
            tags: clone_strs(&self.tags),
            locked: self.locked,
            created_at: format_ts(self.created_at),
            updated_at: format_ts(self.updated_at),
            secret_fields: self.secrets.keys(),
        }
    }
}

/// What a view holds, field by field, as text.
pub type ViewModel = (
    Seq<char>,
    Seq<char>,
    Option<Seq<char>>,
    Option<Seq<char>>,
    Option<Seq<char>>,
    Seq<Seq<char>>,
    bool,
    Seq<char>,
    Seq<char>,
    Seq<Seq<char>>,
);

pub open spec fn view_model(v: EntryView) -> ViewModel {
    (
        v.name@,
        v.service@,
        opt_view(v.username),
        opt_view(v.url),
        opt_view(v.notes),
        strs_view(v.tags@),
        v.locked,
        v.created_at@,
        v.updated_at@,
        strs_view(v.secret_fields@),
    )
}

/// The view an entry has: its metadata, its timestamps as text, and the
/// names (never the values) of its secret fields in ascending order.
pub open spec fn entry_model(e: Entry) -> ViewModel {
    (
        e.name@,
        e.service@,
        opt_view(e.username),
        opt_view(e.url),
        opt_view(e.notes),
        strs_view(e.tags@),
        e.locked,
        ts_text(e.created_at),
        ts_text(e.updated_at),
        sorted_names(e.secrets@.dom()),
    )
}

/// `v` is the redacted view of `e`.
pub open spec fn view_of(e: Entry, v: EntryView) -> bool {
    view_model(v) == entry_model(e)
}

/// Characters allowed in entry names: ASCII letters and digits and `. _ - @ / +`.
pub open spec fn entry_name_char(c: char) -> bool {
    is_alnum(c) || c == '.' || c == '_' || c == '-' || c == '@' || c == '/' || c == '+'
}

/// Characters allowed in field names: ASCII letters and digits and `. _ -`.
pub open spec fn field_name_char(c: char) -> bool {
    is_alnum(c) || c == '.' || c == '_' || c == '-'
}

fn all_chars(s: &str, entry: bool) -> (r: bool)
    ensures
        r == forall|i: int|
            0 <= i < s@.len() ==> if entry {
                entry_name_char(#[trigger] s@[i])
            } else {
                field_name_char(s@[i])
            },
{
    let cs = chars_of(s);
    let mut i: usize = 0;
    while i < cs.len()
        invariant
            cs@ == s@,
            i <= cs.len(),
            forall|j: int|
                0 <= j < i ==> if entry {
                    entry_name_char(#[trigger] s@[j])
                } else {
                    field_name_char(s@[j])
                },
        decreases cs.len() - i,
    {
        let c = cs[i];
        let ok = is_alnum_char(c) || c == '.' || c == '_' || c == '-' || (entry && (c == '@'
            || c == '/' || c == '+'));
        if !ok {
            return false;
        }
        i = i + 1;
    }
    true
}

/// Why `name` is not an acceptable entry name, if it is not: it must be 1
/// to 128 bytes, must not start with `__` (reserved), and may only hold
/// `A-Z a-z 0-9 . _ - @ / +` (so never `:`, `=` or whitespace, which separate
/// handles in CLI arguments and env-mapping specs).
pub open spec fn entry_name_problem(name: Seq<char>) -> Option<Seq<char>> {
    if name.len() == 0 || encode_utf8(name).len() as usize > 128 {
        Some("entry name must be 1..=128 characters"@)
    } else if name.len() >= 2 && name[0] == '_' && name[1] == '_' {
        Some("entry names starting with '__' are reserved"@)
    } else if !(forall|i: int| 0 <= i < name.len() ==> entry_name_char(#[trigger] name[i])) {
        Some(
            "invalid entry name '"@ + sanitized(name, false)
                + "': allowed characters are A-Z a-z 0-9 . _ - @ / +"@,
        )
    } else {
        None
    }
}

/// Why `field` is not an acceptable secret field name, if it is not: 1 to
/// 64 bytes from `A-Z a-z 0-9 . _ -`.
pub open spec fn field_name_problem(field: Seq<char>) -> Option<Seq<char>> {
    if field.len() == 0 || encode_utf8(field).len() as usize > 64 {
        Some("field name must be 1..=64 characters"@)
    } else if !(forall|i: int| 0 <= i < field.len() ==> field_name_char(#[trigger] field[i])) {
        Some(
            "invalid field name '"@ + sanitized(field, false)
                + "': allowed characters are A-Z a-z 0-9 . _ -"@,
        )
    } else {
        None
    }
}

/// A result of the library that is `Ok` exactly when `problem` is `None`,
/// and otherwise the usage error with that message.
pub open spec fn usage_unless(r: Result<()>, problem: Option<Seq<char>>) -> bool {
    match problem {
        None => r is Ok,
        Some(m) => r matches Err(JingleError::Usage(x)) && x@ == m,
    }
}

/// Check an entry name (see `entry_name_problem`).
pub fn validate_entry_name(name: &str) -> (r: Result<()>)
    ensures
        usage_unless(r, entry_name_problem(name@)),
{
    if name.is_empty() || name.len() > 128 {
        return Err(JingleError::Usage("entry name must be 1..=128 characters".to_owned()));
    }
    let cs = chars_of(name);
    if cs.len() >= 2 && cs[0] == '_' && cs[1] == '_' {
        return Err(JingleError::Usage("entry names starting with '__' are reserved".to_owned()));
    }
    if !all_chars(name, true) {
        let a = concat("invalid entry name '", sanitize(name).as_str());
        let m = concat(a.as_str(), "': allowed characters are A-Z a-z 0-9 . _ - @ / +");
        return Err(JingleError::Usage(m));
    }
    Ok(())
}

/// Check a secret field name (see `field_name_problem`).
pub fn validate_field_name(field: &str) -> (r: Result<()>)
    ensures
        usage_unless(r, field_name_problem(field@)),
{
    if field.is_empty() || field.len() > 64 {
        return Err(JingleError::Usage("field name must be 1..=64 characters".to_owned()));
    }
    if !all_chars(field, false) {
        let a = concat("invalid field name '", sanitize(field).as_str());
        let m = concat(a.as_str(), "': allowed characters are A-Z a-z 0-9 . _ -");
        return Err(JingleError::Usage(m));
    }
    Ok(())
}

/// The redacted view of an entry does not depend on the values of its
/// secrets: two entries with the same metadata and the same secret field
/// names have exactly the same views.
pub proof fn law_view_ignores_secret_values(a: Entry, b: Entry, v: EntryView)
    requires
        a.name == b.name,
        a.service == b.service,
        a.username == b.username,
        a.url == b.url,
        a.notes == b.notes,
        a.tags == b.tags,
        a.locked == b.locked,
        a.created_at == b.created_at,
        a.updated_at == b.updated_at,
        a.secrets@.dom() == b.secrets@.dom(),
    ensures
        view_of(a, v) == view_of(b, v),
{
}

} // verus!
