//! The volume lifecycle: label and option parsing, the record store, and
//! the decisions taken around creating, inspecting and removing a volume.
//!
//! Filesystem work (creating and canonicalizing directories, reading link
//! metadata, deleting a tree) happens outside; its results come in as plain
//! values and every decision about them is made here.

use vstd::prelude::*;
use vstd::utf8::{decode_utf8, valid_utf8};
use crate::validation::{
    check_not_symlink, is_within_bytes, path_to_string, resource_name_ok, validate_resource_name,
    within_dir, LinkStatus, ValidationError,
};

verus! {

/// The volume subcommands and their already-parsed arguments.
#[derive(Debug, Clone)]
pub enum VolumeCommands {
    /// Create a volume.
    Create { name: String, driver: String, label: Vec<String>, opt: Vec<String> },
    /// List volumes.
    Ls { quiet: bool, filter: Option<String> },
    /// Remove a volume.
    Rm { volume: String, force: bool },
    /// Show volume details.
    Inspect { volume: String },
    /// Remove unused volumes.
    Prune { all: bool, force: bool },
}

/// Why a volume operation failed.
#[derive(Debug, Clone, PartialEq, Eq)]
pub enum VolumeError {
    /// The volume name broke the identifier rules.
    InvalidName(ValidationError),
    /// The canonical mountpoint lies outside the canonical volumes directory.
    MountpointEscaped,
    /// The canonical mountpoint is not valid UTF-8.
    InvalidMountpoint(ValidationError),
    /// The stored mountpoint is a symbolic link.
    Symlink(ValidationError),
    /// A path could not be canonicalized.
    UnresolvablePath,
    /// A volume of that name exists already.
    AlreadyExists,
    /// A volume with that id exists already.
    DuplicateId,
    /// No volume of that name (or id) exists.
    NotFound,
}

/// The index of the first `=` in `s`.
pub open spec fn first_eq(s: Seq<char>, i: int) -> bool {
    0 <= i < s.len() && s[i] == '=' && forall|j: int| 0 <= j < i ==> s[j] != '='
}

/// A `key=value` token split at its first `=`; `None` where it holds none.
pub open spec fn token_pair(s: Seq<char>) -> Option<(Seq<char>, Seq<char>)> {
    if exists|i: int| first_eq(s, i) {
        let i = choose|i: int| first_eq(s, i);
        Some((s.subrange(0, i), s.subrange(i + 1, s.len() as int)))
    } else {
        None
    }
}

/// The pairs of the well-formed tokens of `ts`, in order; tokens without
/// `=` are dropped.
pub open spec fn kv_pairs(ts: Seq<Seq<char>>) -> Seq<(Seq<char>, Seq<char>)>
    decreases ts.len(),
{
    if ts.len() == 0 {
        seq![]
    } else {
        let rest = kv_pairs(ts.drop_last());
        match token_pair(ts.last()) {
            Some(p) => rest.push(p),
            None => rest,
        }
    }
}

/// The text of each string.
pub open spec fn string_views(v: Seq<String>) -> Seq<Seq<char>> {
    v.map_values(|s: String| s@)
}

/// The text of each key and value.
pub open spec fn pair_views(v: Seq<(String, String)>) -> Seq<(Seq<char>, Seq<char>)> {
    v.map_values(|p: (String, String)| (p.0@, p.1@))
}

/// The text of an optional string.
pub open spec fn opt_view(o: Option<String>) -> Option<Seq<char>> {
    match o {
        Some(s) => Some(s@),
        None => None,
    }
}

proof fn lemma_first_eq_unique(s: Seq<char>, i: int, k: int)
    requires
        first_eq(s, i),
        first_eq(s, k),
    ensures
        i == k,
{
    if k < i {
        assert(s[k] != '=');
    } else if i < k {
        assert(s[i] != '=');
    }
}

/// Split a `key=value` token at its first `=`.
pub fn split_token(t: &str) -> (r: Option<(String, String)>)
    ensures
        match r {
            Some(p) => token_pair(t@) == Some((p.0@, p.1@)),
            None => token_pair(t@) is None,
        },
{
    let n = t.unicode_len();
    let mut i: usize = 0;
    while i < n
        invariant
            n == t@.len(),
            i <= n,
            forall|j: int| 0 <= j < i ==> t@[j] != '=',
        decreases n - i,
    {
        if t.get_char(i) == '=' {
            assert(first_eq(t@, i as int));
            proof {
                let k = choose|k: int| first_eq(t@, k);
                lemma_first_eq_unique(t@, i as int, k);
            }
            let key = String::from_str(t.substring_char(0, i));
            let value = String::from_str(t.substring_char(i + 1, n));
            return Some((key, value));
        }
        i = i + 1;
    }
    assert(!exists|k: int| first_eq(t@, k));
    None
}

/// Parse `key=value` tokens into pairs, in order, silently dropping tokens
/// that hold no `=`.
pub fn parse_key_values(tokens: &Vec<String>) -> (r: Vec<(String, String)>)
    ensures
        pair_views(r@) == kv_pairs(string_views(tokens@)),
{
    let mut out: Vec<(String, String)> = Vec::new();
    let mut i: usize = 0;
    while i < tokens.len()
        invariant
            i <= tokens@.len(),
            pair_views(out@) == kv_pairs(string_views(tokens@).subrange(0, i as int)),
        decreases tokens@.len() - i,
    {
        let ghost pre = string_views(tokens@).subrange(0, i as int);
        let ghost next = string_views(tokens@).subrange(0, i + 1);
        assert(next.drop_last() =~= pre);
        assert(next.last() == tokens@[i as int]@);
        match split_token(tokens[i].as_str()) {
            Some(p) => {
                let ghost before = out@;
                let ghost pv = (p.0@, p.1@);
                out.push(p);
                assert(pair_views(out@) =~= pair_views(before).push(pv));
            },
            None => {},
        }
        i = i + 1;
    }
    assert(string_views(tokens@).subrange(0, tokens@.len() as int) =~= string_views(tokens@));
    out
}

/// No token of `ts` holds `=`.
pub open spec fn all_malformed(ts: Seq<Seq<char>>) -> bool {
    forall|i: int, j: int| 0 <= i < ts.len() && 0 <= j < ts[i].len() ==> #[trigger] ts[i][j] != '='
}

/// Tokens without `=` are dropped without error: a list made of them alone
/// parses to no pairs at all.
pub proof fn lemma_malformed_tokens_dropped(ts: Seq<Seq<char>>)
    requires
        all_malformed(ts),
    ensures
        kv_pairs(ts) == Seq::<(Seq<char>, Seq<char>)>::empty(),
    decreases ts.len(),
{
    if ts.len() > 0 {
        let last = ts.last();
        assert(all_malformed(ts.drop_last())) by {
            assert forall|i: int, j: int|
                0 <= i < ts.drop_last().len() && 0 <= j < ts.drop_last()[i].len() implies #[trigger] ts.drop_last()[i][j]
                != '=' by {
                assert(ts.drop_last()[i] == ts[i]);
            }
        }
        lemma_malformed_tokens_dropped(ts.drop_last());
        assert forall|k: int| !first_eq(last, k) by {
            if 0 <= k < last.len() {
                assert(ts[ts.len() - 1][k] != '=');
            }
        }
    }
}

/// The JSON text of the object that holds `pairs`, a later pair replacing
/// an earlier one with the same key.
pub uninterp spec fn json_object_text(pairs: Seq<(Seq<char>, Seq<char>)>) -> Seq<char>;

/// The string pairs of the JSON object that `text` holds, in key order;
/// `None` where `text` is not a JSON object of strings.
pub uninterp spec fn json_object_pairs(text: Seq<char>) -> Option<Seq<(Seq<char>, Seq<char>)>>;

/// Relies on `serde_json`: collecting the pairs into a `serde_json::Map`
/// (later keys replace earlier ones) and `serde_json::to_string`, whose
/// text depends on the pairs alone. Serializing a map of string keys and
/// string values into memory does not fail.
#[verifier::external_body]
fn encode_object(pairs: &Vec<(String, String)>) -> (r: Option<String>)
    ensures
        r is Some,
        r matches Some(t) ==> t@ == json_object_text(pair_views(pairs@)),
{
    let m: serde_json::Map<String, serde_json::Value> = pairs.iter().map(
        |p| (p.0.clone(), serde_json::Value::String(p.1.clone())),
    ).collect();
    serde_json::to_string(&m).ok()
}

/// Relies on `serde_json::from_str` into a `BTreeMap<String, String>`: it
/// fails on anything but a JSON object of strings, and the entries come
/// out in key order.
#[verifier::external_body]
fn decode_object(text: &str) -> (r: Option<Vec<(String, String)>>)
    ensures
        match r {
            Some(v) => json_object_pairs(text@) == Some(pair_views(v@)),
            None => json_object_pairs(text@) is None,
        },
{
    serde_json::from_str::<std::collections::BTreeMap<String, String>>(text).ok().map(
        |m| m.into_iter().collect(),
    )
}

/// Relies on `uuid::Uuid::new_v4` and its hyphenated text form: a fresh
/// random identifier, about which nothing else is promised.
#[verifier::external_body]
fn fresh_volume_id() -> (r: String) {
    uuid::Uuid::new_v4().to_string()
}

/// What is stored for a list of `key=value` tokens: nothing for an empty
/// list, else the JSON object of its well-formed pairs.
pub open spec fn stored_text(tokens: Seq<String>) -> Option<Seq<char>> {
    if tokens.len() == 0 {
        None
    } else {
        Some(json_object_text(kv_pairs(string_views(tokens))))
    }
}

/// Serialize `key=value` tokens for storage; an empty list stores nothing.
pub fn tokens_to_json(tokens: &Vec<String>) -> (r: Option<String>)
    ensures
        opt_view(r) == stored_text(tokens@),
        tokens@.len() > 0 ==> (r matches Some(t) && t@ == json_object_text(
            kv_pairs(string_views(tokens@)),
        )),
{
    if tokens.len() == 0 {
        return None;
    }
    let pairs = parse_key_values(tokens);
    encode_object(&pairs)
}

/// The pairs shown for stored text: those of the JSON object it holds, or
/// none where nothing is stored or the text does not parse.
pub open spec fn shown_pairs(text: Option<Seq<char>>) -> Seq<(Seq<char>, Seq<char>)> {
    match text {
        Some(t) => match json_object_pairs(t) {
            Some(p) => p,
            None => seq![],
        },
        None => seq![],
    }
}

/// Read stored labels or options back leniently: missing or unparsable text
/// gives no pairs rather than an error.
pub fn stored_pairs(text: &Option<String>) -> (r: Vec<(String, String)>)
    ensures
        pair_views(r@) == shown_pairs(opt_view(*text)),
{
    match text {
        Some(t) => match decode_object(t.as_str()) {
            Some(v) => v,
            None => {
                let r: Vec<(String, String)> = Vec::new();
                assert(pair_views(r@) =~= seq![]);
                r
            },
        },
        None => {
            let r: Vec<(String, String)> = Vec::new();
            assert(pair_views(r@) =~= seq![]);
            r
        },
    }
}

/// A volume's durable record.
#[derive(Debug, Clone, PartialEq, Eq)]
pub struct VolumeRecord {
    pub id: String,
    pub name: String,
    pub driver: String,
    pub mountpoint: String,
    pub options: Option<String>,
    pub labels: Option<String>,
    pub created_at: u64,
}

fn copy_text(o: &Option<String>) -> (r: Option<String>)
    ensures
        r == *o,
{
    match o {
        Some(s) => Some(s.clone()),
        None => None,
    }
}

impl VolumeRecord {
    /// A field-for-field copy.
    pub fn duplicate(&self) -> (r: VolumeRecord)
        ensures
            r == *self,
    {
        VolumeRecord {
            id: self.id.clone(),
            name: self.name.clone(),
            driver: self.driver.clone(),
            mountpoint: self.mountpoint.clone(),
            options: copy_text(&self.options),
            labels: copy_text(&self.labels),
            created_at: self.created_at,
        }
    }
}

/// Some record of `recs` is named `name`.
pub open spec fn has_name(recs: Seq<VolumeRecord>, name: Seq<char>) -> bool {
    exists|i: int| 0 <= i < recs.len() && (#[trigger] recs[i]).name@ == name
}

/// Some record of `recs` has id `id`.
pub open spec fn has_id(recs: Seq<VolumeRecord>, id: Seq<char>) -> bool {
    exists|i: int| 0 <= i < recs.len() && (#[trigger] recs[i]).id@ == id
}

/// No two records share a name or an id.
pub open spec fn records_unique(recs: Seq<VolumeRecord>) -> bool {
    forall|i: int, j: int|
        0 <= i < recs.len() && 0 <= j < recs.len() && i != j ==> (#[trigger] recs[i]).name@
            != (#[trigger] recs[j]).name@ && recs[i].id@ != recs[j].id@
}

/// The position of the record named `name`.
pub open spec fn name_index(recs: Seq<VolumeRecord>, name: Seq<char>) -> int {
    choose|i: int| 0 <= i < recs.len() && (#[trigger] recs[i]).name@ == name
}

/// The position of the record with id `id`.
pub open spec fn id_index(recs: Seq<VolumeRecord>, id: Seq<char>) -> int {
    choose|i: int| 0 <= i < recs.len() && (#[trigger] recs[i]).id@ == id
}

/// The record named `name`, if any.
pub open spec fn find_named(recs: Seq<VolumeRecord>, name: Seq<char>) -> Option<VolumeRecord> {
    if has_name(recs, name) {
        Some(recs[name_index(recs, name)])
    } else {
        None
    }
}

/// The durable store of volume records, keyed by name and by id.
pub struct VolumeStore {
    records: Vec<VolumeRecord>,
}

impl View for VolumeStore {
    type V = Seq<VolumeRecord>;

    closed spec fn view(&self) -> Seq<VolumeRecord> {
        self.records@
    }
}

fn same_text(a: &str, b: &str) -> (r: bool)
    ensures
        r == (a@ == b@),
{
    let n = a.unicode_len();
    if n != b.unicode_len() {
        return false;
    }
    let mut i: usize = 0;
    while i < n
        invariant
            n == a@.len(),
            n == b@.len(),
            forall|j: int| 0 <= j < i ==> a@[j] == b@[j],
        decreases n - i,
    {
        if a.get_char(i) != b.get_char(i) {
            return false;
        }
        i = i + 1;
    }
    assert(a@ =~= b@);
    true
}

impl VolumeStore {
    /// The store's invariant: names and ids are unique.
    pub open spec fn wf(&self) -> bool {
        records_unique(self@)
    }

    /// An empty store.
    pub fn new() -> (r: VolumeStore)
        ensures
            r@ == Seq::<VolumeRecord>::empty(),
            r.wf(),
    {
        let r = VolumeStore { records: Vec::new() };
        assert(r@ =~= Seq::<VolumeRecord>::empty());
        r
    }

    /// The number of records.
    pub fn len(&self) -> (r: usize)
        ensures
            r == self@.len(),
    {
        self.records.len()
    }

    fn position_of_name(&self, name: &str) -> (r: Option<usize>)
        ensures
            r is None <==> !has_name(self@, name@),
            r matches Some(i) ==> i < self@.len() && self@[i as int].name@ == name@,
    {
        let mut i: usize = 0;
        while i < self.records.len()
            invariant
                i <= self@.len(),
                self@ == self.records@,
                forall|j: int| 0 <= j < i ==> (#[trigger] self@[j]).name@ != name@,
            decreases self@.len() - i,
        {
            if same_text(self.records[i].name.as_str(), name) {
                return Some(i);
            }
            i = i + 1;
        }
        None
    }

    fn position_of_id(&self, id: &str) -> (r: Option<usize>)
        ensures
            r is None <==> !has_id(self@, id@),
            r matches Some(i) ==> i < self@.len() && self@[i as int].id@ == id@,
    {
        let mut i: usize = 0;
        while i < self.records.len()
            invariant
                i <= self@.len(),
                self@ == self.records@,
                forall|j: int| 0 <= j < i ==> (#[trigger] self@[j]).id@ != id@,
            decreases self@.len() - i,
        {
            if same_text(self.records[i].id.as_str(), id) {
                return Some(i);
            }
            i = i + 1;
        }
        None
    }

    /// The record named `name`, or `NotFound`.
    pub fn get_volume(&self, name: &str) -> (r: Result<VolumeRecord, VolumeError>)
        requires
            self.wf(),
        ensures
            match r {
                Ok(rec) => find_named(self@, name@) == Some(rec),
                Err(e) => find_named(self@, name@) is None && e == VolumeError::NotFound,
            },
    {
        match self.position_of_name(name) {
            Some(i) => {
                proof {
                    let k = name_index(self@, name@);
                    assert(self@[k].name@ == self@[i as int].name@);
                }
                Ok(self.records[i].duplicate())
            },
            None => Err(VolumeError::NotFound),
        }
    }

    /// Insert a record; a name or an id already present is refused and the
    /// store is left as it was.
    pub fn insert_volume(&mut self, rec: VolumeRecord) -> (r: Result<(), VolumeError>)
        requires
            old(self).wf(),
        ensures
            final(self).wf(),
            has_name(old(self)@, rec.name@) ==> r == Err::<(), VolumeError>(
                VolumeError::AlreadyExists,
            ),
            !has_name(old(self)@, rec.name@) && has_id(old(self)@, rec.id@) ==> r == Err::<
                (),
                VolumeError,
            >(VolumeError::DuplicateId),
            r is Ok <==> !has_name(old(self)@, rec.name@) && !has_id(old(self)@, rec.id@),
            r is Ok ==> final(self)@ == old(self)@.push(rec),
            r is Err ==> final(self)@ == old(self)@,
    {
        if self.position_of_name(rec.name.as_str()).is_some() {
            return Err(VolumeError::AlreadyExists);
        }
        if self.position_of_id(rec.id.as_str()).is_some() {
            return Err(VolumeError::DuplicateId);
        }
        let ghost before = self@;
        self.records.push(rec);
        assert(records_unique(self@)) by {
            assert forall|i: int, j: int|
                0 <= i < self@.len() && 0 <= j < self@.len() && i != j implies (#[trigger] self@[i]).name@
                != (#[trigger] self@[j]).name@ && self@[i].id@ != self@[j].id@ by {
                if i < before.len() && j < before.len() {
                    assert(self@[i] == before[i] && self@[j] == before[j]);
                } else if i < before.len() {
                    assert(self@[i] == before[i]);
                } else {
                    assert(self@[j] == before[j]);
                }
            }
        }
        Ok(())
    }

    /// Delete the record with id `id`, or report `NotFound`.
    pub fn delete_volume(&mut self, id: &str) -> (r: Result<(), VolumeError>)
        requires
            old(self).wf(),
        ensures
            final(self).wf(),
            r is Ok <==> has_id(old(self)@, id@),
            r is Ok ==> final(self)@ == old(self)@.remove(id_index(old(self)@, id@)),
            r is Err ==> final(self)@ == old(self)@ && r == Err::<(), VolumeError>(
                VolumeError::NotFound,
            ),
    {
        match self.position_of_id(id) {
            Some(i) => {
                let ghost before = self@;
                proof {
                    let k = id_index(before, id@);
                    assert(before[k].id@ == before[i as int].id@);
                }
                self.records.remove(i);
                assert(records_unique(self@)) by {
                    assert forall|a: int, b: int|
                        0 <= a < self@.len() && 0 <= b < self@.len() && a != b implies (#[trigger] self@[a]).name@
                        != (#[trigger] self@[b]).name@ && self@[a].id@ != self@[b].id@ by {
                        let oa = if a < i { a } else { a + 1 };
                        let ob = if b < i { b } else { b + 1 };
                        assert(self@[a] == before[oa]);
                        assert(self@[b] == before[ob]);
                    }
                }
                Ok(())
            },
            None => Err(VolumeError::NotFound),
        }
    }

    /// Every record, in insertion order.
    pub fn list_volumes(&self) -> (r: Vec<VolumeRecord>)
        ensures
            r@ == self@,
    {
        let mut out: Vec<VolumeRecord> = Vec::new();
        let mut i: usize = 0;
        while i < self.records.len()
            invariant
                i <= self@.len(),
                self@ == self.records@,
                out@ == self@.subrange(0, i as int),
            decreases self@.len() - i,
        {
            out.push(self.records[i].duplicate());
            assert(out@ =~= self@.subrange(0, i + 1));
            i = i + 1;
        }
        assert(out@ =~= self@);
        out
    }
}

/// `rec` holds exactly these fields, its id aside.
pub open spec fn holds_volume(
    rec: VolumeRecord,
    name: Seq<char>,
    driver: Seq<char>,
    mountpoint: Seq<char>,
    options: Option<Seq<char>>,
    labels: Option<Seq<char>>,
    created_at: u64,
) -> bool {
    rec.name@ == name && rec.driver@ == driver && rec.mountpoint@ == mountpoint && opt_view(
        rec.options,
    ) == options && opt_view(rec.labels) == labels && rec.created_at == created_at
}

/// `base` joined with the relative component `seg`.
pub open spec fn join_path(base: Seq<char>, seg: Seq<char>) -> Seq<char> {
    if base.len() == 0 || base.last() == '/' {
        base + seg
    } else {
        base + "/"@ + seg
    }
}

fn join(base: &str, seg: &str) -> (r: String)
    ensures
        r@ == join_path(base@, seg@),
{
    let n = base.unicode_len();
    if n == 0 || base.get_char(n - 1) == '/' {
        String::from_str(base).concat(seg)
    } else {
        String::from_str(base).concat("/").concat(seg)
    }
}

/// Where a volume lives on disk.
#[derive(Debug, Clone)]
pub struct CreatePlan {
    /// `<root>/volumes`, the directory that holds every volume.
    pub volumes_dir: String,
    /// `<root>/volumes/<name>`, the volume's own directory.
    pub mountpoint: String,
}

/// Validate a new volume's name and compute its directories under `root`.
pub fn plan_create(root: &str, name: &str) -> (r: Result<CreatePlan, VolumeError>)
    ensures
        r is Ok <==> resource_name_ok(name@),
        r matches Ok(p) ==> p.volumes_dir@ == join_path(root@, "volumes"@) && p.mountpoint@
            == join_path(p.volumes_dir@, name@),
        r matches Err(e) ==> e is InvalidName,
{
    match validate_resource_name(name) {
        Err(e) => Err(VolumeError::InvalidName(e)),
        Ok(()) => {
            let volumes_dir = join(root, "volumes");
            let mountpoint = join(volumes_dir.as_str(), name);
            Ok(CreatePlan { volumes_dir, mountpoint })
        },
    }
}

/// Register a volume whose directory has been created and canonicalized.
///
/// The canonical mountpoint must lie inside the canonical volumes directory
/// and be UTF-8; the name and the id must be new to the store. On success
/// the record is appended with the canonical mountpoint as its text.
pub fn register_volume(
    store: &mut VolumeStore,
    id: String,
    name: &str,
    driver: &str,
    volumes_canonical: &[u8],
    mountpoint_canonical: &[u8],
    options_json: Option<String>,
    labels_json: Option<String>,
    created_at: u64,
) -> (r: Result<String, VolumeError>)
    requires
        old(store).wf(),
    ensures
        final(store).wf(),
        !within_dir(mountpoint_canonical@, volumes_canonical@, 47u8) ==> r == Err::<
            String,
            VolumeError,
        >(VolumeError::MountpointEscaped),
        within_dir(mountpoint_canonical@, volumes_canonical@, 47u8) && !valid_utf8(
            mountpoint_canonical@,
        ) ==> r matches Err(VolumeError::InvalidMountpoint(_)),
        within_dir(mountpoint_canonical@, volumes_canonical@, 47u8) && valid_utf8(
            mountpoint_canonical@,
        ) && has_name(old(store)@, name@) ==> r == Err::<String, VolumeError>(
            VolumeError::AlreadyExists,
        ),
        within_dir(mountpoint_canonical@, volumes_canonical@, 47u8) && valid_utf8(
            mountpoint_canonical@,
        ) && !has_name(old(store)@, name@) && has_id(old(store)@, id@) ==> r == Err::<
            String,
            VolumeError,
        >(VolumeError::DuplicateId),
        r is Ok <==> within_dir(mountpoint_canonical@, volumes_canonical@, 47u8) && valid_utf8(
            mountpoint_canonical@,
        ) && !has_name(old(store)@, name@) && !has_id(old(store)@, id@),
        r matches Ok(n) ==> n@ == name@ && final(store)@.len() == old(store)@.len() + 1
            && final(store)@.drop_last() == old(store)@ && final(store)@.last().id@ == id@
            && holds_volume(
            final(store)@.last(),
            name@,
            driver@,
            decode_utf8(mountpoint_canonical@),
            opt_view(options_json),
            opt_view(labels_json),
            created_at,
        ),
        r is Err ==> final(store)@ == old(store)@,
{
    if !is_within_bytes(mountpoint_canonical, volumes_canonical) {
        return Err(VolumeError::MountpointEscaped);
    }
    let mountpoint = match path_to_string(mountpoint_canonical) {
        Ok(m) => m,
        Err(e) => {
            return Err(VolumeError::InvalidMountpoint(e));
        },
    };
    let ghost id_view = id@;
    let rec = VolumeRecord {
        id,
        name: String::from_str(name),
        driver: String::from_str(driver),
        mountpoint,
        options: options_json,
        labels: labels_json,
        created_at,
    };
    let ghost before = store@;
    match store.insert_volume(rec) {
        Ok(()) => {
            assert(store@.drop_last() =~= before);
            Ok(String::from_str(name))
        },
        Err(e) => Err(e),
    }
}

/// Create a volume whose directory has been made and canonicalized.
///
/// In order: the name must pass the identifier rules, the canonical
/// mountpoint must lie inside the canonical volumes directory and be UTF-8,
/// and the name must be new; then labels and options are serialized, a
/// fresh id is drawn and the record is registered. Past those checks only a
/// drawn id that is already in use can make it fail.
pub fn create_volume(
    store: &mut VolumeStore,
    name: &str,
    driver: &str,
    labels: &Vec<String>,
    options: &Vec<String>,
    volumes_canonical: &[u8],
    mountpoint_canonical: &[u8],
    created_at: u64,
) -> (r: Result<String, VolumeError>)
    requires
        old(store).wf(),
    ensures
        final(store).wf(),
        r is Err ==> final(store)@ == old(store)@,
        !resource_name_ok(name@) ==> r matches Err(VolumeError::InvalidName(_)),
        resource_name_ok(name@) && !within_dir(mountpoint_canonical@, volumes_canonical@, 47u8)
            ==> r == Err::<String, VolumeError>(VolumeError::MountpointEscaped),
        resource_name_ok(name@) && within_dir(mountpoint_canonical@, volumes_canonical@, 47u8)
            && !valid_utf8(mountpoint_canonical@) ==> r matches Err(
            VolumeError::InvalidMountpoint(_),
        ),
        resource_name_ok(name@) && within_dir(mountpoint_canonical@, volumes_canonical@, 47u8)
            && valid_utf8(mountpoint_canonical@) && has_name(old(store)@, name@) ==> r == Err::<
            String,
            VolumeError,
        >(VolumeError::AlreadyExists),
        resource_name_ok(name@) && within_dir(mountpoint_canonical@, volumes_canonical@, 47u8)
            && valid_utf8(mountpoint_canonical@) && !has_name(old(store)@, name@) ==> r is Ok || (
        r == Err::<String, VolumeError>(VolumeError::DuplicateId) && old(store)@.len() > 0),
        r == Err::<String, VolumeError>(VolumeError::DuplicateId) ==> old(store)@.len() > 0,
        r matches Ok(n) ==> n@ == name@ && final(store)@.len() == old(store)@.len() + 1
            && final(store)@.drop_last() == old(store)@ && holds_volume(
            final(store)@.last(),
            name@,
            driver@,
            decode_utf8(mountpoint_canonical@),
            stored_text(options@),
            stored_text(labels@),
            created_at,
        ),
{
    if let Err(e) = validate_resource_name(name) {
        return Err(VolumeError::InvalidName(e));
    }
    if !is_within_bytes(mountpoint_canonical, volumes_canonical) {
        return Err(VolumeError::MountpointEscaped);
    }
    if let Err(e) = path_to_string(mountpoint_canonical) {
        return Err(VolumeError::InvalidMountpoint(e));
    }
    if store.get_volume(name).is_ok() {
        return Err(VolumeError::AlreadyExists);
    }
    let labels_json = tokens_to_json(labels);
    let options_json = tokens_to_json(options);
    let id = fresh_volume_id();
    register_volume(
        store,
        id,
        name,
        driver,
        volumes_canonical,
        mountpoint_canonical,
        options_json,
        labels_json,
        created_at,
    )
}

/// A volume just created is found under its name, with the record that
/// creation stored.
pub proof fn lemma_created_volume_found(recs: Seq<VolumeRecord>, rec: VolumeRecord)
    requires
        records_unique(recs),
        !has_name(recs, rec.name@),
    ensures
        find_named(recs.push(rec), rec.name@) == Some(rec),
{
    let all = recs.push(rec);
    assert(all[recs.len() as int] == rec);
    assert(has_name(all, rec.name@));
    let k = name_index(all, rec.name@);
    if k < recs.len() {
        assert(all[k] == recs[k]);
    }
}

/// Once a volume's record is stored its name is taken, so a second creation
/// under that name meets the `AlreadyExists` case of `create_volume`, which
/// leaves the store unchanged.
pub proof fn lemma_second_create_conflicts(recs: Seq<VolumeRecord>, rec: VolumeRecord)
    ensures
        has_name(recs.push(rec), rec.name@),
{
    assert(recs.push(rec)[recs.len() as int] == rec);
}

/// After a volume's record is deleted by its id, no record of that name is
/// left, so a later lookup reports `NotFound`.
pub proof fn lemma_removed_volume_not_found(recs: Seq<VolumeRecord>, name: Seq<char>)
    requires
        records_unique(recs),
        has_name(recs, name),
    ensures
        has_id(recs, recs[name_index(recs, name)].id@),
        find_named(recs.remove(id_index(recs, recs[name_index(recs, name)].id@)), name) is None,
{
    let i = name_index(recs, name);
    let id = recs[i].id@;
    assert(has_id(recs, id));
    let k = id_index(recs, id);
    assert(k == i);
    let rest = recs.remove(k);
    assert forall|j: int| 0 <= j < rest.len() implies (#[trigger] rest[j]).name@ != name by {
        let o = if j < k { j } else { j + 1 };
        assert(rest[j] == recs[o]);
    }
}

/// What the filesystem reported about a stored mountpoint before removal.
#[derive(Debug, Clone)]
pub struct RemovalProbe {
    /// Whether the mountpoint exists.
    pub mount_exists: bool,
    /// What a link-aware stat saw at the mountpoint.
    pub link: LinkStatus,
    /// Whether the volumes directory exists.
    pub volumes_exists: bool,
    /// The canonical volumes directory, `None` where canonicalization failed.
    pub volumes_canonical: Option<Vec<u8>>,
    /// The canonical mountpoint, `None` where canonicalization failed.
    pub mount_canonical: Option<Vec<u8>>,
}

/// Decide whether a volume's directory may be deleted: `Ok(true)` to delete
/// it, `Ok(false)` where there is nothing on disk, an error to abort the
/// removal with nothing deleted.
///
/// An existing mountpoint is refused if it is a symbolic link; where the
/// volumes directory exists, both are canonicalized and the mountpoint must
/// lie inside it.
pub fn removal_decision(mountpoint: &str, probe: &RemovalProbe) -> (r: Result<bool, VolumeError>)
    ensures
        !probe.mount_exists ==> r == Ok::<bool, VolumeError>(false),
        probe.mount_exists && probe.link == LinkStatus::Symlink ==> (r matches Err(
            VolumeError::Symlink(ValidationError::SymlinkNotAllowed(m)),
        ) && m@ == "Cannot operate on symlink: "@ + mountpoint@),
        probe.mount_exists && probe.link != LinkStatus::Symlink && !probe.volumes_exists ==> r
            == Ok::<bool, VolumeError>(true),
        probe.mount_exists && probe.link != LinkStatus::Symlink && probe.volumes_exists && (
        probe.volumes_canonical is None || probe.mount_canonical is None) ==> r == Err::<
            bool,
            VolumeError,
        >(VolumeError::UnresolvablePath),
        probe.mount_exists && probe.link != LinkStatus::Symlink && probe.volumes_exists
            && probe.volumes_canonical is Some && probe.mount_canonical is Some ==> r == if within_dir(
            probe.mount_canonical->Some_0@,
            probe.volumes_canonical->Some_0@,
            47u8,
        ) {
            Ok::<bool, VolumeError>(true)
        } else {
            Err::<bool, VolumeError>(VolumeError::MountpointEscaped)
        },
{
    if !probe.mount_exists {
        return Ok(false);
    }
    if let Err(e) = check_not_symlink(mountpoint, probe.link) {
        return Err(VolumeError::Symlink(e));
    }
    if probe.volumes_exists {
        match (&probe.volumes_canonical, &probe.mount_canonical) {
            (Some(v), Some(m)) => {
                if !is_within_bytes(m.as_slice(), v.as_slice()) {
                    return Err(VolumeError::MountpointEscaped);
                }
            },
            _ => {
                return Err(VolumeError::UnresolvablePath);
            },
        }
    }
    Ok(true)
}

/// A volume as shown by inspection.
#[derive(Debug, Clone)]
pub struct VolumeDetails {
    pub name: String,
    pub driver: String,
    pub mountpoint: String,
    pub labels: Vec<(String, String)>,
    pub options: Vec<(String, String)>,
    pub created_at: u64,
}

/// Look a volume up by name for display; stored labels and options are
/// read leniently, unparsable text showing as no pairs.
pub fn inspect_volume(store: &VolumeStore, name: &str) -> (r: Result<VolumeDetails, VolumeError>)
    requires
        store.wf(),
    ensures
        r is Ok <==> has_name(store@, name@),
        r matches Err(e) ==> e == VolumeError::NotFound,
        r matches Ok(d) ==> ({
            let rec = find_named(store@, name@)->Some_0;
            d.name == rec.name && d.driver == rec.driver && d.mountpoint == rec.mountpoint
                && d.created_at == rec.created_at && pair_views(d.labels@) == shown_pairs(
                opt_view(rec.labels),
            ) && pair_views(d.options@) == shown_pairs(opt_view(rec.options))
        }),
{
    let rec = store.get_volume(name)?;
    let labels = stored_pairs(&rec.labels);
    let options = stored_pairs(&rec.options);
    Ok(
        VolumeDetails {
            name: rec.name,
            driver: rec.driver,
            mountpoint: rec.mountpoint,
            labels,
            options,
            created_at: rec.created_at,
        },
    )
}

} // verus!
