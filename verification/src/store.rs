//! The local cache's rules: where a compiled source is kept, which stored
//! versions may be served, and when a save reuses, upgrades or refuses
//! what is already there.
use vstd::prelude::*;
use vstd::utf8::{decode_utf8, valid_utf8};

use crate::compile::{verify_compiled_source, verify_outcome};
use crate::evidence::{CompiledSource, CompiledSourceView};
use crate::provider::ytdlp::language_char;
use crate::source::{trim, trimmed, CanonicalSource, CanonicalSourceView};
use crate::text::{chars_eq, chars_of, decimal, push_decimal, push_str, string_of};

verus! {

broadcast use vstd::string::group_string_axioms;

/// The schema written today; it holds passage-level evidence.
pub const STORE_SCHEMA_VERSION: u32 = 2;

/// The schema that held fragment-level evidence: such an entry is
/// reacquired rather than served.
pub const LEGACY_SCHEMA_VERSION: u32 = 1;

/// The largest track pointer read.
pub const MAX_POINTER_BYTES: u64 = 128;

/// The largest stored source read.
pub const MAX_SOURCE_BYTES: u64 = 104_857_600;

/// What every content-addressed source version begins with.
pub const VERSION_PREFIX: &'static str = "source-v1:sha256:";

/// What the version of a source compiled from a fixture begins with.
pub const FIXTURE_VERSION_PREFIX: &'static str = "fixture-fnv1a64:";

/// Whether a save wrote a version or found it already there.
#[derive(Clone, Copy, Debug, PartialEq, Eq, Structural)]
pub enum SaveOutcome {
    NewVersion,
    ReusedVersion,
}

/// Why the cache refused a read or a write. Input and output failures
/// carry the failing stage and the system's message.
#[derive(Clone, Debug, PartialEq, Eq)]
pub enum StoreError {
    Io { stage: &'static str, detail: String },
    InvalidPointer,
    InvalidStoredSource,
    UnsupportedSchema(u32),
    Serialise(String),
    Persist(&'static str),
}

pub enum StoreErrorView {
    Io { stage: &'static str, detail: Seq<char> },
    InvalidPointer,
    InvalidStoredSource,
    UnsupportedSchema(u32),
    Serialise(Seq<char>),
    Persist(&'static str),
}

impl View for StoreError {
    type V = StoreErrorView;

    open spec fn view(&self) -> StoreErrorView {
        match self {
            StoreError::Io { stage, detail } => StoreErrorView::Io { stage: *stage, detail: detail@ },
            StoreError::InvalidPointer => StoreErrorView::InvalidPointer,
            StoreError::InvalidStoredSource => StoreErrorView::InvalidStoredSource,
            StoreError::UnsupportedSchema(v) => StoreErrorView::UnsupportedSchema(*v),
            StoreError::Serialise(d) => StoreErrorView::Serialise(d@),
            StoreError::Persist(a) => StoreErrorView::Persist(*a),
        }
    }
}

/// The reader-facing text of a cache error.
pub open spec fn store_error_text(e: StoreErrorView) -> Seq<char> {
    match e {
        StoreErrorView::Io { stage, detail } => stage@ + " failed: "@ + detail,
        StoreErrorView::InvalidPointer => "cache pointer is invalid"@,
        StoreErrorView::InvalidStoredSource => "cached source failed integrity validation"@,
        StoreErrorView::UnsupportedSchema(v) => "cache schema version "@ + decimal(v as nat)
            + " is unsupported"@,
        StoreErrorView::Serialise(d) => "serialising cached source failed: "@ + d,
        StoreErrorView::Persist(a) => "persisting cache "@ + a@ + " failed"@,
    }
}

impl StoreError {
    /// What went wrong, for a reader.
    pub fn message(&self) -> (r: String)
        ensures
            r@ == store_error_text(self@),
    {
        let mut out: Vec<char> = Vec::new();
        match self {
            StoreError::Io { stage, detail } => {
                push_str(&mut out, stage);
                push_str(&mut out, " failed: ");
                push_str(&mut out, detail.as_str());
            },
            StoreError::InvalidPointer => {
                push_str(&mut out, "cache pointer is invalid");
            },
            StoreError::InvalidStoredSource => {
                push_str(&mut out, "cached source failed integrity validation");
            },
            StoreError::UnsupportedSchema(v) => {
                push_str(&mut out, "cache schema version ");
                push_decimal(&mut out, *v as u64);
                push_str(&mut out, " is unsupported");
            },
            StoreError::Serialise(d) => {
                push_str(&mut out, "serialising cached source failed: ");
                push_str(&mut out, d.as_str());
            },
            StoreError::Persist(a) => {
                push_str(&mut out, "persisting cache ");
                push_str(&mut out, a);
                push_str(&mut out, " failed");
            },
        }
        assert(out@ =~= store_error_text(self@));
        string_of(&out)
    }
}

/// The text that bytes encode, when they are UTF-8 (`std::str::from_utf8`).
#[verifier::external_body]
fn utf8_text(bytes: &[u8]) -> (r: Option<String>)
    ensures
        r is Some <==> valid_utf8(bytes@),
        r matches Some(s) ==> s@ == decode_utf8(bytes@),
{
    match std::str::from_utf8(bytes) {
        Ok(s) => Some(s.to_owned()),
        Err(_) => None,
    }
}

pub open spec fn is_hex_lower(c: char) -> bool {
    ('0' <= c <= '9') || ('a' <= c <= 'f')
}

/// A digest as the cache names it: 64 lowercase hexadecimal digits for a
/// compiled source's SHA-256 version, 16 for a fixture's version.
pub open spec fn is_digest_spec(s: Seq<char>) -> bool {
    &&& (s.len() == 64 || s.len() == 16)
    &&& forall|i: int| 0 <= i < s.len() ==> is_hex_lower(#[trigger] s[i])
}

/// Whether `value` is a digest.
pub fn is_digest(value: &str) -> (r: bool)
    ensures
        r == is_digest_spec(value@),
{
    let cs = chars_of(value);
    if cs.len() != 64 && cs.len() != 16 {
        return false;
    }
    let mut i: usize = 0;
    while i < cs.len()
        invariant
            i <= cs.len(),
            cs@ == value@,
            forall|k: int| 0 <= k < i ==> is_hex_lower(#[trigger] cs@[k]),
        decreases cs.len() - i,
    {
        let c = cs[i];
        if !(('0' <= c && c <= '9') || ('a' <= c && c <= 'f')) {
            return false;
        }
        i = i + 1;
    }
    true
}

/// `s` after `p`, when it begins with `p`.
pub open spec fn after_prefix(s: Seq<char>, p: Seq<char>) -> Option<Seq<char>> {
    if p.len() <= s.len() && s.take(p.len() as int) == p {
        Some(s.skip(p.len() as int))
    } else {
        None
    }
}

/// The digest a source version names: the 64 digits after the compiled
/// version's prefix, or the 16 after a fixture version's.
pub open spec fn version_digest_spec(version: Seq<char>) -> Option<Seq<char>> {
    match after_prefix(version, VERSION_PREFIX@) {
        Some(d) => if d.len() == 64 && is_digest_spec(d) {
            Some(d)
        } else {
            None
        },
        None => match after_prefix(version, FIXTURE_VERSION_PREFIX@) {
            Some(d) => if d.len() == 16 && is_digest_spec(d) {
                Some(d)
            } else {
                None
            },
            None => None,
        },
    }
}

fn strip_prefix_chars(s: &Vec<char>, p: &str) -> (r: Option<Vec<char>>)
    ensures
        match after_prefix(s@, p@) {
            Some(d) => r matches Some(x) && x@ == d,
            None => r is None,
        },
{
    let pc = chars_of(p);
    if pc.len() > s.len() {
        return None;
    }
    let mut i: usize = 0;
    while i < pc.len()
        invariant
            i <= pc.len() <= s.len(),
            pc@ == p@,
            forall|k: int| 0 <= k < i ==> s@[k] == pc@[k],
        decreases pc.len() - i,
    {
        if s[i] != pc[i] {
            assert(s@.take(pc.len() as int)[i as int] != pc@[i as int]);
            return None;
        }
        i = i + 1;
    }
    assert(s@.take(pc.len() as int) =~= pc@);
    let mut rest: Vec<char> = Vec::new();
    let mut j: usize = pc.len();
    while j < s.len()
        invariant
            pc.len() <= j <= s.len(),
            rest@ == s@.subrange(pc.len() as int, j as int),
        decreases s.len() - j,
    {
        rest.push(s[j]);
        j = j + 1;
        assert(rest@ =~= s@.subrange(pc.len() as int, j as int));
    }
    assert(rest@ =~= s@.skip(pc.len() as int));
    Some(rest)
}

/// The digest of a source version.
pub fn version_digest(version: &str) -> (r: Option<String>)
    ensures
        opt_text(r) == version_digest_spec(version@),
{
    let v = chars_of(version);
    match strip_prefix_chars(&v, VERSION_PREFIX) {
        Some(d) => {
            let digest = string_of(&d);
            if d.len() == 64 && is_digest(digest.as_str()) {
                Some(digest)
            } else {
                None
            }
        },
        None => match strip_prefix_chars(&v, FIXTURE_VERSION_PREFIX) {
            Some(d) => {
                let digest = string_of(&d);
                if d.len() == 16 && is_digest(digest.as_str()) {
                    Some(digest)
                } else {
                    None
                }
            },
            None => None,
        },
    }
}

pub open spec fn opt_text(o: Option<String>) -> Option<Seq<char>> {
    match o {
        Some(s) => Some(s@),
        None => None,
    }
}

/// The digest a track pointer file names: its UTF-8 text, trimmed, must
/// be a digest.
pub open spec fn pointer_digest_spec(bytes: Seq<u8>) -> Result<Seq<char>, StoreErrorView> {
    if valid_utf8(bytes) && is_digest_spec(trim(decode_utf8(bytes))) {
        Ok(trim(decode_utf8(bytes)))
    } else {
        Err(StoreErrorView::InvalidPointer)
    }
}

/// Reads the digest from the bytes of a track pointer.
pub fn pointer_digest(bytes: &[u8]) -> (r: Result<String, StoreError>)
    ensures
        match pointer_digest_spec(bytes@) {
            Ok(d) => r matches Ok(x) && x@ == d,
            Err(e) => r matches Err(x) && x@ == e,
        },
{
    match utf8_text(bytes) {
        None => Err(StoreError::InvalidPointer),
        Some(text) => {
            let t = string_of(&trimmed(&chars_of(text.as_str())));
            if is_digest(t.as_str()) {
                Ok(t)
            } else {
                Err(StoreError::InvalidPointer)
            }
        },
    }
}

pub open spec fn key_value(language: Option<Seq<char>>) -> Seq<char> {
    match language {
        Some(l) => l,
        None => "default"@,
    }
}

pub open spec fn valid_key(value: Seq<char>) -> bool {
    0 < value.len() <= 64 && forall|i: int| 0 <= i < value.len() ==> language_char(
        #[trigger] value[i],
    )
}

/// The name of a track pointer: the language, or `default` for the track
/// chosen when none was asked for. A language must be a tag of one to 64
/// ASCII letters, digits, `-` or `_`, and may not be `default` itself.
pub open spec fn pointer_key_spec(language: Option<Seq<char>>) -> Result<Seq<char>, StoreErrorView> {
    let value = key_value(language);
    if valid_key(value) && !(language is Some && value == "default"@) {
        Ok(value)
    } else {
        Err(StoreErrorView::InvalidPointer)
    }
}

/// The pointer name for a language, or for the default track.
pub fn pointer_key(language: Option<&str>) -> (r: Result<String, StoreError>)
    ensures
        match pointer_key_spec(
            match language {
                Some(l) => Some(l@),
                None => None,
            },
        ) {
            Ok(k) => r matches Ok(x) && x@ == k,
            Err(e) => r matches Err(x) && x@ == e,
        },
{
    let value = match language {
        Some(l) => l,
        None => "default",
    };
    let cs = chars_of(value);
    if cs.len() == 0 || cs.len() > 64 {
        return Err(StoreError::InvalidPointer);
    }
    if language.is_some() && chars_eq(&cs, &chars_of("default")) {
        return Err(StoreError::InvalidPointer);
    }
    let mut i: usize = 0;
    while i < cs.len()
        invariant
            i <= cs.len(),
            cs@ == value@,
            value@ == key_value(
                match language {
                    Some(l) => Some(l@),
                    None => None,
                },
            ),
            forall|k: int| 0 <= k < i ==> language_char(#[trigger] cs@[k]),
        decreases cs.len() - i,
    {
        let c = cs[i];
        if !(('a' <= c && c <= 'z') || ('A' <= c && c <= 'Z') || ('0' <= c && c <= '9') || c
            == '-' || c == '_') {
            assert(!language_char(value@[i as int]));
            return Err(StoreError::InvalidPointer);
        }
        i = i + 1;
    }
    Ok(value.to_owned())
}

/// The language of a compiled source's transcript.
pub open spec fn stored_language(c: CompiledSourceView) -> Option<Seq<char>> {
    if c.evidence.len() > 0 {
        Some(c.evidence[0].transcript.language)
    } else {
        None
    }
}

/// Whether a stored source may be served for a request: it is the
/// expected source, its version names the digest it was found under, it
/// holds the requested language, and it revalidates.
pub open spec fn stored_is_valid(
    c: CompiledSourceView,
    expected: CanonicalSourceView,
    language: Option<Seq<char>>,
    digest: Seq<char>,
) -> bool {
    &&& c.source == expected
    &&& version_digest_spec(c.source_version) == Some(digest)
    &&& (language matches Some(l) ==> stored_language(c) == Some(l))
    &&& verify_outcome(c) is Ok
}

/// Checks a stored source against the request that found it.
pub fn verify_stored(
    compiled: &CompiledSource,
    expected_source: &CanonicalSource,
    language: Option<&str>,
    expected_digest: &str,
) -> (r: Result<(), StoreError>)
    ensures
        stored_is_valid(
            compiled@,
            expected_source@,
            match language {
                Some(l) => Some(l@),
                None => None,
            },
            expected_digest@,
        ) ==> r == Ok::<(), StoreError>(()),
        !stored_is_valid(
            compiled@,
            expected_source@,
            match language {
                Some(l) => Some(l@),
                None => None,
            },
            expected_digest@,
        ) ==> r == Err::<(), StoreError>(StoreError::InvalidStoredSource),
{
    if !compiled.source.same_as(expected_source) {
        return Err(StoreError::InvalidStoredSource);
    }
    match version_digest(compiled.source_version.as_str()) {
        Some(d) => {
            if !chars_eq(&chars_of(d.as_str()), &chars_of(expected_digest)) {
                return Err(StoreError::InvalidStoredSource);
            }
        },
        None => {
            return Err(StoreError::InvalidStoredSource);
        },
    }
    if let Some(l) = language {
        if compiled.evidence.len() == 0 {
            return Err(StoreError::InvalidStoredSource);
        }
        assert(compiled@.evidence[0] == compiled.evidence@[0]@);
        if !chars_eq(
            &chars_of(compiled.evidence[0].transcript.language.as_str()),
            &chars_of(l),
        ) {
            return Err(StoreError::InvalidStoredSource);
        }
    }
    if verify_compiled_source(compiled).is_err() {
        return Err(StoreError::InvalidStoredSource);
    }
    Ok(())
}

/// What a load makes of a stored entry: the current schema is served
/// once it checks out, the legacy schema is a miss to be reacquired, and
/// any other schema is refused.
pub open spec fn load_outcome(
    schema: u32,
    c: CompiledSourceView,
    expected: CanonicalSourceView,
    language: Option<Seq<char>>,
    digest: Seq<char>,
) -> Result<Option<CompiledSourceView>, StoreErrorView> {
    if schema == STORE_SCHEMA_VERSION {
        if stored_is_valid(c, expected, language, digest) {
            Ok(Some(c))
        } else {
            Err(StoreErrorView::InvalidStoredSource)
        }
    } else if schema == LEGACY_SCHEMA_VERSION {
        Ok(None)
    } else {
        Err(StoreErrorView::UnsupportedSchema(schema))
    }
}

/// Decides what a stored entry found under a pointer's digest yields.
pub fn accept_stored(
    schema: u32,
    compiled: CompiledSource,
    expected_source: &CanonicalSource,
    language: Option<&str>,
    digest: &str,
) -> (r: Result<Option<CompiledSource>, StoreError>)
    ensures
        match load_outcome(
            schema,
            compiled@,
            expected_source@,
            match language {
                Some(l) => Some(l@),
                None => None,
            },
            digest@,
        ) {
            Ok(Some(c)) => r matches Ok(Some(x)) && x@ == c,
            Ok(None) => r matches Ok(None),
            Err(e) => r matches Err(x) && x@ == e,
        },
{
    if schema == STORE_SCHEMA_VERSION {
        verify_stored(&compiled, expected_source, language, digest)?;
        Ok(Some(compiled))
    } else if schema == LEGACY_SCHEMA_VERSION {
        Ok(None)
    } else {
        Err(StoreError::UnsupportedSchema(schema))
    }
}

/// Checks a cache file before it is read: a regular file, not a link,
/// within its size limit.
pub fn check_cache_file(regular_file: bool, len: u64, limit: u64) -> (r: Result<(), StoreError>)
    ensures
        regular_file && len <= limit ==> r == Ok::<(), StoreError>(()),
        !(regular_file && len <= limit) ==> r == Err::<(), StoreError>(
            StoreError::InvalidStoredSource,
        ),
{
    if !regular_file || len > limit {
        Err(StoreError::InvalidStoredSource)
    } else {
        Ok(())
    }
}

/// The digest a source is saved under: it must revalidate and carry
/// either a compiled SHA-256 version or a fixture version, whose digest
/// names the file.
pub open spec fn save_digest_spec(c: CompiledSourceView) -> Result<Seq<char>, StoreErrorView> {
    if verify_outcome(c) is Err {
        Err(StoreErrorView::InvalidStoredSource)
    } else {
        match version_digest_spec(c.source_version) {
            Some(d) => Ok(d),
            None => Err(StoreErrorView::InvalidStoredSource),
        }
    }
}

/// The digest to save a compiled source under.
pub fn save_digest(compiled: &CompiledSource) -> (r: Result<String, StoreError>)
    ensures
        match save_digest_spec(compiled@) {
            Ok(d) => r matches Ok(x) && x@ == d,
            Err(e) => r matches Err(x) && x@ == e,
        },
{
    if verify_compiled_source(compiled).is_err() {
        return Err(StoreError::InvalidStoredSource);
    }
    match version_digest(compiled.source_version.as_str()) {
        Some(d) => Ok(d),
        None => Err(StoreError::InvalidStoredSource),
    }
}

/// What to do with a version already stored at the destination.
#[derive(Clone, Copy, Debug, PartialEq, Eq, Structural)]
pub enum ExistingVersion {
    Reuse,
    Replace,
}

/// A stored version under the current schema is reused when it is the
/// same source; a legacy one holding the same source is rewritten in the
/// current schema. A different source never takes over an immutable
/// version, and an unknown schema is refused.
pub open spec fn existing_outcome(schema: u32, stored: CompiledSourceView, c: CompiledSourceView) -> Result<
    ExistingVersion,
    StoreErrorView,
> {
    if schema == STORE_SCHEMA_VERSION {
        if stored == c {
            Ok(ExistingVersion::Reuse)
        } else {
            Err(StoreErrorView::InvalidStoredSource)
        }
    } else if schema == LEGACY_SCHEMA_VERSION {
        if stored == c {
            Ok(ExistingVersion::Replace)
        } else {
            Err(StoreErrorView::InvalidStoredSource)
        }
    } else {
        Err(StoreErrorView::UnsupportedSchema(schema))
    }
}

/// Decides what a save does with a version already at its destination.
pub fn existing_version(schema: u32, stored: &CompiledSource, compiled: &CompiledSource) -> (r: Result<
    ExistingVersion,
    StoreError,
>)
    ensures
        match existing_outcome(schema, stored@, compiled@) {
            Ok(a) => r == Ok::<ExistingVersion, StoreError>(a),
            Err(e) => r matches Err(x) && x@ == e,
        },
{
    if schema == STORE_SCHEMA_VERSION {
        if stored.same_as(compiled) {
            Ok(ExistingVersion::Reuse)
        } else {
            Err(StoreError::InvalidStoredSource)
        }
    } else if schema == LEGACY_SCHEMA_VERSION {
        if stored.same_as(compiled) {
            Ok(ExistingVersion::Replace)
        } else {
            Err(StoreError::InvalidStoredSource)
        }
    } else {
        Err(StoreError::UnsupportedSchema(schema))
    }
}

/// When another writer created the version first, the save succeeds only
/// if the winner is the same source under the current schema.
pub open spec fn race_outcome_spec(schema: u32, winner: CompiledSourceView, c: CompiledSourceView) -> Result<
    SaveOutcome,
    StoreErrorView,
> {
    if schema == STORE_SCHEMA_VERSION && winner == c {
        Ok(SaveOutcome::ReusedVersion)
    } else {
        Err(StoreErrorView::InvalidStoredSource)
    }
}

/// Decides a save that lost the race to create its version.
pub fn race_outcome(schema: u32, winner: &CompiledSource, compiled: &CompiledSource) -> (r: Result<
    SaveOutcome,
    StoreError,
>)
    ensures
        match race_outcome_spec(schema, winner@, compiled@) {
            Ok(o) => r == Ok::<SaveOutcome, StoreError>(o),
            Err(e) => r matches Err(x) && x@ == e,
        },
{
    if schema == STORE_SCHEMA_VERSION && winner.same_as(compiled) {
        Ok(SaveOutcome::ReusedVersion)
    } else {
        Err(StoreError::InvalidStoredSource)
    }
}

/// The pointers a save advances: the track's language, and the default
/// track when the source was acquired without asking for a language.
pub open spec fn pointer_targets_spec(c: CompiledSourceView, set_as_default: bool) -> Result<
    Seq<Seq<char>>,
    StoreErrorView,
> {
    match pointer_key_spec(Some(c.evidence[0].transcript.language)) {
        Err(e) => Err(e),
        Ok(k) => Ok(
            if set_as_default {
                seq![k, "default"@]
            } else {
                seq![k]
            },
        ),
    }
}

/// The pointer names a save writes, in order.
pub fn pointer_targets(compiled: &CompiledSource, set_as_default: bool) -> (r: Result<
    Vec<String>,
    StoreError,
>)
    requires
        compiled@.evidence.len() > 0,
    ensures
        match pointer_targets_spec(compiled@, set_as_default) {
            Ok(keys) => r matches Ok(v) && crate::provider::ytdlp::strings_view(v@) == keys,
            Err(e) => r matches Err(x) && x@ == e,
        },
{
    assert(compiled@.evidence[0] == compiled.evidence@[0]@);
    let key = pointer_key(Some(compiled.evidence[0].transcript.language.as_str()))?;
    let mut keys: Vec<String> = Vec::new();
    keys.push(key);
    if set_as_default {
        keys.push("default".to_owned());
    }
    assert(crate::provider::ytdlp::strings_view(keys@) =~= pointer_targets_spec(
        compiled@,
        set_as_default,
    )->Ok_0);
    Ok(keys)
}

/// A cache rooted at a local directory.
#[derive(Clone, Debug, PartialEq, Eq)]
pub struct FileSourceStore {
    pub root: String,
}

/// The path, part by part, of a source's directory under `root`.
pub open spec fn source_dir_spec(root: Seq<char>, source: CanonicalSourceView) -> Seq<Seq<char>> {
    seq![root, "youtube"@, source.source_id]
}

impl FileSourceStore {
    /// A cache kept under `root`.
    pub fn new(root: String) -> (s: FileSourceStore)
        ensures
            s.root@ == root@,
    {
        FileSourceStore { root }
    }

    /// A source's directory, part by part: the root, the provider and the
    /// source identifier.
    pub fn source_dir(&self, source: &CanonicalSource) -> (r: Vec<String>)
        ensures
            crate::provider::ytdlp::strings_view(r@) == source_dir_spec(self.root@, source@),
    {
        let mut r: Vec<String> = Vec::new();
        r.push(self.root.clone());
        r.push(
            match source.provider {
                crate::source::SourceProvider::YouTube => "youtube".to_owned(),
            },
        );
        r.push(source.source_id.clone());
        assert(crate::provider::ytdlp::strings_view(r@) =~= source_dir_spec(self.root@, source@));
        r
    }

    /// The path, part by part, of the pointer file for `key`.
    pub fn pointer_path(&self, source: &CanonicalSource, key: &str) -> (r: Vec<String>)
        ensures
            crate::provider::ytdlp::strings_view(r@) == source_dir_spec(self.root@, source@)
                + seq!["tracks"@, key@ + ".latest"@],
    {
        let mut r = self.source_dir(source);
        let ghost before = r@;
        r.push("tracks".to_owned());
        let mut name = chars_of(key);
        push_str(&mut name, ".latest");
        r.push(string_of(&name));
        assert(crate::provider::ytdlp::strings_view(r@) =~= crate::provider::ytdlp::strings_view(
            before,
        ) + seq!["tracks"@, key@ + ".latest"@]);
        r
    }

    /// The path, part by part, of the stored version named by `digest`.
    pub fn version_path(&self, source: &CanonicalSource, digest: &str) -> (r: Vec<String>)
        ensures
            crate::provider::ytdlp::strings_view(r@) == source_dir_spec(self.root@, source@)
                + seq!["versions"@, digest@ + ".json"@],
    {
        let mut r = self.source_dir(source);
        let ghost before = r@;
        r.push("versions".to_owned());
        let mut name = chars_of(digest);
        push_str(&mut name, ".json");
        r.push(string_of(&name));
        assert(crate::provider::ytdlp::strings_view(r@) =~= crate::provider::ytdlp::strings_view(
            before,
        ) + seq!["versions"@, digest@ + ".json"@]);
        r
    }
}


/// A track pointer reads back as the digest written into it: the pointer
/// file holds the digest and a line ending, as UTF-8.
pub proof fn law_pointer_reads_back(digest: Seq<char>)
    requires
        is_digest_spec(digest),
    ensures
        pointer_digest_spec(vstd::utf8::encode_utf8(digest + seq!['\n'])) == Ok::<
            Seq<char>,
            StoreErrorView,
        >(digest),
{
    let text = digest + seq!['\n'];
    vstd::utf8::encode_utf8_valid_utf8(text);
    vstd::utf8::encode_utf8_decode_utf8(text);
    assert(is_hex_lower(digest[0]));
    assert(text[0] == digest[0]);
    assert(crate::source::trim_start(text) == text);
    assert(text.drop_last() =~= digest);
    assert(is_hex_lower(digest.last()));
    assert(crate::source::trim_end(digest) == digest);
    assert(crate::source::trim_end(text) == digest);
}

/// A saved source loads back unchanged: the entry a save writes under the
/// current schema, found through the pointer of the source's own language
/// (or, when the save set it, the default pointer), is served as exactly
/// that source.
pub proof fn law_saved_sources_load_back(c: CompiledSourceView, set_as_default: bool)
    requires
        save_digest_spec(c) is Ok,
        pointer_targets_spec(c, set_as_default) is Ok,
    ensures
        ({
            let d = save_digest_spec(c)->Ok_0;
            &&& load_outcome(STORE_SCHEMA_VERSION, c, c.source, stored_language(c), d) == Ok::<
                Option<CompiledSourceView>,
                StoreErrorView,
            >(Some(c))
            &&& load_outcome(STORE_SCHEMA_VERSION, c, c.source, None, d) == Ok::<
                Option<CompiledSourceView>,
                StoreErrorView,
            >(Some(c))
            &&& pointer_targets_spec(c, set_as_default)->Ok_0[0] == c.evidence[0].transcript.language
            &&& set_as_default ==> pointer_targets_spec(c, set_as_default)->Ok_0[1] == "default"@
        }),
{
}

/// Saving the same source again never writes a second copy: a save that
/// finds its version already stored under the current schema reuses it,
/// and of two writers that race to create the same version, the one that
/// loses reuses what the other wrote. A different source never takes
/// over a stored version, whichever way the save meets it.
pub proof fn law_identical_saves_reuse(c: CompiledSourceView, other: CompiledSourceView)
    requires
        other != c,
    ensures
        existing_outcome(STORE_SCHEMA_VERSION, c, c) == Ok::<ExistingVersion, StoreErrorView>(
            ExistingVersion::Reuse,
        ),
        race_outcome_spec(STORE_SCHEMA_VERSION, c, c) == Ok::<SaveOutcome, StoreErrorView>(
            SaveOutcome::ReusedVersion,
        ),
        existing_outcome(STORE_SCHEMA_VERSION, other, c) == Err::<ExistingVersion, StoreErrorView>(
            StoreErrorView::InvalidStoredSource,
        ),
        existing_outcome(LEGACY_SCHEMA_VERSION, other, c) == Err::<ExistingVersion, StoreErrorView>(
            StoreErrorView::InvalidStoredSource,
        ),
        race_outcome_spec(STORE_SCHEMA_VERSION, other, c) == Err::<SaveOutcome, StoreErrorView>(
            StoreErrorView::InvalidStoredSource,
        ),
{
}

/// An entry under the legacy schema is upgraded in place: a load treats
/// it as a miss, the save of the same source that follows rewrites it in
/// the current schema, and from then on a load, by the source's own
/// language or by none, serves exactly that source.
pub proof fn law_legacy_entries_are_upgraded(c: CompiledSourceView)
    requires
        save_digest_spec(c) is Ok,
    ensures
        ({
            let d = save_digest_spec(c)->Ok_0;
            &&& load_outcome(LEGACY_SCHEMA_VERSION, c, c.source, stored_language(c), d) == Ok::<
                Option<CompiledSourceView>,
                StoreErrorView,
            >(None)
            &&& existing_outcome(LEGACY_SCHEMA_VERSION, c, c) == Ok::<ExistingVersion, StoreErrorView>(
                ExistingVersion::Replace,
            )
            &&& load_outcome(STORE_SCHEMA_VERSION, c, c.source, stored_language(c), d) == Ok::<
                Option<CompiledSourceView>,
                StoreErrorView,
            >(Some(c))
            &&& load_outcome(STORE_SCHEMA_VERSION, c, c.source, None, d) == Ok::<
                Option<CompiledSourceView>,
                StoreErrorView,
            >(Some(c))
        }),
{
    assert(STORE_SCHEMA_VERSION != LEGACY_SCHEMA_VERSION);
}

} // verus!
