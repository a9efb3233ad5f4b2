//! Security validation of names, digests, image references and paths.
//!
//! Filesystem observations (whether a path exists, whether it is a symbolic
//! link, what it canonicalizes to) are taken by the caller and handed in as
//! plain values, so every decision made here is a function of its arguments.

use vstd::prelude::*;
use vstd::utf8::{decode_utf8, valid_utf8};

verus! {

/// Why a name, reference or path was rejected.
#[derive(Debug, Clone, PartialEq, Eq)]
pub enum ValidationError {
    InvalidName(String),
    PathTraversal(String),
    InvalidPath(String),
    SymlinkNotAllowed(String),
}

/// Longest accepted resource name, in characters.
pub const MAX_NAME_LEN: usize = 64;

/// An ASCII letter or digit.
pub open spec fn is_alnum(c: char) -> bool {
    ('a' <= c && c <= 'z') || ('A' <= c && c <= 'Z') || ('0' <= c && c <= '9')
}

/// An ASCII hexadecimal digit.
pub open spec fn is_hex(c: char) -> bool {
    ('a' <= c && c <= 'f') || ('A' <= c && c <= 'F') || ('0' <= c && c <= '9')
}

/// Characters allowed anywhere in a resource name.
pub open spec fn is_name_char(c: char) -> bool {
    is_alnum(c) || c == '_' || c == '-' || c == '.'
}

/// `s` holds two consecutive dots.
pub open spec fn has_dotdot(s: Seq<char>) -> bool {
    exists|i: int| 0 <= i && i + 1 < s.len() && s[i] == '.' && #[trigger] s[i + 1] == '.'
}

/// `s` holds `..`, `/` or `\`.
pub open spec fn has_traversal(s: Seq<char>) -> bool {
    has_dotdot(s) || exists|i: int| 0 <= i < s.len() && (s[i] == '/' || s[i] == '\\')
}

/// The index of the first character of `s` that a name may not hold.
pub open spec fn first_bad_char(s: Seq<char>, i: int) -> bool {
    0 <= i < s.len() && !is_name_char(s[i]) && forall|j: int| 0 <= j < i ==> is_name_char(s[j])
}

/// `s` breaks one of the length, first-character or character-class rules.
pub open spec fn breaks_name_rules(s: Seq<char>) -> bool {
    s.len() == 0 || s.len() > MAX_NAME_LEN || !is_alnum(s[0])
        || exists|i: int| 0 <= i < s.len() && !is_name_char(s[i])
}

/// `s` is an acceptable resource name.
pub open spec fn resource_name_ok(s: Seq<char>) -> bool {
    !breaks_name_rules(s) && !has_traversal(s)
}

/// `r` is an `InvalidName` error with message `msg`.
pub open spec fn is_invalid_name(r: Result<(), ValidationError>, msg: Seq<char>) -> bool {
    r matches Err(ValidationError::InvalidName(m)) && m@ == msg
}

/// `r` is a `PathTraversal` error with message `msg`.
pub open spec fn is_traversal(r: Result<(), ValidationError>, msg: Seq<char>) -> bool {
    r matches Err(ValidationError::PathTraversal(m)) && m@ == msg
}

fn is_ascii_alnum(c: char) -> (r: bool)
    ensures
        r == is_alnum(c),
{
    ('a' <= c && c <= 'z') || ('A' <= c && c <= 'Z') || ('0' <= c && c <= '9')
}

fn is_ascii_hex(c: char) -> (r: bool)
    ensures
        r == is_hex(c),
{
    ('a' <= c && c <= 'f') || ('A' <= c && c <= 'F') || ('0' <= c && c <= '9')
}

/// Whether `s` holds two consecutive dots.
pub fn contains_dotdot(s: &str) -> (r: bool)
    ensures
        r == has_dotdot(s@),
{
    let n = s.unicode_len();
    let mut i: usize = 0;
    while i < n && i + 1 < n
        invariant
            n == s@.len(),
            i <= n,
            forall|j: int| 0 <= j < i && j + 1 < n ==> !(s@[j] == '.' && #[trigger] s@[j + 1] == '.'),
        decreases n - i,
    {
        if s.get_char(i) == '.' && s.get_char(i + 1) == '.' {
            assert(s@[i + 1 as int] == '.');
            return true;
        }
        i = i + 1;
    }
    false
}

/// Whether `s` holds `..`, `/` or `\`.
fn contains_traversal(s: &str) -> (r: bool)
    ensures
        r == has_traversal(s@),
{
    if contains_dotdot(s) {
        return true;
    }
    let n = s.unicode_len();
    let mut i: usize = 0;
    while i < n
        invariant
            n == s@.len(),
            forall|j: int| 0 <= j < i ==> s@[j] != '/' && s@[j] != '\\',
        decreases n - i,
    {
        let c = s.get_char(i);
        if c == '/' || c == '\\' {
            return true;
        }
        i = i + 1;
    }
    false
}

/// Validate a resource name (container, network, volume) before it is used
/// as a lookup key or a path segment.
///
/// The rules are applied in order and the first one broken decides the
/// error: not empty, at most 64 characters, an ASCII letter or digit first,
/// only ASCII letters, digits, `_`, `-` and `.` throughout, and finally no
/// `..`, `/` or `\` anywhere.
pub fn validate_resource_name(name: &str) -> (r: Result<(), ValidationError>)
    ensures
        r is Ok <==> resource_name_ok(name@),
        name@.len() == 0 ==> is_invalid_name(r, "Name cannot be empty"@),
        name@.len() > MAX_NAME_LEN ==> is_invalid_name(
            r,
            "Name exceeds maximum length of 64 characters"@,
        ),
        0 < name@.len() <= MAX_NAME_LEN && !is_alnum(name@[0]) ==> is_invalid_name(
            r,
            "Name must start with a letter or number"@,
        ),
        forall|i: int|
            0 < name@.len() <= MAX_NAME_LEN && is_alnum(name@[0]) && #[trigger] first_bad_char(
                name@,
                i,
            ) ==> is_invalid_name(r, "Invalid character '"@ + seq![name@[i]] + "' in name"@),
        !breaks_name_rules(name@) && has_traversal(name@) ==> is_traversal(
            r,
            "Name contains path traversal sequences"@,
        ),
{
    let n = name.unicode_len();
    if n == 0 {
        return Err(ValidationError::InvalidName(String::from_str("Name cannot be empty")));
    }
    if n > MAX_NAME_LEN {
        return Err(
            ValidationError::InvalidName(
                String::from_str("Name exceeds maximum length of 64 characters"),
            ),
        );
    }
    if !is_ascii_alnum(name.get_char(0)) {
        return Err(
            ValidationError::InvalidName(String::from_str("Name must start with a letter or number")),
        );
    }
    let mut i: usize = 0;
    while i < n
        invariant
            n == name@.len(),
            0 < n <= MAX_NAME_LEN,
            is_alnum(name@[0]),
            forall|j: int| 0 <= j < i ==> is_name_char(name@[j]),
        decreases n - i,
    {
        let ch = name.get_char(i);
        if !(is_ascii_alnum(ch) || ch == '_' || ch == '-' || ch == '.') {
            let bad = name.substring_char(i, i + 1);
            assert(bad@ =~= seq![ch]);
            let msg = String::from_str("Invalid character '").concat(bad).concat("' in name");
            assert(first_bad_char(name@, i as int));
            assert forall|k: int| first_bad_char(name@, k) implies k == i by {
                if k < i {
                    assert(is_name_char(name@[k]));
                } else if k > i {
                    assert(is_name_char(name@[i as int]));
                }
            }
            return Err(ValidationError::InvalidName(msg));
        }
        i = i + 1;
    }
    if contains_traversal(name) {
        return Err(
            ValidationError::PathTraversal(String::from_str("Name contains path traversal sequences")),
        );
    }
    Ok(())
}

/// What a link-aware stat (one that does not follow a final symbolic link)
/// saw at a path.
#[derive(Debug, Clone, Copy, PartialEq, Eq, Structural)]
pub enum LinkStatus {
    /// Nothing could be read at the path.
    Missing,
    /// The path itself is a symbolic link.
    Symlink,
    /// The path exists and is not a symbolic link.
    NotSymlink,
}

/// What the filesystem reported about a path and its expected root.
#[derive(Debug, Clone)]
pub struct PathProbe {
    /// Whether the path exists, following symbolic links.
    pub exists: bool,
    /// What a link-aware stat saw at the path.
    pub link: LinkStatus,
    /// The canonical form of the path, or `None` where canonicalization failed.
    pub canonical: Option<String>,
    /// The canonical form of the expected root, or `None` where it failed.
    pub root_canonical: Option<String>,
}

/// `p` lies at or below the directory `root`, where `sep` separates path
/// components: `root` is a prefix of `p` that ends at a separator or at the
/// end of `p`, so `/a/vol` holds `/a/vol/x` but not `/a/volx`.
pub open spec fn within_dir<A>(p: Seq<A>, root: Seq<A>, sep: A) -> bool {
    root.len() <= p.len() && p.subrange(0, root.len() as int) == root && (p.len() == root.len()
        || (root.len() > 0 && root.last() == sep) || p[root.len() as int] == sep)
}

/// Whether the canonical path `p` lies at or below the canonical directory
/// `root`, respecting directory boundaries.
pub fn is_within(p: &str, root: &str) -> (r: bool)
    ensures
        r == within_dir(p@, root@, '/'),
{
    let n = p.unicode_len();
    let m = root.unicode_len();
    if m > n {
        return false;
    }
    let mut i: usize = 0;
    while i < m
        invariant
            n == p@.len(),
            m == root@.len(),
            m <= n,
            i <= m,
            forall|j: int| 0 <= j < i ==> p@[j] == root@[j],
        decreases m - i,
    {
        if p.get_char(i) != root.get_char(i) {
            assert(p@.subrange(0, m as int)[i as int] != root@[i as int]);
            return false;
        }
        i = i + 1;
    }
    assert(p@.subrange(0, m as int) =~= root@);
    n == m || (m > 0 && root.get_char(m - 1) == '/') || p.get_char(m) == '/'
}

/// Whether the canonical path `p`, given as raw bytes, lies at or below the
/// canonical directory `root`, respecting directory boundaries.
pub fn is_within_bytes(p: &[u8], root: &[u8]) -> (r: bool)
    ensures
        r == within_dir(p@, root@, 47u8),
{
    let n = p.len();
    let m = root.len();
    if m > n {
        return false;
    }
    let mut i: usize = 0;
    while i < m
        invariant
            n == p@.len(),
            m == root@.len(),
            m <= n,
            i <= m,
            forall|j: int| 0 <= j < i ==> p@[j] == root@[j],
        decreases m - i,
    {
        if p[i] != root[i] {
            assert(p@.subrange(0, m as int)[i as int] != root@[i as int]);
            return false;
        }
        i = i + 1;
    }
    assert(p@.subrange(0, m as int) =~= root@);
    n == m || (m > 0 && root[m - 1] == 47u8) || p[m] == 47u8
}

/// A path one component below a root lies within it, while a sibling whose
/// name merely extends the root's last component does not: `/a/vol/x` is
/// inside `/a/vol`, `/a/volx` is not.
pub proof fn lemma_within_respects_boundaries<A>(root: Seq<A>, rest: Seq<A>, sep: A)
    requires
        root.len() > 0,
        root.last() != sep,
        rest.len() > 0,
        rest[0] != sep,
    ensures
        within_dir(root + seq![sep] + rest, root, sep),
        !within_dir(root + rest, root, sep),
{
    let inside = root + seq![sep] + rest;
    let sibling = root + rest;
    assert(inside.subrange(0, root.len() as int) =~= root);
    assert(inside[root.len() as int] == sep);
    assert(sibling[root.len() as int] == rest[0]);
}

/// Every string of length zero or above 64 characters is rejected as a name.
pub proof fn lemma_bad_length_rejected(s: Seq<char>)
    requires
        s.len() == 0 || s.len() > MAX_NAME_LEN,
    ensures
        !resource_name_ok(s),
{
}

/// Every string that holds `..`, `/` or `\` is rejected as a name, whatever
/// its other characters.
pub proof fn lemma_traversal_rejected(s: Seq<char>)
    requires
        has_traversal(s),
    ensures
        !resource_name_ok(s),
{
}

/// Every string whose first character is not an ASCII letter or digit is
/// rejected as a name, whatever follows.
pub proof fn lemma_bad_start_rejected(s: Seq<char>)
    requires
        s.len() > 0,
        !is_alnum(s[0]),
    ensures
        !resource_name_ok(s),
{
}

/// A string that holds `/` or `\` already breaks the character rules, so
/// the traversal check only ever repeats a verdict for them.
pub proof fn lemma_separator_breaks_char_rules(s: Seq<char>, i: int)
    requires
        0 <= i < s.len(),
        s[i] == '/' || s[i] == '\\',
    ensures
        breaks_name_rules(s),
{
}

/// The digest prefix `sha256:`.
pub open spec fn sha256_prefix() -> Seq<char> {
    seq!['s', 'h', 'a', '2', '5', '6', ':']
}

/// `s` is `sha256:` followed by exactly 64 hexadecimal digits.
pub open spec fn sha256_digest_ok(s: Seq<char>) -> bool {
    s.len() == 71 && s.subrange(0, 7) == sha256_prefix() && forall|i: int|
        7 <= i < 71 ==> is_hex(#[trigger] s[i])
}

/// Validate a SHA-256 digest of the form `sha256:` and 64 hex digits.
pub fn validate_sha256_digest(digest: &str) -> (r: Result<(), ValidationError>)
    ensures
        r is Ok <==> sha256_digest_ok(digest@),
        !(digest@.len() >= 7 && digest@.subrange(0, 7) == sha256_prefix()) ==> is_invalid_name(
            r,
            "Digest must start with 'sha256:'"@,
        ),
        digest@.len() >= 7 && digest@.subrange(0, 7) == sha256_prefix() && digest@.len() != 71
            ==> is_invalid_name(r, "SHA256 digest must be exactly 64 hex characters"@),
        digest@.len() == 71 && digest@.subrange(0, 7) == sha256_prefix() && !sha256_digest_ok(
            digest@,
        ) ==> is_invalid_name(r, "SHA256 digest must contain only hex characters"@),
{
    let n = digest.unicode_len();
    let has_prefix = n >= 7 && digest.get_char(0) == 's' && digest.get_char(1) == 'h'
        && digest.get_char(2) == 'a' && digest.get_char(3) == '2' && digest.get_char(4) == '5'
        && digest.get_char(5) == '6' && digest.get_char(6) == ':';
    assert(has_prefix <==> (n >= 7 && digest@.subrange(0, 7) =~= sha256_prefix()));
    if !has_prefix {
        return Err(ValidationError::InvalidName(String::from_str("Digest must start with 'sha256:'")));
    }
    if n - 7 != 64 {
        return Err(
            ValidationError::InvalidName(
                String::from_str("SHA256 digest must be exactly 64 hex characters"),
            ),
        );
    }
    let mut i: usize = 7;
    while i < n
        invariant
            n == digest@.len(),
            n == 71,
            digest@.subrange(0, 7) == sha256_prefix(),
            7 <= i <= n,
            forall|j: int| 7 <= j < i ==> is_hex(#[trigger] digest@[j]),
        decreases n - i,
    {
        if !is_ascii_hex(digest.get_char(i)) {
            return Err(
                ValidationError::InvalidName(
                    String::from_str("SHA256 digest must contain only hex characters"),
                ),
            );
        }
        i = i + 1;
    }
    Ok(())
}

/// Characters that an image reference may not hold: `;`, `|`, a backquote, `$`.
pub open spec fn is_shell_meta(c: char) -> bool {
    c == ';' || c == '|' || c == '`' || c == '$'
}

/// `s` is a non-empty image reference free of shell metacharacters.
pub open spec fn image_reference_ok(s: Seq<char>) -> bool {
    s.len() > 0 && forall|i: int| 0 <= i < s.len() ==> !is_shell_meta(#[trigger] s[i])
}

/// Validate an image reference for safe use.
pub fn validate_image_reference(reference: &str) -> (r: Result<(), ValidationError>)
    ensures
        r is Ok <==> image_reference_ok(reference@),
        reference@.len() == 0 ==> is_invalid_name(r, "Image reference cannot be empty"@),
        reference@.len() > 0 && !image_reference_ok(reference@) ==> is_invalid_name(
            r,
            "Image reference contains disallowed characters"@,
        ),
{
    let n = reference.unicode_len();
    if n == 0 {
        return Err(ValidationError::InvalidName(String::from_str("Image reference cannot be empty")));
    }
    let mut i: usize = 0;
    while i < n
        invariant
            n == reference@.len(),
            forall|j: int| 0 <= j < i ==> !is_shell_meta(#[trigger] reference@[j]),
        decreases n - i,
    {
        let c = reference.get_char(i);
        if c == ';' || c == '|' || c == '`' || c == '$' {
            assert(is_shell_meta(reference@[i as int]));
            return Err(
                ValidationError::InvalidName(
                    String::from_str("Image reference contains disallowed characters"),
                ),
            );
        }
        i = i + 1;
    }
    Ok(())
}

/// `r` is a `SymlinkNotAllowed` error with message `msg`.
pub open spec fn is_symlink_error(r: Result<(), ValidationError>, msg: Seq<char>) -> bool {
    r matches Err(ValidationError::SymlinkNotAllowed(m)) && m@ == msg
}

/// Check that a path is not a symbolic link before a destructive operation.
///
/// `link` is what a link-aware stat of `path` saw; a path that does not
/// exist is accepted.
pub fn check_not_symlink(path: &str, link: LinkStatus) -> (r: Result<(), ValidationError>)
    ensures
        r is Ok <==> link != LinkStatus::Symlink,
        link == LinkStatus::Symlink ==> is_symlink_error(
            r,
            "Cannot operate on symlink: "@ + path@,
        ),
{
    match link {
        LinkStatus::Symlink => Err(
            ValidationError::SymlinkNotAllowed(
                String::from_str("Cannot operate on symlink: ").concat(path),
            ),
        ),
        _ => Ok(()),
    }
}

/// The outcome of `validate_path_safe` on `path` with filesystem facts `probe`.
pub open spec fn path_safe_ok(path: Seq<char>, probe: PathProbe) -> bool {
    !has_dotdot(path) && (probe.exists ==> (probe.link != LinkStatus::Symlink
        && probe.canonical is Some && probe.root_canonical is Some && within_dir(
        probe.canonical->Some_0@,
        probe.root_canonical->Some_0@,
        '/',
    )))
}

/// Validate that a path is safe to use for filesystem operations: it holds
/// no `..`, and where it exists it is not a symbolic link, it can be
/// canonicalized together with the expected root, and its canonical form
/// lies below the canonical root. A failed canonicalization of either is
/// reported as `InvalidPath`, apart from an escape.
pub fn validate_path_safe(path: &str, probe: &PathProbe) -> (r: Result<(), ValidationError>)
    ensures
        r is Ok <==> path_safe_ok(path@, *probe),
        has_dotdot(path@) ==> r matches Err(ValidationError::PathTraversal(_)),
        !has_dotdot(path@) && probe.exists && probe.link == LinkStatus::Symlink ==> is_symlink_error(
            r,
            "Path is a symlink: "@ + path@,
        ),
        !has_dotdot(path@) && probe.exists && probe.link != LinkStatus::Symlink
            && (probe.canonical is None || probe.root_canonical is None) ==> r matches Err(
            ValidationError::InvalidPath(_),
        ),
        !has_dotdot(path@) && probe.exists && probe.link != LinkStatus::Symlink
            && probe.canonical is Some && probe.root_canonical is Some && !path_safe_ok(path@, *probe) ==> r matches Err(
            ValidationError::PathTraversal(_),
        ),
{
    if contains_dotdot(path) {
        return Err(
            ValidationError::PathTraversal(
                String::from_str("Path contains '..' traversal: ").concat(path),
            ),
        );
    }
    if probe.exists && probe.link == LinkStatus::Symlink {
        return Err(
            ValidationError::SymlinkNotAllowed(String::from_str("Path is a symlink: ").concat(path)),
        );
    }
    if probe.exists {
        match (&probe.canonical, &probe.root_canonical) {
            (Some(canonical), Some(root_canonical)) => {
                if !is_within(canonical.as_str(), root_canonical.as_str()) {
                    return Err(
                        ValidationError::PathTraversal(
                            String::from_str("Path escapes expected root directory: ").concat(
                                canonical.as_str(),
                            ),
                        ),
                    );
                }
            },
            (None, _) => {
                return Err(
                    ValidationError::InvalidPath(String::from_str("Failed to canonicalize path")),
                );
            },
            (Some(_), None) => {
                return Err(
                    ValidationError::InvalidPath(
                        String::from_str("Failed to canonicalize expected root directory"),
                    ),
                );
            },
        }
    }
    Ok(())
}

/// Relies on `std::str::from_utf8`: it succeeds exactly on well-formed UTF-8,
/// and the text then holds the characters that the bytes encode.
#[verifier::external_body]
fn utf8_text(b: &[u8]) -> (r: Option<String>)
    ensures
        r is Some <==> valid_utf8(b@),
        r matches Some(t) ==> t@ == decode_utf8(b@),
{
    std::str::from_utf8(b).ok().map(|t| t.to_string())
}

/// Convert the raw bytes of a path to a string, failing instead of
/// panicking where they are not UTF-8.
pub fn path_to_string(path: &[u8]) -> (r: Result<String, ValidationError>)
    ensures
        r is Ok <==> valid_utf8(path@),
        r matches Ok(t) ==> t@ == decode_utf8(path@),
        r matches Err(e) ==> e matches ValidationError::InvalidPath(m)
            && m@ == "Path contains invalid UTF-8"@,
{
    match utf8_text(path) {
        Some(t) => Ok(t),
        None => Err(ValidationError::InvalidPath(String::from_str("Path contains invalid UTF-8"))),
    }
}

} // verus!
