//! Name allocation: turn an attacker-controlled filename into a unique,
//! traversal-safe storage key of the form `<uuid>_<cleaned-name>`.
//!
//! The key never contains a path separator or a null byte and never starts
//! with a dot, so it cannot escape the storage root when used as a single
//! path segment. The random component comes from a version-4 UUID; the name
//! component is first run through an off-the-shelf filename sanitizer and
//! then through the library's own verified cleaning pass, so the safety of
//! the final key does not rest on the sanitizer.

use vstd::prelude::*;

verus! {

/// Greatest number of characters kept from the cleaned filename.
pub const MAX_NAME_LEN: usize = 120;

/// Length of the textual form of a UUID.
pub const UUID_LEN: usize = 36;

/// Greatest length of an allocated key: UUID, underscore, cleaned name.
pub const MAX_KEY_LEN: usize = 157;

/// A character that may appear in a storage key: anything but a path
/// separator or the null character.
pub open spec fn safe_char(c: char) -> bool {
    c != '/' && c != '\\' && c != '\u{0}'
}

/// A key that resolves strictly inside the storage root when used as one
/// path segment: non-empty, bounded, free of separators and null bytes, and
/// not starting with a dot (which also rules out `.` and `..`).
pub open spec fn safe_key(s: Seq<char>) -> bool {
    &&& 0 < s.len() <= MAX_KEY_LEN
    &&& (forall|i: int| 0 <= i < s.len() ==> safe_char(#[trigger] s[i]))
    &&& s[0] != '.'
}

/// A lowercase hexadecimal digit.
pub open spec fn hex_lower(c: char) -> bool {
    ('0' <= c && c <= '9') || ('a' <= c && c <= 'f')
}

/// The shape of a hyphenated textual UUID: 36 characters, lowercase hex
/// digits with hyphens exactly at positions 8, 13, 18 and 23.
pub open spec fn uuid_like(s: Seq<char>) -> bool {
    &&& s.len() == UUID_LEN
    &&& s[8] == '-' && s[13] == '-' && s[18] == '-' && s[23] == '-'
    &&& (forall|i: int|
        0 <= i < s.len() && i != 8 && i != 13 && i != 18 && i != 23 ==> hex_lower(
            #[trigger] s[i],
        ))
}

/// The input with every unsafe character removed.
pub open spec fn scrubbed(s: Seq<char>) -> Seq<char>
    decreases s.len(),
{
    if s.len() == 0 {
        Seq::empty()
    } else {
        let rest = scrubbed(s.drop_last());
        if safe_char(s.last()) {
            rest.push(s.last())
        } else {
            rest
        }
    }
}

/// The input without its leading dots.
pub open spec fn without_leading_dots(s: Seq<char>) -> Seq<char>
    decreases s.len(),
{
    if s.len() > 0 && s[0] == '.' {
        without_leading_dots(s.subrange(1, s.len() as int))
    } else {
        s
    }
}

/// The input cut down to the bounded name length.
pub open spec fn truncated(s: Seq<char>) -> Seq<char> {
    if s.len() <= MAX_NAME_LEN {
        s
    } else {
        s.take(MAX_NAME_LEN as int)
    }
}

/// The library's whole cleaning pass over a filename: scrub unsafe
/// characters, strip leading dots, truncate.
pub open spec fn clean_name(s: Seq<char>) -> Seq<char> {
    truncated(without_leading_dots(scrubbed(s)))
}

/// What `sanitize_filename::sanitize` returns for a given name; a pure
/// function of the characters alone.
pub uninterp spec fn sanitized_of(s: Seq<char>) -> Seq<char>;

/// Relies on `sanitize_filename::sanitize_with_options`: a deterministic
/// rewrite of the name that removes characters illegal in filenames. The
/// options are pinned (rather than the platform-dependent defaults) so the
/// result is a function of the name alone; nothing more is assumed of it,
/// since the verified cleaning pass re-establishes safety.
#[verifier::external_body]
fn sanitize_name(name: &str) -> (r: String)
    ensures
        r@ == sanitized_of(name@),
{
    sanitize_filename::sanitize_with_options(
        name,
        sanitize_filename::Options { windows: false, truncate: true, replacement: "" },
    )
}

/// Relies on `uuid::Uuid::new_v4` and its hyphenated lowercase `Display`
/// form: 36 characters, lowercase hex digits with hyphens at positions 8,
/// 13, 18 and 23. The value is random, so nothing relates two calls.
#[verifier::external_body]
fn fresh_uuid() -> (r: String)
    ensures
        uuid_like(r@),
{
    uuid::Uuid::new_v4().to_string()
}

/// Relies on `String::push`: appends exactly the given character.
#[verifier::external_body]
fn push_char(s: &mut String, c: char)
    ensures
        final(s)@ == old(s)@.push(c),
{
    s.push(c);
}

/// Every character of a scrubbed sequence is safe.
proof fn lemma_scrubbed_safe(s: Seq<char>)
    ensures
        forall|i: int| 0 <= i < scrubbed(s).len() ==> safe_char(#[trigger] scrubbed(s)[i]),
        scrubbed(s).len() <= s.len(),
    decreases s.len(),
{
    if s.len() > 0 {
        lemma_scrubbed_safe(s.drop_last());
    }
}

/// Stripping leading dots keeps a suffix of the input and leaves no leading
/// dot behind.
proof fn lemma_without_leading_dots(s: Seq<char>)
    ensures
        without_leading_dots(s).len() <= s.len(),
        without_leading_dots(s).len() > 0 ==> without_leading_dots(s)[0] != '.',
        forall|i: int|
            0 <= i < without_leading_dots(s).len() ==> #[trigger] without_leading_dots(s)[i]
                == s[i + s.len() - without_leading_dots(s).len()],
    decreases s.len(),
{
    if s.len() > 0 && s[0] == '.' {
        lemma_without_leading_dots(s.subrange(1, s.len() as int));
    }
}

/// The cleaned name is bounded, free of unsafe characters, and never starts
/// with a dot.
pub proof fn lemma_clean_name_safe(s: Seq<char>)
    ensures
        clean_name(s).len() <= MAX_NAME_LEN,
        forall|i: int| 0 <= i < clean_name(s).len() ==> safe_char(#[trigger] clean_name(s)[i]),
        clean_name(s).len() > 0 ==> clean_name(s)[0] != '.',
{
    lemma_scrubbed_safe(s);
    lemma_without_leading_dots(scrubbed(s));
}

/// The characters of a string, in order.
fn chars_of(s: &str) -> (v: Vec<char>)
    ensures
        v@ == s@,
{
    let n = s.unicode_len();
    let mut v: Vec<char> = Vec::new();
    let mut i: usize = 0;
    while i < n
        invariant
            i <= n,
            n == s@.len(),
            v@ == s@.take(i as int),
        decreases n - i,
    {
        v.push(s.get_char(i));
        proof {
            assert(s@.take(i + 1) =~= s@.take(i as int).push(s@[i as int]));
        }
        i = i + 1;
    }
    proof {
        assert(s@.take(n as int) =~= s@);
    }
    v
}

/// A string holding exactly the given characters.
fn string_of(v: &Vec<char>) -> (s: String)
    ensures
        s@ == v@,
{
    let mut s = String::new();
    let mut i: usize = 0;
    while i < v.len()
        invariant
            i <= v@.len(),
            s@ == v@.take(i as int),
        decreases v@.len() - i,
    {
        push_char(&mut s, v[i]);
        proof {
            assert(v@.take(i + 1) =~= v@.take(i as int).push(v@[i as int]));
        }
        i = i + 1;
    }
    proof {
        assert(v@.take(v@.len() as int) =~= v@);
    }
    s
}

/// Whether a character may appear in a storage key.
pub fn is_safe_char(c: char) -> (r: bool)
    ensures
        r == safe_char(c),
{
    c != '/' && c != '\\' && c != '\u{0}'
}

/// Remove every unsafe character.
fn scrub_chars(v: &Vec<char>) -> (r: Vec<char>)
    ensures
        r@ == scrubbed(v@),
{
    let mut r: Vec<char> = Vec::new();
    let mut i: usize = 0;
    while i < v.len()
        invariant
            i <= v@.len(),
            r@ == scrubbed(v@.take(i as int)),
        decreases v@.len() - i,
    {
        proof {
            assert(v@.take(i + 1).drop_last() =~= v@.take(i as int));
        }
        let c = v[i];
        if is_safe_char(c) {
            r.push(c);
        }
        i = i + 1;
    }
    proof {
        assert(v@.take(v@.len() as int) =~= v@);
    }
    r
}

/// Stripping leading dots equals taking the suffix that starts at the first
/// index holding no dot.
proof fn lemma_dots_suffix(s: Seq<char>, j: int)
    requires
        0 <= j <= s.len(),
        forall|i: int| 0 <= i < j ==> s[i] == '.',
        j < s.len() ==> s[j] != '.',
    ensures
        without_leading_dots(s) == s.subrange(j, s.len() as int),
    decreases j,
{
    if j == 0 {
        if !(s.len() > 0 && s[0] == '.') {
            assert(s.subrange(0, s.len() as int) =~= s);
        } else {
            assert(false);
        }
    } else {
        let t = s.subrange(1, s.len() as int);
        lemma_dots_suffix(t, j - 1);
        assert(t.subrange(j - 1, t.len() as int) =~= s.subrange(j, s.len() as int));
    }
}

/// The verified cleaning pass over a filename's characters.
fn clean_chars(v: &Vec<char>) -> (r: Vec<char>)
    ensures
        r@ == clean_name(v@),
{
    let scrubbed_v = scrub_chars(v);
    let n = scrubbed_v.len();
    let mut j: usize = 0;
    while j < n && scrubbed_v[j] == '.'
        invariant
            j <= n,
            n == scrubbed_v@.len(),
            forall|i: int| 0 <= i < j ==> scrubbed_v@[i] == '.',
        decreases n - j,
    {
        j = j + 1;
    }
    proof {
        lemma_dots_suffix(scrubbed_v@, j as int);
    }
    let mut r: Vec<char> = Vec::new();
    let mut i: usize = j;
    while i < n && r.len() < MAX_NAME_LEN
        invariant
            j <= i <= n,
            n == scrubbed_v@.len(),
            r@ == scrubbed_v@.subrange(j as int, i as int),
            r@.len() <= MAX_NAME_LEN,
        decreases n - i,
    {
        r.push(scrubbed_v[i]);
        proof {
            assert(scrubbed_v@.subrange(j as int, i + 1) =~= scrubbed_v@.subrange(
                j as int,
                i as int,
            ).push(scrubbed_v@[i as int]));
        }
        i = i + 1;
    }
    proof {
        let tail = scrubbed_v@.subrange(j as int, n as int);
        if i == n {
            assert(r@ =~= tail);
            assert(tail.len() <= MAX_NAME_LEN);
        } else {
            assert(r@.len() == MAX_NAME_LEN);
            assert(r@ =~= tail.take(MAX_NAME_LEN as int));
        }
    }
    r
}

/// Produce a fresh traversal-safe storage key for a client-supplied
/// filename: a random UUID, an underscore, and the cleaned filename run
/// through the off-the-shelf sanitizer and the verified cleaning pass.
///
/// The UUID component is random, so two calls on the same filename yield
/// unrelated keys; everything else about the key is pinned down here.
pub fn allocate_key(filename: &str) -> (k: String)
    ensures
        safe_key(k@),
        k@.len() == UUID_LEN + 1 + clean_name(sanitized_of(filename@)).len(),
        uuid_like(k@.subrange(0, UUID_LEN as int)),
        k@[UUID_LEN as int] == '_',
        k@.subrange(UUID_LEN + 1, k@.len() as int) == clean_name(sanitized_of(filename@)),
{
    let uuid = fresh_uuid();
    let sanitized = sanitize_name(filename);
    let cleaned = clean_chars(&chars_of(sanitized.as_str()));
    let tail = string_of(&cleaned);
    let mut k = uuid;
    push_char(&mut k, '_');
    k.append(tail.as_str());
    proof {
        let u = k@.subrange(0, UUID_LEN as int);
        let name = clean_name(sanitized_of(filename@));
        assert(u =~= k@.subrange(0, UUID_LEN as int));
        assert(uuid_like(u)) by {
            assert(forall|i: int| 0 <= i < UUID_LEN ==> u[i] == k@[i]);
        }
        assert(k@.subrange(UUID_LEN + 1, k@.len() as int) =~= name);
        lemma_clean_name_safe(sanitized_of(filename@));
        assert forall|i: int| 0 <= i < k@.len() implies safe_char(#[trigger] k@[i]) by {
            if i < UUID_LEN {
                assert(hex_lower(u[i]) || u[i] == '-');
            } else if i == UUID_LEN {
            } else {
                assert(k@[i] == name[i - (UUID_LEN + 1)]);
            }
        }
        assert(k@[0] != '.') by {
            assert(hex_lower(u[0]));
        }
    }
    k
}

} // verus!
