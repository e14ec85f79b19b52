use vstd::prelude::*;
use vstd::string::*;
use vstd::utf8::*;

use crate::error::UploadError;

verus! {

/// Width, in bytes, of the name field that the first frame carries.
pub const NAME_FIELD_MAX: usize = 12;

/// The characters that the receiver's file system cannot hold in a name.
pub open spec fn is_forbidden(c: char) -> bool {
    c == ' ' || c == '\t' || c == '.' || c == '\\' || c == '/'
}

/// A forbidden character becomes an underscore; any other stays.
pub open spec fn safe_char(c: char) -> char {
    if is_forbidden(c) {
        '_'
    } else {
        c
    }
}

pub open spec fn sanitize(s: Seq<char>) -> Seq<char> {
    s.map_values(|c: char| safe_char(c))
}

/// The first `n` characters of `s`, or all of it when it is shorter.
pub open spec fn take_prefix(s: Seq<char>, n: nat) -> Seq<char> {
    if s.len() <= n {
        s
    } else {
        s.subrange(0, n as int)
    }
}

/// Index of the last '.' in `s`, or -1 when there is none.
pub open spec fn last_dot(s: Seq<char>) -> int
    decreases s.len(),
{
    if s.len() == 0 {
        -1
    } else if s.last() == '.' {
        s.len() - 1
    } else {
        last_dot(s.drop_last())
    }
}

/// What stands before the last dot; the whole name when it has no dot.
pub open spec fn stem_of(s: Seq<char>) -> Seq<char> {
    if last_dot(s) < 0 {
        s
    } else {
        s.subrange(0, last_dot(s))
    }
}

/// What follows the last dot; empty when the name has no dot.
pub open spec fn extension_of(s: Seq<char>) -> Seq<char> {
    if last_dot(s) < 0 {
        Seq::empty()
    } else {
        s.subrange(last_dot(s) + 1, s.len() as int)
    }
}

/// The short `STEM.EXT` name that the receiver stores a file under.
pub open spec fn short_name(s: Seq<char>) -> Seq<char> {
    sanitize(take_prefix(stem_of(s), 8)) + seq!['.'] + sanitize(take_prefix(extension_of(s), 3))
}

proof fn lemma_last_dot_range(s: Seq<char>)
    ensures
        -1 <= last_dot(s) < s.len(),
        last_dot(s) >= 0 ==> s[last_dot(s)] == '.',
        forall|k: int| last_dot(s) < k < s.len() ==> s[k] != '.',
    decreases s.len(),
{
    if s.len() > 0 {
        lemma_last_dot_range(s.drop_last());
        assert(forall|k: int| 0 <= k < s.len() - 1 ==> s.drop_last()[k] == #[trigger] s[k]);
    }
}

proof fn lemma_last_dot_step(s: Seq<char>, j: int)
    requires
        0 <= j < s.len(),
    ensures
        last_dot(s.subrange(0, j + 1)) == if s[j] == '.' {
            j
        } else {
            last_dot(s.subrange(0, j))
        },
{
    assert(s.subrange(0, j + 1).drop_last() =~= s.subrange(0, j));
}

/// Appends one character.
/// Relies on `String::push`, which appends the character to the end of the string.
#[verifier::external_body]
fn push_char(s: &mut String, c: char)
    ensures
        final(s)@ == old(s)@.push(c),
{
    s.push(c)
}

fn find_last_dot(s: &str) -> (r: Option<usize>)
    ensures
        r == (if last_dot(s@) < 0 {
            None::<usize>
        } else {
            Some(last_dot(s@) as usize)
        }),
{
    let n = s.unicode_len();
    let mut found: Option<usize> = None;
    let mut j: usize = 0;
    while j < n
        invariant
            n == s@.len(),
            j <= n,
            found == (if last_dot(s@.subrange(0, j as int)) < 0 {
                None::<usize>
            } else {
                Some(last_dot(s@.subrange(0, j as int)) as usize)
            }),
        decreases n - j,
    {
        proof {
            lemma_last_dot_step(s@, j as int);
            lemma_last_dot_range(s@.subrange(0, j as int));
        }
        if s.get_char(j) == '.' {
            found = Some(j);
        }
        j = j + 1;
    }
    assert(s@.subrange(0, n as int) =~= s@);
    found
}

/// Appends the characters of `s` in `from..to`.
fn append_range(out: &mut String, s: &str, from: usize, to: usize)
    requires
        from <= to <= s@.len(),
    ensures
        final(out)@ == old(out)@ + s@.subrange(from as int, to as int),
{
    let ghost start = out@;
    let mut j: usize = from;
    while j < to
        invariant
            from <= j <= to <= s@.len(),
            out@ == start + s@.subrange(from as int, j as int),
        decreases to - j,
    {
        let c = s.get_char(j);
        push_char(out, c);
        assert(s@.subrange(from as int, j + 1) =~= s@.subrange(from as int, j as int).push(c));
        j = j + 1;
    }
}

/// Splits a file name at its last dot into stem and extension; a name
/// without a dot is all stem. Joined again by a dot, the two give back the
/// name.
pub fn split_at_last_dot(filename: &str) -> (r: (String, String))
    ensures
        r.0@ == stem_of(filename@),
        r.1@ == extension_of(filename@),
        last_dot(filename@) >= 0 ==> r.0@ + seq!['.'] + r.1@ == filename@,
        last_dot(filename@) < 0 ==> r.0@ == filename@ && r.1@.len() == 0,
        forall|i: int| 0 <= i < r.1@.len() ==> r.1@[i] != '.',
{
    let n = filename.unicode_len();
    let mut stem = String::new();
    let mut extension = String::new();
    match find_last_dot(filename) {
        None => {
            append_range(&mut stem, filename, 0, n);
            assert(filename@.subrange(0, n as int) =~= filename@);
            assert(extension@ =~= extension_of(filename@));
        },
        Some(d) => {
            proof {
                lemma_last_dot_range(filename@);
            }
            append_range(&mut stem, filename, 0, d);
            append_range(&mut extension, filename, d + 1, n);
            assert(stem@ =~= stem_of(filename@));
            assert(extension@ =~= extension_of(filename@));
            assert(stem@ + seq!['.'] + extension@ =~= filename@);
        },
    }
    (stem, extension)
}

/// Appends the first `limit` characters of `s` with the forbidden ones
/// replaced.
fn append_sanitized(out: &mut String, s: &str, limit: usize)
    ensures
        final(out)@ == old(out)@ + sanitize(take_prefix(s@, limit as nat)),
{
    let ghost start = out@;
    let n = s.unicode_len();
    let m = if n <= limit {
        n
    } else {
        limit
    };
    let ghost t = take_prefix(s@, limit as nat);
    assert(t =~= s@.subrange(0, m as int));
    let mut j: usize = 0;
    while j < m
        invariant
            m <= n == s@.len(),
            j <= m,
            t == s@.subrange(0, m as int),
            out@ == start + sanitize(t.subrange(0, j as int)),
        decreases m - j,
    {
        let c = s.get_char(j);
        let d = if c == ' ' || c == '\t' || c == '.' || c == '\\' || c == '/' {
            '_'
        } else {
            c
        };
        push_char(out, d);
        assert(sanitize(t.subrange(0, j + 1)) =~= sanitize(t.subrange(0, j as int)).push(d));
        j = j + 1;
    }
    assert(t.subrange(0, m as int) =~= t);
}

/// Derives the short name that the receiver stores the file under: stem cut
/// to eight characters, extension to three, forbidden characters replaced by
/// underscores, joined by a dot.
pub fn filename_to_short(filename: &str) -> (r: String)
    ensures
        r@ == short_name(filename@),
{
    let (stem, extension) = split_at_last_dot(filename);
    let mut r = String::new();
    append_sanitized(&mut r, stem.as_str(), 8);
    push_char(&mut r, '.');
    append_sanitized(&mut r, extension.as_str(), 3);
    assert(r@ =~= short_name(filename@));
    r
}

/// The bytes of the name field for a file name: the UTF-8 encoding of its
/// short name, refused when it is wider than the field.
pub fn short_name_field(filename: &str) -> (r: Result<Vec<u8>, UploadError>)
    ensures
        encode_utf8(short_name(filename@)).len() <= NAME_FIELD_MAX <==> r is Ok,
        r matches Ok(b) ==> b@ == encode_utf8(short_name(filename@)),
        r matches Err(e) ==> e == UploadError::NameTooLong,
{
    let short = filename_to_short(filename);
    let bytes = short.as_str().as_bytes_vec();
    if bytes.len() <= NAME_FIELD_MAX {
        Ok(bytes)
    } else {
        Err(UploadError::NameTooLong)
    }
}

/// Whatever the file name, its short name has a stem of at most eight
/// characters and an extension of at most three, separated by a dot, holds no
/// forbidden character, and is at most as many characters long as the name
/// field is wide. A name of ASCII characters always fits the field.
pub proof fn lemma_short_name_shape(s: Seq<char>)
    ensures
        ({
            let r = short_name(s);
            let stem = sanitize(take_prefix(stem_of(s), 8));
            let ext = sanitize(take_prefix(extension_of(s), 3));
            &&& stem.len() <= 8
            &&& ext.len() <= 3
            &&& r == stem + seq!['.'] + ext
            &&& r.len() <= NAME_FIELD_MAX
            &&& forall|i: int| 0 <= i < stem.len() ==> !is_forbidden(#[trigger] stem[i])
            &&& forall|i: int| 0 <= i < ext.len() ==> !is_forbidden(#[trigger] ext[i])
        }),
        is_ascii_chars(s) ==> encode_utf8(short_name(s)).len() <= NAME_FIELD_MAX,
{
    let r = short_name(s);
    if is_ascii_chars(s) {
        lemma_last_dot_range(s);
        assert(is_ascii_chars(r));
        is_ascii_chars_encode_utf8(r);
    }
}

} // verus!
