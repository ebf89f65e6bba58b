//! Which files hold images that the search takes, judged by extension.
use vstd::prelude::*;

verus! {

/// What `str::to_lowercase` makes of `s`.
pub uninterp spec fn lower_of(s: Seq<char>) -> Seq<char>;

/// Relies on `str::to_lowercase`: the lower-case form of `s`, which depends
/// on its characters alone.
#[verifier::external_body]
fn lowercase(s: &str) -> (r: String)
    ensures
        r@ == lower_of(s@),
{
    s.to_lowercase()
}

/// The part of `s` after its last `.`; all of `s` where it has none.
pub open spec fn extension_of(s: Seq<char>) -> Seq<char>
    decreases s.len(),
{
    if s.len() == 0 {
        s
    } else if s.last() == '.' {
        Seq::empty()
    } else {
        extension_of(s.drop_last()).push(s.last())
    }
}

/// `e` is one of the extensions of a supported image format.
pub open spec fn supported_extension(e: Seq<char>) -> bool {
    ||| e == seq!['j', 'p', 'g']
    ||| e == seq!['j', 'p', 'e', 'g']
    ||| e == seq!['g', 'i', 'f']
    ||| e == seq!['p', 'n', 'g']
    ||| e == seq!['t', 'i', 'f']
    ||| e == seq!['t', 'i', 'f', 'f']
}

/// The file `path` has the extension of a supported format, in any case.
pub open spec fn supported_path(path: Seq<char>) -> bool {
    supported_extension(lower_of(extension_of(path)))
}

fn chars_equal(s: &str, expected: &Vec<char>) -> (r: bool)
    ensures
        r == (s@ == expected@),
{
    let ghost t = expected@;
    let n = s.unicode_len();
    if n != expected.len() {
        return false;
    }
    let mut i: usize = 0;
    while i < n
        invariant
            n == s@.len() == t.len(),
            t == expected@,
            i <= n,
            forall|j: int| 0 <= j < i ==> s@[j] == t[j],
        decreases n - i,
    {
        if s.get_char(i) != expected[i] {
            return false;
        }
        i += 1;
    }
    assert(s@ =~= t);
    true
}

/// Whether `ext`, already in lower case, is the extension of a supported format.
pub fn is_supported_extension(ext: &str) -> (r: bool)
    ensures
        r == supported_extension(ext@),
{
    chars_equal(ext, &vec!['j', 'p', 'g'])
        || chars_equal(ext, &vec!['j', 'p', 'e', 'g'])
        || chars_equal(ext, &vec!['g', 'i', 'f'])
        || chars_equal(ext, &vec!['p', 'n', 'g'])
        || chars_equal(ext, &vec!['t', 'i', 'f'])
        || chars_equal(ext, &vec!['t', 'i', 'f', 'f'])
}

/// The part of `path` after its last `.`.
pub fn extension(path: &str) -> (r: &str)
    ensures
        r@ == extension_of(path@),
{
    let n = path.unicode_len();
    let mut start: usize = 0;
    let mut i: usize = 0;
    while i < n
        invariant
            n == path@.len(),
            start <= i <= n,
            extension_of(path@.subrange(0, i as int)) == path@.subrange(start as int, i as int),
        decreases n - i,
    {
        assert(path@.subrange(0, i + 1).drop_last() =~= path@.subrange(0, i as int));
        if path.get_char(i) == '.' {
            start = i + 1;
            assert(path@.subrange(start as int, i + 1) =~= Seq::<char>::empty());
        } else {
            assert(path@.subrange(start as int, i + 1) =~= path@.subrange(start as int, i as int).push(
                path@[i as int],
            ));
        }
        i += 1;
    }
    assert(path@.subrange(0, n as int) =~= path@);
    path.substring_char(start, n)
}

/// Whether `path` names a file of a supported image format: its extension,
/// in lower case, is jpg, jpeg, gif, png, tif or tiff.
pub fn is_supported_format(path: &str) -> (r: bool)
    ensures
        r == supported_path(path@),
{
    let ext = lowercase(extension(path));
    is_supported_extension(ext.as_str())
}

/// Whether `file_name` names a file of a supported image format.
pub fn valid_image_file(file_name: &str) -> (r: bool)
    ensures
        r == supported_path(file_name@),
{
    is_supported_format(file_name)
}

} // verus!
