use vstd::prelude::*;

verus! {

/// What `str::trim` yields for the given characters.
pub uninterp spec fn trim_of(s: Seq<char>) -> Seq<char>;

/// What `str::to_lowercase` yields for the given characters.
pub uninterp spec fn lower_of(s: Seq<char>) -> Seq<char>;

/// The characters with the Unicode `White_Space` property.
pub open spec fn unicode_white_space(c: char) -> bool {
    let u = c as u32;
    (0x09 <= u && u <= 0x0d) || u == 0x20 || u == 0x85 || u == 0xa0 || u == 0x1680 || (0x2000 <= u
        && u <= 0x200a) || u == 0x2028 || u == 0x2029 || u == 0x202f || u == 0x205f || u == 0x3000
}

/// Relies on `str::trim`: the result is a contiguous part of the input,
/// only characters with the `White_Space` property are removed around it,
/// and none remains at either end of it.
#[verifier::external_body]
pub(crate) fn trim_text(s: &str) -> (r: String)
    ensures
        r@ == trim_of(s@),
        exists|a: int, b: int|
            0 <= a <= b <= s@.len() && r@ == s@.subrange(a, b) && forall|k: int|
                (0 <= k < a || b <= k < s@.len()) ==> unicode_white_space(#[trigger] s@[k]),
        r@.len() > 0 ==> !unicode_white_space(r@[0]) && !unicode_white_space(r@.last()),
{
    s.trim().to_string()
}

/// Relies on `str::to_lowercase`: the result depends on the characters alone.
#[verifier::external_body]
pub(crate) fn lowercase(s: &str) -> (r: String)
    ensures
        r@ == lower_of(s@),
{
    s.to_lowercase()
}

/// The text holds a character without the `White_Space` property.
pub open spec fn has_visible_char(s: Seq<char>) -> bool {
    exists|k: int| 0 <= k < s.len() && !unicode_white_space(#[trigger] s[k])
}

/// Whether the text is empty once surrounding whitespace is removed.
pub open spec fn is_blank(s: Seq<char>) -> bool {
    trim_of(s).len() == 0
}

pub fn is_blank_text(s: &str) -> (r: bool)
    ensures
        r == is_blank(s@),
        !r ==> has_visible_char(s@),
{
    let t = trim_text(s);
    proof {
        if t@.len() > 0 {
            let (a, b) = choose|a: int, b: int|
                0 <= a <= b <= s@.len() && t@ == s@.subrange(a, b) && forall|k: int|
                    (0 <= k < a || b <= k < s@.len()) ==> unicode_white_space(#[trigger] s@[k]);
            assert(s@[a] == t@[0]);
        }
    }
    t.as_str().unicode_len() == 0
}

/// Character-wise equality of two strings.
pub fn text_eq(a: &str, b: &str) -> (r: bool)
    ensures
        r == (a@ == b@),
{
    let n = a.unicode_len();
    if n != b.unicode_len() {
        return false;
    }
    let mut i: usize = 0;
    while i < n
        invariant
            n == a@.len(),
            n == b@.len(),
            i <= n,
            a@.subrange(0, i as int) == b@.subrange(0, i as int),
        decreases n - i,
    {
        if a.get_char(i) != b.get_char(i) {
            assert(a@[i as int] != b@[i as int]);
            return false;
        }
        assert(a@.subrange(0, i + 1) == a@.subrange(0, i as int).push(a@[i as int]));
        assert(b@.subrange(0, i + 1) == b@.subrange(0, i as int).push(b@[i as int]));
        i = i + 1;
    }
    assert(a@ == a@.subrange(0, n as int));
    assert(b@ == b@.subrange(0, n as int));
    true
}

/// Copy of a string slice into an owned string.
pub fn owned(s: &str) -> (r: String)
    ensures
        r@ == s@,
{
    String::from_str(s)
}

} // verus!
