//! Path strings, seen as sequences of characters.
//!
//! A path here is plain text: the component after the last `/` is the file
//! name, the part of the file name after its last `.` is the extension.
//! This module also provides the lexicographic order used to sort a folder
//! listing, and case-insensitive matching of the supported image extensions.

use vstd::prelude::*;

verus! {

/// Code point of `c`, with an upper-case ASCII letter folded to lower case.
pub open spec fn lower_code(c: char) -> u32 {
    if 'A' as u32 <= c as u32 && c as u32 <= 'Z' as u32 {
        (c as u32 + 32) as u32
    } else {
        c as u32
    }
}

/// Executable counterpart of [`lower_code`].
pub fn lower_code_of(c: char) -> (r: u32)
    ensures
        r == lower_code(c),
{
    let u = c as u32;
    if 65 <= u && u <= 90 {
        u + 32
    } else {
        u
    }
}

/// Index of the last occurrence of `c` in `s`, or `-1` when `s` has none.
pub open spec fn last_pos_of(s: Seq<char>, c: char) -> int
    decreases s.len(),
{
    if s.len() == 0 {
        -1
    } else if s[s.len() - 1] == c {
        s.len() - 1
    } else {
        last_pos_of(s.drop_last(), c)
    }
}

/// What [`last_pos_of`] returns: a position of `c` with nothing but other
/// characters after it, or `-1` with no occurrence at all.
pub proof fn lemma_last_pos_of(s: Seq<char>, c: char)
    ensures
        -1 <= last_pos_of(s, c) < s.len(),
        last_pos_of(s, c) >= 0 ==> s[last_pos_of(s, c)] == c,
        forall|j: int| last_pos_of(s, c) < j < s.len() ==> s[j] != c,
    decreases s.len(),
{
    if s.len() > 0 && s[s.len() - 1] != c {
        lemma_last_pos_of(s.drop_last(), c);
        assert forall|j: int| last_pos_of(s, c) < j < s.len() implies s[j] != c by {
            if j < s.len() - 1 {
                assert(s.drop_last()[j] == s[j]);
            }
        }
    }
}

/// Finds the last occurrence of `c` in `s`.
pub fn find_last(s: &str, c: char) -> (r: Option<usize>)
    ensures
        match r {
            Some(i) => i == last_pos_of(s@, c),
            None => last_pos_of(s@, c) == -1,
        },
{
    let n = s.unicode_len();
    let mut k = n;
    while k > 0
        invariant
            k <= n,
            n == s@.len(),
            forall|j: int| k <= j < s@.len() ==> s@[j] != c,
        decreases k,
    {
        k = k - 1;
        if s.get_char(k) == c {
            proof {
                lemma_last_pos_of(s@, c);
                let lp = last_pos_of(s@, c);
                if lp < k {
                    assert(s@[k as int] != c);
                }
            }
            return Some(k);
        }
    }
    proof {
        lemma_last_pos_of(s@, c);
        let lp = last_pos_of(s@, c);
        if lp >= 0 {
            assert(s@[lp] != c);
        }
    }
    None
}

/// The component of `path` after its last `/`; the whole of `path` when it
/// has no `/`.
pub open spec fn file_name_of(path: Seq<char>) -> Seq<char> {
    path.subrange(last_pos_of(path, '/') + 1, path.len() as int)
}

/// Executable counterpart of [`file_name_of`].
pub fn file_name(path: &str) -> (r: &str)
    ensures
        r@ == file_name_of(path@),
{
    let n = path.unicode_len();
    match find_last(path, '/') {
        Some(i) => {
            proof {
                lemma_last_pos_of(path@, '/');
            }
            path.substring_char(i + 1, n)
        },
        None => {
            proof {
                assert(path@ =~= file_name_of(path@));
            }
            path
        },
    }
}

/// The extension of the file name of `path`: what follows the last `.` of
/// the file name, unless the only `.` opens the name (a dotfile) or the name
/// has no `.` at all.
pub open spec fn extension_of(path: Seq<char>) -> Option<Seq<char>> {
    let name = file_name_of(path);
    let d = last_pos_of(name, '.');
    if d <= 0 {
        None
    } else {
        Some(name.subrange(d + 1, name.len() as int))
    }
}

/// The image formats the viewer opens, matched without regard to ASCII case.
pub open spec fn is_supported_extension(ext: Seq<char>) -> bool {
    ||| (ext.len() == 3 && lower_code(ext[0]) == 'j' as u32 && lower_code(ext[1]) == 'p' as u32
        && lower_code(ext[2]) == 'g' as u32)
    ||| (ext.len() == 3 && lower_code(ext[0]) == 'p' as u32 && lower_code(ext[1]) == 'n' as u32
        && lower_code(ext[2]) == 'g' as u32)
    ||| (ext.len() == 3 && lower_code(ext[0]) == 'g' as u32 && lower_code(ext[1]) == 'i' as u32
        && lower_code(ext[2]) == 'f' as u32)
    ||| (ext.len() == 3 && lower_code(ext[0]) == 'b' as u32 && lower_code(ext[1]) == 'm' as u32
        && lower_code(ext[2]) == 'p' as u32)
    ||| (ext.len() == 3 && lower_code(ext[0]) == 'i' as u32 && lower_code(ext[1]) == 'c' as u32
        && lower_code(ext[2]) == 'o' as u32)
    ||| (ext.len() == 4 && lower_code(ext[0]) == 'j' as u32 && lower_code(ext[1]) == 'p' as u32
        && lower_code(ext[2]) == 'e' as u32 && lower_code(ext[3]) == 'g' as u32)
    ||| (ext.len() == 4 && lower_code(ext[0]) == 'w' as u32 && lower_code(ext[1]) == 'e' as u32
        && lower_code(ext[2]) == 'b' as u32 && lower_code(ext[3]) == 'p' as u32)
    ||| (ext.len() == 4 && lower_code(ext[0]) == 't' as u32 && lower_code(ext[1]) == 'i' as u32
        && lower_code(ext[2]) == 'f' as u32 && lower_code(ext[3]) == 'f' as u32)
    ||| (ext.len() == 4 && lower_code(ext[0]) == 'a' as u32 && lower_code(ext[1]) == 'v' as u32
        && lower_code(ext[2]) == 'i' as u32 && lower_code(ext[3]) == 'f' as u32)
}

/// Whether `path` names a file the viewer would try to decode.
pub open spec fn is_supported_image_path(path: Seq<char>) -> bool {
    match extension_of(path) {
        Some(e) => is_supported_extension(e),
        None => false,
    }
}

/// Lexicographic order on character sequences, by code point.
pub open spec fn lex_le(a: Seq<char>, b: Seq<char>) -> bool
    decreases a.len(),
{
    if a.len() == 0 {
        true
    } else if b.len() == 0 {
        false
    } else if (a[0] as u32) < (b[0] as u32) {
        true
    } else if (a[0] as u32) > (b[0] as u32) {
        false
    } else {
        lex_le(a.drop_first(), b.drop_first())
    }
}

/// Any two character sequences are ordered one way or the other.
pub proof fn lemma_lex_le_total(a: Seq<char>, b: Seq<char>)
    ensures
        lex_le(a, b) || lex_le(b, a),
    decreases a.len(),
{
    if a.len() > 0 && b.len() > 0 && a[0] as u32 == b[0] as u32 {
        lemma_lex_le_total(a.drop_first(), b.drop_first());
    }
}

/// The lexicographic order is transitive.
pub proof fn lemma_lex_le_trans(a: Seq<char>, b: Seq<char>, c: Seq<char>)
    requires
        lex_le(a, b),
        lex_le(b, c),
    ensures
        lex_le(a, c),
    decreases a.len(),
{
    if a.len() > 0 && b.len() > 0 && c.len() > 0 && a[0] as u32 == b[0] as u32 && b[0] as u32 == c[0]
        as u32 {
        lemma_lex_le_trans(a.drop_first(), b.drop_first(), c.drop_first());
    }
}

/// Dropping an equal prefix of both sequences does not change their order.
proof fn lemma_lex_le_skip(a: Seq<char>, b: Seq<char>, i: int)
    requires
        0 <= i <= a.len(),
        i <= b.len(),
        forall|j: int| 0 <= j < i ==> a[j] == b[j],
    ensures
        lex_le(a, b) == lex_le(a.skip(i), b.skip(i)),
    decreases i,
{
    if i > 0 {
        assert(a[0] == b[0]);
        assert(a.drop_first() =~= a.skip(1));
        assert(b.drop_first() =~= b.skip(1));
        assert(forall|j: int| 0 <= j < i - 1 ==> a.drop_first()[j] == b.drop_first()[j]);
        lemma_lex_le_skip(a.drop_first(), b.drop_first(), i - 1);
        assert(a.drop_first().skip(i - 1) =~= a.skip(i));
        assert(b.drop_first().skip(i - 1) =~= b.skip(i));
    } else {
        assert(a.skip(0) =~= a);
        assert(b.skip(0) =~= b);
    }
}

/// Compares two string slices in the order of [`lex_le`].
pub fn str_le(a: &str, b: &str) -> (r: bool)
    ensures
        r == lex_le(a@, b@),
{
    let an = a.unicode_len();
    let bn = b.unicode_len();
    let mut i: usize = 0;
    loop
        invariant
            i <= an,
            i <= bn,
            an == a@.len(),
            bn == b@.len(),
            forall|j: int| 0 <= j < i ==> a@[j] == b@[j],
        decreases an - i,
    {
        if i >= an {
            proof {
                lemma_lex_le_skip(a@, b@, i as int);
            }
            return true;
        }
        if i >= bn {
            proof {
                lemma_lex_le_skip(a@, b@, i as int);
            }
            return false;
        }
        let ca = a.get_char(i);
        let cb = b.get_char(i);
        let ua = ca as u32;
        let ub = cb as u32;
        if ua != ub {
            proof {
                lemma_lex_le_skip(a@, b@, i as int);
                assert(a@.skip(i as int)[0] == a@[i as int]);
                assert(b@.skip(i as int)[0] == b@[i as int]);
            }
            return ua < ub;
        }
        proof {
            vstd::utf8::char_u32_cast(ca, ua);
            vstd::utf8::char_u32_cast(cb, ub);
        }
        i = i + 1;
    }
}

/// Whether two string slices hold the same characters.
pub fn strings_equal(a: &str, b: &str) -> (r: bool)
    ensures
        r == (a@ == b@),
{
    let an = a.unicode_len();
    let bn = b.unicode_len();
    if an != bn {
        return false;
    }
    let mut i: usize = 0;
    while i < an
        invariant
            i <= an,
            an == a@.len(),
            bn == b@.len(),
            an == bn,
            forall|j: int| 0 <= j < i ==> a@[j] == b@[j],
        decreases an - i,
    {
        if a.get_char(i) != b.get_char(i) {
            return false;
        }
        i = i + 1;
    }
    proof {
        assert(a@ =~= b@);
    }
    true
}

/// Executable check of [`is_supported_extension`] on a string slice.
fn extension_supported(ext: &str) -> (r: bool)
    ensures
        r == is_supported_extension(ext@),
{
    let n = ext.unicode_len();
    if n == 3 {
        let a = lower_code_of(ext.get_char(0));
        let b = lower_code_of(ext.get_char(1));
        let c = lower_code_of(ext.get_char(2));
        (a == 'j' as u32 && b == 'p' as u32 && c == 'g' as u32) || (a == 'p' as u32 && b == 'n'
            as u32 && c == 'g' as u32) || (a == 'g' as u32 && b == 'i' as u32 && c == 'f' as u32)
            || (a == 'b' as u32 && b == 'm' as u32 && c == 'p' as u32) || (a == 'i' as u32 && b
            == 'c' as u32 && c == 'o' as u32)
    } else if n == 4 {
        let a = lower_code_of(ext.get_char(0));
        let b = lower_code_of(ext.get_char(1));
        let c = lower_code_of(ext.get_char(2));
        let d = lower_code_of(ext.get_char(3));
        (a == 'j' as u32 && b == 'p' as u32 && c == 'e' as u32 && d == 'g' as u32) || (a == 'w'
            as u32 && b == 'e' as u32 && c == 'b' as u32 && d == 'p' as u32) || (a == 't' as u32
            && b == 'i' as u32 && c == 'f' as u32 && d == 'f' as u32) || (a == 'a' as u32 && b
            == 'v' as u32 && c == 'i' as u32 && d == 'f' as u32)
    } else {
        false
    }
}

/// Executable counterpart of [`is_supported_image_path`].
pub fn is_supported_image(path: &str) -> (r: bool)
    ensures
        r == is_supported_image_path(path@),
{
    let name = file_name(path);
    let n = name.unicode_len();
    match find_last(name, '.') {
        None => false,
        Some(d) => {
            proof {
                lemma_last_pos_of(name@, '.');
            }
            if d == 0 {
                false
            } else {
                let ext = name.substring_char(d + 1, n);
                extension_supported(ext)
            }
        },
    }
}

} // verus!
