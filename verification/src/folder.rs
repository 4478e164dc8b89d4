//! The folder listing: which files of a folder the viewer browses, and in
//! what order.
//!
//! The listing keeps the paths of the image files of one folder, sorted
//! lexicographically.  Reading the folder is I/O and happens outside the
//! library; this module turns the raw list of file paths into the listing.

use vstd::prelude::*;

use crate::path_text::is_supported_image;
use crate::path_text::is_supported_image_path;
use crate::path_text::lemma_lex_le_total;
use crate::path_text::lemma_lex_le_trans;
use crate::path_text::lex_le;
use crate::path_text::str_le;
use crate::path_text::strings_equal;

verus! {

/// Whether the sequence of paths is sorted lexicographically.
pub open spec fn paths_sorted(s: Seq<String>) -> bool {
    forall|i: int, j: int| 0 <= i < j < s.len() ==> #[trigger] lex_le(s[i]@, s[j]@)
}

/// Whether some element of `s` holds the characters `key`.
pub open spec fn contains_path(s: Seq<String>, key: Seq<char>) -> bool {
    exists|i: int| 0 <= i < s.len() && s[i]@ == key
}

/// Index of the first element of `s` that holds `key`, or `-1` when none
/// does.
pub open spec fn first_pos_of(s: Seq<String>, key: Seq<char>) -> int
    decreases s.len(),
{
    if s.len() == 0 {
        -1
    } else if s[0]@ == key {
        0
    } else {
        let r = first_pos_of(s.drop_first(), key);
        if r == -1 {
            -1
        } else {
            r + 1
        }
    }
}

/// What [`first_pos_of`] returns: the first position holding `key`, or `-1`
/// with no occurrence at all.
pub proof fn lemma_first_pos_of(s: Seq<String>, key: Seq<char>)
    ensures
        -1 <= first_pos_of(s, key) < s.len(),
        first_pos_of(s, key) >= 0 ==> s[first_pos_of(s, key)]@ == key,
        forall|j: int| 0 <= j < first_pos_of(s, key) ==> s[j]@ != key,
        first_pos_of(s, key) == -1 ==> forall|j: int| 0 <= j < s.len() ==> s[j]@ != key,
    decreases s.len(),
{
    if s.len() > 0 && s[0]@ != key {
        lemma_first_pos_of(s.drop_first(), key);
        let fp = first_pos_of(s, key);
        let fpd = first_pos_of(s.drop_first(), key);
        if fpd == -1 {
            assert forall|j: int| 0 <= j < s.len() implies s[j]@ != key by {
                if j > 0 {
                    assert(s.drop_first()[j - 1] == s[j]);
                }
            }
        } else {
            assert(s[fp]@ == key) by {
                assert(s.drop_first()[fpd] == s[fp]);
            }
            assert forall|j: int| 0 <= j < fp implies s[j]@ != key by {
                if j > 0 {
                    assert(s.drop_first()[j - 1] == s[j]);
                }
            }
        }
    }
}

/// Finds the first element of `v` that holds the characters of `key`.
pub fn position_of(v: &Vec<String>, key: &str) -> (r: Option<usize>)
    ensures
        match r {
            Some(i) => i == first_pos_of(v@, key@),
            None => first_pos_of(v@, key@) == -1,
        },
        r is Some <==> contains_path(v@, key@),
{
    let mut i: usize = 0;
    while i < v.len()
        invariant
            i <= v@.len(),
            forall|j: int| 0 <= j < i ==> v@[j]@ != key@,
        decreases v@.len() - i,
    {
        if strings_equal(v[i].as_str(), key) {
            proof {
                lemma_first_pos_of(v@, key@);
                let fp = first_pos_of(v@, key@);
                if fp > i {
                    assert(v@[i as int]@ != key@);
                }
            }
            return Some(i);
        }
        i = i + 1;
    }
    proof {
        lemma_first_pos_of(v@, key@);
        let fp = first_pos_of(v@, key@);
        if fp >= 0 {
            assert(v@[fp]@ != key@);
        }
    }
    None
}

/// The paths of `files` whose extension names a supported image format, in
/// their given order.
pub open spec fn supported_of(files: Seq<String>) -> Seq<String>
    decreases files.len(),
{
    if files.len() == 0 {
        files
    } else {
        let rest = supported_of(files.drop_last());
        if is_supported_image_path(files.last()@) {
            rest.push(files.last())
        } else {
            rest
        }
    }
}

/// Keeps the paths whose extension names a supported image format, in their
/// given order.
#[verifier::loop_isolation(false)]
pub fn filter_supported(files: &Vec<String>) -> (r: Vec<String>)
    ensures
        r@ == supported_of(files@),
{
    let mut out: Vec<String> = Vec::new();
    let mut i: usize = 0;
    proof {
        assert(files@.take(0) =~= Seq::<String>::empty());
    }
    while i < files.len()
        invariant
            i <= files@.len(),
            out@ == supported_of(files@.take(i as int)),
        decreases files@.len() - i,
    {
        proof {
            assert(files@.take(i as int + 1).drop_last() =~= files@.take(i as int));
            assert(files@.take(i as int + 1).last() == files@[i as int]);
        }
        if is_supported_image(files[i].as_str()) {
            out.push(files[i].clone());
        }
        i = i + 1;
    }
    proof {
        assert(files@.take(files@.len() as int) =~= files@);
    }
    out
}

/// Sequences holding the same paths contain the same characters.
pub proof fn lemma_contains_path_multiset(s1: Seq<String>, s2: Seq<String>, k: Seq<char>)
    requires
        s1.to_multiset() == s2.to_multiset(),
    ensures
        contains_path(s1, k) == contains_path(s2, k),
{
    broadcast use vstd::seq_lib::group_to_multiset_ensures;

    if contains_path(s1, k) {
        let i = choose|i: int| 0 <= i < s1.len() && s1[i]@ == k;
        assert(s1.contains(s1[i]));
        assert(s2.to_multiset().count(s1[i]) > 0);
        assert(s2.contains(s1[i]));
        let j = choose|j: int| 0 <= j < s2.len() && s2[j] == s1[i];
        assert(s2[j]@ == k);
    }
    if contains_path(s2, k) {
        let i = choose|i: int| 0 <= i < s2.len() && s2[i]@ == k;
        assert(s2.contains(s2[i]));
        assert(s1.to_multiset().count(s2[i]) > 0);
        assert(s1.contains(s2[i]));
        let j = choose|j: int| 0 <= j < s1.len() && s1[j] == s2[i];
        assert(s1[j]@ == k);
    }
}

/// Index of a least element of `v` in the order of [`lex_le`].
fn min_pos(v: &Vec<String>) -> (m: usize)
    requires
        v@.len() > 0,
    ensures
        m < v@.len(),
        forall|j: int| 0 <= j < v@.len() ==> lex_le(v@[m as int]@, #[trigger] v@[j]@),
{
    let mut m: usize = 0;
    let mut i: usize = 1;
    proof {
        lemma_lex_le_total(v@[0]@, v@[0]@);
    }
    while i < v.len()
        invariant
            m < i <= v@.len(),
            forall|j: int| 0 <= j < i ==> lex_le(v@[m as int]@, #[trigger] v@[j]@),
        decreases v@.len() - i,
    {
        if str_le(v[i].as_str(), v[m].as_str()) {
            proof {
                lemma_lex_le_total(v@[i as int]@, v@[i as int]@);
                assert forall|j: int| 0 <= j < i + 1 implies lex_le(
                    v@[i as int]@,
                    #[trigger] v@[j]@,
                ) by {
                    if j < i {
                        lemma_lex_le_trans(v@[i as int]@, v@[m as int]@, v@[j]@);
                    }
                }
            }
            m = i;
        } else {
            proof {
                lemma_lex_le_total(v@[i as int]@, v@[m as int]@);
            }
        }
        i = i + 1;
    }
    m
}

/// Sorts paths lexicographically.  The result holds exactly the given paths.
pub fn sort_paths(input: Vec<String>) -> (r: Vec<String>)
    ensures
        paths_sorted(r@),
        r@.to_multiset() == input@.to_multiset(),
        r@.len() == input@.len(),
{
    broadcast use vstd::seq_lib::group_to_multiset_ensures;

    let mut rem = input;
    let mut out: Vec<String> = Vec::new();
    proof {
        assert(out@.to_multiset().add(rem@.to_multiset()) =~= rem@.to_multiset());
    }
    let ghost whole = rem@;
    while rem.len() > 0
        invariant
            paths_sorted(out@),
            forall|i: int, j: int|
                0 <= i < out@.len() && 0 <= j < rem@.len() ==> lex_le(
                    #[trigger] out@[i]@,
                    #[trigger] rem@[j]@,
                ),
            out@.to_multiset().add(rem@.to_multiset()) == whole.to_multiset(),
        decreases rem@.len(),
    {
        let m = min_pos(&rem);
        let ghost rem0 = rem@;
        let ghost out0 = out@;
        let x = rem.remove(m);
        out.push(x);
        proof {
            broadcast use vstd::seq_lib::group_to_multiset_ensures;

            rem0.remove_ensures(m as int);
            assert(rem0.contains(x)) by {
                assert(rem0[m as int] == x);
            }
            assert(rem0.to_multiset().count(x) > 0);
            assert(rem@.to_multiset() == rem0.remove(m as int).to_multiset());
            assert(rem0.remove(m as int).to_multiset() == rem0.to_multiset().remove(x));
            assert(out@.to_multiset() == out0.push(x).to_multiset());
            assert(out0.push(x).to_multiset() == out0.to_multiset().insert(x));
            assert(out@.to_multiset().add(rem@.to_multiset()) =~= whole.to_multiset());
            assert forall|i: int, j: int|
                0 <= i < out@.len() && 0 <= j < rem@.len() implies lex_le(
                #[trigger] out@[i]@,
                #[trigger] rem@[j]@,
            ) by {
                let rj = if j < m {
                    j
                } else {
                    j + 1
                };
                assert(rem@[j] == rem0[rj]);
                if i < out0.len() {
                    assert(out@[i] == out0[i]);
                    assert(lex_le(out0[i]@, rem0[rj]@));
                } else {
                    assert(out@[i] == x);
                    assert(lex_le(rem0[m as int]@, rem0[rj]@));
                }
            }
            assert forall|i: int, j: int| 0 <= i < j < out@.len() implies #[trigger] lex_le(
                out@[i]@,
                out@[j]@,
            ) by {
                if j < out0.len() {
                    assert(out@[i] == out0[i]);
                    assert(out@[j] == out0[j]);
                } else {
                    assert(out@[j] == x);
                    assert(out@[i] == out0[i]);
                    assert(lex_le(out0[i]@, rem0[m as int]@));
                }
            }
        }
    }
    proof {
        assert(out@.to_multiset().add(rem@.to_multiset()).len() == out@.to_multiset().len()
            + rem@.to_multiset().len());
        assert(out@.len() == out@.to_multiset().len());
        assert(rem@.len() == rem@.to_multiset().len());
        assert(whole.len() == whole.to_multiset().len());
    }
    out
}

/// Builds the folder listing: the supported image paths of `files`, sorted.
pub fn folder_listing(files: &Vec<String>) -> (r: Vec<String>)
    ensures
        paths_sorted(r@),
        r@.to_multiset() == supported_of(files@).to_multiset(),
        r@.len() == supported_of(files@).len(),
{
    let kept = filter_supported(files);
    sort_paths(kept)
}

} // verus!
