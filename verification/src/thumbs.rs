//! The thumbnail strip.
//!
//! [`ThumbnailList`] remembers which thumbnails exist as textures, which one
//! is being decoded, and whether the strip is unfolded.  Thumbnails are
//! fetched nearest-first around the current image, and when too many pile
//! up the furthest are dropped.  As everywhere in this library, a texture is
//! represented by the path that keys it.

use vstd::prelude::*;

use crate::folder::contains_path;
use crate::folder::first_pos_of;
use crate::folder::position_of;
use crate::index_distance;
use crate::viewer::unique_paths;
use vstd::multiset::Multiset;
use vstd::string::StrSliceExecFns;
use vstd::string::StringExecFns;

verus! {

/// An order to the thumbnail worker: decode the image at this path, scaled
/// to fit the given dimension.
pub enum ThumbnailCommand {
    Load(String, u32),
}

/// What the thumbnail worker reports back for a path: a decoded thumbnail,
/// or an error message.
pub enum ThumbnailResult {
    Success(String),
    Error(String, String),
}

/// What a click on the strip asks of the viewer.
pub enum ThumbnailAction {
    Nothing,
    SelectImage(usize),
}

/// How far apart two positions are.
pub open spec fn idx_dist(a: int, b: int) -> int {
    if a >= b {
        a - b
    } else {
        b - a
    }
}

/// How far the image at `key` lies from the current position: the distance
/// of its first place in the folder listing, or of position zero when the
/// listing does not hold it.
pub open spec fn thumb_distance(folder: Seq<String>, current: int, key: Seq<char>) -> int {
    let p = first_pos_of(folder, key);
    let q = if p >= 0 {
        p
    } else {
        0
    };
    idx_dist(q, current)
}

/// Executable counterpart of [`thumb_distance`].
fn thumb_dist(folder: &Vec<String>, current: usize, key: &String) -> (d: usize)
    ensures
        d == thumb_distance(folder@, current as int, key@),
{
    let p = match position_of(folder, key.as_str()) {
        Some(i) => i,
        None => 0,
    };
    index_distance(p, current)
}

/// Whether the keys stand in order of rising distance from `current`.
pub open spec fn dist_sorted(s: Seq<String>, folder: Seq<String>, current: int) -> bool {
    forall|i: int, j: int|
        0 <= i < j < s.len() ==> thumb_distance(folder, current, #[trigger] s[i]@)
            <= thumb_distance(folder, current, #[trigger] s[j]@)
}

/// Index of a key of least distance from `current`.
fn min_dist_pos(v: &Vec<String>, folder: &Vec<String>, current: usize) -> (m: usize)
    requires
        v@.len() > 0,
    ensures
        m < v@.len(),
        forall|j: int|
            0 <= j < v@.len() ==> thumb_distance(folder@, current as int, v@[m as int]@)
                <= thumb_distance(folder@, current as int, #[trigger] v@[j]@),
{
    let mut m: usize = 0;
    let mut best = thumb_dist(folder, current, &v[0]);
    let mut i: usize = 1;
    while i < v.len()
        invariant
            m < i <= v@.len(),
            best == thumb_distance(folder@, current as int, v@[m as int]@),
            forall|j: int|
                0 <= j < i ==> thumb_distance(folder@, current as int, v@[m as int]@)
                    <= thumb_distance(folder@, current as int, #[trigger] v@[j]@),
        decreases v@.len() - i,
    {
        let d = thumb_dist(folder, current, &v[i]);
        if d < best {
            m = i;
            best = d;
        }
        i = i + 1;
    }
    m
}

/// Splits the keys into those kept and those dropped: at most `keep` keys
/// stay, and none dropped lies nearer to `current` than a kept one.
fn select_nearest(keys: Vec<String>, folder: &Vec<String>, current: usize, keep: usize) -> (r: (
    Vec<String>,
    Vec<String>,
))
    requires
        unique_paths(keys@),
    ensures
        r.0@.to_multiset().add(r.1@.to_multiset()) == keys@.to_multiset(),
        r.0@.len() == if keys@.len() <= keep {
            keys@.len() as int
        } else {
            keep as int
        },
        forall|i: int, j: int|
            0 <= i < r.0@.len() && 0 <= j < r.1@.len() ==> thumb_distance(
                folder@,
                current as int,
                #[trigger] r.0@[i]@,
            ) <= thumb_distance(folder@, current as int, #[trigger] r.1@[j]@),
        unique_paths(r.0@),
{
    broadcast use vstd::seq_lib::group_to_multiset_ensures;

    let ghost whole = keys@;
    let ghost cur = current as int;
    let mut rem = keys;
    let mut sorted: Vec<String> = Vec::new();
    proof {
        assert(sorted@.to_multiset().add(rem@.to_multiset()) =~= whole.to_multiset());
    }
    while rem.len() > 0
        invariant
            cur == current as int,
            dist_sorted(sorted@, folder@, cur),
            forall|i: int, j: int|
                0 <= i < sorted@.len() && 0 <= j < rem@.len() ==> thumb_distance(
                    folder@,
                    cur,
                    #[trigger] sorted@[i]@,
                ) <= thumb_distance(folder@, cur, #[trigger] rem@[j]@),
            sorted@.to_multiset().add(rem@.to_multiset()) == whole.to_multiset(),
            unique_paths(sorted@),
            unique_paths(rem@),
            forall|i: int, j: int|
                0 <= i < sorted@.len() && 0 <= j < rem@.len() ==> (#[trigger] sorted@[i]@) != (
                #[trigger] rem@[j]@),
        decreases rem@.len(),
    {
        let m = min_dist_pos(&rem, folder, current);
        let ghost rem0 = rem@;
        let ghost sorted0 = sorted@;
        let x = rem.remove(m);
        sorted.push(x);
        proof {
            broadcast use vstd::seq_lib::group_to_multiset_ensures;

            rem0.remove_ensures(m as int);
            assert(rem0.contains(x)) by {
                assert(rem0[m as int] == x);
            }
            assert(rem0.to_multiset().count(x) > 0);
            assert(rem@.to_multiset() == rem0.remove(m as int).to_multiset());
            assert(rem0.remove(m as int).to_multiset() == rem0.to_multiset().remove(x));
            assert(sorted@.to_multiset() == sorted0.push(x).to_multiset());
            assert(sorted0.push(x).to_multiset() == sorted0.to_multiset().insert(x));
            assert(sorted@.to_multiset().add(rem@.to_multiset()) =~= whole.to_multiset());
            assert forall|i: int, j: int|
                0 <= i < sorted@.len() && 0 <= j < rem@.len() implies thumb_distance(
                folder@,
                cur,
                #[trigger] sorted@[i]@,
            ) <= thumb_distance(folder@, cur, #[trigger] rem@[j]@) && (sorted@[i]@ != rem@[j]@) by {
                let rj = if j < m {
                    j
                } else {
                    j + 1
                };
                assert(rem@[j] == rem0[rj]);
                if i < sorted0.len() {
                    assert(sorted@[i] == sorted0[i]);
                } else {
                    assert(sorted@[i] == x);
                    assert(thumb_distance(folder@, cur, rem0[m as int]@) <= thumb_distance(
                        folder@,
                        cur,
                        rem0[rj]@,
                    ));
                }
            }
            assert forall|i: int, j: int| 0 <= i < j < sorted@.len() implies thumb_distance(
                folder@,
                cur,
                #[trigger] sorted@[i]@,
            ) <= thumb_distance(folder@, cur, #[trigger] sorted@[j]@) && (sorted@[i]@
                != sorted@[j]@) by {
                assert(sorted@[i] == sorted0[i]);
                if j < sorted0.len() {
                    assert(sorted@[j] == sorted0[j]);
                } else {
                    assert(sorted@[j] == x);
                    assert(rem0[m as int] == x);
                }
            }
        }
    }
    let mut evicted: Vec<String> = Vec::new();
    proof {
        assert(rem@.to_multiset() =~= Multiset::<String>::empty());
        assert(sorted@.to_multiset().add(rem@.to_multiset()) =~= sorted@.to_multiset());
        assert(sorted@.to_multiset() =~= whole.to_multiset());
        assert(sorted@.len() == sorted@.to_multiset().len());
        assert(whole.len() == whole.to_multiset().len());
        assert(sorted@.len() == whole.len());
        assert(sorted@.to_multiset().add(evicted@.to_multiset()) =~= whole.to_multiset());
    }
    while sorted.len() > keep
        invariant
            cur == current as int,
            dist_sorted(sorted@, folder@, cur),
            sorted@.to_multiset().add(evicted@.to_multiset()) == whole.to_multiset(),
            unique_paths(sorted@),
            forall|i: int, j: int|
                0 <= i < sorted@.len() && 0 <= j < evicted@.len() ==> thumb_distance(
                    folder@,
                    cur,
                    #[trigger] sorted@[i]@,
                ) <= thumb_distance(folder@, cur, #[trigger] evicted@[j]@),
            keep < whole.len() ==> sorted@.len() >= keep,
            keep >= whole.len() ==> sorted@.len() == whole.len(),
        decreases sorted@.len(),
    {
        let ghost sorted0 = sorted@;
        let ghost evicted0 = evicted@;
        let x = sorted.remove(sorted.len() - 1);
        evicted.push(x);
        proof {
            broadcast use vstd::seq_lib::group_to_multiset_ensures;

            assert(sorted0.contains(x)) by {
                assert(sorted0[sorted0.len() - 1] == x);
            }
            assert(sorted0.to_multiset().count(x) > 0);
            assert(sorted@.to_multiset() == sorted0.remove(sorted0.len() - 1).to_multiset());
            assert(sorted0.remove(sorted0.len() - 1).to_multiset() == sorted0.to_multiset().remove(
                x,
            ));
            assert(evicted@.to_multiset() == evicted0.push(x).to_multiset());
            assert(evicted0.push(x).to_multiset() == evicted0.to_multiset().insert(x));
            assert(sorted@.to_multiset().add(evicted@.to_multiset()) =~= whole.to_multiset());
        }
    }
    (sorted, evicted)
}

/// Whether the image at place `i` of the listing has no thumbnail yet.
pub open spec fn missing(folder: Seq<String>, thumbs: Seq<String>, i: int) -> bool {
    0 <= i < folder.len() && !contains_path(thumbs, folder[i]@)
}

/// Whether `i` is the first place of least distance from `current` among
/// the images that have no thumbnail yet.
pub open spec fn is_first_nearest_missing(
    folder: Seq<String>,
    thumbs: Seq<String>,
    current: int,
    i: int,
) -> bool {
    &&& missing(folder, thumbs, i)
    &&& forall|j: int| #[trigger]
        missing(folder, thumbs, j) ==> idx_dist(i, current) <= idx_dist(j, current)
    &&& forall|j: int|
        0 <= j < i && #[trigger] missing(folder, thumbs, j) ==> idx_dist(i, current) < idx_dist(
            j,
            current,
        )
}

/// Adding a thumbnail key: nothing when one with the same characters is
/// already held.
pub open spec fn insert_new(thumbs: Seq<String>, key: String) -> Seq<String> {
    if contains_path(thumbs, key@) {
        thumbs
    } else {
        thumbs.push(key)
    }
}

/// The path a worker report is about.
pub open spec fn result_path(r: ThumbnailResult) -> String {
    match r {
        ThumbnailResult::Success(p) => p,
        ThumbnailResult::Error(p, _) => p,
    }
}

/// The thumbnail keys after taking the worker reports in order.
pub open spec fn insert_results(thumbs: Seq<String>, results: Seq<ThumbnailResult>) -> Seq<String>
    decreases results.len(),
{
    if results.len() == 0 {
        thumbs
    } else {
        insert_new(insert_results(thumbs, results.drop_last()), result_path(results.last()))
    }
}

pub struct ThumbnailList {
    /// Whether the strip is unfolded.
    pub is_expanded: bool,
    /// Keys of the thumbnail textures held.
    pub thumbnails: Vec<String>,
    /// Path whose thumbnail is being decoded, if any.
    pub loading_path: Option<String>,
}

impl ThumbnailList {
    /// The state the strip is in: no thumbnail key repeats.
    pub open spec fn wf(self) -> bool {
        unique_paths(self.thumbnails@)
    }

    /// A fresh strip: folded, empty, idle.
    pub fn new() -> (t: Self)
        ensures
            t.wf(),
            !t.is_expanded,
            t.thumbnails@ == Seq::<String>::empty(),
            t.loading_path is None,
    {
        ThumbnailList { is_expanded: false, thumbnails: Vec::new(), loading_path: None }
    }

    /// Folds or unfolds the strip.
    pub fn toggle_expanded(&mut self)
        ensures
            final(self).is_expanded == !old(self).is_expanded,
            final(self).thumbnails == old(self).thumbnails,
            final(self).loading_path == old(self).loading_path,
    {
        self.is_expanded = !self.is_expanded;
    }

    /// Asks the worker for the missing thumbnail nearest to the current
    /// image, when none is being decoded.  The first such place wins a tie.
    pub fn try_load_next(&mut self, folder_images: &Vec<String>, current_index: usize) -> (r:
        Option<ThumbnailCommand>)
        ensures
            final(self).thumbnails == old(self).thumbnails,
            final(self).is_expanded == old(self).is_expanded,
            old(self).loading_path is Some ==> r is None && final(self).loading_path == old(
                self,
            ).loading_path,
            old(self).loading_path is None ==> {
                &&& (r is None ==> final(self).loading_path is None && forall|i: int|
                    !missing(folder_images@, old(self).thumbnails@, i))
                &&& (r matches Some(c) ==> ({
                    let folder = folder_images@;
                    let thumbs = old(self).thumbnails@;
                    exists|i: int|
                        {
                            &&& #[trigger] is_first_nearest_missing(
                                folder,
                                thumbs,
                                current_index as int,
                                i,
                            )
                            &&& c == ThumbnailCommand::Load(folder[i], 128)
                            &&& final(self).loading_path == Some(folder[i])
                        }
                }))
            },
    {
        if self.loading_path.is_some() {
            return None;
        }
        let mut best: Option<usize> = None;
        let mut best_dist: usize = 0;
        let mut i: usize = 0;
        let ghost folder = folder_images@;
        let ghost thumbs = self.thumbnails@;
        while i < folder_images.len()
            invariant
                i <= folder.len(),
                folder == folder_images@,
                thumbs == self.thumbnails@,
                match best {
                    Some(b) => {
                        &&& b < i
                        &&& missing(folder, thumbs, b as int)
                        &&& best_dist == idx_dist(b as int, current_index as int)
                        &&& forall|j: int|
                            0 <= j < i && #[trigger] missing(folder, thumbs, j) ==> best_dist
                                <= idx_dist(j, current_index as int)
                        &&& forall|j: int|
                            0 <= j < b && #[trigger] missing(folder, thumbs, j) ==> best_dist
                                < idx_dist(j, current_index as int)
                    },
                    None => forall|j: int| 0 <= j < i ==> !missing(folder, thumbs, j),
                },
            decreases folder.len() - i,
        {
            if position_of(&self.thumbnails, folder_images[i].as_str()).is_none() {
                let d = index_distance(i, current_index);
                match best {
                    None => {
                        best = Some(i);
                        best_dist = d;
                    },
                    Some(_) => {
                        if d < best_dist {
                            best = Some(i);
                            best_dist = d;
                        }
                    },
                }
            }
            i = i + 1;
        }
        match best {
            None => {
                proof {
                    assert forall|j: int| !missing(folder, thumbs, j) by {}
                }
                None
            },
            Some(b) => {
                let path = folder_images[b].clone();
                self.loading_path = Some(path.clone());
                proof {
                    assert(is_first_nearest_missing(folder, thumbs, current_index as int, b as int));
                }
                Some(ThumbnailCommand::Load(path, 128))
            },
        }
    }

    /// Keeps the strip in step with the folder: when more than 200
    /// thumbnails are held, all but the 100 nearest to the current image
    /// are dropped; then the nearest missing one is asked for.  Returns the
    /// command to send and the keys dropped.
    pub fn update_folder(&mut self, folder_images: &Vec<String>, current_index: usize) -> (r: (
        Option<ThumbnailCommand>,
        Vec<String>,
    ))
        requires
            old(self).wf(),
        ensures
            final(self).wf(),
            final(self).is_expanded == old(self).is_expanded,
            folder_images@.len() == 0 ==> *final(self) == *old(self) && r.0 is None && r.1@
                == Seq::<String>::empty(),
            folder_images@.len() > 0 ==> ({
                let thumbs1 = final(self).thumbnails@;
                &&& (old(self).thumbnails@.len() <= 200 ==> thumbs1 == old(self).thumbnails@ && r.1@
                    == Seq::<String>::empty())
                &&& (old(self).thumbnails@.len() > 200 ==> {
                    &&& thumbs1.len() == 100
                    &&& thumbs1.to_multiset().add(r.1@.to_multiset()) == old(
                        self,
                    ).thumbnails@.to_multiset()
                    &&& forall|i: int, j: int|
                        0 <= i < thumbs1.len() && 0 <= j < r.1@.len() ==> thumb_distance(
                            folder_images@,
                            current_index as int,
                            #[trigger] thumbs1[i]@,
                        ) <= thumb_distance(
                            folder_images@,
                            current_index as int,
                            #[trigger] r.1@[j]@,
                        )
                })
                &&& (old(self).loading_path is Some ==> r.0 is None && final(self).loading_path
                    == old(self).loading_path)
                &&& (old(self).loading_path is None ==> {
                    &&& (r.0 is None ==> final(self).loading_path is None && forall|i: int|
                        !missing(folder_images@, thumbs1, i))
                    &&& (r.0 matches Some(c) ==> (exists|i: int|
                        {
                            &&& #[trigger] is_first_nearest_missing(
                                folder_images@,
                                thumbs1,
                                current_index as int,
                                i,
                            )
                            &&& c == ThumbnailCommand::Load(folder_images@[i], 128)
                            &&& final(self).loading_path == Some(folder_images@[i])
                        }))
                })
            }),
    {
        if folder_images.len() == 0 {
            return (None, Vec::new());
        }
        let mut evicted: Vec<String> = Vec::new();
        if self.thumbnails.len() > 200 {
            let mut keys: Vec<String> = Vec::new();
            core::mem::swap(&mut keys, &mut self.thumbnails);
            let (kept, ev) = select_nearest(keys, folder_images, current_index, 100);
            self.thumbnails = kept;
            evicted = ev;
        }
        let cmd = self.try_load_next(folder_images, current_index);
        (cmd, evicted)
    }

    /// Takes the worker's reports: each reported path gains a thumbnail key
    /// (a failed decode gets a placeholder, so it is not asked again), and
    /// after any report the next missing thumbnail is asked for.
    pub fn process_results(
        &mut self,
        results: &Vec<ThumbnailResult>,
        folder_images: &Vec<String>,
        current_index: usize,
    ) -> (r: Option<ThumbnailCommand>)
        requires
            old(self).wf(),
        ensures
            final(self).wf(),
            final(self).is_expanded == old(self).is_expanded,
            final(self).thumbnails@ == insert_results(old(self).thumbnails@, results@),
            results@.len() == 0 ==> r is None && final(self).loading_path == old(
                self,
            ).loading_path,
            results@.len() > 0 ==> ({
                let thumbs1 = final(self).thumbnails@;
                &&& (r is None ==> final(self).loading_path is None && forall|i: int|
                    !missing(folder_images@, thumbs1, i))
                &&& (r matches Some(c) ==> (exists|i: int|
                    {
                        &&& #[trigger] is_first_nearest_missing(
                            folder_images@,
                            thumbs1,
                            current_index as int,
                            i,
                        )
                        &&& c == ThumbnailCommand::Load(folder_images@[i], 128)
                        &&& final(self).loading_path == Some(folder_images@[i])
                    }))
            }),
    {
        let ghost thumbs0 = self.thumbnails@;
        let mut j: usize = 0;
        while j < results.len()
            invariant
                j <= results@.len(),
                self.thumbnails@ == insert_results(thumbs0, results@.take(j as int)),
                unique_paths(self.thumbnails@),
                self.is_expanded == old(self).is_expanded,
                self.loading_path == old(self).loading_path,
                thumbs0 == old(self).thumbnails@,
            decreases results@.len() - j,
        {
            proof {
                assert(results@.take(j as int + 1).drop_last() =~= results@.take(j as int));
                assert(results@.take(j as int + 1).last() == results@[j as int]);
            }
            let path = match &results[j] {
                ThumbnailResult::Success(p) => p.clone(),
                ThumbnailResult::Error(p, _) => p.clone(),
            };
            if position_of(&self.thumbnails, path.as_str()).is_none() {
                self.thumbnails.push(path);
            }
            j = j + 1;
        }
        proof {
            assert(results@.take(results@.len() as int) =~= results@);
        }
        if results.len() > 0 {
            self.loading_path = None;
            self.try_load_next(folder_images, current_index)
        } else {
            None
        }
    }
}

/// A file name shortened for the strip: more than twelve characters become
/// the first eleven and an ellipsis.
pub fn truncate_display_name(name: &str) -> (r: String)
    ensures
        r@ == if name@.len() > 12 {
            name@.take(11).push('\u{2026}')
        } else {
            name@
        },
{
    let n = name.unicode_len();
    if n > 12 {
        let prefix = name.substring_char(0, 11);
        let mut s = prefix.to_owned();
        s.append("\u{2026}");
        proof {
            reveal_strlit("\u{2026}");
            assert(s@ =~= name@.take(11).push('\u{2026}'));
        }
        s
    } else {
        name.to_owned()
    }
}

} // verus!
