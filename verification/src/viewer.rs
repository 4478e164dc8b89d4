//! The viewer's state machine.
//!
//! [`ImageViewer`] holds what the viewer knows between frames: the folder
//! listing, the current position in it, which textures are cached and which
//! loads are in flight.  Every method is a decision step: it changes the
//! state and hands back the load commands to send and the cache keys to
//! drop.  Sending, decoding and drawing happen outside the library; a
//! texture is represented here by the path that keys it.

use vstd::prelude::*;

use crate::folder::contains_path;
use crate::folder::first_pos_of;
use crate::folder::folder_listing;
use crate::folder::lemma_contains_path_multiset;
use crate::folder::lemma_first_pos_of;
use crate::folder::paths_sorted;
use crate::folder::position_of;
use crate::folder::supported_of;
use crate::path_text::strings_equal;
use vstd::string::StringExecFns;

verus! {

/// An order to the decode worker: load the image at this path.
pub enum ImageCommand {
    Load(String),
}

/// What the decode worker reports back: the image at the path decoded to a
/// texture of the given width and height, or an error message.
pub enum ImageResult {
    Success(String, usize, usize),
    Error(String, String),
}

/// Whether no element of `s` repeats the characters of another.
pub open spec fn unique_paths(s: Seq<String>) -> bool {
    forall|i: int, j: int| 0 <= i < j < s.len() ==> (#[trigger] s[i]@) != (#[trigger] s[j]@)
}

/// A path is asked of the worker only when it is neither cached nor already
/// in flight.
pub open spec fn wants_load(path: Seq<char>, cache: Seq<String>, loading: Seq<String>) -> bool {
    !contains_path(cache, path) && !contains_path(loading, path)
}

/// The characters of an optional path.
pub open spec fn view_opt(o: Option<String>) -> Option<Seq<char>> {
    match o {
        Some(p) => Some(p@),
        None => None,
    }
}

/// Whether a cache key survives preloading: it keys the previous, the next
/// or the current image.
pub open spec fn in_keep(k: Seq<char>, pp: Seq<char>, np: Seq<char>, cur: Option<Seq<char>>) -> bool {
    k == pp || k == np || cur == Some(k)
}

/// The cache keys that survive preloading, in their cache order.
pub open spec fn keep_filter(
    cache: Seq<String>,
    pp: Seq<char>,
    np: Seq<char>,
    cur: Option<Seq<char>>,
) -> Seq<String>
    decreases cache.len(),
{
    if cache.len() == 0 {
        cache
    } else {
        let rest = keep_filter(cache.drop_last(), pp, np, cur);
        if in_keep(cache.last()@, pp, np, cur) {
            rest.push(cache.last())
        } else {
            rest
        }
    }
}

/// The cache keys that preloading drops, in their cache order.
pub open spec fn evict_filter(
    cache: Seq<String>,
    pp: Seq<char>,
    np: Seq<char>,
    cur: Option<Seq<char>>,
) -> Seq<String>
    decreases cache.len(),
{
    if cache.len() == 0 {
        cache
    } else {
        let rest = evict_filter(cache.drop_last(), pp, np, cur);
        if !in_keep(cache.last()@, pp, np, cur) {
            rest.push(cache.last())
        } else {
            rest
        }
    }
}

/// [`keep_filter`] keeps keys of the cache only, each at most once.
pub proof fn lemma_keep_filter_unique(
    cache: Seq<String>,
    pp: Seq<char>,
    np: Seq<char>,
    cur: Option<Seq<char>>,
)
    requires
        unique_paths(cache),
    ensures
        unique_paths(keep_filter(cache, pp, np, cur)),
        forall|k: Seq<char>| #[trigger]
            contains_path(keep_filter(cache, pp, np, cur), k) ==> contains_path(cache, k),
    decreases cache.len(),
{
    if cache.len() > 0 {
        let head = cache.drop_last();
        assert(unique_paths(head)) by {
            assert(forall|i: int| 0 <= i < head.len() ==> head[i] == cache[i]);
        }
        lemma_keep_filter_unique(head, pp, np, cur);
        let rest = keep_filter(head, pp, np, cur);
        let whole = keep_filter(cache, pp, np, cur);
        if in_keep(cache.last()@, pp, np, cur) {
            assert(!contains_path(rest, cache.last()@)) by {
                if contains_path(rest, cache.last()@) {
                    assert(contains_path(head, cache.last()@));
                    let w = choose|i: int| 0 <= i < head.len() && head[i]@ == cache.last()@;
                    assert(cache[w]@ == cache[cache.len() - 1]@);
                }
            }
            assert(forall|i: int| 0 <= i < rest.len() ==> whole[i] == rest[i]);
            assert forall|k: Seq<char>| #[trigger] contains_path(whole, k) implies contains_path(
                cache,
                k,
            ) by {
                let w = choose|i: int| 0 <= i < whole.len() && whole[i]@ == k;
                if w < rest.len() {
                    assert(contains_path(rest, k));
                    let v = choose|i: int| 0 <= i < head.len() && head[i]@ == k;
                    assert(cache[v]@ == k);
                } else {
                    assert(cache[cache.len() - 1]@ == k);
                }
            }
        } else {
            assert forall|k: Seq<char>| #[trigger] contains_path(whole, k) implies contains_path(
                cache,
                k,
            ) by {
                let v = choose|i: int| 0 <= i < head.len() && head[i]@ == k;
                assert(cache[v]@ == k);
            }
        }
    }
}

/// Removing an element keeps the remaining paths distinct.
pub proof fn lemma_unique_remove(s: Seq<String>, i: int)
    requires
        unique_paths(s),
        0 <= i < s.len(),
    ensures
        unique_paths(s.remove(i)),
{
    s.remove_ensures(i);
    let t = s.remove(i);
    assert forall|a: int, b: int| 0 <= a < b < t.len() implies (#[trigger] t[a]@) != (
    #[trigger] t[b]@) by {
        let a0 = if a < i {
            a
        } else {
            a + 1
        };
        let b0 = if b < i {
            b
        } else {
            b + 1
        };
        assert(t[a] == s[a0]);
        assert(t[b] == s[b0]);
    }
}

/// Everything one preloading step decides: the in-flight paths afterwards,
/// the commands to send, and which cache keys stay and go.
pub ghost struct PreloadPlan {
    pub loading: Seq<String>,
    pub commands: Seq<ImageCommand>,
    pub kept: Seq<String>,
    pub evicted: Seq<String>,
}

/// What preloading does, given the folder listing, the current position,
/// the current image and the cache and in-flight sets: ask for the previous
/// and the next image (each unless cached or in flight), and keep only the
/// textures of the previous, next and current image.
pub open spec fn preload_plan(
    folder: Seq<String>,
    idx: int,
    current: Option<String>,
    cache: Seq<String>,
    loading: Seq<String>,
) -> PreloadPlan {
    if folder.len() == 0 {
        PreloadPlan { loading, commands: Seq::empty(), kept: cache, evicted: Seq::empty() }
    } else {
        let prev = if idx == 0 {
            folder.len() - 1
        } else {
            idx - 1
        };
        let next = (idx + 1) % (folder.len() as int);
        let pp = folder[prev];
        let np = folder[next];
        let r1 = wants_load(pp@, cache, loading);
        let l1 = if r1 {
            loading.push(pp)
        } else {
            loading
        };
        let r2 = wants_load(np@, cache, l1);
        let l2 = if r2 {
            l1.push(np)
        } else {
            l1
        };
        PreloadPlan {
            loading: l2,
            commands: (if r1 {
                seq![ImageCommand::Load(pp)]
            } else {
                Seq::<ImageCommand>::empty()
            }) + (if r2 {
                seq![ImageCommand::Load(np)]
            } else {
                Seq::<ImageCommand>::empty()
            }),
            kept: keep_filter(cache, pp@, np@, view_opt(current)),
            evicted: evict_filter(cache, pp@, np@, view_opt(current)),
        }
    }
}

pub struct ImageViewer {
    /// Message shown instead of an image, after a failed load.
    pub error_msg: Option<String>,
    /// Path of the image most recently decoded for the current view.
    pub last_loaded_path: Option<String>,
    /// Width and height of that image.
    pub image_size: Option<(usize, usize)>,
    /// The sorted image paths of the folder being browsed.
    pub current_folder_images: Vec<String>,
    /// Position of the current image in the folder listing.
    pub current_image_index: usize,
    /// Path of the image being viewed.
    pub current_image_path: Option<String>,
    /// Keys of the textures held in the cache.
    pub texture_cache: Vec<String>,
    /// Paths whose loads are in flight.
    pub loading_paths: Vec<String>,
    /// Whether the view transform is reset when the current image arrives.
    pub reset_view_on_load: bool,
}

impl ImageViewer {
    /// The state the viewer is in: the index points into the listing, and
    /// no cache key or in-flight path repeats.
    pub open spec fn wf(self) -> bool {
        &&& self.current_folder_images@.len() > 0 ==> (self.current_image_index as int)
            < self.current_folder_images@.len()
        &&& unique_paths(self.texture_cache@)
        &&& unique_paths(self.loading_paths@)
    }

    /// A fresh viewer: nothing open, nothing cached, nothing in flight.
    pub fn new() -> (v: Self)
        ensures
            v.wf(),
            v.error_msg is None,
            v.last_loaded_path is None,
            v.image_size is None,
            v.current_folder_images@ == Seq::<String>::empty(),
            v.current_image_index == 0,
            v.current_image_path is None,
            v.texture_cache@ == Seq::<String>::empty(),
            v.loading_paths@ == Seq::<String>::empty(),
            v.reset_view_on_load,
    {
        ImageViewer {
            error_msg: None,
            last_loaded_path: None,
            image_size: None,
            current_folder_images: Vec::new(),
            current_image_index: 0,
            current_image_path: None,
            texture_cache: Vec::new(),
            loading_paths: Vec::new(),
            reset_view_on_load: true,
        }
    }

    /// Whether the image being viewed is still in flight.
    pub fn is_loading(&self) -> (r: bool)
        ensures
            r == match self.current_image_path {
                Some(p) => contains_path(self.loading_paths@, p@),
                None => false,
            },
    {
        match &self.current_image_path {
            Some(p) => position_of(&self.loading_paths, p.as_str()).is_some(),
            None => false,
        }
    }

    /// Asks the worker for `path` unless it is cached or already in flight,
    /// and remembers that it is in flight.
    pub fn request_load(&mut self, path: String) -> (cmd: Option<ImageCommand>)
        requires
            old(self).wf(),
        ensures
            final(self).wf(),
            cmd == if wants_load(path@, old(self).texture_cache@, old(self).loading_paths@) {
                Some(ImageCommand::Load(path))
            } else {
                None::<ImageCommand>
            },
            final(self).loading_paths@ == if wants_load(
                path@,
                old(self).texture_cache@,
                old(self).loading_paths@,
            ) {
                old(self).loading_paths@.push(path)
            } else {
                old(self).loading_paths@
            },
            final(self).error_msg == old(self).error_msg,
            final(self).last_loaded_path == old(self).last_loaded_path,
            final(self).image_size == old(self).image_size,
            final(self).current_folder_images == old(self).current_folder_images,
            final(self).current_image_index == old(self).current_image_index,
            final(self).current_image_path == old(self).current_image_path,
            final(self).texture_cache == old(self).texture_cache,
            final(self).reset_view_on_load == old(self).reset_view_on_load,
    {
        let cached = position_of(&self.texture_cache, path.as_str()).is_some();
        let in_flight = position_of(&self.loading_paths, path.as_str()).is_some();
        if !cached && !in_flight {
            self.loading_paths.push(path.clone());
            Some(ImageCommand::Load(path))
        } else {
            None
        }
    }

    /// Asks for the neighbours of the current image and trims the texture
    /// cache to the previous, next and current image.  Returns the commands
    /// to send and the cache keys dropped.
    #[verifier::loop_isolation(false)]
    pub fn update_preloads(&mut self) -> (r: (Vec<ImageCommand>, Vec<String>))
        requires
            old(self).wf(),
        ensures
            final(self).wf(),
            ({
                let plan = preload_plan(
                    old(self).current_folder_images@,
                    old(self).current_image_index as int,
                    old(self).current_image_path,
                    old(self).texture_cache@,
                    old(self).loading_paths@,
                );
                &&& r.0@ == plan.commands
                &&& r.1@ == plan.evicted
                &&& final(self).loading_paths@ == plan.loading
                &&& final(self).texture_cache@ == plan.kept
            }),
            final(self).error_msg == old(self).error_msg,
            final(self).last_loaded_path == old(self).last_loaded_path,
            final(self).image_size == old(self).image_size,
            final(self).current_folder_images == old(self).current_folder_images,
            final(self).current_image_index == old(self).current_image_index,
            final(self).current_image_path == old(self).current_image_path,
            final(self).reset_view_on_load == old(self).reset_view_on_load,
    {
        let mut commands: Vec<ImageCommand> = Vec::new();
        if self.current_folder_images.len() == 0 {
            return (commands, Vec::new());
        }
        let len = self.current_folder_images.len();
        let prev_idx = if self.current_image_index == 0 {
            len - 1
        } else {
            self.current_image_index - 1
        };
        let next_idx = (self.current_image_index + 1) % len;
        let prev_path = self.current_folder_images[prev_idx].clone();
        let next_path = self.current_folder_images[next_idx].clone();

        match self.request_load(prev_path.clone()) {
            Some(c) => commands.push(c),
            None => {},
        }
        match self.request_load(next_path.clone()) {
            Some(c) => commands.push(c),
            None => {},
        }

        let ghost cache0 = self.texture_cache@;
        let ghost pp = prev_path@;
        let ghost np = next_path@;
        let ghost cur = view_opt(self.current_image_path);
        let mut kept: Vec<String> = Vec::new();
        let mut evicted: Vec<String> = Vec::new();
        let n = self.texture_cache.len();
        let mut i: usize = 0;
        proof {
            assert(cache0.take(0) =~= Seq::<String>::empty());
        }
        while i < n
            invariant
                i <= n,
                kept@ == keep_filter(cache0.take(i as int), pp, np, cur),
                evicted@ == evict_filter(cache0.take(i as int), pp, np, cur),
            decreases n - i,
        {
            let keep = strings_equal(self.texture_cache[i].as_str(), prev_path.as_str())
                || strings_equal(self.texture_cache[i].as_str(), next_path.as_str()) || (
            match &self.current_image_path {
                Some(c) => strings_equal(self.texture_cache[i].as_str(), c.as_str()),
                None => false,
            });
            proof {
                assert(cache0.take(i as int + 1).drop_last() =~= cache0.take(i as int));
                assert(cache0.take(i as int + 1).last() == cache0[i as int]);
                assert(keep == in_keep(cache0[i as int]@, pp, np, cur));
            }
            if keep {
                kept.push(self.texture_cache[i].clone());
            } else {
                evicted.push(self.texture_cache[i].clone());
            }
            i = i + 1;
        }
        proof {
            assert(cache0.take(n as int) =~= cache0);
            lemma_keep_filter_unique(cache0, pp, np, cur);
        }
        self.texture_cache = kept;
        (commands, evicted)
    }

    /// Makes `path` the image being viewed: asks the worker for it unless
    /// it is cached or in flight, then preloads its neighbours and trims the
    /// cache.  Returns the commands to send and the cache keys dropped.
    pub fn load_file(&mut self, path: String, reset_view: bool) -> (r: (
        Vec<ImageCommand>,
        Vec<String>,
    ))
        requires
            old(self).wf(),
        ensures
            final(self).wf(),
            ({
                let known = !wants_load(path@, old(self).texture_cache@, old(self).loading_paths@);
                let l1 = if known {
                    old(self).loading_paths@
                } else {
                    old(self).loading_paths@.push(path)
                };
                let plan = preload_plan(
                    old(self).current_folder_images@,
                    old(self).current_image_index as int,
                    Some(path),
                    old(self).texture_cache@,
                    l1,
                );
                &&& r.0@ == (if known {
                    Seq::<ImageCommand>::empty()
                } else {
                    seq![ImageCommand::Load(path)]
                }) + plan.commands
                &&& r.1@ == plan.evicted
                &&& final(self).loading_paths@ == plan.loading
                &&& final(self).texture_cache@ == plan.kept
            }),
            final(self).current_image_path == Some(path),
            final(self).reset_view_on_load == reset_view,
            final(self).error_msg is None,
            final(self).last_loaded_path == old(self).last_loaded_path,
            final(self).image_size == old(self).image_size,
            final(self).current_folder_images == old(self).current_folder_images,
            final(self).current_image_index == old(self).current_image_index,
    {
        self.current_image_path = Some(path.clone());
        self.reset_view_on_load = reset_view;
        self.error_msg = None;

        let mut commands: Vec<ImageCommand> = Vec::new();
        match self.request_load(path) {
            Some(c) => commands.push(c),
            None => {},
        }
        let (mut more, evicted) = self.update_preloads();
        commands.append(&mut more);
        (commands, evicted)
    }

    /// Steps to the next image of the folder, wrapping at its end, and
    /// loads it without resetting the view.
    pub fn next_image(&mut self) -> (r: (Vec<ImageCommand>, Vec<String>))
        requires
            old(self).wf(),
        ensures
            final(self).wf(),
            old(self).current_folder_images@.len() == 0 ==> *final(self) == *old(self) && r.0@
                == Seq::<ImageCommand>::empty() && r.1@ == Seq::<String>::empty(),
            old(self).current_folder_images@.len() > 0 ==> ({
                let folder = old(self).current_folder_images@;
                let ni = (old(self).current_image_index + 1) % (folder.len() as int);
                let path = folder[ni];
                let known = !wants_load(path@, old(self).texture_cache@, old(self).loading_paths@);
                let l1 = if known {
                    old(self).loading_paths@
                } else {
                    old(self).loading_paths@.push(path)
                };
                let plan = preload_plan(folder, ni, Some(path), old(self).texture_cache@, l1);
                &&& final(self).current_image_index == ni
                &&& final(self).current_image_path == Some(path)
                &&& final(self).reset_view_on_load == false
                &&& final(self).error_msg is None
                &&& r.0@ == (if known {
                    Seq::<ImageCommand>::empty()
                } else {
                    seq![ImageCommand::Load(path)]
                }) + plan.commands
                &&& r.1@ == plan.evicted
                &&& final(self).loading_paths@ == plan.loading
                &&& final(self).texture_cache@ == plan.kept
                &&& final(self).last_loaded_path == old(self).last_loaded_path
                &&& final(self).image_size == old(self).image_size
                &&& final(self).current_folder_images == old(self).current_folder_images
            }),
    {
        if self.current_folder_images.len() == 0 {
            return (Vec::new(), Vec::new());
        }
        self.current_image_index = (self.current_image_index + 1)
            % self.current_folder_images.len();
        let path = self.current_folder_images[self.current_image_index].clone();
        self.load_file(path, false)
    }

    /// Steps to the previous image of the folder, wrapping at its start,
    /// and loads it without resetting the view.
    pub fn prev_image(&mut self) -> (r: (Vec<ImageCommand>, Vec<String>))
        requires
            old(self).wf(),
        ensures
            final(self).wf(),
            old(self).current_folder_images@.len() == 0 ==> *final(self) == *old(self) && r.0@
                == Seq::<ImageCommand>::empty() && r.1@ == Seq::<String>::empty(),
            old(self).current_folder_images@.len() > 0 ==> ({
                let folder = old(self).current_folder_images@;
                let pi = if old(self).current_image_index == 0 {
                    folder.len() - 1
                } else {
                    old(self).current_image_index - 1
                };
                let path = folder[pi];
                let known = !wants_load(path@, old(self).texture_cache@, old(self).loading_paths@);
                let l1 = if known {
                    old(self).loading_paths@
                } else {
                    old(self).loading_paths@.push(path)
                };
                let plan = preload_plan(folder, pi, Some(path), old(self).texture_cache@, l1);
                &&& final(self).current_image_index == pi
                &&& final(self).current_image_path == Some(path)
                &&& final(self).reset_view_on_load == false
                &&& final(self).error_msg is None
                &&& r.0@ == (if known {
                    Seq::<ImageCommand>::empty()
                } else {
                    seq![ImageCommand::Load(path)]
                }) + plan.commands
                &&& r.1@ == plan.evicted
                &&& final(self).loading_paths@ == plan.loading
                &&& final(self).texture_cache@ == plan.kept
                &&& final(self).last_loaded_path == old(self).last_loaded_path
                &&& final(self).image_size == old(self).image_size
                &&& final(self).current_folder_images == old(self).current_folder_images
            }),
    {
        if self.current_folder_images.len() == 0 {
            return (Vec::new(), Vec::new());
        }
        if self.current_image_index == 0 {
            self.current_image_index = self.current_folder_images.len() - 1;
        } else {
            self.current_image_index = self.current_image_index - 1;
        }
        let path = self.current_folder_images[self.current_image_index].clone();
        self.load_file(path, false)
    }

    /// Replaces the folder listing with the supported images among `files`,
    /// sorted.  The position into the listing is for the caller to
    /// re-establish.
    pub fn load_folder_contents(&mut self, files: &Vec<String>)
        ensures
            paths_sorted(final(self).current_folder_images@),
            final(self).current_folder_images@.to_multiset() == supported_of(files@).to_multiset(),
            final(self).error_msg == old(self).error_msg,
            final(self).last_loaded_path == old(self).last_loaded_path,
            final(self).image_size == old(self).image_size,
            final(self).current_image_index == old(self).current_image_index,
            final(self).current_image_path == old(self).current_image_path,
            final(self).texture_cache == old(self).texture_cache,
            final(self).loading_paths == old(self).loading_paths,
            final(self).reset_view_on_load == old(self).reset_view_on_load,
    {
        self.current_folder_images = folder_listing(files);
    }

    /// Opens `path`.  For a folder (`is_dir`), `entries` are the file paths
    /// found in it, and the first image of its listing is shown; an empty
    /// listing leaves an error message.  For a file, `entries` are the file
    /// paths beside it, and the file is shown at its place in the listing,
    /// or alone when the listing does not hold it.
    pub fn load_path(&mut self, path: String, is_dir: bool, entries: &Vec<String>) -> (r: (
        Vec<ImageCommand>,
        Vec<String>,
    ))
        requires
            old(self).wf(),
        ensures
            final(self).wf(),
            is_dir ==> ({
                let listing = final(self).current_folder_images@;
                &&& paths_sorted(listing)
                &&& listing.to_multiset() == supported_of(entries@).to_multiset()
                &&& if listing.len() == 0 {
                    &&& r.0@ == Seq::<ImageCommand>::empty()
                    &&& r.1@ == Seq::<String>::empty()
                    &&& final(self).error_msg matches Some(m) && m@
                        == "No images found in the folder."@
                    &&& final(self).current_image_path is None
                    &&& final(self).texture_cache == old(self).texture_cache
                    &&& final(self).loading_paths == old(self).loading_paths
                    &&& final(self).current_image_index == old(self).current_image_index
                    &&& final(self).last_loaded_path == old(self).last_loaded_path
                    &&& final(self).image_size == old(self).image_size
                    &&& final(self).reset_view_on_load == old(self).reset_view_on_load
                } else {
                    let path0 = listing[0];
                    let known = !wants_load(
                        path0@,
                        old(self).texture_cache@,
                        old(self).loading_paths@,
                    );
                    let l1 = if known {
                        old(self).loading_paths@
                    } else {
                        old(self).loading_paths@.push(path0)
                    };
                    let plan = preload_plan(listing, 0, Some(path0), old(self).texture_cache@, l1);
                    &&& final(self).current_image_index == 0
                    &&& final(self).current_image_path == Some(path0)
                    &&& final(self).reset_view_on_load == true
                    &&& final(self).error_msg is None
                    &&& r.0@ == (if known {
                        Seq::<ImageCommand>::empty()
                    } else {
                        seq![ImageCommand::Load(path0)]
                    }) + plan.commands
                    &&& r.1@ == plan.evicted
                    &&& final(self).loading_paths@ == plan.loading
                    &&& final(self).texture_cache@ == plan.kept
                    &&& final(self).last_loaded_path == old(self).last_loaded_path
                    &&& final(self).image_size == old(self).image_size
                }
            }),
            !is_dir ==> ({
                let listing = final(self).current_folder_images@;
                let found = contains_path(supported_of(entries@), path@);
                let known = !wants_load(path@, old(self).texture_cache@, old(self).loading_paths@);
                let l1 = if known {
                    old(self).loading_paths@
                } else {
                    old(self).loading_paths@.push(path)
                };
                let plan = preload_plan(
                    listing,
                    final(self).current_image_index as int,
                    Some(path),
                    old(self).texture_cache@,
                    l1,
                );
                &&& if found {
                    &&& paths_sorted(listing)
                    &&& listing.to_multiset() == supported_of(entries@).to_multiset()
                    &&& final(self).current_image_index == first_pos_of(listing, path@)
                } else {
                    &&& listing == seq![path]
                    &&& final(self).current_image_index == 0
                }
                &&& final(self).current_image_path == Some(path)
                &&& final(self).reset_view_on_load == true
                &&& final(self).error_msg is None
                &&& r.0@ == (if known {
                    Seq::<ImageCommand>::empty()
                } else {
                    seq![ImageCommand::Load(path)]
                }) + plan.commands
                &&& r.1@ == plan.evicted
                &&& final(self).loading_paths@ == plan.loading
                &&& final(self).texture_cache@ == plan.kept
                &&& final(self).last_loaded_path == old(self).last_loaded_path
                &&& final(self).image_size == old(self).image_size
            }),
    {
        if is_dir {
            self.load_folder_contents(entries);
            if self.current_folder_images.len() == 0 {
                self.error_msg = Some(String::from_str("No images found in the folder."));
                self.current_image_path = None;
                (Vec::new(), Vec::new())
            } else {
                self.current_image_index = 0;
                let first = self.current_folder_images[0].clone();
                self.load_file(first, true)
            }
        } else {
            self.load_folder_contents(entries);
            let ghost listing0 = self.current_folder_images@;
            match position_of(&self.current_folder_images, path.as_str()) {
                Some(idx) => {
                    proof {
                        lemma_contains_path_multiset(listing0, supported_of(entries@), path@);
                        lemma_first_pos_of(listing0, path@);
                    }
                    self.current_image_index = idx;
                },
                None => {
                    proof {
                        lemma_contains_path_multiset(listing0, supported_of(entries@), path@);
                    }
                    let mut single: Vec<String> = Vec::new();
                    single.push(path.clone());
                    self.current_folder_images = single;
                    self.current_image_index = 0;
                    proof {
                        assert(self.current_folder_images@ =~= seq![path]);
                    }
                },
            }
            self.load_file(path, true)
        }
    }

    /// Takes one report of the decode worker: the path leaves the in-flight
    /// set; a decoded image joins the texture cache, and when it is the
    /// current image its size is noted and the view reset is owed; an error
    /// on the current image leaves its message.  Returns whether the caller
    /// resets the view transform.
    pub fn handle_result(&mut self, result: ImageResult) -> (reset: bool)
        requires
            old(self).wf(),
        ensures
            final(self).wf(),
            match result {
                ImageResult::Success(path, w, h) => {
                    let current = view_opt(old(self).current_image_path) == Some(path@);
                    &&& final(self).loading_paths@ == (if contains_path(
                        old(self).loading_paths@,
                        path@,
                    ) {
                        old(self).loading_paths@.remove(first_pos_of(old(self).loading_paths@, path@))
                    } else {
                        old(self).loading_paths@
                    })
                    &&& final(self).texture_cache@ == (if contains_path(
                        old(self).texture_cache@,
                        path@,
                    ) {
                        old(self).texture_cache@
                    } else {
                        old(self).texture_cache@.push(path)
                    })
                    &&& if current {
                        &&& final(self).last_loaded_path == Some(path)
                        &&& final(self).image_size == Some((w, h))
                        &&& reset == old(self).reset_view_on_load
                        &&& final(self).reset_view_on_load == false
                    } else {
                        &&& final(self).last_loaded_path == old(self).last_loaded_path
                        &&& final(self).image_size == old(self).image_size
                        &&& reset == false
                        &&& final(self).reset_view_on_load == old(self).reset_view_on_load
                    }
                    &&& final(self).error_msg == old(self).error_msg
                    &&& final(self).current_folder_images == old(self).current_folder_images
                    &&& final(self).current_image_index == old(self).current_image_index
                    &&& final(self).current_image_path == old(self).current_image_path
                },
                ImageResult::Error(path, err) => {
                    let current = view_opt(old(self).current_image_path) == Some(path@);
                    &&& final(self).loading_paths@ == (if contains_path(
                        old(self).loading_paths@,
                        path@,
                    ) {
                        old(self).loading_paths@.remove(first_pos_of(old(self).loading_paths@, path@))
                    } else {
                        old(self).loading_paths@
                    })
                    &&& final(self).texture_cache == old(self).texture_cache
                    &&& if current {
                        final(self).error_msg == Some(err)
                    } else {
                        final(self).error_msg == old(self).error_msg
                    }
                    &&& reset == false
                    &&& final(self).last_loaded_path == old(self).last_loaded_path
                    &&& final(self).image_size == old(self).image_size
                    &&& final(self).reset_view_on_load == old(self).reset_view_on_load
                    &&& final(self).current_folder_images == old(self).current_folder_images
                    &&& final(self).current_image_index == old(self).current_image_index
                    &&& final(self).current_image_path == old(self).current_image_path
                },
            },
    {
        match result {
            ImageResult::Success(path, w, h) => {
                match position_of(&self.loading_paths, path.as_str()) {
                    Some(i) => {
                        proof {
                            lemma_first_pos_of(self.loading_paths@, path@);
                            lemma_unique_remove(self.loading_paths@, i as int);
                        }
                        self.loading_paths.remove(i);
                    },
                    None => {},
                }
                if position_of(&self.texture_cache, path.as_str()).is_none() {
                    self.texture_cache.push(path.clone());
                }
                let is_current = match &self.current_image_path {
                    Some(c) => strings_equal(c.as_str(), path.as_str()),
                    None => false,
                };
                if is_current {
                    self.last_loaded_path = Some(path);
                    self.image_size = Some((w, h));
                    let reset = self.reset_view_on_load;
                    self.reset_view_on_load = false;
                    reset
                } else {
                    false
                }
            },
            ImageResult::Error(path, err) => {
                match position_of(&self.loading_paths, path.as_str()) {
                    Some(i) => {
                        proof {
                            lemma_first_pos_of(self.loading_paths@, path@);
                            lemma_unique_remove(self.loading_paths@, i as int);
                        }
                        self.loading_paths.remove(i);
                    },
                    None => {},
                }
                let is_current = match &self.current_image_path {
                    Some(c) => strings_equal(c.as_str(), path.as_str()),
                    None => false,
                };
                if is_current {
                    self.error_msg = Some(err);
                }
                false
            },
        }
    }
}

} // verus!
