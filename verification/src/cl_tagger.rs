//! The local ONNX tagger: where its model lives and how its tag mapping is
//! read.
//!
//! Running the model and turning its scores into tags works on floating
//! point numbers and stays with the application.  What is decided here is
//! which directory is used for the model, which Hugging Face cache
//! directories are searched, and the order and categories of the tags in
//! the mapping file, whose keys are the model's output indices.
use std::path::PathBuf;
use vstd::prelude::*;

use crate::text::{
    append_chars, chars_of, owned, parse_u64, parse_u64_spec, str_equal, string_from_chars,
    trim_bounds, trim_spec,
};

verus! {

/// Name of the model's repository directory in the Hugging Face hub cache.
pub const CL_TAGGER_REPO_DIR: &'static str = "models--cella110n--cl_tagger";

/// Subdirectory of a snapshot that holds the model.
pub const CL_TAGGER_MODEL_SUBDIR: &'static str = "cl_tagger_1_01";

/// File name of the ONNX model.
pub const CL_TAGGER_MODEL_FILE: &'static str = "model.onnx";

/// File name of the index -> tag mapping.
pub const CL_TAGGER_MAPPING_FILE: &'static str = "tag_mapping.json";

/// The model's repository on the Hugging Face hub.
pub const CL_TAGGER_HF_REPO: &'static str = "cella110n/cl_tagger";

/// Path of the model inside that repository.
pub const CL_TAGGER_HF_SUBPATH: &'static str = "cl_tagger_1_01";

/// The category of a tag in the mapping.
#[derive(Debug, Clone, Copy, PartialEq, Eq, Structural)]
pub enum ClTagCategory {
    General,
    Character,
    Copyright,
    Meta,
    Model,
    Rating,
    Quality,
}

/// The category a mapping entry names; an absent or unknown name is `Meta`.
pub open spec fn category_named(name: Option<Seq<char>>) -> ClTagCategory {
    match name {
        Some(text) => {
            if text == "General"@ {
                ClTagCategory::General
            } else if text == "Character"@ {
                ClTagCategory::Character
            } else if text == "Copyright"@ {
                ClTagCategory::Copyright
            } else if text == "Meta"@ {
                ClTagCategory::Meta
            } else if text == "Model"@ {
                ClTagCategory::Model
            } else if text == "Rating"@ {
                ClTagCategory::Rating
            } else if text == "Quality"@ {
                ClTagCategory::Quality
            } else {
                ClTagCategory::Meta
            }
        },
        None => ClTagCategory::Meta,
    }
}

/// Reads a category name of the mapping file (see [`category_named`]).
pub fn category_from_name(name: &Option<String>) -> (category: ClTagCategory)
    ensures
        category == category_named(match name {
            Some(text) => Some(text@),
            None => None,
        }),
{
    match name {
        Some(text) => {
            let text = text.as_str();
            if str_equal(text, "General") {
                ClTagCategory::General
            } else if str_equal(text, "Character") {
                ClTagCategory::Character
            } else if str_equal(text, "Copyright") {
                ClTagCategory::Copyright
            } else if str_equal(text, "Meta") {
                ClTagCategory::Meta
            } else if str_equal(text, "Model") {
                ClTagCategory::Model
            } else if str_equal(text, "Rating") {
                ClTagCategory::Rating
            } else if str_equal(text, "Quality") {
                ClTagCategory::Quality
            } else {
                ClTagCategory::Meta
            }
        },
        None => ClTagCategory::Meta,
    }
}

/// The categories whose tags the tagger may output.
pub open spec fn included_category(category: ClTagCategory) -> bool {
    match category {
        ClTagCategory::General | ClTagCategory::Character | ClTagCategory::Copyright
        | ClTagCategory::Quality => true,
        _ => false,
    }
}

/// Whether tags of `category` may be output (general, character,
/// copyright and quality tags; never rating, meta or model tags).
pub fn include_category(category: ClTagCategory) -> (included: bool)
    ensures
        included == included_category(category),
{
    match category {
        ClTagCategory::General | ClTagCategory::Character | ClTagCategory::Copyright
        | ClTagCategory::Quality => true,
        _ => false,
    }
}

/// Where the model directory comes from.
#[derive(Debug)]
pub enum ModelDirRequest {
    /// The directory the user named.
    Explicit(String),
    /// None was named: look for the model in the Hugging Face cache.
    DetectInCache,
}

/// Resolves the configured model directory: a path the user gave (trimmed)
/// wins; a blank setting asks for the model to be found in the Hugging Face
/// cache.
pub fn resolve_model_dir(requested: &str) -> (choice: ModelDirRequest)
    ensures
        match choice {
            ModelDirRequest::Explicit(path) => path@ == trim_spec(requested@) && path@.len() > 0,
            ModelDirRequest::DetectInCache => trim_spec(requested@).len() == 0,
        },
{
    let chars = chars_of(requested);
    let (start, end) = trim_bounds(&chars, 0, chars.len());
    assert(chars@.subrange(0, chars@.len() as int) =~= chars@);
    if start == end {
        return ModelDirRequest::DetectInCache;
    }
    let mut path = String::new();
    let mut index = start;
    while index < end
        invariant
            start <= index <= end <= chars.len(),
            path@ == chars@.subrange(start as int, index as int),
        decreases end - index,
    {
        crate::text::push_char(&mut path, chars[index]);
        index += 1;
        assert(path@ == chars@.subrange(start as int, index as int));
    }
    ModelDirRequest::Explicit(path)
}

/// The environment variables that locate the Hugging Face hub cache, as the
/// process sees them (`None` where a variable is unset).
#[derive(Debug, Clone)]
pub struct HfCacheEnv {
    /// `HF_HUB_CACHE`
    pub hf_hub_cache: Option<PathBuf>,
    /// `HUGGINGFACE_HUB_CACHE`
    pub huggingface_hub_cache: Option<PathBuf>,
    /// `HF_HOME`
    pub hf_home: Option<PathBuf>,
    /// `HUGGINGFACE_HOME`
    pub huggingface_home: Option<PathBuf>,
    /// `USERPROFILE`
    pub user_profile: Option<PathBuf>,
    /// `HOME`
    pub home: Option<PathBuf>,
}

/// A hub cache directory: `base` joined with each of `subdirs` in turn.
#[derive(Debug)]
pub struct HubCacheDir {
    pub base: PathBuf,
    pub subdirs: Vec<String>,
}

impl View for HubCacheDir {
    type V = (PathBuf, Seq<Seq<char>>);

    open spec fn view(&self) -> (PathBuf, Seq<Seq<char>>) {
        (self.base, self.subdirs@.map_values(|s: String| s@))
    }
}

/// One candidate for each variable that is set.
pub open spec fn candidate_if_set(base: Option<PathBuf>, subdirs: Seq<Seq<char>>) -> Seq<
    (PathBuf, Seq<Seq<char>>),
> {
    match base {
        Some(path) => seq![(path, subdirs)],
        None => Seq::empty(),
    }
}

/// `.cache/huggingface/hub` under a home directory.
pub open spec fn home_cache_subdirs() -> Seq<Seq<char>> {
    seq![".cache"@, "huggingface"@, "hub"@]
}

/// The hub cache directories to search, most preferred first: the two
/// explicit cache variables, then `hub` under the two Hugging Face home
/// variables, then `.cache/huggingface/hub` under `USERPROFILE` and `HOME`.
pub open spec fn hub_cache_candidates_spec(env: HfCacheEnv) -> Seq<(PathBuf, Seq<Seq<char>>)> {
    candidate_if_set(env.hf_hub_cache, Seq::empty()) + candidate_if_set(
        env.huggingface_hub_cache,
        Seq::empty(),
    ) + candidate_if_set(env.hf_home, seq!["hub"@]) + candidate_if_set(
        env.huggingface_home,
        seq!["hub"@],
    ) + candidate_if_set(env.user_profile, home_cache_subdirs()) + candidate_if_set(
        env.home,
        home_cache_subdirs(),
    )
}

fn push_candidate(
    candidates: &mut Vec<HubCacheDir>,
    base: &Option<PathBuf>,
    subdirs: Vec<String>,
)
    ensures
        final(candidates)@.map_values(|d: HubCacheDir| d@) == old(candidates)@.map_values(
            |d: HubCacheDir| d@,
        ) + candidate_if_set(*base, subdirs@.map_values(|s: String| s@)),
{
    let ghost before = candidates@;
    match base {
        Some(path) => {
            candidates.push(HubCacheDir { base: path.clone(), subdirs });
            assert(candidates@.map_values(|d: HubCacheDir| d@) =~= before.map_values(
                |d: HubCacheDir| d@,
            ) + candidate_if_set(*base, subdirs@.map_values(|s: String| s@)));
        },
        None => {
            assert(candidates@.map_values(|d: HubCacheDir| d@) =~= before.map_values(
                |d: HubCacheDir| d@,
            ) + candidate_if_set(*base, subdirs@.map_values(|s: String| s@)));
        },
    }
}

/// `["hub"]`
fn hub_subdirs() -> (subdirs: Vec<String>)
    ensures
        subdirs@.map_values(|s: String| s@) == seq!["hub"@],
{
    let mut subdirs: Vec<String> = Vec::new();
    subdirs.push(owned("hub"));
    assert(subdirs@.map_values(|s: String| s@) =~= seq!["hub"@]);
    subdirs
}

/// `[".cache", "huggingface", "hub"]`
fn home_cache_dirs() -> (subdirs: Vec<String>)
    ensures
        subdirs@.map_values(|s: String| s@) == home_cache_subdirs(),
{
    let mut subdirs: Vec<String> = Vec::new();
    subdirs.push(owned(".cache"));
    subdirs.push(owned("huggingface"));
    subdirs.push(owned("hub"));
    assert(subdirs@.map_values(|s: String| s@) =~= home_cache_subdirs());
    subdirs
}

/// The hub cache directories to search, most preferred first (see
/// [`hub_cache_candidates_spec`]).
pub fn hf_hub_cache_candidates(env: &HfCacheEnv) -> (candidates: Vec<HubCacheDir>)
    ensures
        candidates@.map_values(|d: HubCacheDir| d@) == hub_cache_candidates_spec(*env),
{
    let mut candidates: Vec<HubCacheDir> = Vec::new();
    let ghost none: Seq<Seq<char>> = Seq::empty();
    let ghost first = candidate_if_set(env.hf_hub_cache, none);
    assert(candidates@.map_values(|d: HubCacheDir| d@) + first =~= first);
    let no_subdirs: Vec<String> = Vec::new();
    assert(no_subdirs@.map_values(|s: String| s@) =~= none);
    push_candidate(&mut candidates, &env.hf_hub_cache, no_subdirs);
    let no_subdirs: Vec<String> = Vec::new();
    assert(no_subdirs@.map_values(|s: String| s@) =~= none);
    push_candidate(&mut candidates, &env.huggingface_hub_cache, no_subdirs);
    push_candidate(&mut candidates, &env.hf_home, hub_subdirs());
    push_candidate(&mut candidates, &env.huggingface_home, hub_subdirs());
    push_candidate(&mut candidates, &env.user_profile, home_cache_dirs());
    push_candidate(&mut candidates, &env.home, home_cache_dirs());
    candidates
}

/// The main hub cache directory, where a download goes: the most preferred
/// candidate, or `None` when no variable is set.
pub fn primary_hf_hub_cache(env: &HfCacheEnv) -> (primary: Option<HubCacheDir>)
    ensures
        match primary {
            Some(dir) => hub_cache_candidates_spec(*env).len() > 0 && dir@
                == hub_cache_candidates_spec(*env)[0],
            None => hub_cache_candidates_spec(*env).len() == 0,
        },
{
    let mut candidates = hf_hub_cache_candidates(env);
    if candidates.len() == 0 {
        None
    } else {
        let ghost views = candidates@.map_values(|d: HubCacheDir| d@);
        assert(views[0] == candidates@[0]@);
        Some(candidates.remove(0))
    }
}

/// One entry of the mapping file as read: its key, and its `tag` and
/// `category` strings where the entry has them.
#[derive(Debug)]
pub struct ClMappingItem {
    pub key: String,
    pub tag: Option<String>,
    pub category: Option<String>,
}

/// A tag the model can output, with its category.
#[derive(Debug, Clone)]
pub struct ClTagEntry {
    pub tag: String,
    pub category: ClTagCategory,
}

/// Sort rank of a mapping key: its value as a `u64`, or `u64::MAX` where
/// it is not one.
pub open spec fn key_rank(key: Seq<char>) -> u64 {
    match parse_u64_spec(key) {
        Some(value) => value,
        None => u64::MAX,
    }
}

/// Rank of the `i`-th item.
pub open spec fn rank_at(items: Seq<ClMappingItem>, i: int) -> u64 {
    key_rank(items[i].key@)
}

/// Position in `order` of the first item whose rank exceeds `rank`
/// (`order.len()` when there is none).
pub open spec fn first_above(items: Seq<ClMappingItem>, order: Seq<int>, rank: u64) -> nat
    decreases order.len(),
{
    if order.len() == 0 {
        0
    } else if rank_at(items, order[0]) > rank {
        0
    } else {
        1 + first_above(items, order.drop_first(), rank)
    }
}

/// The order in which the first `n` items are read: each item goes after
/// every earlier item whose rank is not greater than its own, so the items
/// are sorted by rank and items of equal rank keep their order.
pub open spec fn mapping_order(items: Seq<ClMappingItem>, n: nat) -> Seq<int>
    decreases n,
{
    if n == 0 {
        Seq::empty()
    } else {
        let before = mapping_order(items, (n - 1) as nat);
        before.insert(first_above(items, before, rank_at(items, n - 1)) as int, n - 1)
    }
}

proof fn lemma_first_above(items: Seq<ClMappingItem>, order: Seq<int>, rank: u64)
    ensures
        first_above(items, order, rank) <= order.len(),
        forall|p: int|
            0 <= p < first_above(items, order, rank) ==> rank_at(items, #[trigger] order[p])
                <= rank,
        first_above(items, order, rank) < order.len() ==> rank_at(
            items,
            order[first_above(items, order, rank) as int],
        ) > rank,
    decreases order.len(),
{
    if order.len() > 0 && rank_at(items, order[0]) <= rank {
        let rest = order.drop_first();
        lemma_first_above(items, rest, rank);
        assert forall|p: int| 0 <= p < first_above(items, order, rank) implies rank_at(
            items,
            #[trigger] order[p],
        ) <= rank by {
            if p > 0 {
                assert(order[p] == rest[p - 1]);
            }
        }
    }
}

/// Reading order of the tag mapping: the first `n` items each appear once,
/// sorted by rank, and items of equal rank keep the order they came in.
pub proof fn law_mapping_order_sorted_and_stable(items: Seq<ClMappingItem>, n: nat)
    requires
        n <= items.len(),
    ensures
        mapping_order(items, n).len() == n,
        forall|p: int|
            0 <= p < n ==> 0 <= #[trigger] mapping_order(items, n)[p] < n,
        forall|p: int, q: int|
            0 <= p < q < n ==> mapping_order(items, n)[p] != mapping_order(items, n)[q],
        forall|p: int, q: int|
            0 <= p < q < n ==> rank_at(items, mapping_order(items, n)[p]) <= rank_at(
                items,
                mapping_order(items, n)[q],
            ),
        forall|p: int, q: int|
            0 <= p < q < n && rank_at(items, mapping_order(items, n)[p]) == rank_at(
                items,
                mapping_order(items, n)[q],
            ) ==> mapping_order(items, n)[p] < mapping_order(items, n)[q],
    decreases n,
{
    if n > 0 {
        let m = (n - 1) as nat;
        law_mapping_order_sorted_and_stable(items, m);
        let before = mapping_order(items, m);
        let r = rank_at(items, n - 1);
        let k = first_above(items, before, r) as int;
        lemma_first_above(items, before, r);
        let after = mapping_order(items, n);
        assert(after == before.insert(k, n - 1));
        assert forall|p: int| k <= p < m implies rank_at(items, #[trigger] before[p]) > r by {
            if p > k {
                assert(rank_at(items, before[k]) <= rank_at(items, before[p]));
            }
        }
        assert forall|p: int| 0 <= p < n implies 0 <= #[trigger] after[p] < n by {
            if p > k {
                assert(after[p] == before[p - 1]);
            } else if p < k {
                assert(after[p] == before[p]);
            }
        }
        assert forall|p: int, q: int| 0 <= p < q < n implies after[p] != after[q] by {
            if p < k {
                assert(after[p] == before[p]);
            } else if p > k {
                assert(after[p] == before[p - 1]);
            }
            if q < k {
                assert(after[q] == before[q]);
            } else if q > k {
                assert(after[q] == before[q - 1]);
            }
        }
        assert forall|p: int, q: int| 0 <= p < q < n implies rank_at(items, after[p]) <= rank_at(
            items,
            after[q],
        ) && (rank_at(items, after[p]) == rank_at(items, after[q]) ==> after[p] < after[q]) by {
            if p < k {
                assert(after[p] == before[p]);
            } else if p > k {
                assert(after[p] == before[p - 1]);
            }
            if q < k {
                assert(after[q] == before[q]);
            } else if q > k {
                assert(after[q] == before[q - 1]);
            }
        }
    }
}

/// Whether the item at `i` has a tag.
pub open spec fn tagged_at(items: Seq<ClMappingItem>, i: int) -> bool {
    items[i].tag is Some
}

/// The error for a mapping entry without a tag.
pub open spec fn missing_tag_message(key: Seq<char>) -> Seq<char> {
    "标签映射条目 "@ + key + " 缺少 tag"@
}

/// The entry read from the item at `i`.
pub open spec fn entry_at(items: Seq<ClMappingItem>, i: int) -> (Seq<char>, ClTagCategory) {
    (
        items[i].tag.unwrap()@,
        category_named(
            match items[i].category {
                Some(text) => Some(text@),
                None => None,
            },
        ),
    )
}

fn missing_tag_error(key: &str) -> (message: String)
    ensures
        message@ == missing_tag_message(key@),
{
    let mut text = chars_of("标签映射条目 ");
    append_chars(&mut text, &chars_of(key));
    append_chars(&mut text, &chars_of(" 缺少 tag"));
    string_from_chars(&text)
}

fn copy_category_name(name: &Option<String>) -> (copy: Option<String>)
    ensures
        match (copy, *name) {
            (Some(a), Some(b)) => a@ == b@,
            (None, None) => true,
            _ => false,
        },
{
    crate::text::copy_optional_string(name)
}

/// Reads the tag mapping in key order (see [`mapping_order`]): every item
/// in that order must have a tag, and there must be at least one.
pub fn order_tag_mapping(items: &Vec<ClMappingItem>) -> (entries: Result<Vec<ClTagEntry>, String>)
    ensures
        ({
            let order = mapping_order(items@, items.len() as nat);
            match entries {
                Ok(read) => items.len() > 0 && (forall|p: int|
                    0 <= p < items.len() ==> tagged_at(items@, #[trigger] order[p]))
                    && read.len() == items.len() && (forall|p: int|
                    0 <= p < items.len() ==> (#[trigger] read@[p]).tag@ == entry_at(
                        items@,
                        order[p],
                    ).0 && read@[p].category == entry_at(items@, order[p]).1),
                Err(message) => (exists|p: int|
                    0 <= p < items.len() && !tagged_at(items@, #[trigger] order[p]) && (forall|
                        q: int,
                    |
                        0 <= q < p ==> tagged_at(items@, #[trigger] order[q]))
                        && message@ == missing_tag_message(items@[order[p]].key@)) || (
                items.len() == 0 && message@ == "标签映射为空"@),
            }
        }),
{
    let n = items.len();
    let mut ranks: Vec<u64> = Vec::new();
    let mut i: usize = 0;
    while i < n
        invariant
            i <= n == items.len(),
            ranks.len() == i,
            forall|j: int| 0 <= j < i ==> ranks@[j] == rank_at(items@, j),
        decreases n - i,
    {
        let rank = match parse_u64(&chars_of(items[i].key.as_str())) {
            Some(value) => value,
            None => u64::MAX,
        };
        ranks.push(rank);
        i += 1;
    }
    let mut order: Vec<usize> = Vec::new();
    let mut i: usize = 0;
    while i < n
        invariant
            i <= n == items.len() == ranks.len(),
            forall|j: int| 0 <= j < n ==> ranks@[j] == rank_at(items@, j),
            order@.map_values(|x: usize| x as int) == mapping_order(items@, i as nat),
            order.len() == i,
        decreases n - i,
    {
        let ghost before = order@.map_values(|x: usize| x as int);
        proof {
            law_mapping_order_sorted_and_stable(items@, i as nat);
        }
        let r = ranks[i];
        let mut k: usize = 0;
        assert(before.subrange(0, before.len() as int) =~= before);
        while k < order.len() && ranks[order[k]] <= r
            invariant
                i < n == items.len() == ranks.len(),
                forall|j: int| 0 <= j < n ==> ranks@[j] == rank_at(items@, j),
                before == order@.map_values(|x: usize| x as int),
                forall|p: int| 0 <= p < order.len() ==> 0 <= #[trigger] before[p] < i,
                k <= order.len(),
                r == rank_at(items@, i as int),
                first_above(items@, before, r) == k + first_above(
                    items@,
                    before.subrange(k as int, before.len() as int),
                    r,
                ),
            decreases order.len() - k,
        {
            proof {
                let rest = before.subrange(k as int, before.len() as int);
                assert(rest[0] == before[k as int]);
                assert(rest.drop_first() =~= before.subrange(k + 1, before.len() as int));
            }
            k += 1;
        }
        proof {
            let rest = before.subrange(k as int, before.len() as int);
            if k < order.len() {
                assert(rest[0] == before[k as int]);
            } else {
                assert(rest.len() == 0);
            }
        }
        order.insert(k, i);
        assert(order@.map_values(|x: usize| x as int) =~= before.insert(k as int, i as int));
        i += 1;
    }
    proof {
        law_mapping_order_sorted_and_stable(items@, n as nat);
    }
    let ghost order_view = order@.map_values(|x: usize| x as int);
    let mut read: Vec<ClTagEntry> = Vec::new();
    let mut p: usize = 0;
    while p < n
        invariant
            p <= n == items.len() == order.len(),
            order_view == order@.map_values(|x: usize| x as int),
            order_view == mapping_order(items@, n as nat),
            forall|q: int| 0 <= q < n ==> 0 <= #[trigger] order_view[q] < n,
            read.len() == p,
            forall|q: int| 0 <= q < p ==> tagged_at(items@, #[trigger] order_view[q]),
            forall|q: int|
                0 <= q < p ==> (#[trigger] read@[q]).tag@ == entry_at(items@, order_view[q]).0
                    && read@[q].category == entry_at(items@, order_view[q]).1,
        decreases n - p,
    {
        let index = order[p];
        assert(order_view[p as int] == index as int);
        let item = &items[index];
        match &item.tag {
            None => {
                return Err(missing_tag_error(item.key.as_str()));
            },
            Some(tag) => {
                let category = category_from_name(&copy_category_name(&item.category));
                read.push(ClTagEntry { tag: tag.clone(), category });
            },
        }
        p += 1;
    }
    if n == 0 {
        return Err(owned("标签映射为空"));
    }
    Ok(read)
}

} // verus!
