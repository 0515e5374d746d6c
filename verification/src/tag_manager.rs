//! Rules of the tag sorter: the persistent tag-category cache, how a tag is
//! written and ordered by its Danbooru category, the bracket/underscore
//! rewrite of caption files and the reports of both passes.  Walking the
//! directory, reading and writing files and querying Danbooru run around
//! these rules.
use std::path::PathBuf;
use vstd::prelude::*;

use crate::danbooru_client::string_views;
use crate::image_processor::{escape_parentheses, underscores_to_spaces};
use crate::text::{
    append_chars, chars_equal, chars_of, decimal, one_of, owned, split_on, split_when, string_from_chars,
    trim_bounds, trim_spec, u64_to_chars,
};

verus! {

/// Version of the cache file format.
pub const CACHE_VERSION: u32 = 1;

/// How artist tags are marked.
#[derive(Debug, Clone, Copy, Default, PartialEq, Eq, Structural)]
pub enum ArtistPrefix {
    #[default]
    Artist,
    At,
}

impl ArtistPrefix {
    /// The characters put before an artist tag.
    pub open spec fn marker(self) -> Seq<char> {
        match self {
            ArtistPrefix::Artist => "artist:"@,
            ArtistPrefix::At => "@"@,
        }
    }

    /// `tag_name` with the artist marking in front.
    pub fn format(&self, tag_name: &str) -> (formatted: String)
        ensures
            formatted@ == self.marker() + tag_name@,
    {
        let mut text = match self {
            ArtistPrefix::Artist => chars_of("artist:"),
            ArtistPrefix::At => chars_of("@"),
        };
        append_chars(&mut text, &chars_of(tag_name));
        string_from_chars(&text)
    }
}

// ---------------------------------------------------------------------
// The cache
// ---------------------------------------------------------------------

/// The contents of the cache file.
#[derive(Debug, Clone)]
pub struct TagCacheData {
    pub version: u32,
    pub data: Vec<(String, Option<i64>)>,
}

/// The view of cache entries.
pub open spec fn entry_views(entries: Seq<(String, Option<i64>)>) -> Seq<(Seq<char>, Option<i64>)> {
    entries.map_values(|e: (String, Option<i64>)| (e.0@, e.1))
}

/// No tag has two entries.
pub open spec fn keys_unique(entries: Seq<(Seq<char>, Option<i64>)>) -> bool {
    forall|i: int, j: int| 0 <= i < j < entries.len() ==> #[trigger] entries[i].0 != #[trigger] entries[j].0
}

/// The entry list as a map from tag to category.
pub open spec fn entries_map(entries: Seq<(Seq<char>, Option<i64>)>) -> Map<Seq<char>, Option<i64>> {
    Map::new(
        |k: Seq<char>| exists|i: int| 0 <= i < entries.len() && #[trigger] entries[i].0 == k,
        |k: Seq<char>| entries[choose|i: int| 0 <= i < entries.len() && #[trigger] entries[i].0 == k].1,
    )
}

proof fn lemma_entries_map_at(entries: Seq<(Seq<char>, Option<i64>)>, j: int)
    requires
        keys_unique(entries),
        0 <= j < entries.len(),
    ensures
        entries_map(entries).contains_key(entries[j].0),
        entries_map(entries)[entries[j].0] == entries[j].1,
{
    let k = entries[j].0;
    assert(entries_map(entries).contains_key(k));
    let i = choose|i: int| 0 <= i < entries.len() && #[trigger] entries[i].0 == k;
    if i != j {
        if i < j {
            assert(entries[i].0 != entries[j].0);
        } else {
            assert(entries[j].0 != entries[i].0);
        }
    }
}

/// The categories Danbooru gave for tags, kept across runs.
#[derive(Debug)]
pub struct TagCache {
    entries: Vec<(String, Option<i64>)>,
    file_path: PathBuf,
    dirty: bool,
}

impl View for TagCache {
    type V = Map<Seq<char>, Option<i64>>;

    closed spec fn view(&self) -> Map<Seq<char>, Option<i64>> {
        entries_map(entry_views(self.entries@))
    }
}

impl TagCache {
    /// The cache keeps one entry per tag.
    pub closed spec fn wf(&self) -> bool {
        keys_unique(entry_views(self.entries@))
    }

    /// Whether the cache changed since it was loaded.
    pub closed spec fn dirty_spec(&self) -> bool {
        self.dirty
    }

    /// The file the cache is kept in.
    pub closed spec fn file_path_spec(&self) -> PathBuf {
        self.file_path
    }

    /// An empty, unchanged cache kept in `file_path`.
    pub fn empty(file_path: PathBuf) -> (cache: TagCache)
        ensures
            cache.wf(),
            cache@ == Map::<Seq<char>, Option<i64>>::empty(),
            !cache.dirty_spec(),
            cache.file_path_spec() == file_path,
    {
        let cache = TagCache { entries: Vec::new(), file_path, dirty: false };
        assert(cache@ =~= Map::<Seq<char>, Option<i64>>::empty());
        cache
    }

    /// A cache loaded from stored pairs (a later pair for a tag wins),
    /// unchanged so far.
    pub fn from_pairs(file_path: PathBuf, pairs: Vec<(String, Option<i64>)>) -> (cache: TagCache)
        ensures
            cache.wf(),
            cache@ == pairs_map(entry_views(pairs@)),
            !cache.dirty_spec(),
            cache.file_path_spec() == file_path,
    {
        let mut cache = TagCache::empty(file_path);
        let ghost views = entry_views(pairs@);
        let mut index: usize = 0;
        assert(views.take(0) =~= Seq::<(Seq<char>, Option<i64>)>::empty());
        while index < pairs.len()
            invariant
                index <= pairs.len(),
                views == entry_views(pairs@),
                cache.wf(),
                cache@ == pairs_map(views.take(index as int)),
                cache.file_path_spec() == file_path,
            decreases pairs.len() - index,
        {
            let (tag, category) = (&pairs[index].0, pairs[index].1);
            assert(views[index as int] == (tag@, category));
            cache.set(tag.as_str(), category);
            assert(views.take(index + 1).drop_last() =~= views.take(index as int));
            index += 1;
        }
        assert(views.take(pairs.len() as int) =~= views);
        cache.dirty = false;
        cache
    }

    /// The category cached for `tag`: `None` if the tag was never looked
    /// up, `Some(None)` if Danbooru knows no category for it.
    pub fn get(&self, tag: &str) -> (found: Option<Option<i64>>)
        requires
            self.wf(),
        ensures
            found == (if self@.contains_key(tag@) {
                Some(self@[tag@])
            } else {
                None
            }),
    {
        match self.position(tag) {
            Some(i) => {
                proof {
                    lemma_entries_map_at(entry_views(self.entries@), i as int);
                }
                Some(self.entries[i].1)
            },
            None => None,
        }
    }

    fn position(&self, tag: &str) -> (found: Option<usize>)
        ensures
            match found {
                Some(i) => i < self.entries.len() && self.entries@[i as int].0@ == tag@,
                None => !self@.contains_key(tag@),
            },
    {
        let wanted = chars_of(tag);
        let ghost views = entry_views(self.entries@);
        let mut index: usize = 0;
        while index < self.entries.len()
            invariant
                index <= self.entries.len(),
                views == entry_views(self.entries@),
                wanted@ == tag@,
                forall|i: int| 0 <= i < index ==> views[i].0 != tag@,
            decreases self.entries.len() - index,
        {
            let key = chars_of(self.entries[index].0.as_str());
            assert(views[index as int].0 == key@);
            if chars_equal(&key, &wanted) {
                return Some(index);
            }
            index += 1;
        }
        None
    }

    /// Records the category of `tag`; the cache is marked changed only when
    /// the recorded category differs.
    pub fn set(&mut self, tag: &str, category: Option<i64>)
        requires
            old(self).wf(),
        ensures
            final(self).wf(),
            final(self)@ == old(self)@.insert(tag@, category),
            final(self).dirty_spec() == (old(self).dirty_spec() || !(old(self)@.contains_key(tag@)
                && old(self)@[tag@] == category)),
            final(self).file_path_spec() == old(self).file_path_spec(),
    {
        let ghost before = entry_views(self.entries@);
        match self.position(tag) {
            Some(i) => {
                proof {
                    lemma_entries_map_at(before, i as int);
                }
                if self.entries[i].1 != category {
                    let key = crate::text::copy_string(&self.entries[i].0);
                    self.entries.set(i, (key, category));
                    self.dirty = true;
                    proof {
                        let after = entry_views(self.entries@);
                        assert(after =~= before.update(i as int, (tag@, category)));
                        assert forall|a: int, b: int| 0 <= a < b < after.len() implies #[trigger] after[a].0
                            != #[trigger] after[b].0 by {
                            assert(after[a].0 == before[a].0);
                            assert(after[b].0 == before[b].0);
                        }
                        assert forall|k: Seq<char>| #[trigger] entries_map(after).contains_key(k)
                            == old(self)@.insert(tag@, category).contains_key(k) by {
                            if entries_map(after).contains_key(k) {
                                let j = choose|j: int| 0 <= j < after.len() && #[trigger] after[j].0 == k;
                                assert(before[j].0 == k);
                            }
                            if old(self)@.contains_key(k) {
                                let j = choose|j: int| 0 <= j < before.len() && #[trigger] before[j].0 == k;
                                assert(after[j].0 == k);
                            }
                        }
                        assert forall|k: Seq<char>| #[trigger] entries_map(after).contains_key(k) implies entries_map(
                            after,
                        )[k] == old(self)@.insert(tag@, category)[k] by {
                            let j = choose|j: int| 0 <= j < after.len() && #[trigger] after[j].0 == k;
                            lemma_entries_map_at(after, j);
                            lemma_entries_map_at(before, j);
                        }
                        assert(entries_map(after) =~= old(self)@.insert(tag@, category));
                    }
                } else {
                    proof {
                        assert(old(self)@.insert(tag@, category) =~= old(self)@);
                    }
                }
            },
            None => {
                self.entries.push((owned(tag), category));
                self.dirty = true;
                proof {
                    let after = entry_views(self.entries@);
                    assert(after =~= before.push((tag@, category)));
                    assert forall|a: int, b: int| 0 <= a < b < after.len() implies #[trigger] after[a].0
                        != #[trigger] after[b].0 by {
                        if b == before.len() {
                            assert(!entries_map(before).contains_key(tag@));
                            assert(after[a].0 == before[a].0);
                        } else {
                            assert(after[a].0 == before[a].0);
                            assert(after[b].0 == before[b].0);
                        }
                    }
                    assert forall|k: Seq<char>| #[trigger] entries_map(after).contains_key(k)
                        == old(self)@.insert(tag@, category).contains_key(k) by {
                        if entries_map(after).contains_key(k) {
                            let j = choose|j: int| 0 <= j < after.len() && #[trigger] after[j].0 == k;
                            if j < before.len() {
                                assert(before[j].0 == k);
                            }
                        }
                        if old(self)@.contains_key(k) {
                            let j = choose|j: int| 0 <= j < before.len() && #[trigger] before[j].0 == k;
                            assert(after[j].0 == k);
                        }
                        if k == tag@ {
                            assert(after[before.len() as int].0 == k);
                        }
                    }
                    assert forall|k: Seq<char>| #[trigger] entries_map(after).contains_key(k) implies entries_map(
                        after,
                    )[k] == old(self)@.insert(tag@, category)[k] by {
                        let j = choose|j: int| 0 <= j < after.len() && #[trigger] after[j].0 == k;
                        lemma_entries_map_at(after, j);
                        if j < before.len() {
                            assert(before[j] == after[j]);
                            lemma_entries_map_at(before, j);
                        }
                    }
                    assert(entries_map(after) =~= old(self)@.insert(tag@, category));
                }
            },
        }
    }

    /// Whether the cache has to be written back.
    pub fn is_dirty(&self) -> (dirty: bool)
        ensures
            dirty == self.dirty_spec(),
    {
        self.dirty
    }

    /// Number of cached tags.
    pub fn len(&self) -> (count: usize)
        requires
            self.wf(),
        ensures
            count == self@.dom().len(),
    {
        proof {
            self.lemma_domain_size();
        }
        self.entries.len()
    }

    proof fn lemma_domain_size(&self)
        requires
            self.wf(),
        ensures
            self@.dom().len() == self.entries@.len(),
            self@.dom().finite(),
    {
        let views = entry_views(self.entries@);
        let keys = views.map_values(|e: (Seq<char>, Option<i64>)| e.0);
        assert forall|i: int, j: int| 0 <= i < keys.len() && 0 <= j < keys.len() && i != j implies keys[i]
            != keys[j] by {
            if i < j {
                assert(views[i].0 != views[j].0);
            } else {
                assert(views[j].0 != views[i].0);
            }
        }
        assert(keys.no_duplicates());
        assert(self@.dom() =~= keys.to_set()) by {
            assert forall|k: Seq<char>| #[trigger] self@.dom().contains(k) == keys.to_set().contains(k) by {
                if self@.dom().contains(k) {
                    let j = choose|j: int| 0 <= j < views.len() && #[trigger] views[j].0 == k;
                    assert(keys[j] == k);
                }
                if keys.to_set().contains(k) {
                    let j = choose|j: int| 0 <= j < keys.len() && keys[j] == k;
                    assert(views[j].0 == k);
                }
            }
        }
        keys.unique_seq_to_set();
    }

    /// What is written to the cache file.
    pub fn to_data(&self) -> (data: TagCacheData)
        requires
            self.wf(),
        ensures
            data.version == CACHE_VERSION,
            keys_unique(entry_views(data.data@)),
            entries_map(entry_views(data.data@)) == self@,
    {
        let mut pairs: Vec<(String, Option<i64>)> = Vec::new();
        let mut index: usize = 0;
        while index < self.entries.len()
            invariant
                index <= self.entries.len(),
                entry_views(pairs@) == entry_views(self.entries@).take(index as int),
            decreases self.entries.len() - index,
        {
            let ghost before = entry_views(pairs@);
            pairs.push((crate::text::copy_string(&self.entries[index].0), self.entries[index].1));
            assert(entry_views(pairs@) =~= before.push(entry_views(self.entries@)[index as int]));
            index += 1;
            assert(entry_views(pairs@) =~= entry_views(self.entries@).take(index as int));
        }
        assert(entry_views(self.entries@).take(self.entries.len() as int) =~= entry_views(self.entries@));
        TagCacheData { version: CACHE_VERSION, data: pairs }
    }
}

/// The map stored pairs give, a later pair for a tag winning.
pub open spec fn pairs_map(pairs: Seq<(Seq<char>, Option<i64>)>) -> Map<Seq<char>, Option<i64>>
    decreases pairs.len(),
{
    if pairs.len() == 0 {
        Map::empty()
    } else {
        pairs_map(pairs.drop_last()).insert(pairs.last().0, pairs.last().1)
    }
}

/// Whether a stored cache file has the current format version.
pub fn accepts_cache_version(version: u32) -> (accepted: bool)
    ensures
        accepted == (version == CACHE_VERSION),
{
    version == CACHE_VERSION
}

/// A read gives back the last write: after recording `category` for `tag`,
/// the cache holds exactly that category for it, and every other tag keeps
/// what it had.
pub proof fn law_tag_cache_reads_back_writes(
    before: Map<Seq<char>, Option<i64>>,
    tag: Seq<char>,
    category: Option<i64>,
    other: Seq<char>,
)
    requires
        other != tag,
    ensures
        before.insert(tag, category).contains_key(tag),
        before.insert(tag, category)[tag] == category,
        before.insert(tag, category).contains_key(other) == before.contains_key(other),
        before.contains_key(other) ==> before.insert(tag, category)[other] == before[other],
{
}

// ---------------------------------------------------------------------
// Sorting caption files
// ---------------------------------------------------------------------

/// Categories whose tags the sorter drops: copyright, circle, meta.
pub open spec fn is_filtered_category(category: Option<i64>) -> bool {
    category == Some(3i64) || category == Some(5i64) || category == Some(6i64)
}

/// Sort rank of a category: artists, then characters, then the rest.
pub open spec fn category_rank(category: Option<i64>) -> u8 {
    if category == Some(1i64) {
        0
    } else if category == Some(4i64) {
        1
    } else {
        2
    }
}

/// How a tag of a known category is written and ranked, unless dropped.
pub open spec fn formatted_tag(prefix: ArtistPrefix, tag: Seq<char>, category: Option<i64>) -> Option<
    (Seq<char>, u8),
> {
    if is_filtered_category(category) {
        None
    } else if category == Some(1i64) {
        Some((prefix.marker() + tag, 0))
    } else {
        Some((tag, category_rank(category)))
    }
}

/// See [`formatted_tag`].
pub fn format_tag(prefix: ArtistPrefix, tag_name: &str, category: Option<i64>) -> (formatted: Option<(String, u8)>)
    ensures
        match (formatted, formatted_tag(prefix, tag_name@, category)) {
            (Some((text, rank)), Some((expected, expected_rank))) => text@ == expected && rank == expected_rank,
            (None, None) => true,
            _ => false,
        },
{
    if category == Some(3i64) || category == Some(5i64) || category == Some(6i64) {
        return None;
    }
    if category == Some(1i64) {
        Some((prefix.format(tag_name), 0))
    } else if category == Some(4i64) {
        Some((owned(tag_name), 1))
    } else {
        Some((owned(tag_name), 2))
    }
}

/// Separators between the tags of a caption file.
pub open spec fn file_separators() -> Seq<char> {
    seq![',', '\n', ';']
}

/// The tags of a caption file: split at `,` `\n` `;`, trimmed, empty ones
/// dropped.
pub open spec fn file_elements(content: Seq<char>) -> Seq<Seq<char>> {
    split_when(content, one_of(file_separators())).map_values(|piece: Seq<char>| trim_spec(piece)).filter(
        |tag: Seq<char>| tag.len() > 0,
    )
}

/// See [`file_elements`].
pub fn split_file_elements(content: &str) -> (elements: Vec<String>)
    ensures
        string_views(elements@) == file_elements(content@),
{
    let separators = vec![',', '\n', ';'];
    assert(separators@ =~= file_separators());
    let pieces = split_on(&chars_of(content), &separators);
    let ghost trimmed = crate::text::char_views(pieces@).map_values(|piece: Seq<char>| trim_spec(piece));
    let ghost keep = |tag: Seq<char>| tag.len() > 0;
    let mut elements: Vec<String> = Vec::new();
    let mut index: usize = 0;
    proof {
        reveal(Seq::filter);
        assert(string_views(elements@) =~= trimmed.take(0).filter(keep));
    }
    while index < pieces.len()
        invariant
            index <= pieces.len(),
            trimmed == crate::text::char_views(pieces@).map_values(|piece: Seq<char>| trim_spec(piece)),
            keep == (|tag: Seq<char>| tag.len() > 0),
            string_views(elements@) == trimmed.take(index as int).filter(keep),
        decreases pieces.len() - index,
    {
        let piece = &pieces[index];
        let (start, end) = trim_bounds(piece, 0, piece.len());
        assert(piece@.subrange(0, piece@.len() as int) =~= piece@);
        let tag = crate::text::slice_chars(piece, start, end);
        assert(tag@ == trimmed[index as int]);
        let ghost before = string_views(elements@);
        if tag.len() > 0 {
            elements.push(string_from_chars(&tag));
            assert(string_views(elements@) =~= before.push(trimmed[index as int]));
        }
        proof {
            assert(trimmed.take(index + 1) =~= trimmed.take(index as int).push(trimmed[index as int]));
            trimmed.take(index as int).lemma_filter_push(trimmed[index as int], keep);
        }
        index += 1;
    }
    assert(trimmed.take(pieces.len() as int) =~= trimmed);
    elements
}

/// How one element of a caption file comes out, given what the cache knows
/// of it: an element the cache does not know is kept as it is, ranked
/// with the general tags.
pub open spec fn sorted_entry(prefix: ArtistPrefix, tag: Seq<char>, known: Option<Option<i64>>) -> Option<
    (Seq<char>, u8),
> {
    match known {
        Some(category) => formatted_tag(prefix, tag, category),
        None => Some((tag, 2)),
    }
}

/// The elements of rank `rank`, in file order.
pub open spec fn elements_of_rank(
    elements: Seq<Seq<char>>,
    cache: Map<Seq<char>, Option<i64>>,
    prefix: ArtistPrefix,
    rank: u8,
) -> Seq<Seq<char>>
    decreases elements.len(),
{
    if elements.len() == 0 {
        Seq::empty()
    } else {
        let earlier = elements_of_rank(elements.drop_last(), cache, prefix, rank);
        let tag = elements.last();
        let known = if cache.contains_key(tag) {
            Some(cache[tag])
        } else {
            None
        };
        match sorted_entry(prefix, tag, known) {
            Some((text, r)) => if r == rank {
                earlier.push(text)
            } else {
                earlier
            },
            None => earlier,
        }
    }
}

/// A caption file's tags after sorting: dropped categories removed, artist
/// tags marked, artists then characters then the rest, each group in file
/// order (a stable sort by rank).
pub open spec fn sorted_file_tags(
    elements: Seq<Seq<char>>,
    cache: Map<Seq<char>, Option<i64>>,
    prefix: ArtistPrefix,
) -> Seq<Seq<char>> {
    elements_of_rank(elements, cache, prefix, 0) + elements_of_rank(elements, cache, prefix, 1)
        + elements_of_rank(elements, cache, prefix, 2)
}

/// Sorts the elements of one caption file (see [`sorted_file_tags`]).
pub fn sort_file_tags(elements: &Vec<String>, cache: &TagCache, prefix: ArtistPrefix) -> (sorted: Vec<String>)
    requires
        cache.wf(),
    ensures
        string_views(sorted@) == sorted_file_tags(string_views(elements@), cache@, prefix),
{
    let ghost views = string_views(elements@);
    let mut groups: (Vec<String>, Vec<String>, Vec<String>) = (Vec::new(), Vec::new(), Vec::new());
    let mut index: usize = 0;
    while index < elements.len()
        invariant
            index <= elements.len(),
            cache.wf(),
            views == string_views(elements@),
            string_views(groups.0@) == elements_of_rank(views.take(index as int), cache@, prefix, 0),
            string_views(groups.1@) == elements_of_rank(views.take(index as int), cache@, prefix, 1),
            string_views(groups.2@) == elements_of_rank(views.take(index as int), cache@, prefix, 2),
        decreases elements.len() - index,
    {
        let tag = &elements[index];
        proof {
            let next = views.take(index + 1);
            assert(next.drop_last() =~= views.take(index as int));
            assert(next.last() == tag@);
        }
        let known = cache.get(tag.as_str());
        let entry = match known {
            Some(category) => format_tag(prefix, tag.as_str(), category),
            None => Some((crate::text::copy_string(tag), 2u8)),
        };
        match entry {
            Some((text, rank)) => {
                if rank == 0 {
                    let ghost before = string_views(groups.0@);
                    groups.0.push(text);
                    assert(string_views(groups.0@) =~= before.push(text@));
                } else if rank == 1 {
                    let ghost before = string_views(groups.1@);
                    groups.1.push(text);
                    assert(string_views(groups.1@) =~= before.push(text@));
                } else {
                    let ghost before = string_views(groups.2@);
                    groups.2.push(text);
                    assert(string_views(groups.2@) =~= before.push(text@));
                }
            },
            None => {},
        }
        index += 1;
    }
    assert(views.take(elements.len() as int) =~= views);
    let (mut first, mut second, mut third) = groups;
    let ghost a = string_views(first@);
    let ghost b = string_views(second@);
    let ghost c = string_views(third@);
    first.append(&mut second);
    first.append(&mut third);
    assert(string_views(first@) =~= a + b + c);
    first
}

/// The report of a sorting pass.
pub open spec fn sort_report_text(files: usize, original: usize, kept: usize, cached: usize) -> Seq<char> {
    "标签排序完成!\n文件: "@ + decimal(files as nat) + "\n标签: "@ + decimal(original as nat) + " -> "@
        + decimal(kept as nat) + " (过滤 "@ + decimal(
        (if original >= kept {
            original - kept
        } else {
            0
        }) as nat,
    ) + ")\n缓存: "@ + decimal(cached as nat) + " 条"@
}

fn push_number(text: &mut Vec<char>, value: usize)
    ensures
        final(text)@ == old(text)@ + decimal(value as nat),
{
    append_chars(text, &u64_to_chars(value as u64));
}

fn push_text(text: &mut Vec<char>, piece: &str)
    ensures
        final(text)@ == old(text)@ + piece@,
{
    append_chars(text, &chars_of(piece));
}

/// See [`sort_report_text`].
pub fn sort_report(files: usize, original: usize, kept: usize, cached: usize) -> (report: String)
    ensures
        report@ == sort_report_text(files, original, kept, cached),
{
    let filtered = if original >= kept {
        original - kept
    } else {
        0
    };
    let mut text = chars_of("标签排序完成!\n文件: ");
    push_number(&mut text, files);
    push_text(&mut text, "\n标签: ");
    push_number(&mut text, original);
    push_text(&mut text, " -> ");
    push_number(&mut text, kept);
    push_text(&mut text, " (过滤 ");
    push_number(&mut text, filtered);
    push_text(&mut text, ")\n缓存: ");
    push_number(&mut text, cached);
    push_text(&mut text, " 条");
    string_from_chars(&text)
}

// ---------------------------------------------------------------------
// Brackets and underscores
// ---------------------------------------------------------------------

/// A caption file after the bracket pass: parentheses not already escaped
/// get a backslash, then underscores become spaces.
pub open spec fn kuohao_text_spec(content: Seq<char>) -> Seq<char> {
    underscores_to_spaces(escape_parentheses(content))
}

/// See [`kuohao_text_spec`].
pub fn kuohao_text(content: &str) -> (rewritten: String)
    ensures
        rewritten@ == kuohao_text_spec(content@),
{
    let chars = chars_of(content);
    let mut escaped: Vec<char> = Vec::new();
    let mut index: usize = 0;
    while index < chars.len()
        invariant
            index <= chars.len(),
            escaped@ == escape_parentheses(chars@.take(index as int)),
        decreases chars.len() - index,
    {
        let c = chars[index];
        proof {
            let next = chars@.take(index + 1);
            assert(next.drop_last() =~= chars@.take(index as int));
            assert(next.last() == c);
            if index >= 1 {
                assert(next[next.len() - 2] == chars@[index - 1]);
            }
        }
        if (c == '(' || c == ')') && !(index >= 1 && chars[index - 1] == '\\') {
            escaped.push('\\');
        }
        escaped.push(c);
        index += 1;
        assert(escaped@ =~= escape_parentheses(chars@.take(index as int)));
    }
    assert(chars@.take(chars.len() as int) =~= chars@);
    let mut spaced: Vec<char> = Vec::new();
    let mut position: usize = 0;
    while position < escaped.len()
        invariant
            position <= escaped.len(),
            spaced@ == underscores_to_spaces(escaped@.take(position as int)),
        decreases escaped.len() - position,
    {
        let c = escaped[position];
        spaced.push(
            if c == '_' {
                ' '
            } else {
                c
            },
        );
        position += 1;
        assert(spaced@ =~= underscores_to_spaces(escaped@.take(position as int)));
    }
    assert(escaped@.take(escaped.len() as int) =~= escaped@);
    string_from_chars(&spaced)
}

/// The report of a bracket pass.
pub fn kuohao_report(files: usize, changed: usize, unchanged: usize, errors: usize) -> (report: String)
    ensures
        report@ == "括号/下划线处理完成!\n文件: "@ + decimal(files as nat) + "\n修改: "@ + decimal(changed as nat)
            + ", 未变: "@ + decimal(unchanged as nat) + ", 错误: "@ + decimal(errors as nat),
{
    let mut text = chars_of("括号/下划线处理完成!\n文件: ");
    push_number(&mut text, files);
    push_text(&mut text, "\n修改: ");
    push_number(&mut text, changed);
    push_text(&mut text, ", 未变: ");
    push_number(&mut text, unchanged);
    push_text(&mut text, ", 错误: ");
    push_number(&mut text, errors);
    string_from_chars(&text)
}

/// The report of the full pipeline: both passes' reports.
pub fn pipeline_report(sorting: &str, brackets: &str) -> (report: String)
    ensures
        report@ == "全流程处理完成!\n\n[步骤 1 - API 排序]\n"@ + sorting@ + "\n\n[步骤 2 - 括号/下划线]\n"@
            + brackets@,
{
    let mut text = chars_of("全流程处理完成!\n\n[步骤 1 - API 排序]\n");
    push_text(&mut text, sorting);
    push_text(&mut text, "\n\n[步骤 2 - 括号/下划线]\n");
    push_text(&mut text, brackets);
    string_from_chars(&text)
}

// ---------------------------------------------------------------------
// Tag category lookups
// ---------------------------------------------------------------------

/// The last attempt (counted from 0) of a tag category lookup.
pub const TAG_LOOKUP_LAST_ATTEMPT: u64 = 3;

/// What one request of a tag category lookup got back.
#[derive(Debug, Clone, PartialEq, Eq)]
pub enum TagLookupResponse {
    /// The API answered 429, with its `Retry-After` header text if any.
    RateLimited(Option<String>),
    /// The API answered with another status; its body is to be read.
    Answered,
    /// The request failed before an answer came.
    Failed,
}

/// What a tag category lookup does next.
#[derive(Debug, Clone, Copy, PartialEq, Eq, Structural)]
pub enum TagLookupAction {
    /// Wait this many seconds, then try again while attempts remain.
    WaitSeconds(u64),
    /// Wait this many milliseconds, then try again.
    WaitMillis(u64),
    /// Read the category from the answer.
    Read,
    /// Stop; the tag gets no category.
    GiveUp,
}

/// The next step of a tag category lookup after `attempt` (from 0) got
/// `response`: a 429 waits for its `Retry-After` seconds (5 when missing
/// or not a number) whatever the attempt; an answer is read; a failed
/// request waits 250 ms times the attempt's number before the next one,
/// and after the last attempt the lookup gives up.
pub fn tag_lookup_step(attempt: u64, response: &TagLookupResponse) -> (action: TagLookupAction)
    ensures
        action == match response {
            TagLookupResponse::RateLimited(header) => TagLookupAction::WaitSeconds(
                match header {
                    Some(text) => match crate::text::parse_u64_spec(text@) {
                        Some(seconds) => seconds,
                        None => 5,
                    },
                    None => 5,
                },
            ),
            TagLookupResponse::Answered => TagLookupAction::Read,
            TagLookupResponse::Failed => if attempt < TAG_LOOKUP_LAST_ATTEMPT {
                TagLookupAction::WaitMillis((250 * (attempt + 1)) as u64)
            } else {
                TagLookupAction::GiveUp
            },
        },
{
    match response {
        TagLookupResponse::RateLimited(header) => {
            let seconds = match header {
                Some(text) => match crate::text::parse_u64(&chars_of(text.as_str())) {
                    Some(seconds) => seconds,
                    None => 5,
                },
                None => 5,
            };
            TagLookupAction::WaitSeconds(seconds)
        },
        TagLookupResponse::Answered => TagLookupAction::Read,
        TagLookupResponse::Failed => if attempt < TAG_LOOKUP_LAST_ATTEMPT {
            TagLookupAction::WaitMillis(250 * (attempt + 1))
        } else {
            TagLookupAction::GiveUp
        },
    }
}

} // verus!
