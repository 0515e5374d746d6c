//! Rules of the media tools: the caption tag pipeline, tag matching for
//! delete-by-tag, relative media paths, quarantine batch ids and the
//! supported media formats.  The file-system side (reading sidecars,
//! quarantining, publishing files) runs around these rules.
use std::path::PathBuf;
use vstd::prelude::*;

use crate::text::{
    append_chars, char_views, chars_equal, chars_of, contains_chars, join_chars, join_with, one_of,
    split_on, split_when, string_from_chars, trim_bounds, trim_spec,
};

verus! {

/// Danbooru tag categories that the pipeline acts on.
pub const CATEGORY_ARTIST: i64 = 1;
pub const CATEGORY_COPYRIGHT: i64 = 3;
pub const CATEGORY_CHARACTER: i64 = 4;
pub const CATEGORY_CIRCLE: i64 = 5;
pub const CATEGORY_META: i64 = 6;

/// Name of the quarantine directory inside a media root.
pub const QUARANTINE_DIR: &'static str = ".danbooru-quarantine";

/// Whether a directory entry is the quarantine directory (names compare
/// exactly, as this system's file names do).
pub fn is_quarantine_dir_name(name: &str) -> (quarantine: bool)
    ensures
        quarantine == (name@ == QUARANTINE_DIR@),
{
    crate::text::str_equal(name, QUARANTINE_DIR)
}

/// How artist tags are marked in a processed caption.
#[derive(Debug, Clone, Copy, PartialEq, Eq, Structural)]
pub enum ArtistPrefix {
    Artist,
    At,
}

impl ArtistPrefix {
    /// The characters put before an artist tag.
    pub open spec fn prefix_spec(self) -> Seq<char> {
        match self {
            ArtistPrefix::Artist => "artist:"@,
            ArtistPrefix::At => "@"@,
        }
    }

    /// The default marking, `artist:`.
    pub fn default_prefix() -> (prefix: ArtistPrefix)
        ensures
            prefix == ArtistPrefix::Artist,
    {
        ArtistPrefix::Artist
    }

    /// `tag` with the artist marking in front.
    pub fn format(self, tag: &Vec<char>) -> (formatted: Vec<char>)
        ensures
            formatted@ == self.prefix_spec() + tag@,
    {
        let mut formatted = match self {
            ArtistPrefix::Artist => chars_of("artist:"),
            ArtistPrefix::At => chars_of("@"),
        };
        append_chars(&mut formatted, tag);
        formatted
    }
}

/// Known Danbooru categories of tags: a tag-to-category table in which a
/// later entry for the same tag replaces an earlier one.
#[derive(Debug, Clone, PartialEq, Eq)]
pub struct TagCategories {
    entries: Vec<(String, Option<i64>)>,
}

/// The category recorded for `tag`: the last entry for it wins.
pub open spec fn category_lookup(entries: Seq<(Seq<char>, Option<i64>)>, tag: Seq<char>) -> Option<
    Option<i64>,
>
    decreases entries.len(),
{
    if entries.len() == 0 {
        None
    } else if entries.last().0 == tag {
        Some(entries.last().1)
    } else {
        category_lookup(entries.drop_last(), tag)
    }
}

impl View for TagCategories {
    type V = Seq<(Seq<char>, Option<i64>)>;

    closed spec fn view(&self) -> Seq<(Seq<char>, Option<i64>)> {
        self.entries@.map_values(|e: (String, Option<i64>)| (e.0@, e.1))
    }
}

impl TagCategories {
    /// An empty table.
    pub fn new() -> (table: TagCategories)
        ensures
            table@.len() == 0,
    {
        let table = TagCategories { entries: Vec::new() };
        assert(table@ =~= Seq::<(Seq<char>, Option<i64>)>::empty());
        table
    }

    /// Records the category of `tag`.
    pub fn insert(&mut self, tag: String, category: Option<i64>)
        ensures
            final(self)@ == old(self)@.push((tag@, category)),
    {
        let ghost t = tag@;
        self.entries.push((tag, category));
        assert(self@ =~= old(self)@.push((t, category)));
    }

    /// A table from pairs; a later pair for the same tag wins.
    pub fn from_pairs(pairs: Vec<(String, Option<i64>)>) -> (table: TagCategories)
        ensures
            table@ == pairs@.map_values(|e: (String, Option<i64>)| (e.0@, e.1)),
    {
        TagCategories { entries: pairs }
    }

    /// The recorded entries, in the order recorded.
    pub fn to_pairs(&self) -> (pairs: Vec<(String, Option<i64>)>)
        ensures
            pairs@.map_values(|e: (String, Option<i64>)| (e.0@, e.1)) == self@,
    {
        let mut pairs: Vec<(String, Option<i64>)> = Vec::new();
        let mut index: usize = 0;
        while index < self.entries.len()
            invariant
                index <= self.entries@.len(),
                pairs@.map_values(|e: (String, Option<i64>)| (e.0@, e.1)) == self@.take(index as int),
            decreases self.entries@.len() - index,
        {
            let entry = &self.entries[index];
            let ghost before = pairs@.map_values(|e: (String, Option<i64>)| (e.0@, e.1));
            pairs.push((crate::text::copy_string(&entry.0), entry.1));
            assert(self@[index as int] == (entry.0@, entry.1));
            assert(pairs@.map_values(|e: (String, Option<i64>)| (e.0@, e.1)) =~= before.push((entry.0@, entry.1)));
            assert(self@.take(index + 1) =~= self@.take(index as int).push(self@[index as int]));
            assert(pairs@.map_values(|e: (String, Option<i64>)| (e.0@, e.1)) =~= self@.take(index + 1));
            index += 1;
        }
        assert(self@.take(index as int) =~= self@);
        pairs
    }

    /// Number of recorded entries.
    pub fn len(&self) -> (count: usize)
        ensures
            count == self@.len(),
    {
        self.entries.len()
    }

    /// The category recorded for `tag`, if any.
    pub fn get(&self, tag: &Vec<char>) -> (found: Option<Option<i64>>)
        ensures
            found == category_lookup(self@, tag@),
    {
        let mut index = self.entries.len();
        assert(self@.take(index as int) =~= self@);
        while index > 0
            invariant
                index <= self.entries@.len(),
                category_lookup(self@, tag@) == category_lookup(self@.take(index as int), tag@),
            decreases index,
        {
            let entry = &self.entries[index - 1];
            let key = chars_of(entry.0.as_str());
            proof {
                let prefix = self@.take(index as int);
                assert(prefix.last() == (entry.0@, entry.1));
                assert(prefix.drop_last() =~= self@.take(index - 1));
            }
            if chars_equal(&key, tag) {
                return Some(entry.1);
            }
            index -= 1;
        }
        None
    }
}

/// Settings of the caption tag pipeline.
#[derive(Debug, Clone, PartialEq, Eq)]
pub struct TagPipelineConfig {
    pub artist_prefix: ArtistPrefix,
    pub categories: TagCategories,
}

impl TagPipelineConfig {
    /// The default settings: `artist:` marking and no known categories.
    pub fn default_config() -> (config: TagPipelineConfig)
        ensures
            config.artist_prefix == ArtistPrefix::Artist,
            config.categories@.len() == 0,
    {
        TagPipelineConfig { artist_prefix: ArtistPrefix::Artist, categories: TagCategories::new() }
    }
}

/// The characters that separate caption tags.
pub open spec fn caption_separators() -> Seq<char> {
    seq![',', '\n', '\r', ';']
}

/// Whether a category is dropped from captions (copyright, circle, meta).
pub open spec fn is_dropped_category(category: Option<i64>) -> bool {
    category == Some(CATEGORY_COPYRIGHT) || category == Some(CATEGORY_CIRCLE) || category == Some(
        CATEGORY_META,
    )
}

/// Caption position of a category: artists first, then characters, then
/// everything else.
pub open spec fn category_priority(category: Option<i64>) -> int {
    if category == Some(CATEGORY_ARTIST) {
        0
    } else if category == Some(CATEGORY_CHARACTER) {
        1
    } else {
        2
    }
}

/// The flattened category of a (trimmed) tag.
pub open spec fn known_category(categories: Seq<(Seq<char>, Option<i64>)>, tag: Seq<char>) -> Option<
    i64,
> {
    match category_lookup(categories, tag) {
        Some(category) => category,
        None => None,
    }
}

/// One raw caption piece as a prioritised tag, or `None` when it is empty
/// or of a dropped category.
pub open spec fn caption_entry(
    piece: Seq<char>,
    categories: Seq<(Seq<char>, Option<i64>)>,
    prefix: ArtistPrefix,
) -> Option<(int, Seq<char>)> {
    let tag = trim_spec(piece);
    let category = known_category(categories, tag);
    if tag.len() == 0 || is_dropped_category(category) {
        None
    } else {
        Some(
            (
                category_priority(category),
                if category == Some(CATEGORY_ARTIST) {
                    prefix.prefix_spec() + tag
                } else {
                    tag
                },
            ),
        )
    }
}

/// The prioritised tags of the caption pieces, in caption order.
pub open spec fn caption_entries(
    pieces: Seq<Seq<char>>,
    categories: Seq<(Seq<char>, Option<i64>)>,
    prefix: ArtistPrefix,
) -> Seq<(int, Seq<char>)>
    decreases pieces.len(),
{
    if pieces.len() == 0 {
        Seq::empty()
    } else {
        let earlier = caption_entries(pieces.drop_last(), categories, prefix);
        match caption_entry(pieces.last(), categories, prefix) {
            Some(entry) => earlier.push(entry),
            None => earlier,
        }
    }
}

/// The tags of priority `priority`, in order.
pub open spec fn tags_of_priority(entries: Seq<(int, Seq<char>)>, priority: int) -> Seq<Seq<char>>
    decreases entries.len(),
{
    if entries.len() == 0 {
        Seq::empty()
    } else {
        let earlier = tags_of_priority(entries.drop_last(), priority);
        if entries.last().0 == priority {
            earlier.push(entries.last().1)
        } else {
            earlier
        }
    }
}

/// `s` with a backslash put before every parenthesis not already preceded
/// by one.
pub open spec fn escape_parentheses(s: Seq<char>) -> Seq<char>
    decreases s.len(),
{
    if s.len() == 0 {
        Seq::empty()
    } else {
        let c = s.last();
        let escaped = (c == '(' || c == ')') && !(s.len() >= 2 && s[s.len() - 2] == '\\');
        escape_parentheses(s.drop_last()) + if escaped {
            seq!['\\', c]
        } else {
            seq![c]
        }
    }
}

/// `s` with every underscore turned into a space.
pub open spec fn underscores_to_spaces(s: Seq<char>) -> Seq<char> {
    s.map_values(|c: char|
        if c == '_' {
            ' '
        } else {
            c
        })
}

/// How one tag is written into the caption.
pub open spec fn caption_form(tag: Seq<char>) -> Seq<char> {
    escape_parentheses(underscores_to_spaces(tag))
}

/// The caption written forms of `tags`.
pub open spec fn caption_forms(tags: Seq<Seq<char>>) -> Seq<Seq<char>> {
    tags.map_values(|t: Seq<char>| caption_form(t))
}

/// The processed caption: tags split at `,` `\n` `\r` `;` and trimmed,
/// copyright/circle/meta tags dropped, artists (marked) then characters
/// then the rest, each in caption order, underscores as spaces, parentheses
/// escaped, repeats dropped and the result joined with commas.
pub open spec fn transformed_caption(
    content: Seq<char>,
    categories: Seq<(Seq<char>, Option<i64>)>,
    prefix: ArtistPrefix,
) -> Seq<char> {
    let entries = caption_entries(
        split_when(content, one_of(caption_separators())),
        categories,
        prefix,
    );
    let ordered = tags_of_priority(entries, 0) + tags_of_priority(entries, 1) + tags_of_priority(
        entries,
        2,
    );
    join_with(caption_forms(ordered).remove_duplicates(Seq::empty()), ","@)
}

proof fn lemma_priority_push(entries: Seq<(int, Seq<char>)>, entry: (int, Seq<char>), priority: int)
    ensures
        tags_of_priority(entries.push(entry), priority) == if entry.0 == priority {
            tags_of_priority(entries, priority).push(entry.1)
        } else {
            tags_of_priority(entries, priority)
        },
{
    assert(entries.push(entry).drop_last() =~= entries);
}

/// A character that can stand in a tag of a processed caption: no
/// separator and no underscore.
pub open spec fn is_caption_tag_char(c: char) -> bool {
    c != ',' && c != '\n' && c != '\r' && c != ';' && c != '_'
}

/// A tag as a processed caption writes it: non-empty, and made of
/// characters that can stand in a caption tag.
pub open spec fn is_caption_tag(tag: Seq<char>) -> bool {
    tag.len() > 0 && forall|j: int| 0 <= j < tag.len() ==> is_caption_tag_char(#[trigger] tag[j])
}

/// A non-empty text with no caption separator in it.
spec fn is_separator_free_tag(tag: Seq<char>) -> bool {
    tag.len() > 0 && forall|j: int| 0 <= j < tag.len() ==> !caption_separators().contains(#[trigger] tag[j])
}

proof fn lemma_caption_separators(c: char)
    ensures
        caption_separators().contains(c) <==> (c == ',' || c == '\n' || c == '\r' || c == ';'),
{
    let s = caption_separators();
    assert(s[0] == ',' && s[1] == '\n' && s[2] == '\r' && s[3] == ';');
}

/// A caption entry made from a piece without separators is a non-empty tag
/// without separators.
proof fn lemma_entry_separator_free(
    piece: Seq<char>,
    categories: Seq<(Seq<char>, Option<i64>)>,
    prefix: ArtistPrefix,
)
    requires
        forall|j: int| 0 <= j < piece.len() ==> !caption_separators().contains(#[trigger] piece[j]),
    ensures
        caption_entry(piece, categories, prefix) matches Some(entry) ==> is_separator_free_tag(entry.1),
{
    let p = crate::text::whitespace();
    crate::text::lemma_leading_count_bound(piece, p);
    let lead = crate::text::leading_count(piece, p) as int;
    let started = crate::text::trim_start_by(piece, p);
    crate::text::lemma_trailing_count_bound(started, p);
    let tag = trim_spec(piece);
    assert forall|j: int| 0 <= j < tag.len() implies !caption_separators().contains(#[trigger] tag[j]) by {
        assert(tag[j] == started[j]);
        assert(started[j] == piece[j + lead]);
    }
    if let Some(entry) = caption_entry(piece, categories, prefix) {
        let category = known_category(categories, tag);
        if category == Some(CATEGORY_ARTIST) {
            let marked = prefix.prefix_spec() + tag;
            reveal_strlit("artist:");
            reveal_strlit("@");
            assert forall|j: int| 0 <= j < marked.len() implies !caption_separators().contains(#[trigger] marked[j]) by {
                lemma_caption_separators(marked[j]);
                if j >= prefix.prefix_spec().len() {
                    assert(marked[j] == tag[j - prefix.prefix_spec().len()]);
                }
            }
        }
    }
}

proof fn lemma_entries_separator_free(
    pieces: Seq<Seq<char>>,
    categories: Seq<(Seq<char>, Option<i64>)>,
    prefix: ArtistPrefix,
)
    requires
        forall|i: int, j: int| 0 <= i < pieces.len() && 0 <= j < pieces[i].len() ==> !caption_separators().contains(#[trigger] pieces[i][j]),
    ensures
        forall|k: int| 0 <= k < caption_entries(pieces, categories, prefix).len() ==> is_separator_free_tag(
            (#[trigger] caption_entries(pieces, categories, prefix)[k]).1,
        ),
    decreases pieces.len(),
{
    if pieces.len() > 0 {
        let front = pieces.drop_last();
        assert forall|i: int, j: int| 0 <= i < front.len() && 0 <= j < front[i].len() implies !caption_separators().contains(
            #[trigger] front[i][j],
        ) by {
            assert(front[i] == pieces[i]);
        }
        lemma_entries_separator_free(front, categories, prefix);
        let last = pieces.last();
        assert forall|j: int| 0 <= j < last.len() implies !caption_separators().contains(#[trigger] last[j]) by {
            assert(last[j] == pieces[pieces.len() - 1][j]);
        }
        lemma_entry_separator_free(last, categories, prefix);
        let earlier = caption_entries(front, categories, prefix);
        let entries = caption_entries(pieces, categories, prefix);
        assert forall|k: int| 0 <= k < entries.len() implies is_separator_free_tag((#[trigger] entries[k]).1) by {
            if k < earlier.len() {
                assert(entries[k] == earlier[k]);
            }
        }
    }
}

proof fn lemma_priority_separator_free(entries: Seq<(int, Seq<char>)>, priority: int)
    requires
        forall|k: int| 0 <= k < entries.len() ==> is_separator_free_tag((#[trigger] entries[k]).1),
    ensures
        forall|k: int| 0 <= k < tags_of_priority(entries, priority).len() ==> is_separator_free_tag(
            #[trigger] tags_of_priority(entries, priority)[k],
        ),
    decreases entries.len(),
{
    if entries.len() > 0 {
        let front = entries.drop_last();
        assert forall|k: int| 0 <= k < front.len() implies is_separator_free_tag((#[trigger] front[k]).1) by {
            assert(front[k] == entries[k]);
        }
        lemma_priority_separator_free(front, priority);
        assert(is_separator_free_tag(entries[entries.len() - 1].1));
        let earlier = tags_of_priority(front, priority);
        let tags = tags_of_priority(entries, priority);
        assert forall|k: int| 0 <= k < tags.len() implies is_separator_free_tag(#[trigger] tags[k]) by {
            if k < earlier.len() {
                assert(tags[k] == earlier[k]);
            }
        }
    }
}

proof fn lemma_escape_keeps_tag_chars(s: Seq<char>)
    requires
        forall|j: int| 0 <= j < s.len() ==> is_caption_tag_char(#[trigger] s[j]),
    ensures
        escape_parentheses(s).len() >= s.len(),
        forall|j: int| 0 <= j < escape_parentheses(s).len() ==> is_caption_tag_char(#[trigger] escape_parentheses(s)[j]),
    decreases s.len(),
{
    if s.len() > 0 {
        let front = s.drop_last();
        assert forall|j: int| 0 <= j < front.len() implies is_caption_tag_char(#[trigger] front[j]) by {
            assert(front[j] == s[j]);
        }
        lemma_escape_keeps_tag_chars(front);
        assert(is_caption_tag_char(s[s.len() - 1]));
    }
}

proof fn lemma_caption_form_is_tag(tag: Seq<char>)
    requires
        is_separator_free_tag(tag),
    ensures
        is_caption_tag(caption_form(tag)),
{
    let spaced = underscores_to_spaces(tag);
    assert forall|j: int| 0 <= j < spaced.len() implies is_caption_tag_char(#[trigger] spaced[j]) by {
        lemma_caption_separators(tag[j]);
    }
    lemma_escape_keeps_tag_chars(spaced);
}

/// Removing duplicates after a list of distinct items leaves distinct items.
proof fn lemma_remove_duplicates_distinct<A>(items: Seq<A>, seen: Seq<A>)
    requires
        seen.no_duplicates(),
    ensures
        items.remove_duplicates(seen).no_duplicates(),
    decreases items.len(),
{
    if items.len() > 0 {
        if seen.contains(items[0]) {
            lemma_remove_duplicates_distinct(items.skip(1), seen);
        } else {
            let next = seen + seq![items[0]];
            assert forall|i: int, j: int| 0 <= i < next.len() && 0 <= j < next.len() && i != j implies next[i] != next[j] by {
                if i < seen.len() && j < seen.len() {
                    assert(next[i] == seen[i] && next[j] == seen[j]);
                } else if i < seen.len() {
                    assert(next[i] == seen[i]);
                } else if j < seen.len() {
                    assert(next[j] == seen[j]);
                }
            }
            lemma_remove_duplicates_distinct(items.skip(1), next);
        }
    }
}

/// A processed caption is empty, or splitting it at commas gives back its
/// tags: each non-empty, with no separator (`,` `\n` `\r` `;`) and no
/// underscore in it, and no tag twice.
pub proof fn law_caption_tags_are_distinct_and_clean(
    content: Seq<char>,
    categories: Seq<(Seq<char>, Option<i64>)>,
    prefix: ArtistPrefix,
)
    ensures
        ({
            let caption = transformed_caption(content, categories, prefix);
            caption.len() == 0 || {
                let tags = split_when(caption, one_of(seq![',']));
                &&& tags.no_duplicates()
                &&& forall|i: int| 0 <= i < tags.len() ==> is_caption_tag(#[trigger] tags[i])
            }
        }),
{
    let pieces = split_when(content, one_of(caption_separators()));
    crate::text::lemma_split_pieces_clear(content, one_of(caption_separators()));
    lemma_entries_separator_free(pieces, categories, prefix);
    let entries = caption_entries(pieces, categories, prefix);
    lemma_priority_separator_free(entries, 0);
    lemma_priority_separator_free(entries, 1);
    lemma_priority_separator_free(entries, 2);
    let first = tags_of_priority(entries, 0);
    let second = tags_of_priority(entries, 1);
    let third = tags_of_priority(entries, 2);
    let ordered = first + second + third;
    assert forall|i: int| 0 <= i < ordered.len() implies is_separator_free_tag(#[trigger] ordered[i]) by {
        if i < first.len() {
            assert(ordered[i] == first[i]);
        } else if i < first.len() + second.len() {
            assert(ordered[i] == second[i - first.len()]);
        } else {
            assert(ordered[i] == third[i - first.len() - second.len()]);
        }
    }
    let forms = caption_forms(ordered);
    assert forall|i: int| 0 <= i < forms.len() implies is_caption_tag(#[trigger] forms[i]) by {
        lemma_caption_form_is_tag(ordered[i]);
    }
    let tags = forms.remove_duplicates(Seq::empty());
    forms.lemma_remove_duplicates_properties(Seq::empty());
    lemma_remove_duplicates_distinct(forms, Seq::<Seq<char>>::empty());
    assert(forms + Seq::<Seq<char>>::empty() =~= forms);
    assert forall|i: int| 0 <= i < tags.len() implies is_caption_tag(#[trigger] tags[i]) by {
        assert(tags.contains(tags[i]));
        assert(forms.contains(tags[i]));
        let k = choose|k: int| 0 <= k < forms.len() && forms[k] == tags[i];
        assert(is_caption_tag(forms[k]));
    }
    reveal_strlit(",");
    assert(","@ =~= seq![',']);
    let comma = one_of(seq![',']);
    if tags.len() > 0 {
        assert(seq![','][0] == ',');
        assert(comma(','));
        assert forall|i: int, j: int| 0 <= i < tags.len() && 0 <= j < tags[i].len() implies !comma(#[trigger] tags[i][j]) by {
            assert(is_caption_tag(tags[i]));
            assert(is_caption_tag_char(tags[i][j]));
        }
        crate::text::lemma_split_join(tags, ',', comma);
    }
}

pub(crate) fn caption_separator_chars() -> (separators: Vec<char>)
    ensures
        separators@ == caption_separators(),
{
    let mut separators: Vec<char> = Vec::new();
    separators.push(',');
    separators.push('\n');
    separators.push('\r');
    separators.push(';');
    assert(separators@ =~= caption_separators());
    separators
}

fn escape_tag(tag: &Vec<char>) -> (escaped: Vec<char>)
    ensures
        escaped@ == caption_form(tag@),
{
    let mut spaced: Vec<char> = Vec::new();
    let mut index: usize = 0;
    while index < tag.len()
        invariant
            index <= tag.len(),
            spaced@ == underscores_to_spaces(tag@.take(index as int)),
        decreases tag.len() - index,
    {
        let c = tag[index];
        spaced.push(
            if c == '_' {
                ' '
            } else {
                c
            },
        );
        index += 1;
        assert(spaced@ =~= underscores_to_spaces(tag@.take(index as int)));
    }
    assert(tag@.take(tag.len() as int) =~= tag@);
    let mut escaped: Vec<char> = Vec::new();
    let mut index: usize = 0;
    while index < spaced.len()
        invariant
            index <= spaced.len(),
            escaped@ == escape_parentheses(spaced@.take(index as int)),
        decreases spaced.len() - index,
    {
        let c = spaced[index];
        proof {
            let next = spaced@.take(index + 1);
            assert(next.drop_last() =~= spaced@.take(index as int));
            assert(next.last() == c);
            if index >= 1 {
                assert(next[next.len() - 2] == spaced@[index - 1]);
            }
        }
        if (c == '(' || c == ')') && !(index >= 1 && spaced[index - 1] == '\\') {
            escaped.push('\\');
        }
        escaped.push(c);
        index += 1;
        assert(escaped@ =~= escape_parentheses(spaced@.take(index as int)));
    }
    assert(spaced@.take(spaced.len() as int) =~= spaced@);
    escaped
}

/// Applies the caption pipeline with the default settings (`artist:`
/// marking, no known categories).
pub fn transform_tag_content(content: &str) -> (caption: String)
    ensures
        caption@ == transformed_caption(content@, Seq::empty(), ArtistPrefix::Artist),
{
    let categories = TagCategories::new();
    assert(categories@ =~= Seq::<(Seq<char>, Option<i64>)>::empty());
    transform_tag_content_with_categories(content, &categories, ArtistPrefix::Artist)
}

/// Applies the caption pipeline (see [`transformed_caption`]).
pub fn transform_tag_content_with_categories(
    content: &str,
    categories: &TagCategories,
    artist_prefix: ArtistPrefix,
) -> (caption: String)
    ensures
        caption@ == transformed_caption(content@, categories@, artist_prefix),
{
    let chars = chars_of(content);
    let separators = caption_separator_chars();
    let pieces = split_on(&chars, &separators);
    let ghost all = char_views(pieces@);
    let mut first: Vec<Vec<char>> = Vec::new();
    let mut second: Vec<Vec<char>> = Vec::new();
    let mut rest: Vec<Vec<char>> = Vec::new();
    let mut index: usize = 0;
    while index < pieces.len()
        invariant
            index <= pieces@.len(),
            all == char_views(pieces@),
            char_views(first@) == tags_of_priority(
                caption_entries(all.take(index as int), categories@, artist_prefix),
                0,
            ),
            char_views(second@) == tags_of_priority(
                caption_entries(all.take(index as int), categories@, artist_prefix),
                1,
            ),
            char_views(rest@) == tags_of_priority(
                caption_entries(all.take(index as int), categories@, artist_prefix),
                2,
            ),
            first@.len() + second@.len() + rest@.len() <= index,
        decreases pieces.len() - index,
    {
        let ghost earlier = caption_entries(all.take(index as int), categories@, artist_prefix);
        proof {
            let next = all.take(index + 1);
            assert(next.drop_last() =~= all.take(index as int));
            assert(next.last() == pieces@[index as int]@);
        }
        let piece = &pieces[index];
        let (start, end) = trim_bounds(piece, 0, piece.len());
        assert(piece@.subrange(0, piece@.len() as int) =~= piece@);
        let mut tag: Vec<char> = Vec::new();
        let mut k = start;
        while k < end
            invariant
                start <= k <= end <= piece.len(),
                tag@ == piece@.subrange(start as int, k as int),
            decreases end - k,
        {
            tag.push(piece[k]);
            k += 1;
            assert(tag@ =~= piece@.subrange(start as int, k as int));
        }
        if tag.len() > 0 {
            let category = match categories.get(&tag) {
                Some(found) => found,
                None => None,
            };
            let dropped = match category {
                Some(value) => value == CATEGORY_COPYRIGHT || value == CATEGORY_CIRCLE || value
                    == CATEGORY_META,
                None => false,
            };
            if !dropped {
                match category {
                    Some(value) => {
                        if value == CATEGORY_ARTIST {
                            let ghost before = char_views(first@);
                            first.push(artist_prefix.format(&tag));
                            assert(char_views(first@) =~= before.push(
                                artist_prefix.prefix_spec() + tag@,
                            ));
                        } else if value == CATEGORY_CHARACTER {
                            let ghost before = char_views(second@);
                            second.push(tag);
                            assert(char_views(second@) =~= before.push(trim_spec(piece@)));
                        } else {
                            let ghost before = char_views(rest@);
                            rest.push(tag);
                            assert(char_views(rest@) =~= before.push(trim_spec(piece@)));
                        }
                    },
                    None => {
                        let ghost before = char_views(rest@);
                        rest.push(tag);
                        assert(char_views(rest@) =~= before.push(trim_spec(piece@)));
                    },
                }
            }
        }
        proof {
            let next = all.take(index + 1);
            assert(next.last() == piece@);
            assert(next.drop_last() =~= all.take(index as int));
            match caption_entry(piece@, categories@, artist_prefix) {
                Some(e) => {
                    lemma_priority_push(earlier, e, 0);
                    lemma_priority_push(earlier, e, 1);
                    lemma_priority_push(earlier, e, 2);
                },
                None => {},
            }
        }
        index += 1;
    }
    assert(all.take(pieces@.len() as int) =~= all);
    let ghost entries = caption_entries(all, categories@, artist_prefix);
    let ghost ordered = tags_of_priority(entries, 0) + tags_of_priority(entries, 1)
        + tags_of_priority(entries, 2);
    let ghost forms = caption_forms(ordered);
    let mut kept: Vec<Vec<char>> = Vec::new();
    let mut position: usize = 0;
    let total = first.len() + second.len() + rest.len();
    assert(ordered.len() == total);
    proof {
        reveal_with_fuel(Seq::remove_duplicates, 1);
        assert(forms.take(0) =~= Seq::<Seq<char>>::empty());
        assert(char_views(kept@) =~= forms.take(0).remove_duplicates(Seq::empty()));
    }
    while position < total
        invariant
            position <= total,
            total == ordered.len(),
            forms == caption_forms(ordered),
            ordered == char_views(first@) + char_views(second@) + char_views(rest@),
            char_views(kept@) == forms.take(position as int).remove_duplicates(Seq::empty()),
        decreases total - position,
    {
        let tag = if position < first.len() {
            &first[position]
        } else if position < first.len() + second.len() {
            &second[position - first.len()]
        } else {
            &rest[position - first.len() - second.len()]
        };
        assert(tag@ == ordered[position as int]);
        let form = escape_tag(tag);
        proof {
            let prefix = forms.take(position as int);
            assert(forms.take(position + 1) =~= prefix + seq![form@]);
            prefix.lemma_remove_duplicates_append(form@, Seq::empty());
            prefix.lemma_remove_duplicates_properties(Seq::empty());
            assert(prefix + Seq::<Seq<char>>::empty() =~= prefix);
        }
        if !contains_chars(&kept, &form) {
            let ghost before = char_views(kept@);
            kept.push(form);
            assert(char_views(kept@) =~= before + seq![form@]);
        }
        position += 1;
    }
    assert(forms.take(total as int) =~= forms);
    let comma = chars_of(",");
    let joined = join_chars(&kept, &comma);
    string_from_chars(&joined)
}

// ---------------------------------------------------------------------
// Errors and paths
// ---------------------------------------------------------------------

/// Why a media tool refused or failed (file-system and decoder failures
/// are added around these where files are touched).
#[derive(Debug)]
pub enum ToolError {
    InvalidRelativePath,
    OutsideRoot,
    NotDirectory,
    NotRegularFile,
    Conflict(PathBuf),
    InvalidManifest(String),
    ConverterUnavailable,
    ConversionFailed,
    ConversionTimedOut,
}

/// `e` is an invalid-manifest error with `message`.
pub open spec fn invalid_manifest(e: ToolError, message: Seq<char>) -> bool {
    e matches ToolError::InvalidManifest(m) && m@ == message
}

/// The canonical path of a media root that was checked to be a directory.
#[derive(Debug, Clone)]
pub struct VerifiedMediaRoot {
    canonical: PathBuf,
    text: String,
}

impl VerifiedMediaRoot {
    /// The canonical path this root stands for.
    pub closed spec fn canonical_spec(&self) -> PathBuf {
        self.canonical
    }

    /// The root's path as text (lossy where it is not UTF-8).
    pub closed spec fn text_spec(&self) -> Seq<char> {
        self.text@
    }

    /// A root for a path already canonicalised and checked to be a
    /// directory, with that path as text.
    pub fn from_canonical(canonical: PathBuf, text: String) -> (root: VerifiedMediaRoot)
        ensures
            root.canonical_spec() == canonical,
            root.text_spec() == text@,
    {
        VerifiedMediaRoot { canonical, text }
    }

    /// The fingerprint that binds a manifest to this root: the SHA-256 of
    /// its path text, in hexadecimal.
    pub fn fingerprint(&self) -> (fingerprint: String)
        ensures
            fingerprint@ == crate::digest::hex_text(crate::digest::sha256_digest(vstd::utf8::encode_utf8(self.text_spec()))),
    {
        crate::digest::sha256_hex(self.text.as_str())
    }

    /// The root's canonical path.
    pub fn path(&self) -> (path: &PathBuf)
        ensures
            *path == self.canonical_spec(),
    {
        &self.canonical
    }
}

/// The normal components of a relative path as a Unix system reads it, or
/// `None` when the path is empty, absolute, or has a `.` lead, a `..`
/// component or a root: pieces between `/` that are empty or `.` after the
/// first are skipped, as path parsing does.
pub open spec fn relative_components(path: Seq<char>) -> Option<Seq<Seq<char>>> {
    let pieces = split_when(path, one_of(seq!['/']));
    if path.len() == 0 || path[0] == '/' || pieces[0] == "."@ || (exists|i: int|
        0 <= i < pieces.len() && #[trigger] pieces[i] == ".."@) {
        None
    } else {
        Some(pieces.filter(|piece: Seq<char>| piece.len() > 0 && piece != "."@))
    }
}

/// Checks that a media path is a non-empty relative path of normal
/// components only, and gives those components.
pub fn validate_relative_path(path: &str) -> (result: Result<Vec<String>, String>)
    ensures
        match (result, relative_components(path@)) {
            (Ok(components), Some(expected)) => crate::danbooru_client::string_views(components@) == expected,
            (Err(message), None) => message@ == (if path@.len() == 0 || path@[0] == '/' {
                "媒体路径必须是非空相对路径"@
            } else {
                "媒体路径不能包含根目录、盘符、点段或父目录"@
            }),
            _ => false,
        },
{
    let chars = chars_of(path);
    if chars.len() == 0 || chars[0] == '/' {
        return Err(crate::text::owned("媒体路径必须是非空相对路径"));
    }
    let slash = vec!['/'];
    assert(slash@ =~= seq!['/']);
    let pieces = split_on(&chars, &slash);
    proof {
        crate::text::lemma_split_when_nonempty(chars@, one_of(slash@));
    }
    let ghost views = split_when(chars@, one_of(seq!['/']));
    let ghost keep = |piece: Seq<char>| piece.len() > 0 && piece != "."@;
    assert(char_views(pieces@) == views);
    assert(pieces@[0]@ == views[0]);
    if crate::text::chars_equal_str(&pieces[0], ".") {
        return Err(crate::text::owned("媒体路径不能包含根目录、盘符、点段或父目录"));
    }
    let mut components: Vec<String> = Vec::new();
    let mut index: usize = 0;
    proof {
        reveal(Seq::filter);
        assert(crate::danbooru_client::string_views(components@) =~= views.take(0).filter(keep));
    }
    while index < pieces.len()
        invariant
            index <= pieces.len(),
            views == char_views(pieces@),
            views == split_when(path@, one_of(seq!['/'])),
            path@.len() > 0 && path@[0] != '/',
            views[0] != "."@,
            keep == (|piece: Seq<char>| piece.len() > 0 && piece != "."@),
            forall|i: int| 0 <= i < index ==> #[trigger] views[i] != ".."@,
            crate::danbooru_client::string_views(components@) == views.take(index as int).filter(keep),
        decreases pieces.len() - index,
    {
        let piece = &pieces[index];
        assert(piece@ == views[index as int]);
        if crate::text::chars_equal_str(piece, "..") {
            assert(views[index as int] == ".."@);
            return Err(crate::text::owned("媒体路径不能包含根目录、盘符、点段或父目录"));
        }
        let ghost before = crate::danbooru_client::string_views(components@);
        if piece.len() > 0 && !crate::text::chars_equal_str(piece, ".") {
            components.push(string_from_chars(piece));
            assert(crate::danbooru_client::string_views(components@) =~= before.push(views[index as int]));
        }
        proof {
            assert(views.take(index + 1) =~= views.take(index as int).push(views[index as int]));
            views.take(index as int).lemma_filter_push(views[index as int], keep);
        }
        index += 1;
    }
    assert(views.take(pieces.len() as int) =~= views);
    Ok(components)
}

/// Characters a quarantine batch id may hold.
pub open spec fn is_batch_id_char(c: char) -> bool {
    ('a' <= c && c <= 'z') || ('A' <= c && c <= 'Z') || ('0' <= c && c <= '9') || c == '-' || c == '_'
}

/// A quarantine batch id: 1 to 128 bytes, ASCII letters, digits, `-` and
/// `_` only.
pub open spec fn is_valid_batch_id(id: Seq<char>) -> bool {
    &&& id.len() > 0
    &&& crate::danbooru_client::utf8_len(id) <= 128
    &&& forall|i: int| 0 <= i < id.len() ==> is_batch_id_char(#[trigger] id[i])
}

/// Checks a quarantine batch id (see [`is_valid_batch_id`]).
pub fn validate_batch_id(batch_id: &str) -> (result: Result<(), ToolError>)
    ensures
        match result {
            Ok(()) => is_valid_batch_id(batch_id@),
            Err(e) => !is_valid_batch_id(batch_id@) && invalid_manifest(
                e,
                "隔离批次 ID 只能包含 ASCII 字母、数字、连字符和下划线"@,
            ),
        },
{
    let chars = chars_of(batch_id);
    let mut valid = chars.len() > 0 && !crate::danbooru_client::utf8_len_exceeds(&chars, 128);
    let mut index: usize = 0;
    while index < chars.len()
        invariant
            index <= chars.len(),
            valid ==> forall|i: int| 0 <= i < index ==> is_batch_id_char(#[trigger] chars@[i]),
            !valid ==> !is_valid_batch_id(chars@),
            valid ==> chars@.len() > 0 && crate::danbooru_client::utf8_len(chars@) <= 128,
        decreases chars.len() - index,
    {
        let c = chars[index];
        if !(('a' <= c && c <= 'z') || ('A' <= c && c <= 'Z') || ('0' <= c && c <= '9') || c == '-'
            || c == '_') {
            assert(!is_batch_id_char(chars@[index as int]));
            valid = false;
        }
        index += 1;
    }
    if !valid {
        return Err(
            ToolError::InvalidManifest(
                crate::text::owned("隔离批次 ID 只能包含 ASCII 字母、数字、连字符和下划线"),
            ),
        );
    }
    Ok(())
}

/// The extension of a file name as `Path::extension` gives it: the text
/// after the last `.`, unless the name has no `.` or its only `.` leads it.
pub open spec fn file_extension(name: Seq<char>) -> Option<Seq<char>> {
    match crate::text::last_index_of(name, '.') {
        None => None,
        Some(dot) => if dot == 0 {
            None
        } else {
            Some(name.skip(dot + 1))
        },
    }
}

/// Media formats the tools work on.
pub open spec fn is_safe_media_extension(e: Seq<char>) -> bool {
    ||| e == "jpg"@
    ||| e == "jpeg"@
    ||| e == "png"@
    ||| e == "webp"@
    ||| e == "gif"@
    ||| e == "bmp"@
    ||| e == "avif"@
    ||| e == "heic"@
    ||| e == "heif"@
    ||| e == "mp4"@
    ||| e == "webm"@
    ||| e == "zip"@
}

/// Image formats the tools decode.
pub open spec fn is_decodable_extension(e: Seq<char>) -> bool {
    ||| e == "jpg"@
    ||| e == "jpeg"@
    ||| e == "png"@
    ||| e == "webp"@
    ||| e == "gif"@
    ||| e == "bmp"@
}

pub(crate) fn extension_of(name: &str) -> (extension: Option<Vec<char>>)
    ensures
        match (extension, file_extension(name@)) {
            (Some(e), Some(expected)) => e@ == crate::text::ascii_lower(expected),
            (None, None) => true,
            _ => false,
        },
{
    let chars = chars_of(name);
    match crate::text::find_last_char(&chars, '.') {
        None => None,
        Some(dot) => if dot == 0 {
            None
        } else {
            let after = crate::text::slice_chars(&chars, dot + 1, chars.len());
            assert(after@ =~= chars@.skip(dot + 1));
            Some(crate::text::lower_ascii_chars(&after))
        },
    }
}

/// Whether a file name has one of the supported media extensions (ASCII
/// case ignored).
pub fn has_supported_media_extension(name: &str) -> (supported: bool)
    ensures
        supported == (file_extension(name@) matches Some(e) && is_safe_media_extension(
            crate::text::ascii_lower(e),
        )),
{
    match extension_of(name) {
        None => false,
        Some(e) => {
            let eq = |t: &str| -> (r: bool)
                ensures
                    r == (e@ == t@),
                { crate::text::chars_equal_str(&e, t) };
            eq("jpg") || eq("jpeg") || eq("png") || eq("webp") || eq("gif") || eq("bmp") || eq("avif")
                || eq("heic") || eq("heif") || eq("mp4") || eq("webm") || eq("zip")
        },
    }
}

/// Whether a file name has the extension of a decodable image format
/// (ASCII case ignored).
pub fn is_decodable_image(name: &str) -> (decodable: bool)
    ensures
        decodable == (file_extension(name@) matches Some(e) && is_decodable_extension(
            crate::text::ascii_lower(e),
        )),
{
    match extension_of(name) {
        None => false,
        Some(e) => {
            let eq = |t: &str| -> (r: bool)
                ensures
                    r == (e@ == t@),
                { crate::text::chars_equal_str(&e, t) };
            eq("jpg") || eq("jpeg") || eq("png") || eq("webp") || eq("gif") || eq("bmp")
        },
    }
}

// ---------------------------------------------------------------------
// Selected media files
// ---------------------------------------------------------------------

/// A name whose extension is one of the supported media formats.
pub open spec fn is_supported_media_name(name: Seq<char>) -> bool {
    file_extension(name) matches Some(e) && is_safe_media_extension(crate::text::ascii_lower(e))
}

/// Components of a path the user selected whose file name is supported.
pub open spec fn is_supported_media_path(components: Seq<Seq<char>>) -> bool {
    components.len() > 0 && is_supported_media_name(components.last())
}

/// Checks one media file the user selected: a valid relative path (see
/// [`relative_components`]) whose file name has a supported media
/// extension.  Gives the path's components.
pub fn check_selected_media_file(path: &str) -> (result: Result<Vec<String>, ToolError>)
    ensures
        match (result, relative_components(path@)) {
            (Ok(components), Some(expected)) => crate::danbooru_client::string_views(components@)
                == expected && is_supported_media_path(expected),
            (Err(e), Some(expected)) => !is_supported_media_path(expected) && invalid_manifest(
                e,
                "不支持的媒体格式: "@ + path@,
            ),
            (Err(e), None) => e is InvalidRelativePath,
            _ => false,
        },
{
    let components = match validate_relative_path(path) {
        Ok(components) => components,
        Err(_) => return Err(ToolError::InvalidRelativePath),
    };
    let ghost views = crate::danbooru_client::string_views(components@);
    if components.len() == 0 || !has_supported_media_extension(
        components[components.len() - 1].as_str(),
    ) {
        let mut text = chars_of("不支持的媒体格式: ");
        append_chars(&mut text, &chars_of(path));
        return Err(ToolError::InvalidManifest(string_from_chars(&text)));
    }
    assert(views.last() == components@[components.len() - 1]@);
    Ok(components)
}

/// A checked selected file: its path as given and its components.
#[derive(Debug)]
pub struct SelectedMedia {
    pub path: String,
    pub components: Vec<String>,
}

/// Components of the `i`-th selected file.
pub open spec fn selected_parts(items: Seq<SelectedMedia>, i: int) -> Seq<Seq<char>> {
    crate::danbooru_client::string_views(items[i].components@)
}

/// Position in `set` of the first file whose components are not below `x`.
pub open spec fn first_not_below(items: Seq<SelectedMedia>, set: Seq<int>, x: Seq<Seq<char>>) -> nat
    decreases set.len(),
{
    if set.len() == 0 {
        0
    } else if !crate::text::lex_lt_parts(selected_parts(items, set[0]), x) {
        0
    } else {
        1 + first_not_below(items, set.drop_first(), x)
    }
}

/// The files kept of the first `n` selected ones, by index, ordered by
/// their components: a file whose components equal an earlier one's is the
/// same path and is left out, otherwise it goes before the first kept file
/// whose components are not below its own.
pub open spec fn selection_order(items: Seq<SelectedMedia>, n: nat) -> Seq<int>
    decreases n,
{
    if n == 0 {
        Seq::empty()
    } else {
        let set = selection_order(items, (n - 1) as nat);
        let x = selected_parts(items, n - 1);
        let k = first_not_below(items, set, x) as int;
        if k < set.len() && selected_parts(items, set[k]) == x {
            set
        } else {
            set.insert(k, n - 1)
        }
    }
}

proof fn lemma_first_not_below(items: Seq<SelectedMedia>, set: Seq<int>, x: Seq<Seq<char>>)
    ensures
        first_not_below(items, set, x) <= set.len(),
        forall|p: int|
            0 <= p < first_not_below(items, set, x) ==> crate::text::lex_lt_parts(
                selected_parts(items, #[trigger] set[p]),
                x,
            ),
        first_not_below(items, set, x) < set.len() ==> !crate::text::lex_lt_parts(
            selected_parts(items, set[first_not_below(items, set, x) as int]),
            x,
        ),
    decreases set.len(),
{
    if set.len() > 0 && crate::text::lex_lt_parts(selected_parts(items, set[0]), x) {
        let rest = set.drop_first();
        lemma_first_not_below(items, rest, x);
        assert forall|p: int| 0 <= p < first_not_below(items, set, x) implies crate::text::lex_lt_parts(
            selected_parts(items, #[trigger] set[p]),
            x,
        ) by {
            if p > 0 {
                assert(set[p] == rest[p - 1]);
            }
        }
    }
}

/// Every kept index is one of the first `n` files.
#[verifier::opaque]
pub open spec fn kept_in_range(set: Seq<int>, n: nat) -> bool {
    forall|p: int| 0 <= p < set.len() ==> 0 <= #[trigger] set[p] < n
}

/// The kept files are strictly ordered by their components.
#[verifier::opaque]
pub open spec fn strictly_sorted(items: Seq<SelectedMedia>, set: Seq<int>) -> bool {
    forall|p: int, q: int|
        0 <= p < q < set.len() ==> crate::text::lex_lt_parts(
            selected_parts(items, #[trigger] set[p]),
            selected_parts(items, #[trigger] set[q]),
        )
}

/// Some kept file has components `x`.
pub open spec fn is_kept(items: Seq<SelectedMedia>, set: Seq<int>, x: Seq<Seq<char>>) -> bool {
    exists|p: int| 0 <= p < set.len() && selected_parts(items, #[trigger] set[p]) == x
}

/// The path of each of the first `n` files is kept.
#[verifier::opaque]
pub open spec fn covers_all(items: Seq<SelectedMedia>, set: Seq<int>, n: nat) -> bool {
    forall|i: int| 0 <= i < n ==> #[trigger] is_kept(items, set, selected_parts(items, i))
}

/// The file kept for a path is the first one with that path.
#[verifier::opaque]
pub open spec fn keeps_first(items: Seq<SelectedMedia>, set: Seq<int>) -> bool {
    forall|p: int, j: int|
        #![trigger set[p], selected_parts(items, j)]
        0 <= p < set.len() && 0 <= j < set[p] ==> selected_parts(items, j) != selected_parts(
            items,
            set[p],
        )
}

/// Where the `n`-th file goes when it is new: every kept file from `k` on
/// lies above it.
proof fn lemma_rest_above(items: Seq<SelectedMedia>, set: Seq<int>, x: Seq<Seq<char>>, k: int)
    requires
        strictly_sorted(items, set),
        0 <= k <= set.len(),
        k < set.len() ==> !crate::text::lex_lt_parts(selected_parts(items, set[k]), x)
            && selected_parts(items, set[k]) != x,
    ensures
        forall|p: int|
            k <= p < set.len() ==> crate::text::lex_lt_parts(
                x,
                selected_parts(items, #[trigger] set[p]),
            ),
{
    reveal(strictly_sorted);
    if k < set.len() {
        crate::text::lemma_lex_parts_total(selected_parts(items, set[k]), x);
    }
    assert forall|p: int| k <= p < set.len() implies crate::text::lex_lt_parts(
        x,
        selected_parts(items, #[trigger] set[p]),
    ) by {
        if p > k {
            assert(crate::text::lex_lt_parts(selected_parts(items, set[k]), selected_parts(items, set[p])));
            crate::text::lemma_lex_parts_transitive(
                x,
                selected_parts(items, set[k]),
                selected_parts(items, set[p]),
            );
        }
    }
}

proof fn lemma_insert_range(set: Seq<int>, n: nat, k: int)
    requires
        n > 0,
        kept_in_range(set, (n - 1) as nat),
        0 <= k <= set.len(),
    ensures
        kept_in_range(set.insert(k, n - 1), n),
        kept_in_range(set, n),
{
    reveal(kept_in_range);
    let after = set.insert(k, n - 1);
    assert forall|p: int| 0 <= p < after.len() implies 0 <= #[trigger] after[p] < n by {
        if p > k {
            assert(after[p] == set[p - 1]);
        } else if p < k {
            assert(after[p] == set[p]);
        }
    }
}

proof fn lemma_insert_sorted(items: Seq<SelectedMedia>, set: Seq<int>, x: Seq<Seq<char>>, k: int, i: int)
    requires
        strictly_sorted(items, set),
        0 <= k <= set.len(),
        x == selected_parts(items, i),
        forall|p: int|
            0 <= p < k ==> crate::text::lex_lt_parts(selected_parts(items, #[trigger] set[p]), x),
        forall|p: int|
            k <= p < set.len() ==> crate::text::lex_lt_parts(
                x,
                selected_parts(items, #[trigger] set[p]),
            ),
    ensures
        strictly_sorted(items, set.insert(k, i)),
{
    reveal(strictly_sorted);
    let after = set.insert(k, i);
    assert forall|p: int, q: int| 0 <= p < q < after.len() implies crate::text::lex_lt_parts(
        selected_parts(items, #[trigger] after[p]),
        selected_parts(items, #[trigger] after[q]),
    ) by {
        if p < k {
            assert(after[p] == set[p]);
        } else if p > k {
            assert(after[p] == set[p - 1]);
        }
        if q < k {
            assert(after[q] == set[q]);
        } else if q > k {
            assert(after[q] == set[q - 1]);
        }
        if p < k && q > k {
            crate::text::lemma_lex_parts_transitive(
                selected_parts(items, after[p]),
                x,
                selected_parts(items, after[q]),
            );
        }
    }
}

proof fn lemma_insert_covers(items: Seq<SelectedMedia>, set: Seq<int>, n: nat, k: int)
    requires
        n > 0,
        covers_all(items, set, (n - 1) as nat),
        0 <= k <= set.len(),
    ensures
        covers_all(items, set.insert(k, n - 1), n),
{
    reveal(covers_all);
    let after = set.insert(k, n - 1);
    assert forall|i: int| 0 <= i < n implies #[trigger] is_kept(items, after, selected_parts(items, i)) by {
        if i == n - 1 {
            assert(after[k] == n - 1);
            assert(0 <= k < after.len() && selected_parts(items, after[k]) == selected_parts(items, i));
        } else {
            assert(is_kept(items, set, selected_parts(items, i)));
            let p = choose|p: int|
                0 <= p < set.len() && selected_parts(items, #[trigger] set[p]) == selected_parts(items, i);
            if p < k {
                assert(after[p] == set[p]);
            } else {
                assert(after[p + 1] == set[p]);
            }
        }
    }
}

proof fn lemma_insert_first(items: Seq<SelectedMedia>, set: Seq<int>, n: nat, k: int)
    requires
        n > 0,
        keeps_first(items, set),
        covers_all(items, set, (n - 1) as nat),
        0 <= k <= set.len(),
        forall|p: int|
            0 <= p < k ==> crate::text::lex_lt_parts(
                selected_parts(items, #[trigger] set[p]),
                selected_parts(items, n - 1),
            ),
        forall|p: int|
            k <= p < set.len() ==> crate::text::lex_lt_parts(
                selected_parts(items, n - 1),
                selected_parts(items, #[trigger] set[p]),
            ),
    ensures
        keeps_first(items, set.insert(k, n - 1)),
{
    reveal(keeps_first);
    reveal(covers_all);
    let x = selected_parts(items, n - 1);
    let after = set.insert(k, n - 1);
    assert forall|j: int| 0 <= j < n - 1 implies selected_parts(items, j) != x by {
        assert(is_kept(items, set, selected_parts(items, j)));
        let p = choose|p: int|
            0 <= p < set.len() && selected_parts(items, #[trigger] set[p]) == selected_parts(items, j);
        if selected_parts(items, j) == x {
            crate::text::lemma_lex_parts_irreflexive(x);
            assert(selected_parts(items, set[p]) == x);
        }
    }
    assert forall|p: int, j: int|
        #![trigger after[p], selected_parts(items, j)]
        0 <= p < after.len() && 0 <= j < after[p] implies selected_parts(items, j)
        != selected_parts(items, after[p]) by {
        if p < k {
            assert(after[p] == set[p]);
        } else if p > k {
            assert(after[p] == set[p - 1]);
        }
    }
}

/// The selected files form a set of paths: the kept files are ordered
/// strictly by their components (so no path is kept twice), every selected
/// file's path is kept, and the file kept for a path is the first one
/// selected with it.
pub proof fn law_selection_is_sorted_set(items: Seq<SelectedMedia>, n: nat)
    requires
        n <= items.len(),
    ensures
        kept_in_range(selection_order(items, n), n),
        strictly_sorted(items, selection_order(items, n)),
        covers_all(items, selection_order(items, n), n),
        keeps_first(items, selection_order(items, n)),
    decreases n,
{
    if n == 0 {
        reveal(kept_in_range);
        reveal(strictly_sorted);
        reveal(covers_all);
        reveal(keeps_first);
    } else {
        let m = (n - 1) as nat;
        law_selection_is_sorted_set(items, m);
        let set = selection_order(items, m);
        let x = selected_parts(items, n - 1);
        let k = first_not_below(items, set, x) as int;
        lemma_first_not_below(items, set, x);
        if k < set.len() && selected_parts(items, set[k]) == x {
            lemma_insert_range(set, n, k);
            reveal(covers_all);
            assert forall|i: int| 0 <= i < n implies #[trigger] is_kept(
                items,
                set,
                selected_parts(items, i),
            ) by {
                if i == n - 1 {
                    assert(selected_parts(items, set[k]) == selected_parts(items, i));
                }
            }
        } else {
            lemma_rest_above(items, set, x, k);
            lemma_insert_range(set, n, k);
            lemma_insert_sorted(items, set, x, k, n - 1);
            lemma_insert_covers(items, set, n, k);
            lemma_insert_first(items, set, n, k);
        }
    }
}

/// The files the user selected, as a set of paths: each path once (the
/// first file selected with it), ordered by components (see
/// [`selection_order`]).
pub fn selected_media_set(items: &Vec<SelectedMedia>) -> (paths: Vec<String>)
    ensures
        paths.len() == selection_order(items@, items.len() as nat).len(),
        forall|p: int|
            0 <= p < paths.len() ==> (#[trigger] paths@[p])@ == items@[selection_order(
                items@,
                items.len() as nat,
            )[p]].path@,
{
    let n = items.len();
    let mut set: Vec<usize> = Vec::new();
    let mut i: usize = 0;
    while i < n
        invariant
            i <= n == items.len(),
            set@.map_values(|x: usize| x as int) == selection_order(items@, i as nat),
        decreases n - i,
    {
        let ghost before = set@.map_values(|x: usize| x as int);
        proof {
            law_selection_is_sorted_set(items@, i as nat);
            reveal(kept_in_range);
        }
        let ghost x = selected_parts(items@, i as int);
        let mut k: usize = 0;
        assert(before.subrange(0, before.len() as int) =~= before);
        while k < set.len() && crate::text::parts_less(&items[set[k]].components, &items[i].components)
            invariant
                i < n == items.len(),
                before == set@.map_values(|x: usize| x as int),
                forall|p: int| 0 <= p < set.len() ==> 0 <= #[trigger] before[p] < i,
                k <= set.len(),
                x == selected_parts(items@, i as int),
                first_not_below(items@, before, x) == k + first_not_below(
                    items@,
                    before.subrange(k as int, before.len() as int),
                    x,
                ),
            decreases set.len() - k,
        {
            proof {
                let rest = before.subrange(k as int, before.len() as int);
                assert(rest[0] == before[k as int]);
                assert(rest.drop_first() =~= before.subrange(k + 1, before.len() as int));
            }
            k += 1;
        }
        proof {
            let rest = before.subrange(k as int, before.len() as int);
            if k < set.len() {
                assert(rest[0] == before[k as int]);
            } else {
                assert(rest.len() == 0);
            }
        }
        let same = k < set.len() && !crate::text::parts_less(
            &items[i].components,
            &items[set[k]].components,
        );
        if same {
            proof {
                assert(before[k as int] == set@[k as int] as int);
                crate::text::lemma_lex_parts_total(selected_parts(items@, before[k as int]), x);
            }
        } else {
            proof {
                if k < set.len() {
                    assert(before[k as int] == set@[k as int] as int);
                    crate::text::lemma_lex_parts_irreflexive(x);
                }
            }
            set.insert(k, i);
            assert(set@.map_values(|x: usize| x as int) =~= before.insert(k as int, i as int));
        }
        i += 1;
    }
    proof {
        law_selection_is_sorted_set(items@, n as nat);
        reveal(kept_in_range);
    }
    let ghost order = set@.map_values(|x: usize| x as int);
    let mut paths: Vec<String> = Vec::new();
    let mut p: usize = 0;
    while p < set.len()
        invariant
            p <= set.len(),
            n == items.len(),
            order == set@.map_values(|x: usize| x as int),
            order == selection_order(items@, n as nat),
            forall|q: int| 0 <= q < order.len() ==> 0 <= #[trigger] order[q] < n,
            paths.len() == p,
            forall|q: int| 0 <= q < p ==> (#[trigger] paths@[q])@ == items@[order[q]].path@,
        decreases set.len() - p,
    {
        assert(order[p as int] == set@[p as int] as int);
        paths.push(crate::text::copy_string(&items[set[p]].path));
        p += 1;
    }
    paths
}

// ---------------------------------------------------------------------
// Tag matching
// ---------------------------------------------------------------------

/// A tag as delete-by-tag compares it: whitespace runs joined by `_`,
/// lower-cased.
pub open spec fn tag_token(tag: Seq<char>) -> Seq<char> {
    crate::text::unicode_lowercase(join_with(crate::text::words(tag), "_"@))
}

/// See [`tag_token`].
pub fn normalize_tag_token(tag: &str) -> (token: String)
    ensures
        token@ == tag_token(tag@),
{
    let words = crate::text::split_words(&chars_of(tag));
    let joined = join_chars(&words, &chars_of("_"));
    let text = string_from_chars(&joined);
    crate::text::to_lowercase(text.as_str())
}

/// Separators of a tag list written with commas or lines.
pub open spec fn list_separators() -> Seq<char> {
    seq![',', '\n', '\r']
}

/// Whether a sidecar separates its tags with commas or line breaks.
pub open spec fn uses_list_separators(content: Seq<char>) -> bool {
    exists|i: int| 0 <= i < content.len() && list_separators().contains(#[trigger] content[i])
}

/// The tags of a sidecar: separated by commas or line breaks, or, in a
/// sidecar with neither, by whitespace.
pub open spec fn sidecar_pieces(content: Seq<char>) -> Seq<Seq<char>> {
    if uses_list_separators(content) {
        split_when(content, one_of(list_separators()))
    } else {
        crate::text::words(content)
    }
}

/// Some piece reads as `wanted`.
pub open spec fn has_token(pieces: Seq<Seq<char>>, wanted: Seq<char>) -> bool {
    exists|i: int| 0 <= i < pieces.len() && tag_token(#[trigger] pieces[i]) == wanted
}

/// Whether a sidecar holds `wanted` as one of its tags.
pub open spec fn sidecar_has_tag(content: Seq<char>, wanted: Seq<char>) -> bool {
    has_token(sidecar_pieces(content), wanted)
}

/// See [`sidecar_has_tag`].
pub fn sidecar_contains_tag(content: &str, wanted: &str) -> (found: bool)
    ensures
        found == sidecar_has_tag(content@, wanted@),
{
    let chars = chars_of(content);
    let separators = vec![',', '\n', '\r'];
    assert(separators@ =~= list_separators());
    let mut listed = false;
    let mut k: usize = 0;
    while k < chars.len()
        invariant
            k <= chars.len(),
            separators@ == list_separators(),
            chars@ == content@,
            listed == exists|i: int| 0 <= i < k && list_separators().contains(#[trigger] chars@[i]),
        decreases chars.len() - k,
    {
        if crate::text::contains_char(&separators, chars[k]) {
            listed = true;
        }
        k += 1;
    }
    let pieces = if listed {
        split_on(&chars, &separators)
    } else {
        crate::text::split_words(&chars)
    };
    let ghost views = char_views(pieces@);
    assert(views == sidecar_pieces(content@));
    let wanted_chars = chars_of(wanted);
    let mut index: usize = 0;
    while index < pieces.len()
        invariant
            index <= pieces.len(),
            views == char_views(pieces@),
            views == sidecar_pieces(content@),
            wanted_chars@ == wanted@,
            forall|i: int| 0 <= i < index ==> tag_token(#[trigger] views[i]) != wanted@,
        decreases pieces.len() - index,
    {
        assert(views[index as int] == pieces@[index as int]@);
        let text = string_from_chars(&pieces[index]);
        let token = normalize_tag_token(text.as_str());
        if chars_equal(&chars_of(token.as_str()), &wanted_chars) {
            return true;
        }
        index += 1;
    }
    false
}

// ---------------------------------------------------------------------
// Manifests
// ---------------------------------------------------------------------

/// What a manifest asks to do.
#[derive(Debug, Clone, Copy, PartialEq, Eq, Structural)]
pub enum ToolOperation {
    ExactDedup,
    NearDedup,
    IntegrityCheck,
    DeleteByTag,
    DeleteSelected,
    TagPipeline,
    HeicConvert,
}

/// A file a manifest acts on, with the sidecars that go with it.
#[derive(Debug, Clone)]
pub struct ToolCandidate {
    pub relative_path: PathBuf,
    pub companion_paths: Vec<PathBuf>,
    pub reason: String,
    pub size: u64,
    pub sha256: Option<String>,
}

/// The size and digest a file had when a manifest was planned.
#[derive(Debug, Clone)]
pub struct ToolFileFingerprint {
    pub relative_path: PathBuf,
    pub size: u64,
    pub sha256: String,
}

/// Two images whose difference hashes are close.
#[derive(Debug, Clone)]
pub struct SimilarPair {
    pub left: PathBuf,
    pub right: PathBuf,
    pub distance: u32,
}

/// A planned operation, bound to its root and to the files it saw.
#[derive(Debug, Clone)]
pub struct ToolManifest {
    pub batch_id: String,
    pub operation: ToolOperation,
    pub created_at: u64,
    pub root_fingerprint: String,
    pub file_fingerprints: Vec<ToolFileFingerprint>,
    pub pairs: Vec<SimilarPair>,
    pub tag_pipeline_config: Option<TagPipelineConfig>,
    pub candidates: Vec<ToolCandidate>,
}

/// Files moved into quarantine.
#[derive(Debug, Clone)]
pub struct QuarantineResult {
    pub batch_id: String,
    pub moved: usize,
    pub paths: Vec<PathBuf>,
}

/// Files restored from quarantine.
#[derive(Debug, Clone)]
pub struct RestoreResult {
    pub batch_id: String,
    pub restored: usize,
    pub conflicts: Vec<PathBuf>,
    pub remaining: usize,
}

/// A resized JPEG and the quarantine batch of its original.
#[derive(Debug, Clone)]
pub struct ResizeResult {
    pub output_relative: PathBuf,
    pub width: u32,
    pub height: u32,
    pub quarantine_batch: String,
}

/// Sidecars the tag pipeline rewrote.
#[derive(Debug, Clone)]
pub struct TagPipelineResult {
    pub batch_id: String,
    pub changed: usize,
    pub paths: Vec<PathBuf>,
}

/// One HEIC file converted to JPEG.
#[derive(Debug, Clone)]
pub struct HeicConversionItem {
    pub original_relative: PathBuf,
    pub output_relative: PathBuf,
    pub width: u32,
    pub height: u32,
    pub byte_size: u64,
}

/// The files a HEIC conversion produced.
#[derive(Debug, Clone)]
pub struct HeicConversionResult {
    pub batch_id: String,
    pub items: Vec<HeicConversionItem>,
}

/// A new manifest for `candidates` on `root`: a fresh batch id, the current
/// time, the root's fingerprint, no pairs and no pipeline settings.
pub fn new_manifest(
    root: &VerifiedMediaRoot,
    operation: ToolOperation,
    candidates: Vec<ToolCandidate>,
    file_fingerprints: Vec<ToolFileFingerprint>,
) -> (manifest: ToolManifest)
    ensures
        manifest.operation == operation,
        manifest.root_fingerprint@ == crate::digest::hex_text(crate::digest::sha256_digest(vstd::utf8::encode_utf8(root.text_spec()))),
        manifest.candidates == candidates,
        manifest.file_fingerprints == file_fingerprints,
        manifest.pairs@.len() == 0,
        manifest.tag_pipeline_config is None,
{
    ToolManifest {
        batch_id: crate::tasks::new_task_id(),
        operation,
        created_at: crate::tasks::unix_timestamp(),
        root_fingerprint: root.fingerprint(),
        file_fingerprints,
        pairs: Vec::new(),
        tag_pipeline_config: None,
        candidates,
    }
}

/// What was read of one selected media file.  Lists of these are in path
/// order, each path once.
#[derive(Debug, Clone)]
pub struct ScannedMedia {
    /// The path relative to the root.
    pub path: PathBuf,
    /// The path as shown in reasons.
    pub display: String,
    /// The last component of the path.
    pub file_name: String,
    /// Size in bytes.
    pub size: u64,
    /// The `.txt` sidecar next to it, where one exists as a regular file.
    pub sidecar: Option<PathBuf>,
    /// The text of the `.txt` sidecar path, whether or not the file exists.
    pub sidecar_key: String,
}

/// The companion list of a candidate: its sidecar, where one is attached.
pub open spec fn companion_seq(companion: Option<PathBuf>) -> Seq<PathBuf> {
    match companion {
        Some(path) => seq![path],
        None => Seq::empty(),
    }
}

/// A candidate for `path` with `reason`, `size`, `sha256` and the given
/// companion.
pub open spec fn candidate_is(
    c: ToolCandidate,
    path: PathBuf,
    reason: Seq<char>,
    size: u64,
    sha256: Option<Seq<char>>,
    companion: Option<PathBuf>,
) -> bool {
    &&& c.relative_path == path
    &&& c.companion_paths@ == companion_seq(companion)
    &&& c.reason@ == reason
    &&& c.size == size
    &&& crate::danbooru_client::opt_string(c.sha256) == sha256
}

fn candidate_for(path: &PathBuf, reason: Vec<char>, size: u64, sha256: &Option<String>, companion: Option<PathBuf>) -> (candidate: ToolCandidate)
    ensures
        candidate_is(candidate, *path, reason@, size, crate::danbooru_client::opt_string(*sha256), companion),
{
    let mut companion_paths: Vec<PathBuf> = Vec::new();
    match companion {
        Some(sidecar) => companion_paths.push(sidecar),
        None => {},
    }
    assert(companion_paths@ =~= companion_seq(companion));
    ToolCandidate {
        relative_path: path.clone(),
        companion_paths,
        reason: string_from_chars(&reason),
        size,
        sha256: crate::text::copy_optional_string(sha256),
    }
}

// ---------------------------------------------------------------------
// Sidecars that leave with their media
// ---------------------------------------------------------------------

/// File `m` is the media of some candidate.
pub open spec fn is_candidate_media(media: Seq<usize>, m: int) -> bool {
    exists|c: int| 0 <= c < media.len() && #[trigger] media[c] as int == m
}

/// Some file that stays behind has `key` as its sidecar.
pub open spec fn key_survives(files: Seq<ScannedMedia>, media: Seq<usize>, key: Seq<char>) -> bool {
    exists|m: int| 0 <= m < files.len() && !is_candidate_media(media, m) && (#[trigger] files[m]).sidecar_key@ == key
}

/// The sidecar of candidate `c` exists and no surviving file shares it.
pub open spec fn sidecar_orphaned(files: Seq<ScannedMedia>, media: Seq<usize>, c: int) -> bool {
    let m = media[c] as int;
    files[m].sidecar is Some && !key_survives(files, media, files[m].sidecar_key@)
}

/// Candidate `c` takes its sidecar along: it is orphaned and no earlier
/// candidate took the same sidecar.
pub open spec fn takes_sidecar(files: Seq<ScannedMedia>, media: Seq<usize>, c: int) -> bool {
    &&& sidecar_orphaned(files, media, c)
    &&& forall|d: int| 0 <= d < c ==> !(#[trigger] sidecar_orphaned(files, media, d) && files[media[d] as int].sidecar_key@
        == files[media[c] as int].sidecar_key@)
}

/// The sidecar each candidate takes along, given the media file of each
/// candidate in candidate order: a candidate's `.txt` sidecar goes with it
/// when no remaining file uses it and no earlier candidate took it.
pub fn sidecar_attachments(files: &Vec<ScannedMedia>, media: &Vec<usize>) -> (attached: Vec<Option<PathBuf>>)
    requires
        forall|c: int| 0 <= c < media@.len() ==> (#[trigger] media@[c]) < files@.len(),
    ensures
        attached@.len() == media@.len(),
        forall|c: int| 0 <= c < media@.len() ==> (#[trigger] attached@[c]) == if takes_sidecar(files@, media@, c) {
            files@[media@[c] as int].sidecar
        } else {
            None
        },
{
    let mut chosen: Vec<bool> = Vec::new();
    let mut m: usize = 0;
    while m < files.len()
        invariant
            m <= files.len(),
            chosen@.len() == m,
            forall|k: int| 0 <= k < m ==> #[trigger] chosen@[k] == is_candidate_media(media@, k),
        decreases files.len() - m,
    {
        let mut found = false;
        let mut c: usize = 0;
        while c < media.len()
            invariant
                c <= media.len(),
                m < files.len(),
                found == exists|d: int| 0 <= d < c && #[trigger] media@[d] as int == m as int,
            decreases media.len() - c,
        {
            if media[c] == m {
                found = true;
            }
            c += 1;
        }
        chosen.push(found);
        m += 1;
    }
    let mut surviving: Vec<Vec<char>> = Vec::new();
    let mut m: usize = 0;
    while m < files.len()
        invariant
            m <= files.len(),
            chosen@.len() == files@.len(),
            forall|k: int| 0 <= k < files@.len() ==> #[trigger] chosen@[k] == is_candidate_media(media@, k),
            forall|key: Seq<char>| #[trigger] crate::text::char_views(surviving@).contains(key) <==> exists|k: int|
                0 <= k < m && !is_candidate_media(media@, k) && (#[trigger] files@[k]).sidecar_key@ == key,
        decreases files.len() - m,
    {
        let ghost before = crate::text::char_views(surviving@);
        if !chosen[m] {
            surviving.push(chars_of(files[m].sidecar_key.as_str()));
            assert(crate::text::char_views(surviving@) =~= before.push(files@[m as int].sidecar_key@));
            assert forall|key: Seq<char>| #[trigger] crate::text::char_views(surviving@).contains(key) <==> exists|k: int|
                0 <= k < m + 1 && !is_candidate_media(media@, k) && (#[trigger] files@[k]).sidecar_key@ == key by {
                crate::text::lemma_push_contains(before, files@[m as int].sidecar_key@, key);
                if before.contains(key) {
                    let k = choose|k: int| 0 <= k < m && !is_candidate_media(media@, k) && (#[trigger] files@[k]).sidecar_key@ == key;
                }
                if exists|k: int| 0 <= k < m + 1 && !is_candidate_media(media@, k) && (#[trigger] files@[k]).sidecar_key@ == key {
                    let k = choose|k: int| 0 <= k < m + 1 && !is_candidate_media(media@, k) && (#[trigger] files@[k]).sidecar_key@ == key;
                    if k < m {
                        assert(before.contains(key));
                    }
                }
            }
        } else {
            assert forall|key: Seq<char>| #[trigger] crate::text::char_views(surviving@).contains(key) <==> exists|k: int|
                0 <= k < m + 1 && !is_candidate_media(media@, k) && (#[trigger] files@[k]).sidecar_key@ == key by {
                if exists|k: int| 0 <= k < m + 1 && !is_candidate_media(media@, k) && (#[trigger] files@[k]).sidecar_key@ == key {
                    let k = choose|k: int| 0 <= k < m + 1 && !is_candidate_media(media@, k) && (#[trigger] files@[k]).sidecar_key@ == key;
                    assert(k != m);
                }
            }
        }
        m += 1;
    }
    let mut taken: Vec<Vec<char>> = Vec::new();
    let mut attached: Vec<Option<PathBuf>> = Vec::new();
    let mut c: usize = 0;
    while c < media.len()
        invariant
            c <= media.len(),
            forall|d: int| 0 <= d < media@.len() ==> (#[trigger] media@[d]) < files@.len(),
            forall|key: Seq<char>| #[trigger] crate::text::char_views(surviving@).contains(key) <==> key_survives(files@, media@, key),
            forall|key: Seq<char>| #[trigger] crate::text::char_views(taken@).contains(key) <==> exists|d: int|
                0 <= d < c && sidecar_orphaned(files@, media@, d) && files@[media@[d] as int].sidecar_key@ == key,
            attached@.len() == c,
            forall|d: int| 0 <= d < c ==> (#[trigger] attached@[d]) == if takes_sidecar(files@, media@, d) {
                files@[media@[d] as int].sidecar
            } else {
                None
            },
        decreases media.len() - c,
    {
        let m = media[c];
        let key = chars_of(files[m].sidecar_key.as_str());
        let orphaned = files[m].sidecar.is_some() && !contains_chars(&surviving, &key);
        assert(key@ == files@[m as int].sidecar_key@);
        assert(orphaned == sidecar_orphaned(files@, media@, c as int));
        let ghost before = crate::text::char_views(taken@);
        if orphaned {
            let first = !contains_chars(&taken, &key);
            assert(first == takes_sidecar(files@, media@, c as int)) by {
                if !first {
                    let d = choose|d: int| 0 <= d < c && sidecar_orphaned(files@, media@, d) && files@[media@[d] as int].sidecar_key@ == key@;
                }
            }
            if first {
                attached.push(files[m].sidecar.clone());
            } else {
                attached.push(None);
            }
            taken.push(key);
            assert(crate::text::char_views(taken@) =~= before.push(files@[m as int].sidecar_key@));
        } else {
            attached.push(None);
        }
        assert forall|key: Seq<char>| #[trigger] crate::text::char_views(taken@).contains(key) <==> exists|d: int|
            0 <= d < c + 1 && sidecar_orphaned(files@, media@, d) && files@[media@[d] as int].sidecar_key@ == key by {
            if orphaned {
                crate::text::lemma_push_contains(before, files@[m as int].sidecar_key@, key);
            }
            if exists|d: int| 0 <= d < c + 1 && sidecar_orphaned(files@, media@, d) && files@[media@[d] as int].sidecar_key@ == key {
                let d = choose|d: int| 0 <= d < c + 1 && sidecar_orphaned(files@, media@, d) && files@[media@[d] as int].sidecar_key@ == key;
                if d < c {
                    assert(before.contains(key));
                }
            }
            if before.contains(key) {
                let d = choose|d: int| 0 <= d < c && sidecar_orphaned(files@, media@, d) && files@[media@[d] as int].sidecar_key@ == key;
            }
        }
        c += 1;
    }
    attached
}

pub(crate) fn literal_then(prefix: &str, tail: &str) -> (text: Vec<char>)
    ensures
        text@ == prefix@ + tail@,
{
    let mut text = chars_of(prefix);
    append_chars(&mut text, &chars_of(tail));
    text
}

// ---------------------------------------------------------------------
// Exact duplicates
// ---------------------------------------------------------------------

/// The sizes of scanned files.
pub open spec fn file_sizes(files: Seq<ScannedMedia>) -> Seq<u64> {
    files.map_values(|f: ScannedMedia| f.size)
}

/// The content hashes taken, as text.
pub open spec fn content_hashes(hashes: Seq<Option<String>>) -> Seq<Option<Seq<char>>> {
    hashes.map_values(|h: Option<String>| crate::danbooru_client::opt_string(h))
}

/// Whether file `i` shares its size with another file (only such files
/// are hashed).
pub open spec fn shares_size(sizes: Seq<u64>, i: int) -> bool {
    exists|j: int| 0 <= j < sizes.len() && j != i && #[trigger] sizes[j] == sizes[i]
}

/// Which files need a content hash: those whose size another file has.
pub fn needs_content_hash(files: &Vec<ScannedMedia>) -> (needed: Vec<bool>)
    ensures
        needed@.len() == files@.len(),
        forall|i: int| 0 <= i < files@.len() ==> #[trigger] needed@[i] == shares_size(
            file_sizes(files@),
            i,
        ),
{
    let ghost sizes = file_sizes(files@);
    let mut needed: Vec<bool> = Vec::new();
    let mut i: usize = 0;
    while i < files.len()
        invariant
            i <= files.len(),
            sizes == file_sizes(files@),
            needed@.len() == i,
            forall|k: int| 0 <= k < i ==> #[trigger] needed@[k] == shares_size(sizes, k),
        decreases files.len() - i,
    {
        let mut shared = false;
        let mut j: usize = 0;
        while j < files.len()
            invariant
                j <= files.len(),
                i < files.len(),
                sizes == file_sizes(files@),
                shared == exists|k: int| 0 <= k < j && k != i && #[trigger] sizes[k] == sizes[i as int],
            decreases files.len() - j,
        {
            assert(sizes[j as int] == files@[j as int].size);
            assert(sizes[i as int] == files@[i as int].size);
            if j != i && files[j].size == files[i].size {
                shared = true;
            }
            j += 1;
        }
        needed.push(shared);
        i += 1;
    }
    needed
}

/// Two files have the same content: equal sizes and equal hashes.
pub open spec fn same_content(sizes: Seq<u64>, hashes: Seq<Option<Seq<char>>>, i: int, j: int) -> bool {
    sizes[i] == sizes[j] && hashes[i] is Some && hashes[i] == hashes[j]
}

/// `k` keeps the content of `i`: the first file (in path order) with it,
/// before `i`.
pub open spec fn exact_keeper(sizes: Seq<u64>, hashes: Seq<Option<Seq<char>>>, i: int, k: int) -> bool {
    &&& 0 <= k < i
    &&& same_content(sizes, hashes, k, i)
    &&& forall|j: int| 0 <= j < k ==> !#[trigger] same_content(sizes, hashes, j, i)
}

/// `i` repeats the content of an earlier file.
pub open spec fn repeats_content(sizes: Seq<u64>, hashes: Seq<Option<Seq<char>>>, i: int) -> bool {
    exists|j: int| 0 <= j < i && #[trigger] same_content(sizes, hashes, j, i)
}

/// Two content hashes that were both taken and are equal.
pub open spec fn equal_taken_hashes(a: Option<String>, b: Option<String>) -> bool {
    a matches Some(x) && b matches Some(y) && x@ == y@
}

/// A file repeats an earlier file's content exactly when an earlier file
/// has its size and an equal content hash, both taken: files whose hashes
/// differ (or were not taken) are never duplicates of each other, however
/// equal their sizes.  A keeper always has the size and the hash of the
/// file it keeps, and is the first file before it that does.
pub proof fn law_duplicates_share_size_and_hash(files: Seq<ScannedMedia>, hashes: Seq<Option<String>>)
    requires
        hashes.len() == files.len(),
    ensures
        forall|i: int| 0 <= i < files.len() ==> (#[trigger] repeats_content(file_sizes(files), content_hashes(hashes), i)
            <==> exists|j: int| 0 <= j < i && files[j].size == files[i].size && #[trigger] equal_taken_hashes(hashes[j], hashes[i])),
        forall|i: int, k: int| 0 <= i < files.len() && #[trigger] exact_keeper(file_sizes(files), content_hashes(hashes), i, k)
            ==> 0 <= k < i && files[k].size == files[i].size && equal_taken_hashes(hashes[k], hashes[i]),
        forall|i: int, k: int, j: int| 0 <= i < files.len() && #[trigger] exact_keeper(file_sizes(files), content_hashes(hashes), i, k)
            && 0 <= j < k ==> !(files[j].size == files[i].size && #[trigger] equal_taken_hashes(hashes[j], hashes[i])),
{
    let sizes = file_sizes(files);
    let digests = content_hashes(hashes);
    assert forall|i: int| 0 <= i < files.len() implies (#[trigger] repeats_content(sizes, digests, i)
        <==> exists|j: int| 0 <= j < i && files[j].size == files[i].size && #[trigger] equal_taken_hashes(hashes[j], hashes[i])) by {
        if repeats_content(sizes, digests, i) {
            let j = choose|j: int| 0 <= j < i && #[trigger] same_content(sizes, digests, j, i);
            assert(sizes[j] == files[j].size && sizes[i] == files[i].size);
            assert(digests[j] == crate::danbooru_client::opt_string(hashes[j]) && digests[i] == crate::danbooru_client::opt_string(hashes[i]));
            assert(equal_taken_hashes(hashes[j], hashes[i]));
        }
        if exists|j: int| 0 <= j < i && files[j].size == files[i].size && #[trigger] equal_taken_hashes(hashes[j], hashes[i]) {
            let j = choose|j: int| 0 <= j < i && files[j].size == files[i].size && #[trigger] equal_taken_hashes(hashes[j], hashes[i]);
            assert(digests[j] == crate::danbooru_client::opt_string(hashes[j]) && digests[i] == crate::danbooru_client::opt_string(hashes[i]));
            assert(same_content(sizes, digests, j, i));
        }
    }
    assert forall|i: int, k: int| 0 <= i < files.len() && #[trigger] exact_keeper(sizes, digests, i, k)
        implies 0 <= k < i && files[k].size == files[i].size && equal_taken_hashes(hashes[k], hashes[i]) by {
        assert(digests[k] == crate::danbooru_client::opt_string(hashes[k]) && digests[i] == crate::danbooru_client::opt_string(hashes[i]));
    }
    assert forall|i: int, k: int, j: int| 0 <= i < files.len() && #[trigger] exact_keeper(sizes, digests, i, k) && 0 <= j < k
        implies !(files[j].size == files[i].size && #[trigger] equal_taken_hashes(hashes[j], hashes[i])) by {
        assert(!same_content(sizes, digests, j, i));
        assert(digests[j] == crate::danbooru_client::opt_string(hashes[j]) && digests[i] == crate::danbooru_client::opt_string(hashes[i]));
    }
}

fn same_hash(a: &Option<String>, b: &Option<String>) -> (same: bool)
    ensures
        same == (a is Some && crate::danbooru_client::opt_string(*a) == crate::danbooru_client::opt_string(*b)),
{
    match (a, b) {
        (Some(x), Some(y)) => chars_equal(&chars_of(x.as_str()), &chars_of(y.as_str())),
        _ => false,
    }
}

/// The exact duplicates among the files: each file whose size and content
/// hash an earlier file has, with that first file (the keeper), in path
/// order.  `hashes[i]` is the content hash of file `i` where it was taken.
pub fn exact_duplicate_members(files: &Vec<ScannedMedia>, hashes: &Vec<Option<String>>) -> (members: Vec<(usize, usize)>)
    requires
        hashes@.len() == files@.len(),
    ensures
        forall|t: int| 0 <= t < members@.len() ==> {
            let m = #[trigger] members@[t];
            m.0 < files@.len() && exact_keeper(
                file_sizes(files@),
                content_hashes(hashes@),
                m.0 as int,
                m.1 as int,
            )
        },
        forall|t: int, u: int| 0 <= t < u < members@.len() ==> (#[trigger] members@[t]).0 < (#[trigger] members@[u]).0,
        forall|i: int| 0 <= i < files@.len() && #[trigger] repeats_content(
            file_sizes(files@),
            content_hashes(hashes@),
            i,
        ) ==> crate::similarity::lists_member(members@, i),
{
    let ghost sizes = file_sizes(files@);
    let ghost digests = content_hashes(hashes@);
    let mut members: Vec<(usize, usize)> = Vec::new();
    let mut i: usize = 0;
    while i < files.len()
        invariant
            i <= files.len(),
            hashes@.len() == files@.len(),
            sizes == file_sizes(files@),
            digests == content_hashes(hashes@),
            forall|t: int| 0 <= t < members@.len() ==> {
                let m = #[trigger] members@[t];
                m.0 < i && exact_keeper(sizes, digests, m.0 as int, m.1 as int)
            },
            forall|t: int, u: int| 0 <= t < u < members@.len() ==> (#[trigger] members@[t]).0 < (#[trigger] members@[u]).0,
            forall|x: int| 0 <= x < i && #[trigger] repeats_content(sizes, digests, x) ==> crate::similarity::lists_member(members@, x),
        decreases files.len() - i,
    {
        let mut j: usize = 0;
        let mut keeper: Option<usize> = None;
        while j < i
            invariant
                j <= i < files.len(),
                hashes@.len() == files@.len(),
                sizes == file_sizes(files@),
                digests == content_hashes(hashes@),
                keeper is None ==> forall|q: int| 0 <= q < j ==> !#[trigger] same_content(sizes, digests, q, i as int),
                keeper matches Some(k) ==> exact_keeper(sizes, digests, i as int, k as int),
            decreases i - j,
        {
            if keeper.is_none() {
                assert(sizes[j as int] == files@[j as int].size && sizes[i as int] == files@[i as int].size);
                assert(digests[j as int] == crate::danbooru_client::opt_string(hashes@[j as int]));
                assert(digests[i as int] == crate::danbooru_client::opt_string(hashes@[i as int]));
                if files[j].size == files[i].size && same_hash(&hashes[j], &hashes[i]) {
                    keeper = Some(j);
                }
            }
            j += 1;
        }
        match keeper {
            Some(k) => {
                let ghost before = members@;
                members.push((i, k));
                assert forall|x: int| 0 <= x < i + 1 && #[trigger] repeats_content(sizes, digests, x) implies crate::similarity::lists_member(members@, x) by {
                    if x < i {
                        let t = choose|t: int| 0 <= t < before.len() && (#[trigger] before[t]).0 == x;
                        assert(members@[t] == before[t]);
                    } else {
                        assert(members@[members@.len() - 1].0 == x);
                    }
                }
            },
            None => {
                assert(!repeats_content(sizes, digests, i as int));
            },
        }
        i += 1;
    }
    members
}

/// What candidate `c` of a plan is: the media file `media[c]` with its
/// reason and recorded hash, taking its sidecar along where it should.
pub open spec fn planned_candidate(
    files: Seq<ScannedMedia>,
    media: Seq<usize>,
    reasons: Seq<Seq<char>>,
    hashes: Seq<Option<Seq<char>>>,
    c: int,
    candidate: ToolCandidate,
) -> bool {
    candidate_is(
        candidate,
        files[media[c] as int].path,
        reasons[c],
        files[media[c] as int].size,
        hashes[c],
        if takes_sidecar(files, media, c) {
            files[media[c] as int].sidecar
        } else {
            None
        },
    )
}

/// The candidates of a plan: one per chosen media file, in the order given,
/// with the sidecars that leave with them.
pub fn build_candidates(
    files: &Vec<ScannedMedia>,
    media: &Vec<usize>,
    reasons: &Vec<Vec<char>>,
    hashes: &Vec<Option<String>>,
) -> (candidates: Vec<ToolCandidate>)
    requires
        forall|c: int| 0 <= c < media@.len() ==> (#[trigger] media@[c]) < files@.len(),
        reasons@.len() == media@.len(),
        hashes@.len() == media@.len(),
    ensures
        candidates@.len() == media@.len(),
        forall|c: int| 0 <= c < media@.len() ==> planned_candidate(
            files@,
            media@,
            crate::text::char_views(reasons@),
            content_hashes(hashes@),
            c,
            #[trigger] candidates@[c],
        ),
{
    let attached = sidecar_attachments(files, media);
    let mut candidates: Vec<ToolCandidate> = Vec::new();
    let mut c: usize = 0;
    while c < media.len()
        invariant
            c <= media.len(),
            forall|d: int| 0 <= d < media@.len() ==> (#[trigger] media@[d]) < files@.len(),
            reasons@.len() == media@.len(),
            hashes@.len() == media@.len(),
            attached@.len() == media@.len(),
            forall|d: int| 0 <= d < media@.len() ==> (#[trigger] attached@[d]) == if takes_sidecar(files@, media@, d) {
                files@[media@[d] as int].sidecar
            } else {
                None
            },
            candidates@.len() == c,
            forall|d: int| 0 <= d < c ==> planned_candidate(
                files@,
                media@,
                crate::text::char_views(reasons@),
                content_hashes(hashes@),
                d,
                #[trigger] candidates@[d],
            ),
        decreases media.len() - c,
    {
        let m = media[c];
        let companion = match &attached[c] {
            Some(path) => Some(path.clone()),
            None => None,
        };
        let reason = crate::text::copy_chars(&reasons[c]);
        assert(crate::text::char_views(reasons@)[c as int] == reasons@[c as int]@);
        assert(content_hashes(hashes@)[c as int] == crate::danbooru_client::opt_string(hashes@[c as int]));
        candidates.push(candidate_for(&files[m].path, reason, files[m].size, &hashes[c], companion));
        c += 1;
    }
    candidates
}

/// The reason of an exact duplicate.
pub open spec fn exact_duplicate_reason(keeper_display: Seq<char>) -> Seq<char> {
    "exact_duplicate_of:"@ + keeper_display
}

/// Candidate `t` of an exact-duplicate plan: its file repeats the content
/// of keeper `k`, which the reason names.
pub open spec fn exact_plan_entry(
    files: Seq<ScannedMedia>,
    hashes: Seq<Option<String>>,
    media: Seq<usize>,
    candidates: Seq<ToolCandidate>,
    t: int,
) -> bool {
    exists|k: int| #[trigger] exact_keeper(file_sizes(files), content_hashes(hashes), media[t] as int, k)
        && candidate_is(
        candidates[t],
        files[media[t] as int].path,
        exact_duplicate_reason(files[k].display@),
        files[media[t] as int].size,
        content_hashes(hashes)[media[t] as int],
        if takes_sidecar(files, media, t) {
            files[media[t] as int].sidecar
        } else {
            None
        },
    )
}

/// The exact-duplicate candidates of a scan: every file that repeats an
/// earlier file's content (see [`exact_duplicate_members`]), in path order,
/// its keeper named in the reason and its hash recorded, with the sidecars
/// that leave with it.  Also gives the media index of each candidate.
pub fn plan_exact_duplicates(files: &Vec<ScannedMedia>, hashes: &Vec<Option<String>>) -> (plan: (Vec<ToolCandidate>, Vec<usize>))
    requires
        hashes@.len() == files@.len(),
    ensures
        plan.0@.len() == plan.1@.len(),
        forall|t: int| 0 <= t < plan.1@.len() ==> (#[trigger] plan.1@[t]) < files@.len() && repeats_content(
            file_sizes(files@),
            content_hashes(hashes@),
            plan.1@[t] as int,
        ),
        forall|t: int, u: int| 0 <= t < u < plan.1@.len() ==> (#[trigger] plan.1@[t]) < (#[trigger] plan.1@[u]),
        forall|i: int| 0 <= i < files@.len() && #[trigger] repeats_content(file_sizes(files@), content_hashes(hashes@), i)
            ==> plan.1@.contains(i as usize),
        forall|t: int| 0 <= t < plan.1@.len() ==> #[trigger] exact_plan_entry(files@, hashes@, plan.1@, plan.0@, t),
{
    let members = exact_duplicate_members(files, hashes);
    let mut media: Vec<usize> = Vec::new();
    let mut reasons: Vec<Vec<char>> = Vec::new();
    let mut shas: Vec<Option<String>> = Vec::new();
    let mut t: usize = 0;
    while t < members.len()
        invariant
            t <= members@.len(),
            hashes@.len() == files@.len(),
            media@.len() == t,
            reasons@.len() == t,
            shas@.len() == t,
            forall|q: int| 0 <= q < members@.len() ==> {
                let m = #[trigger] members@[q];
                m.0 < files@.len() && exact_keeper(file_sizes(files@), content_hashes(hashes@), m.0 as int, m.1 as int)
            },
            forall|q: int| 0 <= q < t ==> #[trigger] media@[q] == members@[q].0,
            forall|q: int| 0 <= q < t ==> (#[trigger] reasons@[q])@ == exact_duplicate_reason(files@[members@[q].1 as int].display@),
            forall|q: int| 0 <= q < t ==> crate::danbooru_client::opt_string(#[trigger] shas@[q]) == content_hashes(hashes@)[members@[q].0 as int],
        decreases members.len() - t,
    {
        let (i, k) = members[t];
        media.push(i);
        reasons.push(literal_then("exact_duplicate_of:", files[k].display.as_str()));
        shas.push(crate::text::copy_optional_string(&hashes[i]));
        t += 1;
    }
    let candidates = build_candidates(files, &media, &reasons, &shas);
    proof {
        assert forall|t: int| 0 <= t < media@.len() implies #[trigger] exact_plan_entry(
            files@,
            hashes@,
            media@,
            candidates@,
            t,
        ) by {
            let k = members@[t].1 as int;
            assert(exact_keeper(file_sizes(files@), content_hashes(hashes@), media@[t] as int, k));
            assert(planned_candidate(
                files@,
                media@,
                crate::text::char_views(reasons@),
                content_hashes(shas@),
                t,
                candidates@[t],
            ));
            assert(crate::text::char_views(reasons@)[t] == reasons@[t]@);
            assert(content_hashes(shas@)[t] == crate::danbooru_client::opt_string(shas@[t]));
        }
        assert forall|t: int| 0 <= t < media@.len() implies (#[trigger] media@[t]) < files@.len() && repeats_content(
            file_sizes(files@),
            content_hashes(hashes@),
            media@[t] as int,
        ) by {
            let k = members@[t].1 as int;
            assert(same_content(file_sizes(files@), content_hashes(hashes@), k, media@[t] as int));
        }
        assert forall|i: int| 0 <= i < files@.len() && #[trigger] repeats_content(file_sizes(files@), content_hashes(hashes@), i)
            implies media@.contains(i as usize) by {
            let t = choose|t: int| 0 <= t < members@.len() && (#[trigger] members@[t]).0 == i;
            assert(media@[t] == i as usize);
        }
    }
    (candidates, media)
}

/// Candidate `t` of a plan is the media file `media[t]` with `reason`, no
/// hash, and the sidecar it takes along.
pub open spec fn plain_plan_entry(
    files: Seq<ScannedMedia>,
    media: Seq<usize>,
    candidates: Seq<ToolCandidate>,
    t: int,
    reason: Seq<char>,
) -> bool {
    candidate_is(
        candidates[t],
        files[media[t] as int].path,
        reason,
        files[media[t] as int].size,
        None,
        if takes_sidecar(files, media, t) {
            files[media[t] as int].sidecar
        } else {
            None
        },
    )
}

fn no_hashes(count: usize) -> (hashes: Vec<Option<String>>)
    ensures
        hashes@.len() == count,
        forall|t: int| 0 <= t < count ==> (#[trigger] hashes@[t]) is None,
{
    let mut hashes: Vec<Option<String>> = Vec::new();
    let mut t: usize = 0;
    while t < count
        invariant
            t <= count,
            hashes@.len() == t,
            forall|q: int| 0 <= q < t ==> (#[trigger] hashes@[q]) is None,
        decreases count - t,
    {
        hashes.push(None);
        t += 1;
    }
    hashes
}

proof fn lemma_plain_entries(
    files: Seq<ScannedMedia>,
    media: Seq<usize>,
    reasons: Seq<Vec<char>>,
    hashes: Seq<Option<String>>,
    candidates: Seq<ToolCandidate>,
)
    requires
        reasons.len() == media.len(),
        hashes.len() == media.len(),
        candidates.len() == media.len(),
        forall|t: int| 0 <= t < media.len() ==> (#[trigger] hashes[t]) is None,
        forall|t: int| 0 <= t < media.len() ==> planned_candidate(
            files,
            media,
            crate::text::char_views(reasons),
            content_hashes(hashes),
            t,
            #[trigger] candidates[t],
        ),
    ensures
        forall|t: int| 0 <= t < media.len() ==> #[trigger] plain_plan_entry(files, media, candidates, t, reasons[t]@),
{
    assert forall|t: int| 0 <= t < media.len() implies #[trigger] plain_plan_entry(files, media, candidates, t, reasons[t]@) by {
        assert(planned_candidate(files, media, crate::text::char_views(reasons), content_hashes(hashes), t, candidates[t]));
        assert(crate::text::char_views(reasons)[t] == reasons[t]@);
        assert(content_hashes(hashes)[t] == crate::danbooru_client::opt_string(hashes[t]));
    }
}

/// Every selected file, for the user asked for them: all of them, in path
/// order, with their orphaned sidecars.
pub fn plan_delete_selected(files: &Vec<ScannedMedia>) -> (plan: (Vec<ToolCandidate>, Vec<usize>))
    ensures
        plan.1@.len() == files@.len(),
        plan.0@.len() == files@.len(),
        forall|t: int| 0 <= t < files@.len() ==> #[trigger] plan.1@[t] == t,
        forall|t: int| 0 <= t < files@.len() ==> #[trigger] plain_plan_entry(files@, plan.1@, plan.0@, t, "selected_by_user"@),
{
    let mut media: Vec<usize> = Vec::new();
    let mut reasons: Vec<Vec<char>> = Vec::new();
    let mut i: usize = 0;
    while i < files.len()
        invariant
            i <= files.len(),
            media@.len() == i,
            reasons@.len() == i,
            forall|t: int| 0 <= t < i ==> #[trigger] media@[t] == t,
            forall|t: int| 0 <= t < i ==> (#[trigger] reasons@[t])@ == "selected_by_user"@,
        decreases files.len() - i,
    {
        media.push(i);
        reasons.push(chars_of("selected_by_user"));
        i += 1;
    }
    let hashes = no_hashes(media.len());
    let candidates = build_candidates(files, &media, &reasons, &hashes);
    proof {
        lemma_plain_entries(files@, media@, reasons@, hashes@, candidates@);
    }
    (candidates, media)
}

/// The tag delete-by-tag looks for: the normalised tag, which must not be
/// empty.
pub fn delete_tag_token(tag: &str) -> (result: Result<String, ToolError>)
    ensures
        match result {
            Ok(token) => token@ == tag_token(tag@) && token@.len() > 0,
            Err(e) => tag_token(tag@).len() == 0 && invalid_manifest(e, "标签不能为空"@),
        },
{
    let token = normalize_tag_token(tag);
    if token.as_str().unicode_len() == 0 {
        return Err(ToolError::InvalidManifest(crate::text::owned("标签不能为空")));
    }
    Ok(token)
}

/// File `i` is tagged `wanted`: its sidecar was read and holds the tag.
pub open spec fn tagged_with(contents: Seq<Option<String>>, i: int, wanted: Seq<char>) -> bool {
    contents[i] matches Some(text) && sidecar_has_tag(text@, wanted)
}

/// The files whose sidecars hold `wanted` (`contents[i]` is the sidecar of
/// file `i`, where it exists), in path order, with reason `tag:` and the
/// tag.
pub fn plan_delete_by_tag(files: &Vec<ScannedMedia>, wanted: &str, contents: &Vec<Option<String>>) -> (plan: (Vec<ToolCandidate>, Vec<usize>))
    requires
        contents@.len() == files@.len(),
    ensures
        plan.0@.len() == plan.1@.len(),
        forall|t: int| 0 <= t < plan.1@.len() ==> (#[trigger] plan.1@[t]) < files@.len() && tagged_with(contents@, plan.1@[t] as int, wanted@),
        forall|t: int, u: int| 0 <= t < u < plan.1@.len() ==> (#[trigger] plan.1@[t]) < (#[trigger] plan.1@[u]),
        forall|i: int| 0 <= i < files@.len() && #[trigger] tagged_with(contents@, i, wanted@) ==> plan.1@.contains(i as usize),
        forall|t: int| 0 <= t < plan.1@.len() ==> #[trigger] plain_plan_entry(files@, plan.1@, plan.0@, t, "tag:"@ + wanted@),
{
    let mut media: Vec<usize> = Vec::new();
    let mut reasons: Vec<Vec<char>> = Vec::new();
    let mut i: usize = 0;
    while i < files.len()
        invariant
            i <= files.len(),
            contents@.len() == files@.len(),
            media@.len() == reasons@.len(),
            forall|t: int| 0 <= t < media@.len() ==> (#[trigger] media@[t]) < i && tagged_with(contents@, media@[t] as int, wanted@),
            forall|t: int, u: int| 0 <= t < u < media@.len() ==> (#[trigger] media@[t]) < (#[trigger] media@[u]),
            forall|x: int| 0 <= x < i && #[trigger] tagged_with(contents@, x, wanted@) ==> media@.contains(x as usize),
            forall|t: int| 0 <= t < reasons@.len() ==> (#[trigger] reasons@[t])@ == "tag:"@ + wanted@,
        decreases files.len() - i,
    {
        let matches = match &contents[i] {
            Some(text) => sidecar_contains_tag(text.as_str(), wanted),
            None => false,
        };
        if matches {
            let ghost before = media@;
            media.push(i);
            reasons.push(literal_then("tag:", wanted));
            assert forall|x: int| 0 <= x < i + 1 && #[trigger] tagged_with(contents@, x, wanted@) implies media@.contains(x as usize) by {
                if x < i {
                    let t = choose|t: int| 0 <= t < before.len() && before[t] == x as usize;
                    assert(media@[t] == x as usize);
                } else {
                    assert(media@[media@.len() - 1] == x as usize);
                }
            }
        }
        i += 1;
    }
    let hashes = no_hashes(media.len());
    let candidates = build_candidates(files, &media, &reasons, &hashes);
    proof {
        lemma_plain_entries(files@, media@, reasons@, hashes@, candidates@);
    }
    (candidates, media)
}

/// Why an integrity check lists file `i`, if it does: an empty file, or a
/// decodable image that failed to decode (`decode_errors[i]`).
pub open spec fn integrity_reason(files: Seq<ScannedMedia>, decode_errors: Seq<Option<String>>, i: int) -> Option<Seq<char>> {
    if files[i].size == 0 {
        Some("empty_file"@)
    } else if (file_extension(files[i].file_name@) matches Some(e) && is_decodable_extension(crate::text::ascii_lower(e)))
        && decode_errors[i] is Some {
        Some("decode_failed:"@ + decode_errors[i]->Some_0@)
    } else {
        None
    }
}

/// The files an integrity check lists (see [`integrity_reason`]), in path
/// order, with their orphaned sidecars; nothing is deleted.
pub fn plan_integrity_check(files: &Vec<ScannedMedia>, decode_errors: &Vec<Option<String>>) -> (plan: (Vec<ToolCandidate>, Vec<usize>))
    requires
        decode_errors@.len() == files@.len(),
    ensures
        plan.0@.len() == plan.1@.len(),
        forall|t: int| 0 <= t < plan.1@.len() ==> (#[trigger] plan.1@[t]) < files@.len() && integrity_reason(files@, decode_errors@, plan.1@[t] as int) is Some,
        forall|t: int, u: int| 0 <= t < u < plan.1@.len() ==> (#[trigger] plan.1@[t]) < (#[trigger] plan.1@[u]),
        forall|i: int| 0 <= i < files@.len() && #[trigger] integrity_reason(files@, decode_errors@, i) is Some ==> plan.1@.contains(i as usize),
        forall|t: int| 0 <= t < plan.1@.len() ==> #[trigger] plain_plan_entry(
            files@,
            plan.1@,
            plan.0@,
            t,
            integrity_reason(files@, decode_errors@, plan.1@[t] as int)->Some_0,
        ),
{
    let mut media: Vec<usize> = Vec::new();
    let mut reasons: Vec<Vec<char>> = Vec::new();
    let mut i: usize = 0;
    while i < files.len()
        invariant
            i <= files.len(),
            decode_errors@.len() == files@.len(),
            media@.len() == reasons@.len(),
            forall|t: int| 0 <= t < media@.len() ==> (#[trigger] media@[t]) < i && integrity_reason(files@, decode_errors@, media@[t] as int) is Some,
            forall|t: int, u: int| 0 <= t < u < media@.len() ==> (#[trigger] media@[t]) < (#[trigger] media@[u]),
            forall|x: int| 0 <= x < i && #[trigger] integrity_reason(files@, decode_errors@, x) is Some ==> media@.contains(x as usize),
            forall|t: int| 0 <= t < reasons@.len() ==> (#[trigger] reasons@[t])@ == integrity_reason(files@, decode_errors@, media@[t] as int)->Some_0,
        decreases files.len() - i,
    {
        let reason: Option<Vec<char>> = if files[i].size == 0 {
            Some(chars_of("empty_file"))
        } else if is_decodable_image(files[i].file_name.as_str()) {
            match &decode_errors[i] {
                Some(error) => Some(literal_then("decode_failed:", error.as_str())),
                None => None,
            }
        } else {
            None
        };
        match reason {
            Some(text) => {
                let ghost before = media@;
                media.push(i);
                reasons.push(text);
                assert forall|x: int| 0 <= x < i + 1 && #[trigger] integrity_reason(files@, decode_errors@, x) is Some implies media@.contains(x as usize) by {
                    if x < i {
                        let t = choose|t: int| 0 <= t < before.len() && before[t] == x as usize;
                        assert(media@[t] == x as usize);
                    } else {
                        assert(media@[media@.len() - 1] == x as usize);
                    }
                }
            },
            None => {},
        }
        i += 1;
    }
    let hashes = no_hashes(media.len());
    let candidates = build_candidates(files, &media, &reasons, &hashes);
    proof {
        lemma_plain_entries(files@, media@, reasons@, hashes@, candidates@);
    }
    (candidates, media)
}

/// Checks the bounds of a similarity scan: a distance of at most 64 bits
/// and at most 5000 images.
pub fn check_similarity_scan(max_distance: u32, image_count: usize) -> (result: Result<(), ToolError>)
    ensures
        match result {
            Ok(()) => max_distance <= 64 && image_count <= crate::similarity::MAX_SIMILAR_IMAGES,
            Err(e) => if max_distance > 64 {
                invalid_manifest(e, "dHash 距离必须在 0..=64"@)
            } else {
                image_count > crate::similarity::MAX_SIMILAR_IMAGES && invalid_manifest(
                    e,
                    "近似图片扫描单批最多 5000 项，请缩小范围"@,
                )
            },
        },
{
    if max_distance > 64 {
        return Err(ToolError::InvalidManifest(crate::text::owned("dHash 距离必须在 0..=64")));
    }
    if image_count > crate::similarity::MAX_SIMILAR_IMAGES {
        return Err(ToolError::InvalidManifest(crate::text::owned("近似图片扫描单批最多 5000 项，请缩小范围")));
    }
    Ok(())
}

/// The positions of the decodable images among the files, in order.
pub fn decodable_images(files: &Vec<ScannedMedia>) -> (images: Vec<usize>)
    ensures
        forall|t: int| 0 <= t < images@.len() ==> (#[trigger] images@[t]) < files@.len() && (file_extension(files@[images@[t] as int].file_name@) matches Some(e) && is_decodable_extension(crate::text::ascii_lower(e))),
        forall|t: int, u: int| 0 <= t < u < images@.len() ==> (#[trigger] images@[t]) < (#[trigger] images@[u]),
        forall|i: int| 0 <= i < files@.len() && (file_extension(#[trigger] files@[i].file_name@) matches Some(e) && is_decodable_extension(crate::text::ascii_lower(e))) ==> images@.contains(i as usize),
{
    let mut images: Vec<usize> = Vec::new();
    let mut i: usize = 0;
    while i < files.len()
        invariant
            i <= files.len(),
            forall|t: int| 0 <= t < images@.len() ==> (#[trigger] images@[t]) < i && (file_extension(files@[images@[t] as int].file_name@) matches Some(e) && is_decodable_extension(crate::text::ascii_lower(e))),
            forall|t: int, u: int| 0 <= t < u < images@.len() ==> (#[trigger] images@[t]) < (#[trigger] images@[u]),
            forall|x: int| 0 <= x < i && (file_extension(#[trigger] files@[x].file_name@) matches Some(e) && is_decodable_extension(crate::text::ascii_lower(e))) ==> images@.contains(x as usize),
        decreases files.len() - i,
    {
        if is_decodable_image(files[i].file_name.as_str()) {
            let ghost before = images@;
            images.push(i);
            assert forall|x: int| 0 <= x < i + 1 && (file_extension(#[trigger] files@[x].file_name@) matches Some(e) && is_decodable_extension(crate::text::ascii_lower(e))) implies images@.contains(x as usize) by {
                if x < i {
                    let t = choose|t: int| 0 <= t < before.len() && before[t] == x as usize;
                    assert(images@[t] == x as usize);
                } else {
                    assert(images@[images@.len() - 1] == x as usize);
                }
            }
        }
        i += 1;
    }
    images
}

/// The similar pairs among images (in path order) with their difference
/// hashes: every pair at most `max_distance` apart, in the order of
/// [`crate::similarity::close_pairs`]; refused beyond 10000 pairs.
pub fn plan_similar_images(images: &Vec<PathBuf>, hashes: &Vec<u64>, max_distance: u32) -> (result: Result<Vec<SimilarPair>, ToolError>)
    requires
        images@.len() == hashes@.len(),
    ensures
        match result {
            Ok(pairs) => crate::similarity::close_pairs(hashes@, max_distance).len() <= crate::similarity::MAX_SIMILAR_PAIRS
                && pairs@.len() == crate::similarity::close_pairs(hashes@, max_distance).len() && forall|t: int|
                0 <= t < pairs@.len() ==> {
                    let p = #[trigger] pairs@[t];
                    let q = crate::similarity::close_pairs(hashes@, max_distance)[t];
                    p.left == images@[q.0] && p.right == images@[q.1] && p.distance as nat == q.2
                },
            Err(e) => crate::similarity::close_pairs(hashes@, max_distance).len() > crate::similarity::MAX_SIMILAR_PAIRS
                && invalid_manifest(e, crate::similarity::too_many_pairs_message()),
        },
{
    let found = match crate::similarity::similar_index_pairs(hashes, max_distance) {
        Err(error) => {
            return Err(error);
        },
        Ok(found) => found,
    };
    proof {
        crate::similarity::lemma_close_pairs_bounds(hashes@, max_distance);
    }
    let mut pairs: Vec<SimilarPair> = Vec::new();
    let mut t: usize = 0;
    while t < found.len()
        invariant
            t <= found@.len(),
            images@.len() == hashes@.len(),
            found@.len() == crate::similarity::close_pairs(hashes@, max_distance).len(),
            forall|s: int| 0 <= s < found@.len() ==> {
                let p = #[trigger] found@[s];
                let q = crate::similarity::close_pairs(hashes@, max_distance)[s];
                p.0 as int == q.0 && p.1 as int == q.1 && p.2 as nat == q.2
            },
            forall|s: int| 0 <= s < crate::similarity::close_pairs(hashes@, max_distance).len() ==> {
                let q = #[trigger] crate::similarity::close_pairs(hashes@, max_distance)[s];
                0 <= q.0 < q.1 < hashes@.len()
            },
            pairs@.len() == t,
            forall|s: int| 0 <= s < t ==> {
                let p = #[trigger] pairs@[s];
                let q = crate::similarity::close_pairs(hashes@, max_distance)[s];
                p.left == images@[q.0] && p.right == images@[q.1] && p.distance as nat == q.2
            },
        decreases found.len() - t,
    {
        let (left, right, distance) = found[t];
        assert(found@[t as int] == (left, right, distance));
        pairs.push(SimilarPair { left: images[left].clone(), right: images[right].clone(), distance });
        t += 1;
    }
    Ok(pairs)
}

/// The reason of a near duplicate.
pub open spec fn near_duplicate_reason(keeper_display: Seq<char>, max_distance: u32) -> Seq<char> {
    "near_duplicate_cluster_keeper:"@ + keeper_display + ";dhash_threshold:"@ + crate::text::decimal(max_distance as nat)
}

/// Candidate `t` of a near-duplicate plan: an image that a cluster does not
/// keep, whose keeper the reason names.
pub open spec fn near_plan_entry(
    files: Seq<ScannedMedia>,
    images: Seq<usize>,
    edges: Seq<(int, int)>,
    max_distance: u32,
    media: Seq<usize>,
    candidates: Seq<ToolCandidate>,
    t: int,
) -> bool {
    exists|p: int, k: int| #![trigger images[p], images[k]]
        0 <= k < p < images.len() && media[t] == images[p] && crate::similarity::is_cluster_keeper(edges, p, k)
        && plain_plan_entry(files, media, candidates, t, near_duplicate_reason(files[images[k] as int].display@, max_distance))
}

/// The near-duplicate candidates: the images (positions `images` among the
/// files, with `pairs` over those positions) that their cluster does not
/// keep, each naming its keeper, in image order, with orphaned sidecars.
pub fn plan_near_duplicates(
    files: &Vec<ScannedMedia>,
    images: &Vec<usize>,
    pairs: &Vec<(usize, usize, u32)>,
    max_distance: u32,
) -> (plan: (Vec<ToolCandidate>, Vec<usize>))
    requires
        forall|t: int| 0 <= t < images@.len() ==> (#[trigger] images@[t]) < files@.len(),
        forall|k: int| 0 <= k < pairs@.len() ==> (#[trigger] pairs@[k]).0 < images@.len() && pairs@[k].1 < images@.len(),
    ensures
        plan.0@.len() == plan.1@.len(),
        forall|t: int| 0 <= t < plan.1@.len() ==> #[trigger] near_plan_entry(
            files@,
            images@,
            crate::similarity::pair_edges(pairs@),
            max_distance,
            plan.1@,
            plan.0@,
            t,
        ),
        forall|p: int| 0 <= p < images@.len() && #[trigger] crate::similarity::reaches_smaller(crate::similarity::pair_edges(pairs@), p)
            ==> plan.1@.contains(images@[p]),
        (forall|a: int, b: int| 0 <= a < b < images@.len() ==> (#[trigger] images@[a]) < (#[trigger] images@[b]))
            ==> forall|t: int, u: int| 0 <= t < u < plan.1@.len() ==> (#[trigger] plan.1@[t]) < (#[trigger] plan.1@[u]),
{
    let members = crate::similarity::near_duplicate_members(images.len(), pairs);
    let mut media: Vec<usize> = Vec::new();
    let mut reasons: Vec<Vec<char>> = Vec::new();
    let mut t: usize = 0;
    while t < members.len()
        invariant
            t <= members@.len(),
            forall|q: int| 0 <= q < images@.len() ==> (#[trigger] images@[q]) < files@.len(),
            forall|q: int| 0 <= q < members@.len() ==> {
                let m = #[trigger] members@[q];
                m.0 < images@.len() && m.1 < m.0 && crate::similarity::is_cluster_keeper(crate::similarity::pair_edges(pairs@), m.0 as int, m.1 as int)
            },
            forall|q: int, r: int| 0 <= q < r < members@.len() ==> (#[trigger] members@[q]).0 < (#[trigger] members@[r]).0,
            media@.len() == t,
            reasons@.len() == t,
            forall|q: int| 0 <= q < t ==> #[trigger] media@[q] == images@[members@[q].0 as int],
            forall|q: int| 0 <= q < t ==> (#[trigger] reasons@[q])@ == near_duplicate_reason(files@[images@[members@[q].1 as int] as int].display@, max_distance),
        decreases members.len() - t,
    {
        let (position, keeper) = members[t];
        media.push(images[position]);
        let mut reason = literal_then("near_duplicate_cluster_keeper:", files[images[keeper]].display.as_str());
        append_chars(&mut reason, &chars_of(";dhash_threshold:"));
        append_chars(&mut reason, &crate::text::u64_to_chars(max_distance as u64));
        reasons.push(reason);
        t += 1;
    }
    let hashes = no_hashes(media.len());
    let candidates = build_candidates(files, &media, &reasons, &hashes);
    proof {
        lemma_plain_entries(files@, media@, reasons@, hashes@, candidates@);
        assert forall|t: int| 0 <= t < media@.len() implies #[trigger] near_plan_entry(
            files@,
            images@,
            crate::similarity::pair_edges(pairs@),
            max_distance,
            media@,
            candidates@,
            t,
        ) by {
            let p = members@[t].0 as int;
            let k = members@[t].1 as int;
            assert(plain_plan_entry(files@, media@, candidates@, t, reasons@[t]@));
            assert(images@[p] == media@[t]);
            assert(images@[k] < files@.len());
        }
        assert forall|p: int| 0 <= p < images@.len() && #[trigger] crate::similarity::reaches_smaller(crate::similarity::pair_edges(pairs@), p)
            implies media@.contains(images@[p]) by {
            assert(crate::similarity::lists_member(members@, p));
            let t = choose|t: int| 0 <= t < members@.len() && (#[trigger] members@[t]).0 == p;
            assert(media@[t] == images@[p]);
        }
        if forall|a: int, b: int| 0 <= a < b < images@.len() ==> (#[trigger] images@[a]) < (#[trigger] images@[b]) {
            assert forall|t: int, u: int| 0 <= t < u < media@.len() implies (#[trigger] media@[t]) < (#[trigger] media@[u]) by {
                let a = members@[t].0 as int;
                let b = members@[u].0 as int;
                assert(a < b);
                assert(images@[a] < images@[b]);
            }
        }
    }
    (candidates, media)
}

// ---------------------------------------------------------------------
// Tag pipeline, HEIC and resize requests
// ---------------------------------------------------------------------

/// Checks the size of a tag pipeline batch: 1 to 10000 media files and at
/// most 50000 known categories.
pub fn check_tag_pipeline_batch(media_count: usize, category_count: usize) -> (result: Result<(), ToolError>)
    ensures
        match result {
            Ok(()) => 1 <= media_count <= 10000 && category_count <= 50000,
            Err(e) => if media_count == 0 || media_count > 10000 {
                invalid_manifest(e, "标签任务的媒体数量必须在 1..=10000"@)
            } else {
                category_count > 50000 && invalid_manifest(e, "标签分类缓存单批最多 50000 项"@)
            },
        },
{
    if media_count == 0 || media_count > 10000 {
        return Err(ToolError::InvalidManifest(crate::text::owned("标签任务的媒体数量必须在 1..=10000")));
    }
    if category_count > 50000 {
        return Err(ToolError::InvalidManifest(crate::text::owned("标签分类缓存单批最多 50000 项")));
    }
    Ok(())
}

/// Refuses to read a sidecar over 8 MiB.
pub fn check_sidecar_size(size: u64, display: &str) -> (result: Result<(), ToolError>)
    ensures
        match result {
            Ok(()) => size <= 8388608,
            Err(e) => size > 8388608 && invalid_manifest(e, "标签文件超过 8 MiB 安全上限: "@ + display@),
        },
{
    if size > 8388608 {
        return Err(ToolError::InvalidManifest(string_from_chars(&literal_then("标签文件超过 8 MiB 安全上限: ", display))));
    }
    Ok(())
}

/// A sidecar the tag pipeline read: its path, size and text.
#[derive(Debug, Clone)]
pub struct ScannedSidecar {
    pub path: PathBuf,
    pub size: u64,
    pub content: String,
}

/// The sidecar changes under the pipeline.
pub open spec fn pipeline_changes(sidecar: ScannedSidecar, config: TagPipelineConfig) -> bool {
    transformed_caption(sidecar.content@, config.categories@, config.artist_prefix) != sidecar.content@
}

/// The sidecars the tag pipeline would rewrite: those whose caption changes,
/// in the order read, each with reason `tag_pipeline_original`.
pub fn plan_tag_pipeline(sidecars: &Vec<ScannedSidecar>, config: &TagPipelineConfig) -> (plan: (Vec<ToolCandidate>, Vec<usize>))
    ensures
        plan.0@.len() == plan.1@.len(),
        forall|t: int| 0 <= t < plan.1@.len() ==> (#[trigger] plan.1@[t]) < sidecars@.len() && pipeline_changes(
            sidecars@[plan.1@[t] as int],
            *config,
        ) && candidate_is(
            plan.0@[t],
            sidecars@[plan.1@[t] as int].path,
            "tag_pipeline_original"@,
            sidecars@[plan.1@[t] as int].size,
            None,
            None,
        ),
        forall|t: int, u: int| 0 <= t < u < plan.1@.len() ==> (#[trigger] plan.1@[t]) < (#[trigger] plan.1@[u]),
        forall|i: int| 0 <= i < sidecars@.len() && #[trigger] pipeline_changes(sidecars@[i], *config) ==> plan.1@.contains(
            i as usize,
        ),
{
    let mut candidates: Vec<ToolCandidate> = Vec::new();
    let mut chosen: Vec<usize> = Vec::new();
    let mut i: usize = 0;
    while i < sidecars.len()
        invariant
            i <= sidecars.len(),
            candidates@.len() == chosen@.len(),
            forall|t: int| 0 <= t < chosen@.len() ==> (#[trigger] chosen@[t]) < i && pipeline_changes(
                sidecars@[chosen@[t] as int],
                *config,
            ) && candidate_is(
                candidates@[t],
                sidecars@[chosen@[t] as int].path,
                "tag_pipeline_original"@,
                sidecars@[chosen@[t] as int].size,
                None,
                None,
            ),
            forall|t: int, u: int| 0 <= t < u < chosen@.len() ==> (#[trigger] chosen@[t]) < (#[trigger] chosen@[u]),
            forall|x: int| 0 <= x < i && #[trigger] pipeline_changes(sidecars@[x], *config) ==> chosen@.contains(x as usize),
        decreases sidecars.len() - i,
    {
        let sidecar = &sidecars[i];
        let rewritten = transform_tag_content_with_categories(
            sidecar.content.as_str(),
            &config.categories,
            config.artist_prefix,
        );
        if !chars_equal(&chars_of(rewritten.as_str()), &chars_of(sidecar.content.as_str())) {
            let ghost before = chosen@;
            candidates.push(candidate_for(&sidecar.path, chars_of("tag_pipeline_original"), sidecar.size, &None, None));
            chosen.push(i);
            assert forall|x: int| 0 <= x < i + 1 && #[trigger] pipeline_changes(sidecars@[x], *config) implies chosen@.contains(
                x as usize,
            ) by {
                if x < i {
                    let t = choose|t: int| 0 <= t < before.len() && before[t] == x as usize;
                    assert(chosen@[t] == x as usize);
                } else {
                    assert(chosen@[chosen@.len() - 1] == x as usize);
                }
            }
        }
        i += 1;
    }
    (candidates, chosen)
}

/// The problem with a HEIC conversion source, if any: it must have a HEIC
/// or HEIF extension and hold 1 byte to 512 MiB.
pub open spec fn heic_source_problem(file_name: Seq<char>, display: Seq<char>, size: u64) -> Option<Seq<char>> {
    if !(file_extension(file_name) matches Some(e) && (crate::text::ascii_lower(e) == "heic"@
        || crate::text::ascii_lower(e) == "heif"@)) {
        Some("媒体不是 HEIC/HEIF 文件: "@ + display)
    } else if size == 0 || size > 536870912 {
        Some("HEIC 文件大小必须在 1 B..=512 MiB: "@ + display)
    } else {
        None
    }
}

/// Checks a HEIC conversion batch size (1 to 1000 files).
pub fn check_heic_batch(media_count: usize) -> (result: Result<(), ToolError>)
    ensures
        match result {
            Ok(()) => 1 <= media_count <= 1000,
            Err(e) => (media_count == 0 || media_count > 1000) && invalid_manifest(e, "HEIC 转换的媒体数量必须在 1..=1000"@),
        },
{
    if media_count == 0 || media_count > 1000 {
        return Err(ToolError::InvalidManifest(crate::text::owned("HEIC 转换的媒体数量必须在 1..=1000")));
    }
    Ok(())
}

/// Checks one HEIC conversion source (see [`heic_source_problem`]).
pub fn check_heic_source(file_name: &str, display: &str, size: u64) -> (result: Result<(), ToolError>)
    ensures
        match (result, heic_source_problem(file_name@, display@, size)) {
            (Ok(()), None) => true,
            (Err(e), Some(message)) => invalid_manifest(e, message),
            _ => false,
        },
{
    let heic = match extension_of(file_name) {
        Some(e) => crate::text::chars_equal_str(&e, "heic") || crate::text::chars_equal_str(&e, "heif"),
        None => false,
    };
    if !heic {
        return Err(ToolError::InvalidManifest(string_from_chars(&literal_then("媒体不是 HEIC/HEIF 文件: ", display))));
    }
    if size == 0 || size > 536870912 {
        return Err(
            ToolError::InvalidManifest(string_from_chars(&literal_then("HEIC 文件大小必须在 1 B..=512 MiB: ", display))),
        );
    }
    Ok(())
}

/// Checks a resize request: a positive size, a JPEG quality of 1 to 100,
/// and a source format that decodes safely.
pub fn check_resize_request(max_size: u32, quality: u8, file_name: &str) -> (result: Result<(), ToolError>)
    ensures
        match result {
            Ok(()) => max_size > 0 && 1 <= quality <= 100 && (file_extension(file_name@) matches Some(e)
                && is_decodable_extension(crate::text::ascii_lower(e))),
            Err(e) => if max_size == 0 || !(1 <= quality <= 100) {
                invalid_manifest(e, "缩放尺寸必须大于 0，JPEG 质量必须在 1..=100"@)
            } else {
                !(file_extension(file_name@) matches Some(e) && is_decodable_extension(crate::text::ascii_lower(e)))
                    && invalid_manifest(e, "该格式不能安全解码为 JPEG"@)
            },
        },
{
    if max_size == 0 || !(1 <= quality && quality <= 100) {
        return Err(ToolError::InvalidManifest(crate::text::owned("缩放尺寸必须大于 0，JPEG 质量必须在 1..=100")));
    }
    if !is_decodable_image(file_name) {
        return Err(ToolError::InvalidManifest(crate::text::owned("该格式不能安全解码为 JPEG")));
    }
    Ok(())
}

/// A colour channel of a pixel with opacity `alpha` flattened onto white
/// for a resized JPEG: `(channel·alpha + 255·(255 − alpha)) / 255`, rounded
/// to the nearest integer.
pub fn flatten_channel(channel: u8, alpha: u8) -> (blended: u8)
    ensures
        blended == (channel * alpha + 255 * (255 - alpha) + 127) / 255,
{
    let inverse: u16 = 255 - alpha as u16;
    assert((channel as u16) * (alpha as u16) <= 255 * alpha) by (nonlinear_arith)
        requires
            channel <= 255,
    ;
    let total: u16 = (channel as u16) * (alpha as u16) + 255 * inverse + 127;
    assert(total / 255 <= 255) by (nonlinear_arith)
        requires
            total <= 65152,
    ;
    (total / 255) as u8
}

} // verus!
