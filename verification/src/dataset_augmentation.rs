//! Rules of dataset augmentation: smart-crop settings, crop rectangle
//! geometry, the identity and split of a sample family, sample naming and
//! the source checks.  Decoding, crop analysis, image writing and the
//! metadata files run around these rules.
use std::path::PathBuf;
use vstd::prelude::*;

use crate::danbooru_client::string_views;
use crate::image_processor::{invalid_manifest, ToolError};
use crate::text::{append_chars, chars_equal_str, chars_of, owned, string_from_chars, trim_spec};

verus! {

// ---------------------------------------------------------------------
// Smart-crop settings
// ---------------------------------------------------------------------

/// Settings of the anime-aware cropper.
#[derive(Debug, Clone, PartialEq, Eq)]
pub struct SmartCropConfig {
    pub enabled: bool,
    pub runtime_profile_id: String,
    pub gpu_id: String,
    pub quality_profile: String,
    pub portrait: bool,
    pub upper_body: bool,
    pub cowboy_shot: bool,
    pub full_body_tight: bool,
    pub lower_body: bool,
    /// When off, one fully visible foot is enough for the feet view.
    pub feet: bool,
    pub require_both_feet: bool,
    pub max_derived_per_family: u8,
}

impl Default for SmartCropConfig {
    /// Enabled on GPU 0 with the `conda:lora` runtime and the
    /// `anime-quality` profile, every composition on, one foot enough, at
    /// most six crops per family.
    fn default() -> (config: Self)
        ensures
            config.enabled,
            config.runtime_profile_id@ == "conda:lora"@,
            config.gpu_id@ == "0"@,
            config.quality_profile@ == "anime-quality"@,
            config.portrait && config.upper_body && config.cowboy_shot && config.full_body_tight
                && config.lower_body && config.feet,
            !config.require_both_feet,
            config.max_derived_per_family == 6,
    {
        SmartCropConfig {
            enabled: true,
            runtime_profile_id: owned("conda:lora"),
            gpu_id: owned("0"),
            quality_profile: owned("anime-quality"),
            portrait: true,
            upper_body: true,
            cowboy_shot: true,
            full_body_tight: true,
            lower_body: true,
            feet: true,
            require_both_feet: false,
            max_derived_per_family: 6,
        }
    }
}

/// A GPU number as `u32::from_str` reads it.
pub open spec fn parses_as_u32(text: Seq<char>) -> bool {
    crate::text::parse_u64_spec(text) matches Some(v) && v <= u32::MAX
}

/// The message of the first setting the cropper refuses, if any (none when
/// it is off).
pub open spec fn smart_crop_problem(config: SmartCropConfig) -> Option<Seq<char>> {
    if !config.enabled {
        None
    } else if trim_spec(config.runtime_profile_id@).len() == 0 {
        Some("智能裁剪必须选择 Python 运行时"@)
    } else if !parses_as_u32(config.gpu_id@) {
        Some("智能裁剪 GPU 必须是非负整数编号"@)
    } else if config.quality_profile@ != "anime-quality"@ {
        Some("智能裁剪仅支持 anime-quality 质量档"@)
    } else if !config.portrait && !config.upper_body && !config.cowboy_shot && !config.full_body_tight
        && !config.lower_body && !config.feet {
        Some("智能裁剪至少需要启用一种构图"@)
    } else if !(1 <= config.max_derived_per_family <= 6) {
        Some("每个 family 的智能裁剪数量必须在 1..=6 之间"@)
    } else {
        None
    }
}

impl SmartCropConfig {
    /// Checks the settings (see [`smart_crop_problem`]).
    pub fn validate(&self) -> (result: Result<(), String>)
        ensures
            match (result, smart_crop_problem(*self)) {
                (Ok(()), None) => true,
                (Err(message), Some(expected)) => message@ == expected,
                _ => false,
            },
    {
        if !self.enabled {
            return Ok(());
        }
        let runtime = chars_of(self.runtime_profile_id.as_str());
        let (start, end) = crate::text::trim_bounds(&runtime, 0, runtime.len());
        assert(runtime@.subrange(0, runtime@.len() as int) =~= runtime@);
        if start == end {
            return Err(owned("智能裁剪必须选择 Python 运行时"));
        }
        let gpu_ok = match crate::text::parse_u64(&chars_of(self.gpu_id.as_str())) {
            Some(v) => v <= 4294967295u64,
            None => false,
        };
        if !gpu_ok {
            return Err(owned("智能裁剪 GPU 必须是非负整数编号"));
        }
        if !chars_equal_str(&chars_of(self.quality_profile.as_str()), "anime-quality") {
            return Err(owned("智能裁剪仅支持 anime-quality 质量档"));
        }
        if !self.portrait && !self.upper_body && !self.cowboy_shot && !self.full_body_tight
            && !self.lower_body && !self.feet {
            return Err(owned("智能裁剪至少需要启用一种构图"));
        }
        if !(1 <= self.max_derived_per_family && self.max_derived_per_family <= 6) {
            return Err(owned("每个 family 的智能裁剪数量必须在 1..=6 之间"));
        }
        Ok(())
    }
}

/// The compositions switched on, in their fixed order.
pub open spec fn enabled_variants_spec(config: SmartCropConfig) -> Seq<Seq<char>> {
    let all = seq![
        ("portrait"@, config.portrait),
        ("upper_body"@, config.upper_body),
        ("cowboy_shot"@, config.cowboy_shot),
        ("full_body_tight"@, config.full_body_tight),
        ("lower_body"@, config.lower_body),
        ("feet"@, config.feet),
    ];
    all.filter(|entry: (Seq<char>, bool)| entry.1).map_values(|entry: (Seq<char>, bool)| entry.0)
}

/// The names of the compositions switched on (see
/// [`enabled_variants_spec`]).
pub fn enabled_smart_crop_variants(config: &SmartCropConfig) -> (variants: Vec<&'static str>)
    ensures
        variants@.map_values(|v: &str| v@) == enabled_variants_spec(*config),
{
    let mut variants: Vec<&'static str> = Vec::new();
    let ghost keep = |entry: (Seq<char>, bool)| entry.1;
    let ghost all = seq![
        ("portrait"@, config.portrait),
        ("upper_body"@, config.upper_body),
        ("cowboy_shot"@, config.cowboy_shot),
        ("full_body_tight"@, config.full_body_tight),
        ("lower_body"@, config.lower_body),
        ("feet"@, config.feet),
    ];
    proof {
        reveal(Seq::filter);
        assert(all.take(0).filter(keep) =~= Seq::<(Seq<char>, bool)>::empty());
    }
    let names: [&'static str; 6] = ["portrait", "upper_body", "cowboy_shot", "full_body_tight", "lower_body", "feet"];
    let flags: [bool; 6] = [config.portrait, config.upper_body, config.cowboy_shot, config.full_body_tight, config.lower_body, config.feet];
    let mut i: usize = 0;
    while i < 6
        invariant
            i <= 6,
            keep == (|entry: (Seq<char>, bool)| entry.1),
            all.len() == 6,
            forall|k: int| 0 <= k < 6 ==> #[trigger] all[k] == (names@[k]@, flags@[k]),
            variants@.map_values(|v: &str| v@) == all.take(i as int).filter(keep).map_values(|entry: (Seq<char>, bool)| entry.0),
        decreases 6 - i,
    {
        let ghost before = all.take(i as int).filter(keep);
        proof {
            assert(all.take(i + 1) =~= all.take(i as int).push(all[i as int]));
            all.take(i as int).lemma_filter_push(all[i as int], keep);
        }
        if flags[i] {
            let ghost old_variants = variants@;
            variants.push(names[i]);
            assert(variants@.map_values(|v: &str| v@) =~= old_variants.map_values(|v: &str| v@).push(
                names@[i as int]@,
            ));
            assert(before.push(all[i as int]).map_values(|entry: (Seq<char>, bool)| entry.0) =~= before.map_values(
                |entry: (Seq<char>, bool)| entry.0,
            ).push(all[i as int].0));
            assert(variants@.map_values(|v: &str| v@) =~= before.push(all[i as int]).map_values(
                |entry: (Seq<char>, bool)| entry.0,
            ));
        } else {
            assert(variants@.map_values(|v: &str| v@) =~= before.map_values(|entry: (Seq<char>, bool)| entry.0));
        }
        i += 1;
    }
    assert(all.take(6) =~= all);
    variants
}

/// Second-pass captioning of derived images.
#[derive(Debug, Clone, Copy, PartialEq, Eq, Structural)]
pub struct DerivedRetaggingConfig {
    pub send_to_vllm: bool,
    pub preserve_artist_character_tags: bool,
}

impl Default for DerivedRetaggingConfig {
    /// Off, and keeping artist and character tags when on.
    fn default() -> (config: Self)
        ensures
            config == (DerivedRetaggingConfig { send_to_vllm: false, preserve_artist_character_tags: true }),
    {
        DerivedRetaggingConfig { send_to_vllm: false, preserve_artist_character_tags: true }
    }
}

// ---------------------------------------------------------------------
// Crop rectangles
// ---------------------------------------------------------------------

/// A crop in source pixels, `[x0, x1) × [y0, y1)`.
#[derive(Debug, Clone, Copy, PartialEq, Eq, Structural)]
pub struct CropRect {
    pub x0: u32,
    pub y0: u32,
    pub x1: u32,
    pub y1: u32,
}

impl CropRect {
    /// Width (0 for an inverted rectangle).
    pub open spec fn width_spec(self) -> int {
        if self.x1 >= self.x0 {
            self.x1 - self.x0
        } else {
            0
        }
    }

    /// Height (0 for an inverted rectangle).
    pub open spec fn height_spec(self) -> int {
        if self.y1 >= self.y0 {
            self.y1 - self.y0
        } else {
            0
        }
    }

    /// `other` lies within this rectangle.
    pub open spec fn contains_spec(self, other: CropRect) -> bool {
        self.x0 <= other.x0 && self.y0 <= other.y0 && self.x1 >= other.x1 && self.y1 >= other.y1
    }

    /// See [`CropRect::width_spec`].
    pub fn width(self) -> (w: u32)
        ensures
            w == self.width_spec(),
    {
        self.x1.saturating_sub(self.x0)
    }

    /// See [`CropRect::height_spec`].
    pub fn height(self) -> (h: u32)
        ensures
            h == self.height_spec(),
    {
        self.y1.saturating_sub(self.y0)
    }

    /// See [`CropRect::contains_spec`].
    pub fn contains(self, other: CropRect) -> (inside: bool)
        ensures
            inside == self.contains_spec(other),
    {
        self.x0 <= other.x0 && self.y0 <= other.y0 && self.x1 >= other.x1 && self.y1 >= other.y1
    }

    /// The smallest rectangle holding both.
    pub fn union(self, other: CropRect) -> (both: CropRect)
        ensures
            both.x0 == if self.x0 <= other.x0 {
                self.x0
            } else {
                other.x0
            },
            both.y0 == if self.y0 <= other.y0 {
                self.y0
            } else {
                other.y0
            },
            both.x1 == if self.x1 >= other.x1 {
                self.x1
            } else {
                other.x1
            },
            both.y1 == if self.y1 >= other.y1 {
                self.y1
            } else {
                other.y1
            },
    {
        CropRect {
            x0: if self.x0 <= other.x0 {
                self.x0
            } else {
                other.x0
            },
            y0: if self.y0 <= other.y0 {
                self.y0
            } else {
                other.y0
            },
            x1: if self.x1 >= other.x1 {
                self.x1
            } else {
                other.x1
            },
            y1: if self.y1 >= other.y1 {
                self.y1
            } else {
                other.y1
            },
        }
    }
}

/// A crop keeps every critical part whole.
pub fn crop_keeps_critical_parts(rect: CropRect, critical: &Vec<CropRect>) -> (keeps: bool)
    ensures
        keeps == forall|i: int| 0 <= i < critical@.len() ==> rect.contains_spec(#[trigger] critical@[i]),
{
    let mut i: usize = 0;
    while i < critical.len()
        invariant
            i <= critical.len(),
            forall|k: int| 0 <= k < i ==> rect.contains_spec(#[trigger] critical@[k]),
        decreases critical.len() - i,
    {
        if !rect.contains(critical[i]) {
            return false;
        }
        i += 1;
    }
    true
}

/// A crop either misses a protected part or holds it whole.
pub open spec fn spares_part(rect: CropRect, part: CropRect) -> bool {
    let overlaps = rect.x0 < part.x1 && rect.x1 > part.x0 && rect.y0 < part.y1 && rect.y1 > part.y0;
    !overlaps || rect.contains_spec(part)
}

/// A crop never cuts through a protected part (see [`spares_part`]).
pub fn crop_does_not_clip_parts(rect: CropRect, protected: &Vec<CropRect>) -> (spares: bool)
    ensures
        spares == forall|i: int| 0 <= i < protected@.len() ==> spares_part(rect, #[trigger] protected@[i]),
{
    let mut i: usize = 0;
    while i < protected.len()
        invariant
            i <= protected.len(),
            forall|k: int| 0 <= k < i ==> spares_part(rect, #[trigger] protected@[k]),
        decreases protected.len() - i,
    {
        let part = protected[i];
        let overlaps = rect.x0 < part.x1 && rect.x1 > part.x0 && rect.y0 < part.y1 && rect.y1 > part.y0;
        if overlaps && !rect.contains(part) {
            return false;
        }
        i += 1;
    }
    true
}

/// The crop grown (around its centre) to at least `minimum` on each side
/// where the image allows, and moved inside the image.
pub open spec fn expanded_to_minimum(rect: CropRect, minimum: u32, width: u32, height: u32) -> CropRect {
    let target_width = min_int(max_int(rect.width_spec(), minimum as int), width as int);
    let target_height = min_int(max_int(rect.height_spec(), minimum as int), height as int);
    let center_x = (rect.x0 + rect.x1) / 2;
    let center_y = (rect.y0 + rect.y1) / 2;
    let x0 = min_int(max_int(center_x - target_width / 2, 0), width - target_width);
    let y0 = min_int(max_int(center_y - target_height / 2, 0), height - target_height);
    CropRect {
        x0: x0 as u32,
        y0: y0 as u32,
        x1: (x0 + target_width) as u32,
        y1: (y0 + target_height) as u32,
    }
}

/// The smaller of two integers.
pub open spec fn min_int(a: int, b: int) -> int {
    if a <= b {
        a
    } else {
        b
    }
}

/// The larger of two integers.
pub open spec fn max_int(a: int, b: int) -> int {
    if a >= b {
        a
    } else {
        b
    }
}

/// See [`expanded_to_minimum`].
pub fn expand_crop_to_minimum_size(rect: CropRect, minimum: u32, width: u32, height: u32) -> (expanded: CropRect)
    ensures
        expanded == expanded_to_minimum(rect, minimum, width, height),
        expanded.x1 <= width,
        expanded.y1 <= height,
{
    let rect_width = rect.width();
    let rect_height = rect.height();
    let grown_width = if rect_width >= minimum {
        rect_width
    } else {
        minimum
    };
    let grown_height = if rect_height >= minimum {
        rect_height
    } else {
        minimum
    };
    let target_width = if grown_width <= width {
        grown_width
    } else {
        width
    };
    let target_height = if grown_height <= height {
        grown_height
    } else {
        height
    };
    let center_x: u64 = (rect.x0 as u64 + rect.x1 as u64) / 2;
    let center_y: u64 = (rect.y0 as u64 + rect.y1 as u64) / 2;
    let half_width = (target_width / 2) as u64;
    let half_height = (target_height / 2) as u64;
    let mut x0: u32 = if center_x >= half_width {
        (center_x - half_width) as u32
    } else {
        0
    };
    let mut y0: u32 = if center_y >= half_height {
        (center_y - half_height) as u32
    } else {
        0
    };
    let room_x = width - target_width;
    let room_y = height - target_height;
    if x0 > room_x {
        x0 = room_x;
    }
    if y0 > room_y {
        y0 = room_y;
    }
    CropRect { x0, y0, x1: x0 + target_width, y1: y0 + target_height }
}

// ---------------------------------------------------------------------
// Families, samples and splits
// ---------------------------------------------------------------------

/// A source image of the dataset.
#[derive(Debug, Clone)]
pub struct DatasetAugmentationSource {
    pub media_id: String,
    pub relative_path: PathBuf,
    pub sha256: Option<String>,
    pub fallback_caption: String,
}

/// A derived sample.
#[derive(Debug, Clone)]
pub struct DatasetAugmentationSample {
    pub source_media_id: String,
    pub sample_id: String,
    pub family_id: String,
    pub variant: String,
    pub output_relative_path: PathBuf,
    pub width: u32,
    pub height: u32,
    pub split: String,
    pub requires_retagging: bool,
}

/// A source that produced no sample, and why.
#[derive(Debug, Clone)]
pub struct DatasetAugmentationRejection {
    pub source_media_id: String,
    pub relative_path: PathBuf,
    pub reason: String,
}

/// What one source produced.
#[derive(Debug, Clone)]
pub enum DatasetAugmentationItemResult {
    Generated(Vec<DatasetAugmentationSample>),
    Rejected(DatasetAugmentationRejection),
}

/// The first 16 hexadecimal digits of the SHA-256 of bytes.
pub open spec fn short_digest_text(bytes: Seq<u8>) -> Seq<char> {
    crate::digest::hex_text(crate::digest::sha256_digest(bytes)).take(16)
}

/// See [`short_digest_text`].
pub fn short_digest(value: &[u8]) -> (digest: String)
    ensures
        digest@ == short_digest_text(value@),
{
    let full = crate::digest::sha256(value);
    let hex = crate::digest::hex_encode(full.as_slice());
    proof {
        crate::digest::lemma_hex_text_len(full@);
    }
    let chars = chars_of(hex.as_str());
    let head = crate::text::slice_chars(&chars, 0, 16);
    assert(head@ =~= chars@.take(16));
    string_from_chars(&head)
}

/// The family of a source: `family_` and the short digest of its content
/// hash, or of its media id where no hash is known.
pub open spec fn family_id_text(media_id: Seq<char>, sha256: Option<Seq<char>>) -> Seq<char> {
    let seed = match sha256 {
        Some(hash) => hash,
        None => media_id,
    };
    "family_"@ + short_digest_text(vstd::utf8::encode_utf8(seed))
}

/// See [`family_id_text`].
pub fn family_id(source: &DatasetAugmentationSource) -> (id: String)
    ensures
        id@ == family_id_text(source.media_id@, crate::danbooru_client::opt_string(source.sha256)),
{
    let seed = match &source.sha256 {
        Some(hash) => hash.as_str(),
        None => source.media_id.as_str(),
    };
    let digest = short_digest(seed.as_bytes());
    let mut text = chars_of("family_");
    append_chars(&mut text, &chars_of(digest.as_str()));
    string_from_chars(&text)
}

/// The split a family's percentage point falls in.
pub open spec fn split_name(point: int, test_percent: u8, validation_percent: u8) -> Seq<char> {
    if point < test_percent {
        "test"@
    } else if point < test_percent + validation_percent {
        "validation"@
    } else {
        "train"@
    }
}

/// The split of a family: the first byte of the SHA-256 of its id, modulo
/// 100, against the test and validation percentages.
pub open spec fn family_split(family_id: Seq<char>, test_percent: u8, validation_percent: u8) -> Seq<char> {
    split_name(
        (crate::digest::sha256_digest(vstd::utf8::encode_utf8(family_id))[0] % 100) as int,
        test_percent,
        validation_percent,
    )
}

/// See [`family_split`].
pub fn split_for_family(family_id: &str, test_percent: u8, validation_percent: u8) -> (split: String)
    requires
        test_percent + validation_percent <= 255,
    ensures
        split@ == family_split(family_id@, test_percent, validation_percent),
{
    let digest = crate::digest::sha256(family_id.as_bytes());
    let point = digest[0] % 100;
    if point < test_percent {
        owned("test")
    } else if point < test_percent + validation_percent {
        owned("validation")
    } else {
        owned("train")
    }
}

/// Every sample of a family falls in the same split: the split depends only
/// on the family id and the percentages.
pub proof fn law_family_split_is_stable(family_id: Seq<char>, test_percent: u8, validation_percent: u8, other: Seq<char>)
    requires
        other == family_id,
    ensures
        family_split(family_id, test_percent, validation_percent) == family_split(other, test_percent, validation_percent),
        family_split(family_id, test_percent, validation_percent) == "test"@ || family_split(
            family_id,
            test_percent,
            validation_percent,
        ) == "validation"@ || family_split(family_id, test_percent, validation_percent) == "train"@,
{
}

/// The characters of a media id kept in a sample token: ASCII letters and
/// digits, at most 64.
pub open spec fn token_text(media_id: Seq<char>) -> Seq<char> {
    let kept = media_id.filter(|c: char| ('a' <= c && c <= 'z') || ('A' <= c && c <= 'Z') || ('0' <= c && c <= '9'));
    kept.take(
        if kept.len() < 64 {
            kept.len() as int
        } else {
            64
        },
    )
}

/// The text `Path::to_string_lossy` gives for a path.
pub uninterp spec fn path_lossy_text(path: PathBuf) -> Seq<char>;

/// The path of a source as text.
///
/// Trusted: wraps `Path::to_string_lossy`; the contract claims only that
/// the text is a function of the path, named [`path_lossy_text`].
#[verifier::external_body]
fn path_text(path: &PathBuf) -> (text: String)
    ensures
        text@ == path_lossy_text(*path),
{
    path.to_string_lossy().into_owned()
}

/// The token that names the samples of a source: its media id's letters
/// and digits (at most 64), or, when it has none, the short digest of its
/// path.
pub fn source_token(source: &DatasetAugmentationSource) -> (token: String)
    ensures
        token_text(source.media_id@).len() > 0 ==> token@ == token_text(source.media_id@),
        token_text(source.media_id@).len() == 0 ==> token@ == short_digest_text(
            vstd::utf8::encode_utf8(path_lossy_text(source.relative_path)),
        ),
{
    let chars = chars_of(source.media_id.as_str());
    let ghost keep = |c: char| ('a' <= c && c <= 'z') || ('A' <= c && c <= 'Z') || ('0' <= c && c <= '9');
    let mut kept: Vec<char> = Vec::new();
    let mut i: usize = 0;
    proof {
        reveal(Seq::filter);
        assert(chars@.take(0).filter(keep) =~= Seq::<char>::empty());
    }
    while i < chars.len()
        invariant
            i <= chars.len(),
            keep == (|c: char| ('a' <= c && c <= 'z') || ('A' <= c && c <= 'Z') || ('0' <= c && c <= '9')),
            kept@ == chars@.take(i as int).filter(keep),
        decreases chars.len() - i,
    {
        let c = chars[i];
        proof {
            assert(chars@.take(i + 1) =~= chars@.take(i as int).push(c));
            chars@.take(i as int).lemma_filter_push(c, keep);
        }
        if ('a' <= c && c <= 'z') || ('A' <= c && c <= 'Z') || ('0' <= c && c <= '9') {
            kept.push(c);
        }
        i += 1;
    }
    assert(chars@.take(chars.len() as int) =~= chars@);
    if kept.len() == 0 {
        let text = path_text(&source.relative_path);
        let digest = short_digest(text.as_str().as_bytes());
        return digest;
    }
    let keep_count = if kept.len() < 64 {
        kept.len()
    } else {
        64
    };
    let token = crate::text::slice_chars(&kept, 0, keep_count);
    assert(token@ =~= kept@.take(keep_count as int));
    string_from_chars(&token)
}

/// The id of a sample: the source token and the composition.
pub fn sample_id(token: &str, variant: &str) -> (id: String)
    ensures
        id@ == token@ + "_"@ + variant@,
{
    let mut text = chars_of(token);
    append_chars(&mut text, &chars_of("_"));
    append_chars(&mut text, &chars_of(variant));
    string_from_chars(&text)
}

/// The characters of a task id kept in an output directory name: ASCII
/// letters, digits and `-`, at most 96.
pub open spec fn safe_task_text(task_id: Seq<char>) -> Seq<char> {
    let kept = task_id.filter(
        |c: char| ('a' <= c && c <= 'z') || ('A' <= c && c <= 'Z') || ('0' <= c && c <= '9') || c == '-',
    );
    kept.take(
        if kept.len() < 96 {
            kept.len() as int
        } else {
            96
        },
    )
}

/// The directory name an augmentation task writes to (see
/// [`safe_task_text`]); a task id with none of those characters is refused.
pub fn safe_task_id(task_id: &str) -> (result: Result<String, ToolError>)
    ensures
        match result {
            Ok(name) => name@ == safe_task_text(task_id@) && name@.len() > 0,
            Err(e) => safe_task_text(task_id@).len() == 0 && invalid_manifest(e, "任务 ID 无效"@),
        },
{
    let chars = chars_of(task_id);
    let ghost keep = |c: char| ('a' <= c && c <= 'z') || ('A' <= c && c <= 'Z') || ('0' <= c && c <= '9') || c == '-';
    let mut kept: Vec<char> = Vec::new();
    let mut i: usize = 0;
    proof {
        reveal(Seq::filter);
        assert(chars@.take(0).filter(keep) =~= Seq::<char>::empty());
    }
    while i < chars.len()
        invariant
            i <= chars.len(),
            keep == (|c: char| ('a' <= c && c <= 'z') || ('A' <= c && c <= 'Z') || ('0' <= c && c <= '9') || c == '-'),
            kept@ == chars@.take(i as int).filter(keep),
        decreases chars.len() - i,
    {
        let c = chars[i];
        proof {
            assert(chars@.take(i + 1) =~= chars@.take(i as int).push(c));
            chars@.take(i as int).lemma_filter_push(c, keep);
        }
        if ('a' <= c && c <= 'z') || ('A' <= c && c <= 'Z') || ('0' <= c && c <= '9') || c == '-' {
            kept.push(c);
        }
        i += 1;
    }
    assert(chars@.take(chars.len() as int) =~= chars@);
    let keep_count = if kept.len() < 96 {
        kept.len()
    } else {
        96
    };
    let name = crate::text::slice_chars(&kept, 0, keep_count);
    assert(name@ =~= kept@.take(keep_count as int));
    if name.len() == 0 {
        return Err(ToolError::InvalidManifest(owned("任务 ID 无效")));
    }
    Ok(string_from_chars(&name))
}

/// The directory name of the `attempt`-th try (1 to 100): the name itself,
/// then the name with `-2`, `-3`, ….
pub fn attempt_directory_name(name: &str, attempt: u32) -> (directory: String)
    requires
        1 <= attempt <= 100,
    ensures
        directory@ == if attempt == 1 {
            name@
        } else {
            name@ + "-"@ + crate::text::decimal(attempt as nat)
        },
{
    let mut text = chars_of(name);
    if attempt != 1 {
        append_chars(&mut text, &chars_of("-"));
        append_chars(&mut text, &crate::text::u64_to_chars(attempt as u64));
    }
    string_from_chars(&text)
}

/// The directory name of the `attempt`-th try (see
/// [`attempt_directory_name`]).
pub open spec fn attempt_name(name: Seq<char>, attempt: u32) -> Seq<char> {
    if attempt == 1 {
        name
    } else {
        name + "-"@ + crate::text::decimal(attempt as nat)
    }
}

/// Name of the directory, beside an image output directory, that holds the
/// augmentation's metadata.
pub const AUGMENTATION_METADATA_DIR: &'static str = ".augmentation-metadata";

/// How many directory names an augmentation task tries.
pub const AUGMENTATION_DIRECTORY_ATTEMPTS: u32 = 100;

fn copy_components(components: &Vec<String>, count: usize) -> (copy: Vec<String>)
    requires
        count <= components.len(),
    ensures
        string_views(copy@) == string_views(components@.subrange(0, count as int)),
{
    let mut copy: Vec<String> = Vec::new();
    let mut index: usize = 0;
    while index < count
        invariant
            index <= count <= components.len(),
            string_views(copy@) == string_views(components@.subrange(0, index as int)),
        decreases count - index,
    {
        let ghost before = copy@;
        copy.push(crate::text::copy_string(&components[index]));
        proof {
            assert(string_views(copy@) =~= string_views(before).push(components@[index as int]@));
            assert(components@.subrange(0, index + 1) =~= components@.subrange(0, index as int).push(
                components@[index as int],
            ));
            assert(string_views(components@.subrange(0, index + 1)) =~= string_views(
                components@.subrange(0, index as int),
            ).push(components@[index as int]@));
        }
        index += 1;
    }
    copy
}

/// The metadata directory of an image output directory given by its path
/// components: `.augmentation-metadata` in the output directory's parent.
/// An empty path has no parent and is refused.
pub fn augmentation_metadata_directory(image_output_root: &Vec<String>) -> (result: Result<
    Vec<String>,
    ToolError,
>)
    ensures
        match result {
            Ok(metadata) => image_output_root.len() > 0 && string_views(metadata@) == string_views(
                image_output_root@,
            ).drop_last().push(".augmentation-metadata"@),
            Err(e) => image_output_root.len() == 0 && invalid_manifest(
                e,
                "增广输出目录必须位于原数据目录的 .augmentation 子目录"@,
            ),
        },
{
    if image_output_root.len() == 0 {
        return Err(
            ToolError::InvalidManifest(owned("增广输出目录必须位于原数据目录的 .augmentation 子目录")),
        );
    }
    let mut metadata = copy_components(image_output_root, image_output_root.len() - 1);
    metadata.push(owned(AUGMENTATION_METADATA_DIR));
    assert(string_views(image_output_root@).drop_last() =~= string_views(
        image_output_root@.subrange(0, image_output_root.len() - 1),
    ));
    assert(string_views(metadata@) =~= string_views(image_output_root@).drop_last().push(
        ".augmentation-metadata"@,
    ));
    Ok(metadata)
}

/// The image and metadata directories an augmentation task tries on its
/// `attempt`-th go (1 to 100), given the requested image output directory
/// by its components: the task's directory name (see
/// [`attempt_directory_name`]) inside the output directory and inside its
/// metadata directory.  A task id with no usable character, or an empty
/// output directory, is refused.
pub fn augmentation_directories_for_attempt(
    requested: &Vec<String>,
    task_id: &str,
    attempt: u32,
) -> (result: Result<(Vec<String>, Vec<String>), ToolError>)
    requires
        1 <= attempt <= 100,
    ensures
        match result {
            Ok((image, metadata)) => {
                let name = attempt_name(safe_task_text(task_id@), attempt);
                &&& safe_task_text(task_id@).len() > 0
                &&& requested.len() > 0
                &&& string_views(image@) == string_views(requested@).push(name)
                &&& string_views(metadata@) == string_views(requested@).drop_last().push(
                    ".augmentation-metadata"@,
                ).push(name)
            },
            Err(e) => if safe_task_text(task_id@).len() == 0 {
                invalid_manifest(e, "任务 ID 无效"@)
            } else {
                requested.len() == 0 && invalid_manifest(
                    e,
                    "增广输出目录必须位于原数据目录的 .augmentation 子目录"@,
                )
            },
        },
{
    let safe = match safe_task_id(task_id) {
        Ok(name) => name,
        Err(e) => return Err(e),
    };
    let name = attempt_directory_name(safe.as_str(), attempt);
    let mut metadata = match augmentation_metadata_directory(requested) {
        Ok(directory) => directory,
        Err(e) => return Err(e),
    };
    let mut image = copy_components(requested, requested.len());
    assert(requested@.subrange(0, requested.len() as int) =~= requested@);
    let ghost image_before = string_views(image@);
    let ghost metadata_before = string_views(metadata@);
    image.push(name.clone());
    metadata.push(name);
    assert(string_views(image@) =~= image_before.push(attempt_name(safe_task_text(task_id@), attempt)));
    assert(string_views(metadata@) =~= metadata_before.push(attempt_name(safe_task_text(task_id@), attempt)));
    Ok((image, metadata))
}

/// The error once every directory name an augmentation task may use is
/// taken.
pub fn no_free_augmentation_directory() -> (error: ToolError)
    ensures
        invalid_manifest(error, "无法创建新的数据集输出目录，请选择其他目录"@),
{
    ToolError::InvalidManifest(owned("无法创建新的数据集输出目录，请选择其他目录"))
}

/// Why a source image is not augmented, if it is not: more than 100
/// megapixels, fewer than the minimum (`meets_megapixels` tells whether it
/// has enough), or a long or short side below its threshold.
pub open spec fn source_rejection_spec(
    width: u32,
    height: u32,
    meets_megapixels: bool,
    min_long_side: u32,
    min_short_side: u32,
) -> Option<Seq<char>> {
    if width * height > 100000000 {
        Some("图片像素数超过安全上限"@)
    } else if !meets_megapixels {
        Some("图片未达到最小像素数门槛"@)
    } else if max_int(width as int, height as int) < min_long_side {
        Some("图片未达到最小长边门槛"@)
    } else if min_int(width as int, height as int) < min_short_side {
        Some("图片未达到原生短边门槛"@)
    } else {
        None
    }
}

/// See [`source_rejection_spec`].
pub fn source_rejection_reason(
    width: u32,
    height: u32,
    meets_megapixels: bool,
    min_long_side: u32,
    min_short_side: u32,
) -> (reason: Option<String>)
    ensures
        crate::danbooru_client::opt_string(reason) == source_rejection_spec(
            width,
            height,
            meets_megapixels,
            min_long_side,
            min_short_side,
        ),
{
    assert(width as u64 * height as u64 <= 0xffff_ffff * 0xffff_ffff) by (nonlinear_arith)
        requires
            width <= 0xffff_ffff,
            height <= 0xffff_ffff,
    ;
    let pixels = width as u64 * height as u64;
    if pixels > 100000000 {
        return Some(owned("图片像素数超过安全上限"));
    }
    if !meets_megapixels {
        return Some(owned("图片未达到最小像素数门槛"));
    }
    let long_side = if width >= height {
        width
    } else {
        height
    };
    let short_side = if width <= height {
        width
    } else {
        height
    };
    if long_side < min_long_side {
        return Some(owned("图片未达到最小长边门槛"));
    }
    if short_side < min_short_side {
        return Some(owned("图片未达到原生短边门槛"));
    }
    None
}

/// The message of the first integer setting an augmentation refuses, if
/// any: the output directory must be a relative path of normal components,
/// the megapixel minimum in range (`megapixels_in_range`), both side
/// thresholds in 1..=100000, the split percentages summing to 100, the
/// JPEG quality in 1..=100, and the smart-crop settings valid.
pub open spec fn augmentation_problem(
    output_directory: Seq<char>,
    megapixels_in_range: bool,
    min_long_side: u32,
    min_short_side: u32,
    train_percent: u8,
    validation_percent: u8,
    test_percent: u8,
    jpeg_quality: u8,
    smart_crop: SmartCropConfig,
) -> Option<Seq<char>> {
    if crate::image_processor::relative_components(output_directory) is None {
        Some("输出目录必须是媒体根内的规范相对路径"@)
    } else if !megapixels_in_range {
        Some("最小像素数必须在 0.1..=1000 MP 之间"@)
    } else if !(1 <= min_long_side <= 100000) || !(1 <= min_short_side <= 100000) {
        Some("原生分辨率门槛必须在 1..=100000 之间"@)
    } else if train_percent + validation_percent + test_percent != 100 {
        Some("训练、验证和测试集比例之和必须为 100"@)
    } else if !(1 <= jpeg_quality <= 100) {
        Some("JPEG 质量必须在 1..=100 之间"@)
    } else {
        smart_crop_problem(smart_crop)
    }
}

/// Checks the settings of an augmentation run (see
/// [`augmentation_problem`]).
pub fn validate_augmentation_settings(
    output_directory: &str,
    megapixels_in_range: bool,
    min_long_side: u32,
    min_short_side: u32,
    train_percent: u8,
    validation_percent: u8,
    test_percent: u8,
    jpeg_quality: u8,
    smart_crop: &SmartCropConfig,
) -> (result: Result<(), String>)
    ensures
        match (
            result,
            augmentation_problem(
                output_directory@,
                megapixels_in_range,
                min_long_side,
                min_short_side,
                train_percent,
                validation_percent,
                test_percent,
                jpeg_quality,
                *smart_crop,
            ),
        ) {
            (Ok(()), None) => true,
            (Err(message), Some(expected)) => message@ == expected,
            _ => false,
        },
{
    match crate::image_processor::validate_relative_path(output_directory) {
        Err(_) => {
            return Err(owned("输出目录必须是媒体根内的规范相对路径"));
        },
        Ok(_) => {},
    }
    if !megapixels_in_range {
        return Err(owned("最小像素数必须在 0.1..=1000 MP 之间"));
    }
    if !(1 <= min_long_side && min_long_side <= 100000) || !(1 <= min_short_side && min_short_side <= 100000) {
        return Err(owned("原生分辨率门槛必须在 1..=100000 之间"));
    }
    if train_percent as u32 + validation_percent as u32 + test_percent as u32 != 100 {
        return Err(owned("训练、验证和测试集比例之和必须为 100"));
    }
    if !(1 <= jpeg_quality && jpeg_quality <= 100) {
        return Err(owned("JPEG 质量必须在 1..=100 之间"));
    }
    smart_crop.validate()
}

/// Checks the caption written for a derived sample before it is promoted
/// into the training splits: it must hold more than whitespace.
pub fn check_retagged_caption(content: &str, sample_id: &str) -> (result: Result<(), ToolError>)
    ensures
        match result {
            Ok(()) => trim_spec(content@).len() > 0,
            Err(e) => trim_spec(content@).len() == 0 && invalid_manifest(e, "重新打标结果为空，不能加入训练: "@ + sample_id@),
        },
{
    let chars = chars_of(content);
    let (start, end) = crate::text::trim_bounds(&chars, 0, chars.len());
    assert(chars@.subrange(0, chars@.len() as int) =~= chars@);
    if start == end {
        let mut text = chars_of("重新打标结果为空，不能加入训练: ");
        append_chars(&mut text, &chars_of(sample_id));
        return Err(ToolError::InvalidManifest(string_from_chars(&text)));
    }
    Ok(())
}

} // verus!
