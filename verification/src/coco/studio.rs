//! The decisions of COCO import into and export from EdgeFirst Studio:
//! options, merging of annotation files, naming of samples and groups,
//! and the conversion of COCO images to Studio samples.

use vstd::prelude::*;
use crate::coco::reader::{
    append_annotations, append_new_categories, append_new_images, append_new_licenses,
    category_key, ids_distinct_by, image_key, is_name_listed, lemma_merged_by_id, license_key,
    merged_by_id, name_listed,
};
use crate::coco::convert::{coco_segmentation_to_mask, segmentation_decodable, segmentation_mask_outcome};
use crate::coco::types::{
    category_ids, image_ids, license_ids, CocoAnnotation, CocoCategory, CocoDataset, CocoImage,
    CocoInfo, CocoLicense, CocoSegmentation,
};
use crate::dataset::{Annotation, Label, PixelBox, Sample, SampleFile};
use crate::error::Error;
use crate::text::{chars_from, chars_of, is_prefix, same_chars, starts_with, string_from_chars};
use crate::path::{
    file_name, file_name_of, file_stem, file_stem_of, sample_name, sample_name_from_filename, stem_of,
    stem_of_name,
};

verus! {

/// The outcome of a COCO import.
#[derive(Clone, Debug)]
pub struct CocoImportResult {
    /// Images in the COCO dataset.
    pub total_images: usize,
    /// Images already in Studio, left alone.
    pub skipped: usize,
    /// Images imported now.
    pub imported: usize,
}

/// Options for importing COCO into Studio.
#[derive(Clone, Debug)]
pub struct CocoImportOptions {
    /// Include segmentation masks.
    pub include_masks: bool,
    /// Upload the images too.
    pub include_images: bool,
    /// Only import images of this group.
    pub group: Option<String>,
    /// Samples per API call.
    pub batch_size: usize,
    /// Maximum concurrent uploads.
    pub concurrency: usize,
    /// Skip samples that are already in the dataset.
    pub resume: bool,
}

impl Default for CocoImportOptions {
    fn default() -> (o: Self)
        ensures
            o.include_masks,
            o.include_images,
            o.group is None,
            o.batch_size == 100,
            o.concurrency == 64,
            o.resume,
    {
        CocoImportOptions {
            include_masks: true,
            include_images: true,
            group: None,
            batch_size: 100,
            concurrency: 64,
            resume: true,
        }
    }
}

/// Options for exporting Studio to COCO.
#[derive(Clone, Debug)]
pub struct CocoExportOptions {
    /// Only export these groups (none listed: all).
    pub groups: Vec<String>,
    /// Include segmentation masks.
    pub include_masks: bool,
    /// Download the images into the archive.
    pub include_images: bool,
    /// Write a ZIP archive rather than JSON alone.
    pub output_zip: bool,
    /// Pretty-print the JSON.
    pub pretty_json: bool,
    /// The `info` section to write.
    pub info: Option<CocoInfo>,
}

impl Default for CocoExportOptions {
    fn default() -> (o: Self)
        ensures
            o.groups@.len() == 0,
            o.include_masks,
            !o.include_images,
            !o.output_zip,
            !o.pretty_json,
            o.info is None,
    {
        CocoExportOptions {
            groups: Vec::new(),
            include_masks: true,
            include_images: false,
            output_zip: false,
            pretty_json: false,
            info: None,
        }
    }
}

/// Options for verifying a COCO import.
#[derive(Clone, Debug)]
pub struct CocoVerifyOptions {
    /// Verify segmentation masks too.
    pub verify_masks: bool,
    /// Only verify this group.
    pub group: Option<String>,
}

impl Default for CocoVerifyOptions {
    fn default() -> (o: Self)
        ensures
            o.verify_masks,
            o.group is None,
    {
        CocoVerifyOptions { verify_masks: true, group: None }
    }
}

/// The outcome of updating annotations from COCO.
#[derive(Clone, Debug)]
pub struct CocoUpdateResult {
    /// Images in the COCO dataset.
    pub total_images: usize,
    /// Samples that received the new annotations.
    pub updated: usize,
    /// COCO images with no sample in Studio.
    pub not_found: usize,
}

/// Options for updating annotations of existing samples.
#[derive(Clone, Debug)]
pub struct CocoUpdateOptions {
    /// Include segmentation masks.
    pub include_masks: bool,
    /// Only match samples of this group.
    pub group: Option<String>,
    /// Samples per API call.
    pub batch_size: usize,
    /// Maximum concurrent operations.
    pub concurrency: usize,
}

impl Default for CocoUpdateOptions {
    fn default() -> (o: Self)
        ensures
            o.include_masks,
            o.group is None,
            o.batch_size == 100,
            o.concurrency == 64,
    {
        CocoUpdateOptions { include_masks: true, group: None, batch_size: 100, concurrency: 64 }
    }
}

/// Merge the dataset of another annotation file into `target`: images,
/// categories and licenses whose id is already in `target` are left out,
/// annotations are all appended, and `target` takes the source's `info`
/// when it has no description and the source has one.
pub fn merge_coco_datasets(target: &mut CocoDataset, source: CocoDataset)
    ensures
        final(target).images@ == merged_by_id(old(target).images@, source.images@, image_key()),
        final(target).categories@ == merged_by_id(
            old(target).categories@,
            source.categories@,
            category_key(),
        ),
        final(target).annotations@ == old(target).annotations@ + source.annotations@,
        final(target).licenses@ == merged_by_id(old(target).licenses@, source.licenses@, license_key()),
        final(target).info == (if old(target).info.description is None
            && source.info.description is Some {
            source.info
        } else {
            old(target).info
        }),
        ids_distinct_by(old(target).images@, image_key()) && ids_distinct_by(
            source.images@,
            image_key(),
        ) ==> ids_distinct_by(final(target).images@, image_key()),
        ids_distinct_by(old(target).categories@, category_key()) && ids_distinct_by(
            source.categories@,
            category_key(),
        ) ==> ids_distinct_by(final(target).categories@, category_key()),
        image_ids(final(target).images@).to_set() == image_ids(old(target).images@).to_set().union(
            image_ids(source.images@).to_set(),
        ),
        category_ids(final(target).categories@).to_set() == category_ids(
            old(target).categories@,
        ).to_set().union(category_ids(source.categories@).to_set()),
{
    let ghost t0 = *target;
    let CocoDataset { info, images, annotations, categories, licenses } = source;
    append_new_images(&mut target.images, images);
    append_new_categories(&mut target.categories, categories);
    append_annotations(&mut target.annotations, annotations);
    append_new_licenses(&mut target.licenses, licenses);
    if target.info.description.is_none() && info.description.is_some() {
        target.info = info;
    }
    proof {
        lemma_merged_by_id(t0.images@, source.images@, image_key());
        lemma_merged_by_id(t0.categories@, source.categories@, category_key());
        assert(image_ids(target.images@) =~= target.images@.map_values(image_key()));
        assert(image_ids(t0.images@) =~= t0.images@.map_values(image_key()));
        assert(image_ids(source.images@) =~= source.images@.map_values(image_key()));
        assert(category_ids(target.categories@) =~= target.categories@.map_values(category_key()));
        assert(category_ids(t0.categories@) =~= t0.categories@.map_values(category_key()));
        assert(category_ids(source.categories@) =~= source.categories@.map_values(category_key()));
    }
}

/// The folders under an images folder where a COCO image is looked for,
/// in order: the folder itself, then `images`, `train2017`, `val2017`,
/// `test2017`, `train2014` and `val2014`.
pub open spec fn image_search_folders() -> Seq<Seq<char>> {
    seq![
        Seq::<char>::empty(),
        "images"@,
        "train2017"@,
        "val2017"@,
        "test2017"@,
        "train2014"@,
        "val2014"@,
    ]
}

/// The folders where a COCO image is looked for (see
/// [`image_search_folders`]).
pub fn image_search_dirs() -> (r: Vec<String>)
    ensures
        r@.map_values(|t: String| t@) == image_search_folders(),
{
    let mut r: Vec<String> = Vec::new();
    r.push(String::new());
    r.push(String::from_str("images"));
    r.push(String::from_str("train2017"));
    r.push(String::from_str("val2017"));
    r.push(String::from_str("test2017"));
    r.push(String::from_str("train2014"));
    r.push(String::from_str("val2014"));
    proof {
        let v = r@.map_values(|t: String| t@);
        assert(v.len() == 7);
        assert(v[0] =~= Seq::<char>::empty());
        assert(v =~= image_search_folders());
    }
    r
}

/// How many of a dataset's images an import checks on disk before it
/// starts: the first five, or all when there are fewer.
pub fn images_to_check(count: usize) -> (n: usize)
    ensures
        n == (if count < 5 {
            count
        } else {
            5
        }),
{
    if count < 5 {
        count
    } else {
        5
    }
}

/// The operations that read a COCO path.
#[derive(Clone, Copy, Debug, PartialEq, Eq, Structural)]
pub enum CocoOperation {
    Import,
    Update,
    Verify,
}

/// What a COCO path names: a folder of annotation files, or one JSON
/// annotation file.
#[derive(Clone, Copy, Debug, PartialEq, Eq, Structural)]
pub enum CocoSource {
    Folder,
    JsonFile,
}

/// Whether the file name of `p` has the extension `ext` (the text after
/// its last `.`, when that `.` is not its first character).
pub open spec fn has_extension(p: Seq<char>, ext: Seq<char>) -> bool {
    match file_name(p) {
        Some(n) => stem_of_name(n).len() < n.len() && n.skip(stem_of_name(n).len() + 1int) == ext,
        None => false,
    }
}

/// The message for a COCO path that is neither a folder nor a JSON file.
pub open spec fn coco_source_message(op: CocoOperation) -> Seq<char> {
    match op {
        CocoOperation::Import => "COCO import requires a JSON annotation file or directory. ZIP archives must be extracted first."@,
        CocoOperation::Update => "COCO update requires a JSON annotation file or directory."@,
        CocoOperation::Verify => "COCO verification requires a JSON annotation file or directory."@,
    }
}

/// What a COCO path names for `op`: a folder when it is one, else a JSON
/// file when its extension is `json`; anything else is refused.
pub fn coco_source(is_dir: bool, path: &str, op: CocoOperation) -> (r: Result<CocoSource, Error>)
    ensures
        is_dir ==> r == Ok::<CocoSource, Error>(CocoSource::Folder),
        !is_dir && has_extension(path@, "json"@) ==> r == Ok::<CocoSource, Error>(CocoSource::JsonFile),
        !is_dir && !has_extension(path@, "json"@) ==> (r matches Err(Error::InvalidParameters(m)) && m@
            == coco_source_message(op)),
{
    if is_dir {
        return Ok(CocoSource::Folder);
    }
    let p = chars_of(path);
    let json = match file_name_of(&p) {
        Some(n) => {
            let stem = stem_of(&n);
            if stem.len() < n.len() {
                let ext = chars_from(&n, stem.len() + 1);
                let want = chars_of("json");
                same_chars(&ext, &want)
            } else {
                false
            }
        },
        None => false,
    };
    if json {
        Ok(CocoSource::JsonFile)
    } else {
        let m = match op {
            CocoOperation::Import => String::from_str(
                "COCO import requires a JSON annotation file or directory. ZIP archives must be extracted first.",
            ),
            CocoOperation::Update => String::from_str("COCO update requires a JSON annotation file or directory."),
            CocoOperation::Verify => String::from_str(
                "COCO verification requires a JSON annotation file or directory.",
            ),
        };
        Err(Error::InvalidParameters(m))
    }
}

/// An import or update needs images: a dataset without any is refused.
pub fn require_images(image_count: usize) -> (r: Result<(), Error>)
    ensures
        image_count > 0 ==> r is Ok,
        image_count == 0 ==> (r matches Err(Error::MissingAnnotations(m)) && m@
            == "No images found in COCO dataset"@),
{
    if image_count == 0 {
        Err(Error::MissingAnnotations(String::from_str("No images found in COCO dataset")))
    } else {
        Ok(())
    }
}

/// The id of the last server label named `name` (later labels of one name
/// replace earlier ones).
pub open spec fn label_id_named(labels: Seq<Label>, name: Seq<char>) -> Option<u64>
    decreases labels.len(),
{
    if labels.len() == 0 {
        None
    } else if labels.last().name@ == name {
        Some(labels.last().id)
    } else {
        label_id_named(labels.drop_last(), name)
    }
}

/// The name an update gives the label of a COCO category: the category's
/// name, or `unknown` when the dataset has no category with this id.
pub open spec fn category_label_name(d: CocoDataset, category_id: u64) -> Seq<char> {
    match category_position(d.categories@, category_id) {
        Some(i) => d.categories@[i].name@,
        None => "unknown"@,
    }
}

/// The label name and server label id an update gives an annotation of
/// category `category_id`.
pub fn server_annotation_label(index: &CocoIndex, labels: &Vec<Label>, category_id: u64) -> (r: (String, Option<u64>))
    ensures
        r.0@ == category_label_name(index@, category_id),
        r.1 == label_id_named(labels@, category_label_name(index@, category_id)),
{
    let name = match index.label_name(category_id) {
        Some(n) => String::from_str(n),
        None => String::from_str("unknown"),
    };
    let mut id: Option<u64> = None;
    let mut i: usize = 0;
    while i < labels.len()
        invariant
            i <= labels.len(),
            name@ == category_label_name(index@, category_id),
            id == label_id_named(labels@.take(i as int), name@),
        decreases labels.len() - i,
    {
        assert(labels@.take(i + 1).drop_last() =~= labels@.take(i as int));
        if labels[i].name == name {
            id = Some(labels[i].id);
        }
        i = i + 1;
    }
    assert(labels@.take(labels.len() as int) =~= labels@);
    (name, id)
}

/// Whether a character beyond ASCII is numeric in Unicode's sense (the
/// general categories for numbers).
pub uninterp spec fn numeric_beyond_ascii(c: char) -> bool;

/// Whether `c` is numeric (`char::is_numeric`): among ASCII characters the
/// digits `0`-`9`, beyond ASCII the Unicode number categories.
pub open spec fn char_is_numeric(c: char) -> bool {
    if (c as u32) < 128 {
        '0' <= c <= '9'
    } else {
        numeric_beyond_ascii(c)
    }
}

/// Decides whether `c` is numeric (std `char::is_numeric`: the Unicode
/// general categories for numbers). Stated: among ASCII characters it holds
/// of the digits `0`-`9` only; beyond ASCII the result is named, and which
/// characters it holds of there is left unsaid.
#[verifier::external_body]
fn is_numeric(c: char) -> (b: bool)
    ensures
        b == char_is_numeric(c),
        (c as u32) >= 128 ==> b == numeric_beyond_ascii(c),
{
    c.is_numeric()
}

/// `s` without its trailing numeric characters.
pub open spec fn trim_numeric_end(s: Seq<char>) -> Seq<char>
    decreases s.len(),
{
    if s.len() > 0 && char_is_numeric(s.last()) {
        trim_numeric_end(s.drop_last())
    } else {
        s
    }
}

/// The group an annotation file stem names: what follows `instances_`
/// without its year digits, else the first of `train`, `val`, `test` and
/// `validation` that starts the stem.
pub open spec fn group_from_stem(stem: Seq<char>) -> Option<Seq<char>> {
    let rest = stem.skip("instances_"@.len() as int);
    if is_prefix("instances_"@, stem) && trim_numeric_end(rest).len() > 0 {
        Some(trim_numeric_end(rest))
    } else if is_prefix("train"@, stem) {
        Some("train"@)
    } else if is_prefix("val"@, stem) {
        Some("val"@)
    } else if is_prefix("test"@, stem) {
        Some("test"@)
    } else if is_prefix("validation"@, stem) {
        Some("validation"@)
    } else {
        None
    }
}

/// The group words: a stem that does not start with `instances_` but
/// starts with `train`, `val` or `test` names that group (a stem starting
/// with `validation` starts with `val`); a stem starting with `instances_`
/// names what follows it without its year digits, when anything is left; a
/// stem that starts with none of these names no group.
pub proof fn lemma_group_words(stem: Seq<char>)
    ensures
        !is_prefix("instances_"@, stem) && is_prefix("train"@, stem) ==> group_from_stem(stem) == Some("train"@),
        !is_prefix("instances_"@, stem) && is_prefix("val"@, stem) ==> group_from_stem(stem) == Some("val"@),
        !is_prefix("instances_"@, stem) && is_prefix("test"@, stem) ==> group_from_stem(stem) == Some("test"@),
        !is_prefix("instances_"@, stem) && is_prefix("validation"@, stem) ==> group_from_stem(stem) == Some(
            "val"@,
        ),
        is_prefix("instances_"@, stem) && trim_numeric_end(stem.skip(10)).len() > 0 ==> group_from_stem(stem)
            == Some(trim_numeric_end(stem.skip(10))),
        !is_prefix("train"@, stem) && !is_prefix("val"@, stem) && !is_prefix("test"@, stem) && (
        !is_prefix("instances_"@, stem) || trim_numeric_end(stem.skip(10)).len() == 0) ==> group_from_stem(stem)
            is None,
{
    reveal_strlit("instances_");
    reveal_strlit("train");
    reveal_strlit("val");
    reveal_strlit("test");
    reveal_strlit("validation");
    if is_prefix("train"@, stem) {
        assert(stem[1] == stem.take(5)[1]);
        assert(stem[0] == stem.take(5)[0]);
        assert(!is_prefix("test"@, stem)) by {
            if is_prefix("test"@, stem) {
                assert(stem[1] == stem.take(4)[1]);
            }
        }
        assert(!is_prefix("val"@, stem)) by {
            if is_prefix("val"@, stem) {
                assert(stem[0] == stem.take(3)[0]);
            }
        }
    }
    if is_prefix("test"@, stem) {
        assert(stem[0] == stem.take(4)[0]);
        assert(!is_prefix("val"@, stem)) by {
            if is_prefix("val"@, stem) {
                assert(stem[0] == stem.take(3)[0]);
            }
        }
        assert(!is_prefix("train"@, stem)) by {
            if is_prefix("train"@, stem) {
                assert(stem[1] == stem.take(5)[1]);
                assert(stem[1] == stem.take(4)[1]);
            }
        }
    }
    if is_prefix("val"@, stem) {
        assert(stem[0] == stem.take(3)[0]);
        assert(!is_prefix("train"@, stem)) by {
            if is_prefix("train"@, stem) {
                assert(stem[0] == stem.take(5)[0]);
            }
        }
        assert(!is_prefix("test"@, stem)) by {
            if is_prefix("test"@, stem) {
                assert(stem[0] == stem.take(4)[0]);
            }
        }
    }
    if is_prefix("validation"@, stem) {
        assert(stem.take(3) =~= stem.take(10).take(3));
        assert("validation"@.take(3) =~= "val"@);
        assert(is_prefix("val"@, stem));
    }
}

/// The group an annotation file's path names, if any.
pub open spec fn group_from_path(path: Seq<char>) -> Option<Seq<char>> {
    match file_stem(path) {
        Some(stem) => group_from_stem(stem),
        None => None,
    }
}

/// `s` without its trailing numeric characters.
fn trim_numeric(s: &Vec<char>) -> (r: Vec<char>)
    ensures
        r@ == trim_numeric_end(s@),
{
    let mut n: usize = s.len();
    assert(s@.take(n as int) =~= s@);
    while n > 0 && is_numeric(s[n - 1])
        invariant
            n <= s.len(),
            trim_numeric_end(s@.take(n as int)) == trim_numeric_end(s@),
        decreases n,
    {
        assert(s@.take(n as int).drop_last() =~= s@.take(n - 1));
        n = n - 1;
    }
    let mut r: Vec<char> = Vec::new();
    let mut k: usize = 0;
    while k < n
        invariant
            k <= n <= s.len(),
            r@ == s@.take(k as int),
        decreases n - k,
    {
        r.push(s[k]);
        assert(s@.take(k as int).push(s@[k as int]) =~= s@.take(k + 1));
        k = k + 1;
    }
    proof {
        assert(r@ =~= s@.take(n as int));
        if n > 0 {
            assert(s@.take(n as int).last() == s@[n - 1]);
        }
    }
    r
}

/// Returns `Some(word)` when `word` starts `stem`.
fn prefix_group(stem: &Vec<char>, word: &str) -> (r: Option<String>)
    ensures
        r matches Some(g) ==> is_prefix(word@, stem@) && g@ == word@,
        r is None ==> !is_prefix(word@, stem@),
{
    let w = chars_of(word);
    if starts_with(stem, &w) {
        Some(string_from_chars(&w))
    } else {
        None
    }
}

/// Infer the group (such as `train` or `val`) from the name of a COCO
/// annotation file: `instances_train2017.json` gives `train`.
pub fn infer_group_from_filename(path: &str) -> (r: Option<String>)
    ensures
        r matches Some(g) ==> group_from_path(path@) == Some(g@),
        r is None ==> group_from_path(path@) is None,
        file_stem(path@) is None ==> r is None,
        file_stem(path@) is Some && !is_prefix("instances_"@, file_stem(path@)->0) && is_prefix(
            "train"@,
            file_stem(path@)->0,
        ) ==> (r matches Some(g) && g@ == "train"@),
        file_stem(path@) is Some && !is_prefix("instances_"@, file_stem(path@)->0) && is_prefix(
            "val"@,
            file_stem(path@)->0,
        ) ==> (r matches Some(g) && g@ == "val"@),
        file_stem(path@) is Some && !is_prefix("instances_"@, file_stem(path@)->0) && is_prefix(
            "test"@,
            file_stem(path@)->0,
        ) ==> (r matches Some(g) && g@ == "test"@),
        file_stem(path@) is Some && is_prefix("instances_"@, file_stem(path@)->0) && trim_numeric_end(
            (file_stem(path@)->0).skip(10),
        ).len() > 0 ==> (r matches Some(g) && g@ == trim_numeric_end((file_stem(path@)->0).skip(10))),
{
    proof {
        if let Some(stem) = file_stem(path@) {
            lemma_group_words(stem);
        }
    }
    let p = chars_of(path);
    let stem = match file_stem_of(&p) {
        Some(s) => s,
        None => {
            return None;
        },
    };
    let prefix = chars_of("instances_");
    if starts_with(&stem, &prefix) {
        let rest = crate::text::chars_from(&stem, prefix.len());
        let group = trim_numeric(&rest);
        if group.len() > 0 {
            return Some(string_from_chars(&group));
        }
    }
    let r = prefix_group(&stem, "train");
    if r.is_some() {
        return r;
    }
    let r = prefix_group(&stem, "val");
    if r.is_some() {
        return r;
    }
    let r = prefix_group(&stem, "test");
    if r.is_some() {
        return r;
    }
    prefix_group(&stem, "validation")
}

/// The position of the first category with id `id`, if any.
pub open spec fn category_position(cats: Seq<CocoCategory>, id: u64) -> Option<int> {
    if exists|i: int| 0 <= i < cats.len() && #[trigger] cats[i].id == id {
        Some(choose|i: int| 0 <= i < cats.len() && #[trigger] cats[i].id == id && forall|k: int|
            0 <= k < i ==> cats[k].id != id)
    } else {
        None
    }
}

/// Lookups into a COCO dataset: the annotations of an image and the
/// label of a category.
#[derive(Clone, Copy, Debug)]
pub struct CocoIndex<'a> {
    dataset: &'a CocoDataset,
}

impl<'a> View for CocoIndex<'a> {
    type V = CocoDataset;

    closed spec fn view(&self) -> CocoDataset {
        *self.dataset
    }
}

impl<'a> CocoIndex<'a> {
    /// An index over `dataset`.
    pub fn from_dataset(dataset: &'a CocoDataset) -> (r: CocoIndex<'a>)
        ensures
            r@ == *dataset,
    {
        CocoIndex { dataset }
    }

    /// The annotations of the image with id `image_id`, in dataset order.
    pub fn annotations_for_image(&self, image_id: u64) -> (r: Vec<&'a CocoAnnotation>)
        ensures
            r@.map_values(|a: &CocoAnnotation| *a) == self@.annotations@.filter(
                |a: CocoAnnotation| a.image_id == image_id,
            ),
    {
        let anns = &self.dataset.annotations;
        let ghost pred = |a: CocoAnnotation| a.image_id == image_id;
        let mut r: Vec<&'a CocoAnnotation> = Vec::new();
        let mut i: usize = 0;
        while i < anns.len()
            invariant
                anns@ == self@.annotations@,
                i <= anns.len(),
                pred == (|a: CocoAnnotation| a.image_id == image_id),
                r@.map_values(|a: &CocoAnnotation| *a) == anns@.take(i as int).filter(pred),
            decreases anns.len() - i,
        {
            proof {
                reveal_with_fuel(Seq::<_>::filter, 1);
                assert(anns@.take(i + 1).drop_last() =~= anns@.take(i as int));
            }
            let ghost before = r@.map_values(|a: &CocoAnnotation| *a);
            if anns[i].image_id == image_id {
                r.push(&anns[i]);
                assert(r@.map_values(|a: &CocoAnnotation| *a) =~= before.push(anns@[i as int]));
            }
            i = i + 1;
        }
        assert(anns@.take(anns.len() as int) =~= anns@);
        r
    }

    /// The position of the first category with id `category_id`.
    fn category_at(&self, category_id: u64) -> (r: Option<usize>)
        ensures
            r matches Some(i) ==> i < self@.categories@.len() && category_position(
                self@.categories@,
                category_id,
            ) == Some(i as int),
            r is None ==> category_position(self@.categories@, category_id) is None,
    {
        let cats = &self.dataset.categories;
        let mut i: usize = 0;
        while i < cats.len()
            invariant
                cats@ == self@.categories@,
                i <= cats.len(),
                forall|k: int| 0 <= k < i ==> cats@[k].id != category_id,
            decreases cats.len() - i,
        {
            if cats[i].id == category_id {
                proof {
                    let j = choose|j: int| 0 <= j < cats@.len() && #[trigger] cats@[j].id == category_id
                        && forall|k: int| 0 <= k < j ==> cats@[k].id != category_id;
                    assert(0 <= j < cats@.len() && cats@[j].id == category_id && forall|k: int|
                        0 <= k < j ==> cats@[k].id != category_id) by {
                        assert(cats@[i as int].id == category_id);
                    }
                    if j < i {
                        assert(cats@[j].id != category_id);
                    }
                    if j > i {
                        assert(cats@[i as int].id != category_id);
                    }
                }
                return Some(i);
            }
            i = i + 1;
        }
        None
    }

    /// The first category with id `category_id`.
    pub fn category(&self, category_id: u64) -> (r: Option<&'a CocoCategory>)
        ensures
            match category_position(self@.categories@, category_id) {
                Some(i) => r == Some(&self@.categories@[i]),
                None => r is None,
            },
    {
        match self.category_at(category_id) {
            Some(i) => Some(&self.dataset.categories[i]),
            None => None,
        }
    }

    /// The name of the first category with id `category_id`.
    pub fn label_name(&self, category_id: u64) -> (r: Option<&'a str>)
        ensures
            match category_position(self@.categories@, category_id) {
                Some(i) => r matches Some(n) && n@ == self@.categories@[i].name@,
                None => r is None,
            },
    {
        match self.category_at(category_id) {
            Some(i) => Some(self.dataset.categories[i].name.as_str()),
            None => None,
        }
    }

    /// The label index of a category: its id, when the dataset has it.
    pub fn label_index(&self, category_id: u64) -> (r: Option<u64>)
        ensures
            r == (if category_position(self@.categories@, category_id) is Some {
                Some(category_id)
            } else {
                None::<u64>
            }),
    {
        match self.category_at(category_id) {
            Some(_) => Some(category_id),
            None => None,
        }
    }
}

/// The annotations of `image` whose category the dataset has.
pub open spec fn labelled_annotations(d: CocoDataset, image: CocoImage) -> Seq<CocoAnnotation> {
    d.annotations@.filter(|a: CocoAnnotation| a.image_id == image.id).filter(
        |a: CocoAnnotation| category_position(d.categories@, a.category_id) is Some,
    )
}

proof fn lemma_mask_outcome_exclusive(
    seg: CocoSegmentation,
    w: u32,
    h: u32,
    e: Error,
    m: crate::dataset::PixelMask,
)
    requires
        segmentation_mask_outcome(Err(e), seg, w, h),
    ensures
        !segmentation_mask_outcome(Ok(m), seg, w, h),
{
}

proof fn lemma_member_decodable(s: Seq<CocoAnnotation>, id: u64, i: int)
    requires
        0 <= i < s.filter(|a: CocoAnnotation| a.image_id == id).len(),
        forall|j: int|
            0 <= j < s.len() && s[j].image_id == id ==> match #[trigger] s[j].segmentation {
                Some(seg) => segmentation_decodable(seg),
                None => true,
            },
    ensures
        match s.filter(|a: CocoAnnotation| a.image_id == id)[i].segmentation {
            Some(seg) => segmentation_decodable(seg),
            None => true,
        },
{
    let pred = |a: CocoAnnotation| a.image_id == id;
    let f = s.filter(pred);
    s.lemma_filter_pred(pred, i);
    assert(f.contains(f[i]));
    s.lemma_filter_contains_rev(pred, f[i]);
    let j = choose|j: int| 0 <= j < s.len() && s[j] == f[i];
    assert(s[j].image_id == id);
}

/// Whether `s` holds the characters `t`, either both absent or both
/// present.
pub open spec fn same_text(s: Option<String>, t: Option<Seq<char>>) -> bool {
    match (s, t) {
        (Some(a), Some(b)) => a@ == b,
        (None, None) => true,
        _ => false,
    }
}

/// Whether `out` is the sample annotation made of COCO annotation `a` of
/// `image`: named after the sample, labelled by its category, boxed by its
/// pixel box, and masked by its segmentation when masks are included and
/// the segmentation decodes.
pub open spec fn annotation_made_of(
    out: Annotation,
    a: CocoAnnotation,
    d: CocoDataset,
    image: CocoImage,
    include_masks: bool,
    group: Option<Seq<char>>,
) -> bool {
    &&& same_text(out.name, Some(sample_name(image.file_name@)))
    &&& same_text(out.label, Some(d.categories@[category_position(d.categories@, a.category_id)->0].name@))
    &&& out.label_index == Some(a.category_id)
    &&& same_text(out.group, group)
    &&& out.box2d == Some(PixelBox { bbox: a.bbox, image_width: image.width, image_height: image.height })
    &&& if include_masks && a.segmentation is Some {
        match out.mask {
            Some(m) => segmentation_mask_outcome(Ok(m), a.segmentation->0, image.width, image.height),
            None => !(exists|m: crate::dataset::PixelMask| segmentation_mask_outcome(
                Ok(m),
                a.segmentation->0,
                image.width,
                image.height,
            )),
        }
    } else {
        out.mask is None
    }
}

/// Copies an optional text.
fn text_of(s: Option<&str>) -> (r: Option<String>)
    ensures
        same_text(r, match s {
            Some(t) => Some(t@),
            None => None,
        }),
{
    match s {
        Some(t) => Some(t.to_owned()),
        None => None,
    }
}

/// The sample annotation made of COCO annotation `a`.
fn convert_annotation(
    a: &CocoAnnotation,
    index: &CocoIndex,
    image: &CocoImage,
    name: &String,
    include_masks: bool,
    group: Option<&str>,
) -> (r: Option<Annotation>)
    requires
        name@ == sample_name(image.file_name@),
        include_masks ==> (a.segmentation matches Some(seg) ==> segmentation_decodable(seg)),
    ensures
        match r {
            Some(out) => category_position(index@.categories@, a.category_id) is Some
                && annotation_made_of(out, *a, index@, *image, include_masks, match group {
                Some(g) => Some(g@),
                None => None,
            }),
            None => category_position(index@.categories@, a.category_id) is None,
        },
{
    let label = match index.label_name(a.category_id) {
        Some(l) => l,
        None => {
            return None;
        },
    };
    let label_index = index.label_index(a.category_id);
    let box2d = PixelBox { bbox: a.bbox, image_width: image.width, image_height: image.height };
    let mask = if include_masks {
        match &a.segmentation {
            Some(seg) => match coco_segmentation_to_mask(seg, image.width, image.height) {
                Ok(m) => Some(m),
                Err(e) => {
                    proof {
                        assert forall|m: crate::dataset::PixelMask| !segmentation_mask_outcome(
                            Ok(m),
                            *seg,
                            image.width,
                            image.height,
                        ) by {
                            lemma_mask_outcome_exclusive(*seg, image.width, image.height, e, m);
                        }
                    }
                    None
                },
            },
            None => None,
        }
    } else {
        None
    };
    let mut out = Annotation::new();
    out.name = Some(name.clone());
    out.label = Some(label.to_owned());
    out.label_index = label_index;
    out.box2d = Some(box2d);
    out.mask = mask;
    out.group = text_of(group);
    Some(out)
}

/// Build the sample of a COCO image: named after the image file's stem,
/// with the image's size, the given group, the image file when one was
/// found, and one annotation for each of the image's annotations whose
/// category the dataset has.
pub fn convert_coco_image_to_sample(
    image: &CocoImage,
    index: &CocoIndex,
    image_file: Option<String>,
    include_masks: bool,
    group: Option<&str>,
) -> (r: Result<Sample, Error>)
    requires
        include_masks ==> forall|i: int|
            0 <= i < index@.annotations@.len() && index@.annotations@[i].image_id == image.id
                ==> match #[trigger] index@.annotations@[i].segmentation {
                Some(seg) => segmentation_decodable(seg),
                None => true,
            },
    ensures
        r matches Ok(s) && {
            &&& same_text(s.image_name, Some(sample_name(image.file_name@)))
            &&& s.width == Some(image.width)
            &&& s.height == Some(image.height)
            &&& same_text(s.group, match group {
                Some(g) => Some(g@),
                None => None,
            })
            &&& match image_file {
                Some(f) => s.files@.len() == 1 && s.files@[0] == SampleFile {
                    file_type: s.files@[0].file_type,
                    filename: Some(f),
                } && s.files@[0].file_type@ == "image"@,
                None => s.files@.len() == 0,
            }
            &&& s.annotations@.len() == labelled_annotations(index@, *image).len()
            &&& forall|k: int|
                0 <= k < s.annotations@.len() ==> annotation_made_of(
                    #[trigger] s.annotations@[k],
                    labelled_annotations(index@, *image)[k],
                    index@,
                    *image,
                    include_masks,
                    match group {
                        Some(g) => Some(g@),
                        None => None,
                    },
                )
        },
{
    let name = sample_name_from_filename(image.file_name.as_str());
    let anns = index.annotations_for_image(image.id);
    let ghost all = anns@.map_values(|a: &CocoAnnotation| *a);
    let ghost keep = |a: CocoAnnotation| category_position(index@.categories@, a.category_id) is Some;
    let ghost g = match group {
        Some(g) => Some(g@),
        None => None::<Seq<char>>,
    };
    let mut annotations: Vec<Annotation> = Vec::new();
    let mut i: usize = 0;
    while i < anns.len()
        invariant
            i <= anns.len(),
            all == anns@.map_values(|a: &CocoAnnotation| *a),
            all == index@.annotations@.filter(|a: CocoAnnotation| a.image_id == image.id),
            keep == (|a: CocoAnnotation| category_position(index@.categories@, a.category_id) is Some),
            name@ == sample_name(image.file_name@),
            g == (match group {
                Some(g) => Some(g@),
                None => None::<Seq<char>>,
            }),
            include_masks ==> forall|j: int|
                0 <= j < index@.annotations@.len() && index@.annotations@[j].image_id == image.id
                    ==> match #[trigger] index@.annotations@[j].segmentation {
                    Some(seg) => segmentation_decodable(seg),
                    None => true,
                },
            annotations@.len() == all.take(i as int).filter(keep).len(),
            forall|k: int|
                0 <= k < annotations@.len() ==> annotation_made_of(
                    #[trigger] annotations@[k],
                    all.take(i as int).filter(keep)[k],
                    index@,
                    *image,
                    include_masks,
                    g,
                ),
        decreases anns.len() - i,
    {
        proof {
            reveal_with_fuel(Seq::<_>::filter, 1);
            assert(all.take(i + 1).drop_last() =~= all.take(i as int));
            assert(all[i as int] == *anns@[i as int]);
            if include_masks {
                lemma_member_decodable(index@.annotations@, image.id, i as int);
            }
        }
        let a = anns[i];
        match convert_annotation(a, index, image, &name, include_masks, group) {
            Some(out) => {
                let ghost before = annotations@;
                annotations.push(out);
                assert(all.take(i + 1).filter(keep) =~= all.take(i as int).filter(keep).push(*a));
            },
            None => {
                assert(all.take(i + 1).filter(keep) =~= all.take(i as int).filter(keep));
            },
        }
        i = i + 1;
    }
    assert(all.take(anns.len() as int) =~= all);
    let mut files: Vec<SampleFile> = Vec::new();
    match image_file {
        Some(f) => {
            files.push(SampleFile::with_filename(String::from_str("image"), f));
        },
        None => {},
    }
    Ok(
        Sample {
            image_name: Some(name),
            width: Some(image.width),
            height: Some(image.height),
            group: text_of(group),
            files,
            annotations,
        },
    )
}

/// Whether `c` occurs in `s`.
pub open spec fn has_char(s: Seq<char>, c: char) -> bool {
    exists|i: int| 0 <= i < s.len() && s[i] == c
}

/// The file name of an image read from a group's annotation file: a bare
/// name is placed in the group's `{group}2017/` folder, a name with a
/// folder is kept.
pub open spec fn group_folder_name(file_name: Seq<char>, group: Seq<char>) -> Seq<char> {
    if has_char(file_name, '/') {
        file_name
    } else {
        group + "2017/"@ + file_name
    }
}

/// Decides whether `c` occurs in `s`.
fn contains_char(s: &Vec<char>, c: char) -> (b: bool)
    ensures
        b == has_char(s@, c),
{
    let mut i: usize = 0;
    while i < s.len()
        invariant
            i <= s.len(),
            forall|k: int| 0 <= k < i ==> s@[k] != c,
        decreases s.len() - i,
    {
        if s[i] == c {
            return true;
        }
        i = i + 1;
    }
    false
}

/// Place a bare image file name in its group's folder.
pub fn group_folder_file_name(file_name: &str, group: &str) -> (r: String)
    ensures
        r@ == group_folder_name(file_name@, group@),
{
    if contains_char(&chars_of(file_name), '/') {
        return file_name.to_owned();
    }
    let mut out = group.to_owned();
    out.append("2017/");
    out.append(file_name);
    out
}

/// The COCO file name of a Studio sample: its image name (`unknown` when
/// it has none), with `.jpg` added when the name has no `.`.
pub open spec fn studio_file_name(image_name: Option<Seq<char>>) -> Seq<char> {
    let name = match image_name {
        Some(n) => n,
        None => "unknown"@,
    };
    if has_char(name, '.') {
        name
    } else {
        name + ".jpg"@
    }
}

/// The COCO file name for a Studio sample's image name.
pub fn sample_file_name(image_name: Option<&str>) -> (r: String)
    ensures
        r@ == studio_file_name(
            match image_name {
                Some(n) => Some(n@),
                None => None,
            },
        ),
{
    let name = match image_name {
        Some(n) => n.to_owned(),
        None => String::from_str("unknown"),
    };
    if contains_char(&chars_of(name.as_str()), '.') {
        return name;
    }
    let mut out = name;
    out.append(".jpg");
    out
}

/// The names of `a` missing from `b`, each once, in the order of their
/// first occurrence in `a`.
pub fn names_missing_from(a: &Vec<String>, b: &Vec<String>) -> (r: Vec<String>)
    ensures
        forall|k: int| 0 <= k < r@.len() ==> name_listed(a@, #[trigger] r@[k]@) && !name_listed(b@, r@[k]@),
        forall|i: int| 0 <= i < a@.len() && !name_listed(b@, a@[i]@) ==> name_listed(r@, #[trigger] a@[i]@),
        forall|k: int, l: int| 0 <= k < l < r@.len() ==> #[trigger] r@[k]@ != #[trigger] r@[l]@,
{
    let mut r: Vec<String> = Vec::new();
    let mut i: usize = 0;
    while i < a.len()
        invariant
            i <= a.len(),
            forall|k: int| 0 <= k < r@.len() ==> name_listed(a@, #[trigger] r@[k]@) && !name_listed(b@, r@[k]@),
            forall|j: int| 0 <= j < i && !name_listed(b@, a@[j]@) ==> name_listed(r@, #[trigger] a@[j]@),
            forall|k: int, l: int| 0 <= k < l < r@.len() ==> #[trigger] r@[k]@ != #[trigger] r@[l]@,
        decreases a.len() - i,
    {
        let n = &a[i];
        if !is_name_listed(b, n) && !is_name_listed(&r, n) {
            let ghost before = r@;
            r.push(n.clone());
            proof {
                assert(r@[r@.len() - 1]@ == a@[i as int]@);
                assert(name_listed(a@, a@[i as int]@));
                assert forall|j: int| 0 <= j <= i && !name_listed(b@, a@[j]@) implies name_listed(r@, #[trigger] a@[j]@) by {
                    if j < i {
                        let q = choose|q: int| 0 <= q < before.len() && #[trigger] before[q]@ == a@[j]@;
                        assert(r@[q] == before[q]);
                    }
                }
                assert forall|k: int| 0 <= k < r@.len() implies name_listed(a@, #[trigger] r@[k]@) && !name_listed(b@, r@[k]@) by {
                    if k < before.len() {
                        assert(r@[k] == before[k]);
                    }
                }
                assert forall|k: int, l: int| 0 <= k < l < r@.len() implies #[trigger] r@[k]@ != #[trigger] r@[l]@ by {
                    if l == before.len() {
                        assert(r@[k] == before[k]);
                    } else {
                        assert(r@[k] == before[k]);
                        assert(r@[l] == before[l]);
                    }
                }
            }
        }
        i = i + 1;
    }
    r
}

/// The names of `categories` that are not among `existing` labels, in
/// category order.
pub fn missing_label_names(categories: &Vec<CocoCategory>, existing: &Vec<String>) -> (r: Vec<String>)
    ensures
        r@.map_values(|n: String| n@) == categories@.filter(|c: CocoCategory| !name_listed(existing@, c.name@)).map_values(
            |c: CocoCategory| c.name@,
        ),
{
    let ghost pred = |c: CocoCategory| !name_listed(existing@, c.name@);
    let ghost f = |c: CocoCategory| c.name@;
    let mut r: Vec<String> = Vec::new();
    let mut i: usize = 0;
    while i < categories.len()
        invariant
            i <= categories.len(),
            pred == (|c: CocoCategory| !name_listed(existing@, c.name@)),
            f == (|c: CocoCategory| c.name@),
            r@.map_values(|n: String| n@) == categories@.take(i as int).filter(pred).map_values(f),
        decreases categories.len() - i,
    {
        proof {
            reveal_with_fuel(Seq::<_>::filter, 1);
            assert(categories@.take(i + 1).drop_last() =~= categories@.take(i as int));
        }
        let ghost before = r@.map_values(|n: String| n@);
        if !is_name_listed(existing, &categories[i].name) {
            r.push(categories[i].name.clone());
            assert(r@.map_values(|n: String| n@) =~= before.push(categories@[i as int].name@));
            assert(categories@.take(i + 1).filter(pred) =~= categories@.take(i as int).filter(pred).push(categories@[i as int]));
        } else {
            assert(categories@.take(i + 1).filter(pred) =~= categories@.take(i as int).filter(pred));
        }
        i = i + 1;
    }
    assert(categories@.take(categories.len() as int) =~= categories@);
    r
}

/// The annotation types an update replaces: boxes, and masks when they
/// are included.
pub fn annotation_types(include_masks: bool) -> (r: Vec<String>)
    ensures
        include_masks ==> r@.len() == 2 && r@[0]@ == "box"@ && r@[1]@ == "seg"@,
        !include_masks ==> r@.len() == 1 && r@[0]@ == "box"@,
{
    let mut r: Vec<String> = Vec::new();
    r.push(String::from_str("box"));
    if include_masks {
        r.push(String::from_str("seg"));
    }
    r
}

/// Which images of a COCO dataset an import uploads, and why the others
/// are left out.
#[derive(Clone, Debug)]
pub struct ImportSelection {
    /// Positions of the images to import, in dataset order.
    pub to_import: Vec<usize>,
    /// Images outside the requested group.
    pub filtered_by_group: usize,
    /// Images of the requested group already in the dataset.
    pub skipped: usize,
}

/// Whether image `i` belongs to the requested group (any image does when
/// no group is requested); `groups[i]` is the group its folder names.
pub open spec fn in_requested_group(groups: Seq<Option<String>>, filter: Option<Seq<char>>, i: int) -> bool {
    match filter {
        None => true,
        Some(f) => groups[i] matches Some(g) && g@ == f,
    }
}

/// Whether image `i` is already in the dataset: a sample has its name.
pub open spec fn already_imported(images: Seq<CocoImage>, existing: Seq<String>, i: int) -> bool {
    name_listed(existing, sample_name(images[i].file_name@))
}

/// Whether image `i` is imported.
pub open spec fn selected_for_import(
    images: Seq<CocoImage>,
    existing: Seq<String>,
    groups: Seq<Option<String>>,
    filter: Option<Seq<char>>,
    i: int,
) -> bool {
    in_requested_group(groups, filter, i) && !already_imported(images, existing, i)
}

/// The number of positions below `n` that satisfy `p`.
pub open spec fn count_below(n: int, p: spec_fn(int) -> bool) -> nat
    decreases n,
{
    if n <= 0 {
        0
    } else {
        count_below(n - 1, p) + if p(n - 1) {
            1nat
        } else {
            0nat
        }
    }
}

/// Decides whether an image's group is the requested one.
fn group_matches(group: &Option<String>, filter: Option<&str>) -> (b: bool)
    ensures
        b == match filter {
            None => true,
            Some(f) => group matches Some(g) && g@ == f@,
        },
{
    match filter {
        None => true,
        Some(f) => match group {
            Some(g) => same_chars(&chars_of(g.as_str()), &chars_of(f)),
            None => false,
        },
    }
}

/// Choose the images an import uploads (`import_coco_to_studio`): those of
/// the requested group whose sample is not already in the dataset, with
/// the counts of the images left out. `image_groups[i]` is the group the
/// folder of image `i` names.
pub fn select_images_for_import(
    images: &Vec<CocoImage>,
    existing_names: &Vec<String>,
    group_filter: Option<&str>,
    image_groups: &Vec<Option<String>>,
) -> (r: ImportSelection)
    requires
        image_groups.len() == images.len(),
    ensures
        ({
            let filter = match group_filter {
                Some(f) => Some(f@),
                None => None,
            };
            &&& forall|k: int| 0 <= k < r.to_import@.len() ==> #[trigger] r.to_import@[k] < images@.len()
                && selected_for_import(images@, existing_names@, image_groups@, filter, r.to_import@[k] as int)
            &&& forall|k: int, l: int| 0 <= k < l < r.to_import@.len() ==> #[trigger] r.to_import@[k] < #[trigger] r.to_import@[l]
            &&& forall|i: int| 0 <= i < images@.len() && #[trigger] selected_for_import(images@, existing_names@, image_groups@, filter, i)
                ==> r.to_import@.contains(i as usize)
            &&& r.filtered_by_group == count_below(images@.len() as int, |i: int| !in_requested_group(image_groups@, filter, i))
            &&& r.skipped == count_below(images@.len() as int, |i: int| in_requested_group(image_groups@, filter, i)
                && already_imported(images@, existing_names@, i))
            &&& r.skipped + r.filtered_by_group + r.to_import@.len() == images@.len()
        }),
{
    let ghost filter = match group_filter {
        Some(f) => Some(f@),
        None => None::<Seq<char>>,
    };
    let ghost out_group = |i: int| !in_requested_group(image_groups@, filter, i);
    let ghost dup = |i: int| in_requested_group(image_groups@, filter, i) && already_imported(images@, existing_names@, i);
    let mut to_import: Vec<usize> = Vec::new();
    let mut filtered: usize = 0;
    let mut skipped: usize = 0;
    let mut i: usize = 0;
    while i < images.len()
        invariant
            i <= images.len(),
            image_groups.len() == images.len(),
            filter == (match group_filter {
                Some(f) => Some(f@),
                None => None::<Seq<char>>,
            }),
            out_group == (|i: int| !in_requested_group(image_groups@, filter, i)),
            dup == (|i: int| in_requested_group(image_groups@, filter, i) && already_imported(images@, existing_names@, i)),
            forall|k: int| 0 <= k < to_import@.len() ==> #[trigger] to_import@[k] < i
                && selected_for_import(images@, existing_names@, image_groups@, filter, to_import@[k] as int),
            forall|k: int, l: int| 0 <= k < l < to_import@.len() ==> #[trigger] to_import@[k] < #[trigger] to_import@[l],
            forall|j: int| 0 <= j < i && #[trigger] selected_for_import(images@, existing_names@, image_groups@, filter, j)
                ==> to_import@.contains(j as usize),
            filtered == count_below(i as int, out_group),
            skipped == count_below(i as int, dup),
            filtered + skipped + to_import@.len() == i,
        decreases images.len() - i,
    {
        let in_group = group_matches(&image_groups[i], group_filter);
        if !in_group {
            filtered = filtered + 1;
        } else {
            let name = sample_name_from_filename(images[i].file_name.as_str());
            if is_name_listed(existing_names, &name) {
                skipped = skipped + 1;
            } else {
                let ghost before = to_import@;
                to_import.push(i);
                proof {
                    assert forall|j: int| 0 <= j < i + 1 && #[trigger] selected_for_import(images@, existing_names@, image_groups@, filter, j)
                        implies to_import@.contains(j as usize) by {
                        if j == i {
                            assert(to_import@[to_import@.len() - 1] == i);
                        } else {
                            let q = choose|q: int| 0 <= q < before.len() && before[q] == j as usize;
                            assert(to_import@[q] == j as usize);
                        }
                    }
                }
            }
        }
        proof {
            assert(count_below(i + 1, out_group) == count_below(i as int, out_group) + if out_group(i as int) { 1nat } else { 0nat });
            assert(count_below(i + 1, dup) == count_below(i as int, dup) + if dup(i as int) { 1nat } else { 0nat });
        }
        i = i + 1;
    }
    ImportSelection { to_import, filtered_by_group: filtered, skipped }
}

/// The position of the last sample named `n`, if any (a later sample of
/// the same name replaces an earlier one in the lookup).
pub open spec fn last_named(names: Seq<String>, n: Seq<char>) -> Option<int>
    decreases names.len(),
{
    if names.len() == 0 {
        None
    } else if names.last()@ == n {
        Some(names.len() - 1)
    } else {
        last_named(names.drop_last(), n)
    }
}

/// Whether an optional group has the text `g`.
pub open spec fn group_is(group: Option<String>, g: Seq<char>) -> bool {
    group matches Some(x) && x@ == g
}

/// The update decided for the first `k` COCO images: the matched
/// (image, sample) positions, the number of images without a sample, and
/// the (sample, group) changes for matched samples whose group differs
/// from the group expected for the image.
pub open spec fn update_plan_upto(
    images: Seq<CocoImage>,
    names: Seq<String>,
    groups: Seq<Option<String>>,
    expected: Seq<Option<String>>,
    k: int,
) -> (Seq<(usize, usize)>, nat, Seq<(usize, Seq<char>)>)
    decreases k,
{
    if k <= 0 {
        (Seq::empty(), 0, Seq::empty())
    } else {
        let (matched, missing, regroup) = update_plan_upto(images, names, groups, expected, k - 1);
        let i = k - 1;
        match last_named(names, sample_name(images[i].file_name@)) {
            None => (matched, missing + 1, regroup),
            Some(j) => (
                matched.push((i as usize, j as usize)),
                missing,
                match expected[i] {
                    Some(e) => if group_is(groups[j], e@) {
                        regroup
                    } else {
                        regroup.push((j as usize, e@))
                    },
                    None => regroup,
                },
            ),
        }
    }
}

/// What an annotation update does with the COCO images.
#[derive(Clone, Debug)]
pub struct UpdatePlan {
    /// (image position, sample position) of each image with a sample.
    pub matched: Vec<(usize, usize)>,
    /// Images with no sample.
    pub not_found: usize,
    /// (sample position, group) of each sample to move to another group.
    pub group_updates: Vec<(usize, String)>,
}

/// Finds the last sample with the given name.
fn find_last_named(names: &Vec<String>, n: &String) -> (r: Option<usize>)
    ensures
        match last_named(names@, n@) {
            Some(j) => r == Some(j as usize),
            None => r is None,
        },
{
    let mut k: usize = names.len();
    assert(names@.take(k as int) =~= names@);
    while k > 0
        invariant
            k <= names.len(),
            last_named(names@, n@) == last_named(names@.take(k as int), n@),
        decreases k,
    {
        assert(names@.take(k as int).last() == names@[k - 1]);
        assert(names@.take(k as int).drop_last() =~= names@.take(k - 1));
        if same_chars(&chars_of(names[k - 1].as_str()), &chars_of(n.as_str())) {
            return Some(k - 1);
        }
        k = k - 1;
    }
    None
}

/// Decide what updating annotations from COCO does (`update_coco_annotations`):
/// match each COCO image to the sample of the same name, count the images
/// without one, and list the samples whose group differs from the group
/// expected for their image. `expected_groups[i]` is the group the folder
/// of image `i` names.
pub fn plan_annotation_update(
    images: &Vec<CocoImage>,
    sample_names: &Vec<String>,
    sample_groups: &Vec<Option<String>>,
    expected_groups: &Vec<Option<String>>,
) -> (r: UpdatePlan)
    requires
        sample_groups.len() == sample_names.len(),
        expected_groups.len() == images.len(),
    ensures
        ({
            let (matched, missing, regroup) = update_plan_upto(
                images@,
                sample_names@,
                sample_groups@,
                expected_groups@,
                images@.len() as int,
            );
            &&& r.matched@ == matched
            &&& r.not_found == missing
            &&& r.group_updates@.map_values(|u: (usize, String)| (u.0, u.1@)) == regroup
        }),
{
    let mut matched: Vec<(usize, usize)> = Vec::new();
    let mut not_found: usize = 0;
    let mut group_updates: Vec<(usize, String)> = Vec::new();
    let mut i: usize = 0;
    while i < images.len()
        invariant
            i <= images.len(),
            sample_groups.len() == sample_names.len(),
            expected_groups.len() == images.len(),
            not_found <= i,
            ({
                let (m, miss, rg) = update_plan_upto(images@, sample_names@, sample_groups@, expected_groups@, i as int);
                &&& matched@ == m
                &&& not_found == miss
                &&& group_updates@.map_values(|u: (usize, String)| (u.0, u.1@)) == rg
            }),
        decreases images.len() - i,
    {
        let name = sample_name_from_filename(images[i].file_name.as_str());
        match find_last_named(sample_names, &name) {
            None => {
                not_found = not_found + 1;
            },
            Some(j) => {
                proof {
                    lemma_last_named_in_range(sample_names@, name@);
                }
                matched.push((i, j));
                match &expected_groups[i] {
                    Some(e) => {
                        let same = match &sample_groups[j] {
                            Some(g) => same_chars(&chars_of(g.as_str()), &chars_of(e.as_str())),
                            None => false,
                        };
                        if !same {
                            let ghost before = group_updates@.map_values(|u: (usize, String)| (u.0, u.1@));
                            group_updates.push((j, e.clone()));
                            assert(group_updates@.map_values(|u: (usize, String)| (u.0, u.1@)) =~= before.push((j, e@)));
                        }
                    },
                    None => {},
                }
            },
        }
        i = i + 1;
    }
    UpdatePlan { matched, not_found, group_updates }
}

proof fn lemma_last_named_in_range(names: Seq<String>, n: Seq<char>)
    ensures
        last_named(names, n) matches Some(j) ==> 0 <= j < names.len(),
    decreases names.len(),
{
    if names.len() > 0 && names.last()@ != n {
        lemma_last_named_in_range(names.drop_last(), n);
    }
}

} // verus!
