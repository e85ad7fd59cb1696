//! Conversion between COCO datasets and the rows of the EdgeFirst Arrow
//! table.
//!
//! Reading and writing the Arrow file, and scaling boxes and masks between
//! pixels and the `[0, 1]` range, happen outside the library; what is here
//! is which rows a COCO image becomes, and which images, categories and
//! annotations a table of rows becomes.

use vstd::prelude::*;
use crate::coco::reader::{is_name_listed, name_listed};
use crate::coco::studio::{category_position, labelled_annotations, CocoIndex};
use crate::path::{sample_name, sample_name_from_filename};
use crate::coco::types::{
    CocoAnnotation, CocoCategory, CocoCompressedRle, CocoDataset, CocoImage, CocoInfo, CocoRle,
    CocoSegmentation,
};

verus! {

/// One row of the Arrow table, as the conversion to COCO reads it. Float
/// columns arrive as `f64` bit patterns, the box and area already in the
/// pixels of the row's image.
#[derive(Clone, Debug, PartialEq)]
pub struct SampleRow {
    /// The sample (image) name.
    pub name: String,
    /// The group (`""` when the row has none).
    pub group: String,
    /// The label; `""` marks a row that stands for an image without
    /// annotations.
    pub label: String,
    pub label_index: Option<u64>,
    /// `(width, height)` of the image, when the table has sizes.
    pub size: Option<(u32, u32)>,
    /// The COCO box `[x, y, width, height]` in pixels.
    pub bbox: [u64; 4],
    /// The area in square pixels.
    pub area: u64,
    /// The segmentation, when the row has one that converts.
    pub segmentation: Option<CocoSegmentation>,
    pub iscrowd: u8,
    pub box2d_score: Option<u64>,
    pub polygon_score: Option<u64>,
    pub mask_score: Option<u64>,
    pub category_frequency: Option<String>,
    /// LVIS: label indices verified absent from the image.
    pub neg_label_indices: Option<Vec<u32>>,
    /// LVIS: label indices not exhaustively annotated on the image.
    pub not_exhaustive_label_indices: Option<Vec<u32>>,
}

/// Category metadata stored with an Arrow table.
#[derive(Clone, Debug, PartialEq)]
pub struct CategoryMeta {
    pub name: String,
    pub id: Option<u64>,
    pub supercategory: Option<String>,
    pub synset: Option<String>,
    pub frequency: Option<String>,
    pub synonyms: Option<Vec<String>>,
    pub def: Option<String>,
}

/// Options for converting COCO to Arrow.
#[derive(Clone, Debug)]
pub struct CocoToArrowOptions {
    /// Include segmentation masks in the output.
    pub include_masks: bool,
    /// The group of every sample (such as `train` or `val`).
    pub group: Option<String>,
    /// Largest number of parallel workers.
    pub max_workers: usize,
}

/// Options for converting Arrow to COCO.
#[derive(Clone, Debug)]
pub struct ArrowToCocoOptions {
    /// Only rows of these groups (none listed: all rows).
    pub groups: Vec<String>,
    /// Include segmentation masks in the output.
    pub include_masks: bool,
    /// The COCO `info` section.
    pub info: Option<CocoInfo>,
}

impl Default for ArrowToCocoOptions {
    fn default() -> (o: Self)
        ensures
            o.groups@.len() == 0,
            o.include_masks,
            o.info is None,
    {
        ArrowToCocoOptions { groups: Vec::new(), include_masks: true, info: None }
    }
}

// ---------------------------------------------------------------------------
// Arrow rows to COCO
// ---------------------------------------------------------------------------

/// Whether row `i` passes the group filter.
pub open spec fn row_kept(rows: Seq<SampleRow>, groups: Seq<String>, i: int) -> bool {
    groups.len() == 0 || name_listed(groups, rows[i].group@)
}

/// Whether a kept row before `i` has the name `name`.
pub open spec fn name_before(rows: Seq<SampleRow>, groups: Seq<String>, i: int, name: Seq<char>) -> bool {
    exists|j: int| 0 <= j < i && row_kept(rows, groups, j) && #[trigger] rows[j].name@ == name
}

/// Whether a kept row before `i` has the non-empty label `label`.
pub open spec fn label_before(rows: Seq<SampleRow>, groups: Seq<String>, i: int, label: Seq<char>) -> bool {
    exists|j: int|
        0 <= j < i && row_kept(rows, groups, j) && rows[j].label@.len() > 0 && #[trigger] rows[j].label@
            == label
}

/// The positions of the kept rows among the first `n` that are the first
/// of their name: one per image, in the order the images first appear.
pub open spec fn image_row_list(rows: Seq<SampleRow>, groups: Seq<String>, n: int) -> Seq<int>
    decreases n,
{
    if n <= 0 {
        Seq::empty()
    } else {
        let p = image_row_list(rows, groups, n - 1);
        if row_kept(rows, groups, n - 1) && !name_before(rows, groups, n - 1, rows[n - 1].name@) {
            p.push(n - 1)
        } else {
            p
        }
    }
}

/// The positions of the kept rows among the first `n` that are the first
/// of their (non-empty) label: one per category, in order of appearance.
pub open spec fn label_row_list(rows: Seq<SampleRow>, groups: Seq<String>, n: int) -> Seq<int>
    decreases n,
{
    if n <= 0 {
        Seq::empty()
    } else {
        let p = label_row_list(rows, groups, n - 1);
        if row_kept(rows, groups, n - 1) && rows[n - 1].label@.len() > 0 && !label_before(
            rows,
            groups,
            n - 1,
            rows[n - 1].label@,
        ) {
            p.push(n - 1)
        } else {
            p
        }
    }
}

/// Decides [`row_kept`].
fn is_row_kept(row: &SampleRow, groups: &Vec<String>) -> (b: bool)
    ensures
        b == (groups@.len() == 0 || name_listed(groups@, row.group@)),
{
    groups.len() == 0 || is_name_listed(groups, &row.group)
}

/// The rows that start an image.
pub fn image_row_positions(rows: &Vec<SampleRow>, groups: &Vec<String>) -> (r: Vec<usize>)
    ensures
        r@.map_values(|p: usize| p as int) == image_row_list(rows@, groups@, rows@.len() as int),
{
    let mut r: Vec<usize> = Vec::new();
    let mut seen: Vec<String> = Vec::new();
    let mut i: usize = 0;
    while i < rows.len()
        invariant
            i <= rows.len(),
            r@.map_values(|p: usize| p as int) == image_row_list(rows@, groups@, i as int),
            forall|x: Seq<char>| name_listed(seen@, x) <==> name_before(rows@, groups@, i as int, x),
        decreases rows.len() - i,
    {
        let ghost before = r@;
        if is_row_kept(&rows[i], groups) {
            if !is_name_listed(&seen, &rows[i].name) {
                r.push(i);
                assert(r@.map_values(|p: usize| p as int) =~= before.map_values(|p: usize| p as int).push(
                    i as int,
                ));
            }
            let ghost old_seen = seen@;
            assert(forall|x: Seq<char>| name_listed(old_seen, x) <==> name_before(rows@, groups@, i as int, x));
            seen.push(rows[i].name.clone());
            proof {
                assert forall|x: Seq<char>| name_listed(seen@, x) <== name_before(
                    rows@,
                    groups@,
                    i + 1,
                    x,
                ) by {
                    if name_before(rows@, groups@, i + 1, x) {
                        let j = choose|j: int|
                            0 <= j < i + 1 && row_kept(rows@, groups@, j) && #[trigger] rows@[j].name@ == x;
                        if j < i {
                            assert(name_before(rows@, groups@, i as int, x));
                            assert(name_listed(old_seen, x));
                            assert(seen@ == old_seen.push(rows@[i as int].name));
                            let k = choose|k: int| 0 <= k < old_seen.len() && #[trigger] old_seen[k]@ == x;
                            assert(seen@[k] == old_seen[k]);
                        } else {
                            assert(seen@[old_seen.len() as int]@ == x);
                        }
                    }
                }
                assert forall|x: Seq<char>| name_listed(seen@, x) ==> name_before(
                    rows@,
                    groups@,
                    i + 1,
                    x,
                ) by {
                    if name_listed(seen@, x) {
                        let k = choose|k: int| 0 <= k < seen@.len() && #[trigger] seen@[k]@ == x;
                        if k < old_seen.len() {
                            assert(old_seen[k] == seen@[k]);
                            assert(name_listed(old_seen, x));
                        } else {
                            assert(row_kept(rows@, groups@, i as int) && rows@[i as int].name@ == x);
                        }
                    }
                }
            }
        } else {
            proof {
                assert forall|x: Seq<char>| name_before(rows@, groups@, i + 1, x) ==> name_before(
                    rows@,
                    groups@,
                    i as int,
                    x,
                ) by {
                    if name_before(rows@, groups@, i + 1, x) {
                        let j = choose|j: int|
                            0 <= j < i + 1 && row_kept(rows@, groups@, j) && #[trigger] rows@[j].name@ == x;
                        assert(j < i);
                    }
                }
            }
        }
        i = i + 1;
    }
    r
}

/// The rows that start a category: the first kept row of each non-empty
/// label.
pub fn label_row_positions(rows: &Vec<SampleRow>, groups: &Vec<String>) -> (r: Vec<usize>)
    ensures
        r@.map_values(|p: usize| p as int) == label_row_list(rows@, groups@, rows@.len() as int),
{
    let mut r: Vec<usize> = Vec::new();
    let mut seen: Vec<String> = Vec::new();
    let mut i: usize = 0;
    while i < rows.len()
        invariant
            i <= rows.len(),
            r@.map_values(|p: usize| p as int) == label_row_list(rows@, groups@, i as int),
            forall|x: Seq<char>| name_listed(seen@, x) <==> label_before(rows@, groups@, i as int, x),
        decreases rows.len() - i,
    {
        let ghost before = r@;
        if is_row_kept(&rows[i], groups) && !rows[i].label.as_str().is_empty() {
            if !is_name_listed(&seen, &rows[i].label) {
                r.push(i);
                assert(r@.map_values(|p: usize| p as int) =~= before.map_values(|p: usize| p as int).push(
                    i as int,
                ));
            }
            let ghost old_seen = seen@;
            assert(forall|x: Seq<char>| name_listed(old_seen, x) <==> label_before(rows@, groups@, i as int, x));
            seen.push(rows[i].label.clone());
            proof {
                assert forall|x: Seq<char>| name_listed(seen@, x) <== label_before(
                    rows@,
                    groups@,
                    i + 1,
                    x,
                ) by {
                    if label_before(rows@, groups@, i + 1, x) {
                        let j = choose|j: int|
                            0 <= j < i + 1 && row_kept(rows@, groups@, j) && rows@[j].label@.len() > 0
                                && #[trigger] rows@[j].label@ == x;
                        if j < i {
                            assert(label_before(rows@, groups@, i as int, x));
                            assert(name_listed(old_seen, x));
                            assert(seen@ == old_seen.push(rows@[i as int].label));
                            let k = choose|k: int| 0 <= k < old_seen.len() && #[trigger] old_seen[k]@ == x;
                            assert(seen@[k] == old_seen[k]);
                        } else {
                            assert(seen@[old_seen.len() as int]@ == x);
                        }
                    }
                }
                assert forall|x: Seq<char>| name_listed(seen@, x) ==> label_before(
                    rows@,
                    groups@,
                    i + 1,
                    x,
                ) by {
                    if name_listed(seen@, x) {
                        let k = choose|k: int| 0 <= k < seen@.len() && #[trigger] seen@[k]@ == x;
                        if k < old_seen.len() {
                            assert(old_seen[k] == seen@[k]);
                            assert(name_listed(old_seen, x));
                        } else {
                            assert(row_kept(rows@, groups@, i as int) && rows@[i as int].label@.len() > 0 && rows@[i as int].label@ == x);
                        }
                    }
                }
            }
        } else {
            proof {
                assert forall|x: Seq<char>| label_before(rows@, groups@, i + 1, x) ==> label_before(
                    rows@,
                    groups@,
                    i as int,
                    x,
                ) by {
                    if label_before(rows@, groups@, i + 1, x) {
                        let j = choose|j: int|
                            0 <= j < i + 1 && row_kept(rows@, groups@, j) && rows@[j].label@.len() > 0
                                && #[trigger] rows@[j].label@ == x;
                        assert(j < i);
                    }
                }
            }
        }
        i = i + 1;
    }
    r
}


/// The text of an optional string.
pub open spec fn text_opt(o: Option<String>) -> Option<Seq<char>> {
    match o {
        Some(t) => Some(t@),
        None => None,
    }
}

/// The texts of an optional list of strings.
pub open spec fn texts_opt(o: Option<Vec<String>>) -> Option<Seq<Seq<char>>> {
    match o {
        Some(v) => Some(v@.map_values(|t: String| t@)),
        None => None,
    }
}

/// An optional list of label indices, as category ids.
pub open spec fn widened_opt(o: Option<Vec<u32>>) -> Option<Seq<u64>> {
    match o {
        Some(v) => Some(v@.map_values(|x: u32| x as u64)),
        None => None,
    }
}

/// An optional list of category ids.
pub open spec fn ids_opt(o: Option<Vec<u64>>) -> Option<Seq<u64>> {
    match o {
        Some(v) => Some(v@),
        None => None,
    }
}

/// The position of the first name in `names` equal to `name`.
pub open spec fn first_position(names: Seq<Seq<char>>, name: Seq<char>) -> Option<int>
    decreases names.len(),
{
    if names.len() == 0 {
        None
    } else {
        match first_position(names.drop_last(), name) {
            Some(k) => Some(k),
            None => if names.last() == name {
                Some(names.len() - 1)
            } else {
                None
            },
        }
    }
}

/// The names of the images the kept rows make, in order.
pub open spec fn image_names(rows: Seq<SampleRow>, groups: Seq<String>) -> Seq<Seq<char>> {
    image_row_list(rows, groups, rows.len() as int).map_values(|q: int| rows[q].name@)
}

/// The low 32 bits of an id (ids are stored as `u32` category ids).
pub open spec fn low32(x: u64) -> u64 {
    x % 0x1_0000_0000
}

/// A request for a category: its name and the id it asks for, if any.
pub type CategoryRequest = (Seq<char>, Option<u64>);

/// `reqs` with a request for `name` added, unless one is already there.
pub open spec fn add_request(reqs: Seq<CategoryRequest>, name: Seq<char>, id: Option<u64>) -> Seq<CategoryRequest> {
    if first_position(reqs.map_values(|r: CategoryRequest| r.0), name) is Some {
        reqs
    } else {
        reqs.push((name, id))
    }
}

/// The requests of the labels of the rows: one per label, in order of
/// appearance, asking for the label index.
pub open spec fn label_requests(rows: Seq<SampleRow>, groups: Seq<String>) -> Seq<CategoryRequest> {
    label_row_list(rows, groups, rows.len() as int).map_values(
        |q: int|
            (rows[q].label@, match rows[q].label_index {
                Some(x) => Some(low32(x)),
                None => None,
            }),
    )
}

/// The requests after the first `n` metadata entries.
pub open spec fn meta_requests(reqs: Seq<CategoryRequest>, metas: Seq<CategoryMeta>, n: int) -> Seq<CategoryRequest>
    decreases n,
{
    if n <= 0 {
        reqs
    } else {
        add_request(meta_requests(reqs, metas, n - 1), metas[n - 1].name@, match metas[n - 1].id {
            Some(x) => Some(low32(x)),
            None => None,
        })
    }
}

/// The requests after the first `n` names of a label list.
pub open spec fn list_requests(reqs: Seq<CategoryRequest>, labels: Seq<String>, n: int) -> Seq<CategoryRequest>
    decreases n,
{
    if n <= 0 {
        reqs
    } else {
        add_request(list_requests(reqs, labels, n - 1), labels[n - 1]@, None)
    }
}

/// All the category requests: the labels of the rows, then the metadata
/// entries, then the label list, each name once.
pub open spec fn category_requests(
    rows: Seq<SampleRow>,
    groups: Seq<String>,
    metas: Seq<CategoryMeta>,
    labels: Seq<String>,
) -> Seq<CategoryRequest> {
    let with_meta = meta_requests(label_requests(rows, groups), metas, metas.len() as int);
    list_requests(with_meta, labels, labels.len() as int)
}

/// The largest of `ids` (0 for none).
pub open spec fn max_id(ids: Seq<u64>) -> u64
    decreases ids.len(),
{
    if ids.len() == 0 {
        0
    } else {
        let m = max_id(ids.drop_last());
        if ids.last() > m {
            ids.last()
        } else {
            m
        }
    }
}

/// The id given to a category that asks for none: one more than the
/// largest id so far (1 for the first), at most `u64::MAX`.
pub open spec fn next_id(ids: Seq<u64>) -> u64 {
    if ids.len() == 0 {
        1
    } else if max_id(ids) == u64::MAX {
        u64::MAX
    } else {
        (max_id(ids) + 1) as u64
    }
}

/// The ids the requests get, in order.
pub open spec fn assigned_ids(asked: Seq<Option<u64>>) -> Seq<u64>
    decreases asked.len(),
{
    if asked.len() == 0 {
        Seq::empty()
    } else {
        let p = assigned_ids(asked.drop_last());
        p.push(
            match asked.last() {
                Some(x) => x,
                None => next_id(p),
            },
        )
    }
}

/// The frequency the rows give label `name`: that of the first kept row
/// from `i` on with this label and a frequency.
pub open spec fn column_frequency(rows: Seq<SampleRow>, groups: Seq<String>, name: Seq<char>, i: int) -> Option<Seq<char>>
    decreases rows.len() - i,
{
    if i < 0 || i >= rows.len() {
        None
    } else if row_kept(rows, groups, i) && name.len() > 0 && rows[i].label@ == name
        && rows[i].category_frequency is Some {
        text_opt(rows[i].category_frequency)
    } else {
        column_frequency(rows, groups, name, i + 1)
    }
}

/// A field of category `name` after the first `n` metadata entries: the
/// value of the last entry for `name` that sets it, else `base`.
pub open spec fn meta_field<T>(
    metas: Seq<CategoryMeta>,
    n: int,
    name: Seq<char>,
    field: spec_fn(CategoryMeta) -> Option<T>,
    base: Option<T>,
) -> Option<T>
    decreases n,
{
    if n <= 0 {
        base
    } else {
        let prev = meta_field(metas, n - 1, name, field, base);
        if metas[n - 1].name@ == name && field(metas[n - 1]) is Some {
            field(metas[n - 1])
        } else {
            prev
        }
    }
}

/// The supercategory a metadata entry sets.
pub open spec fn meta_supercategory() -> spec_fn(CategoryMeta) -> Option<Seq<char>> {
    |m: CategoryMeta| text_opt(m.supercategory)
}

/// The frequency a metadata entry sets.
pub open spec fn meta_frequency() -> spec_fn(CategoryMeta) -> Option<Seq<char>> {
    |m: CategoryMeta| text_opt(m.frequency)
}

/// The synset a metadata entry sets.
pub open spec fn meta_synset() -> spec_fn(CategoryMeta) -> Option<Seq<char>> {
    |m: CategoryMeta| text_opt(m.synset)
}

/// The synonyms a metadata entry sets.
pub open spec fn meta_synonyms() -> spec_fn(CategoryMeta) -> Option<Seq<Seq<char>>> {
    |m: CategoryMeta| texts_opt(m.synonyms)
}

/// The definition a metadata entry sets.
pub open spec fn meta_def() -> spec_fn(CategoryMeta) -> Option<Seq<char>> {
    |m: CategoryMeta| text_opt(m.def)
}

/// What category `k` of the output is.
pub open spec fn category_made_of(
    c: CocoCategory,
    name: Seq<char>,
    id: u64,
    rows: Seq<SampleRow>,
    groups: Seq<String>,
    metas: Seq<CategoryMeta>,
) -> bool {
    let n = metas.len() as int;
    &&& c.id == id
    &&& c.name@ == name
    &&& text_opt(c.supercategory) == meta_field(metas, n, name, meta_supercategory(), None)
    &&& text_opt(c.frequency) == meta_field(
        metas,
        n,
        name,
        meta_frequency(),
        column_frequency(rows, groups, name, 0),
    )
    &&& text_opt(c.synset) == meta_field(metas, n, name, meta_synset(), None)
    &&& texts_opt(c.synonyms) == meta_field(metas, n, name, meta_synonyms(), None)
    &&& text_opt(c.def) == meta_field(metas, n, name, meta_def(), None)
}

/// What image `k` of the output is: made of its first row `row`.
pub open spec fn image_made_of(img: CocoImage, k: int, row: SampleRow) -> bool {
    &&& img.id == k + 1
    &&& img.file_name@ == row.name@
    &&& (img.width, img.height) == (match row.size {
        Some(s) => s,
        None => (0u32, 0u32),
    })
    &&& img.license is None
    &&& img.flickr_url is None
    &&& img.coco_url is None
    &&& img.date_captured is None
    &&& ids_opt(img.neg_category_ids) == widened_opt(row.neg_label_indices)
    &&& ids_opt(img.not_exhaustive_category_ids) == widened_opt(row.not_exhaustive_label_indices)
}

/// The positions of the kept rows among the first `n` that carry an
/// annotation (a non-empty label).
pub open spec fn annotation_row_list(rows: Seq<SampleRow>, groups: Seq<String>, n: int) -> Seq<int>
    decreases n,
{
    if n <= 0 {
        Seq::empty()
    } else {
        let p = annotation_row_list(rows, groups, n - 1);
        if row_kept(rows, groups, n - 1) && rows[n - 1].label@.len() > 0 {
            p.push(n - 1)
        } else {
            p
        }
    }
}

/// What a segmentation holds, as plain values.
pub enum SegmentationView {
    Polygon(Seq<Seq<u64>>),
    Rle(Seq<u32>, [u32; 2]),
    CompressedRle(Seq<char>, [u32; 2]),
}

/// The plain value of an optional segmentation.
pub open spec fn segmentation_view(s: Option<CocoSegmentation>) -> Option<SegmentationView> {
    match s {
        Some(CocoSegmentation::Polygon(p)) => Some(
            SegmentationView::Polygon(p@.map_values(|r: Vec<u64>| r@)),
        ),
        Some(CocoSegmentation::Rle(r)) => Some(SegmentationView::Rle(r.counts@, r.size)),
        Some(CocoSegmentation::CompressedRle(c)) => Some(
            SegmentationView::CompressedRle(c.counts@, c.size),
        ),
        None => None,
    }
}

/// The score of a row: the first of its mask, polygon and box scores.
pub open spec fn row_score(row: SampleRow) -> Option<u64> {
    match row.mask_score {
        Some(x) => Some(x),
        None => match row.polygon_score {
            Some(x) => Some(x),
            None => row.box2d_score,
        },
    }
}

/// What annotation `m` of the output is, made of row `row`.
pub open spec fn annotation_from_row(
    a: CocoAnnotation,
    m: int,
    row: SampleRow,
    image_names: Seq<Seq<char>>,
    reqs: Seq<CategoryRequest>,
    ids: Seq<u64>,
    include_masks: bool,
) -> bool {
    &&& a.id == m + 1
    &&& a.image_id == match first_position(image_names, row.name@) {
        Some(k) => (k + 1) as u64,
        None => 0u64,
    }
    &&& a.category_id == match first_position(reqs.map_values(|r: CategoryRequest| r.0), row.label@) {
        Some(c) => ids[c],
        None => 0u64,
    }
    &&& a.bbox == row.bbox
    &&& a.area == row.area
    &&& a.iscrowd == row.iscrowd
    &&& segmentation_view(a.segmentation) == (if include_masks {
        segmentation_view(row.segmentation)
    } else {
        None
    })
    &&& a.score == row_score(row)
}

/// Whether `d` is the COCO dataset that the rows, the stored category
/// metadata and the stored label list make.
pub open spec fn arrow_coco_outcome(
    rows: Seq<SampleRow>,
    metas: Seq<CategoryMeta>,
    labels: Seq<String>,
    options: ArrowToCocoOptions,
    d: CocoDataset,
) -> bool {
    let groups = options.groups@;
    let img = image_row_list(rows, groups, rows.len() as int);
    let reqs = category_requests(rows, groups, metas, labels);
    let ids = assigned_ids(reqs.map_values(|r: CategoryRequest| r.1));
    let anns = annotation_row_list(rows, groups, rows.len() as int);
    &&& match options.info {
        Some(i) => d.info == i,
        None => d.info == CocoInfo {
            description: None,
            url: None,
            version: None,
            year: None,
            contributor: None,
            date_created: None,
        },
    }
    &&& d.images@.len() == img.len()
    &&& forall|k: int| 0 <= k < img.len() ==> image_made_of(#[trigger] d.images@[k], k, rows[img[k]])
    &&& d.categories@.len() == reqs.len()
    &&& forall|k: int|
        0 <= k < reqs.len() ==> category_made_of(#[trigger] d.categories@[k], reqs[k].0, ids[k], rows, groups, metas)
    &&& d.annotations@.len() == anns.len()
    &&& forall|m: int|
        0 <= m < anns.len() ==> annotation_from_row(
            #[trigger] d.annotations@[m],
            m,
            rows[anns[m]],
            image_names(rows, groups),
            reqs,
            ids,
            options.include_masks,
        )
    &&& d.licenses@.len() == 0
}

/// A copy of an optional string.
fn copy_text_opt(o: &Option<String>) -> (r: Option<String>)
    ensures
        text_opt(r) == text_opt(*o),
{
    match o {
        Some(t) => Some(t.clone()),
        None => None,
    }
}

/// A copy of a list of strings.
fn copy_texts(v: &Vec<String>) -> (r: Vec<String>)
    ensures
        r@.map_values(|t: String| t@) == v@.map_values(|t: String| t@),
{
    let mut r: Vec<String> = Vec::new();
    let mut i: usize = 0;
    while i < v.len()
        invariant
            i <= v.len(),
            r@.map_values(|t: String| t@) == v@.take(i as int).map_values(|t: String| t@),
        decreases v.len() - i,
    {
        r.push(v[i].clone());
        assert(v@.take(i + 1).map_values(|t: String| t@) =~= v@.take(i as int).map_values(
            |t: String| t@,
        ).push(v@[i as int]@));
        assert(r@.map_values(|t: String| t@) =~= v@.take(i + 1).map_values(|t: String| t@));
        i = i + 1;
    }
    assert(v@.take(v.len() as int) =~= v@);
    r
}

/// A copy of an optional list of strings.
fn copy_texts_opt(o: &Option<Vec<String>>) -> (r: Option<Vec<String>>)
    ensures
        texts_opt(r) == texts_opt(*o),
{
    match o {
        Some(v) => Some(copy_texts(v)),
        None => None,
    }
}

/// Label indices widened to category ids.
fn widen_opt(o: &Option<Vec<u32>>) -> (r: Option<Vec<u64>>)
    ensures
        ids_opt(r) == widened_opt(*o),
{
    match o {
        Some(v) => {
            let mut r: Vec<u64> = Vec::new();
            let mut i: usize = 0;
            while i < v.len()
                invariant
                    i <= v.len(),
                    r@ == v@.take(i as int).map_values(|x: u32| x as u64),
                decreases v.len() - i,
            {
                r.push(v[i] as u64);
                assert(v@.take(i + 1).map_values(|x: u32| x as u64) =~= v@.take(i as int).map_values(
                    |x: u32| x as u64,
                ).push(v@[i as int] as u64));
                i = i + 1;
            }
            assert(v@.take(v.len() as int) =~= v@);
            Some(r)
        },
        None => None,
    }
}

/// The position of the first of `names` equal to `name`.
fn find_name(names: &Vec<String>, name: &String) -> (r: Option<usize>)
    ensures
        r matches Some(k) ==> k < names.len() && first_position(names@.map_values(|t: String| t@), name@)
            == Some(k as int),
        r is None ==> first_position(names@.map_values(|t: String| t@), name@) is None,
{
    let ghost all = names@.map_values(|t: String| t@);
    let mut i: usize = 0;
    while i < names.len()
        invariant
            i <= names.len(),
            all == names@.map_values(|t: String| t@),
            first_position(all.take(i as int), name@) is None,
        decreases names.len() - i,
    {
        assert(all.take(i + 1).drop_last() =~= all.take(i as int));
        if names[i] == *name {
            proof {
                lemma_first_position_prefix(all, name@, i + 1);
            }
            return Some(i);
        }
        proof {
            assert(first_position(all.take(i + 1), name@) is None);
        }
        i = i + 1;
    }
    assert(all.take(names.len() as int) =~= all);
    None
}

/// A first position found in a prefix is the first position in the whole.
proof fn lemma_first_position_prefix(names: Seq<Seq<char>>, name: Seq<char>, n: int)
    requires
        0 <= n <= names.len(),
        first_position(names.take(n), name) is Some,
    ensures
        first_position(names, name) == first_position(names.take(n), name),
    decreases names.len() - n,
{
    if n < names.len() {
        assert(names.take(n + 1).drop_last() =~= names.take(n));
        assert(first_position(names.take(n + 1), name) == first_position(names.take(n), name));
        lemma_first_position_prefix(names, name, n + 1);
    } else {
        assert(names.take(n) =~= names);
    }
}


/// The requests held in two parallel lists.
pub open spec fn requests_view(names: Seq<String>, ids: Seq<Option<u64>>) -> Seq<CategoryRequest> {
    Seq::new(names.len(), |k: int| (names[k]@, ids[k]))
}

/// Adds a request for `name` unless there is one.
fn push_request(names: &mut Vec<String>, ids: &mut Vec<Option<u64>>, name: &String, id: Option<u64>)
    requires
        old(names)@.len() == old(ids)@.len(),
    ensures
        final(names)@.len() == final(ids)@.len(),
        requests_view(final(names)@, final(ids)@) == add_request(
            requests_view(old(names)@, old(ids)@),
            name@,
            id,
        ),
{
    let ghost before = requests_view(names@, ids@);
    assert(before.map_values(|r: CategoryRequest| r.0) =~= names@.map_values(|t: String| t@));
    match find_name(names, name) {
        Some(_) => {},
        None => {
            names.push(name.clone());
            ids.push(id);
            assert(requests_view(names@, ids@) =~= before.push((name@, id)));
        },
    }
}

/// `x` kept to its low 32 bits.
fn low32_of(x: u64) -> (r: u64)
    ensures
        r == low32(x),
{
    x % 0x1_0000_0000
}

/// The category requests of the rows, the metadata and the label list.
fn collect_requests(
    rows: &Vec<SampleRow>,
    groups: &Vec<String>,
    metas: &Vec<CategoryMeta>,
    labels: &Vec<String>,
) -> (r: (Vec<String>, Vec<Option<u64>>))
    ensures
        r.0@.len() == r.1@.len(),
        requests_view(r.0@, r.1@) == category_requests(rows@, groups@, metas@, labels@),
{
    let pos = label_row_positions(rows, groups);
    let ghost lp = label_row_list(rows@, groups@, rows@.len() as int);
    proof {
        lemma_row_list_bounds(rows@, groups@);
        assert forall|j: int| 0 <= j < pos.len() implies #[trigger] pos@[j] < rows.len() by {
            assert(pos@.map_values(|p: usize| p as int)[j] == lp[j]);
        }
    }
    let mut names: Vec<String> = Vec::new();
    let mut ids: Vec<Option<u64>> = Vec::new();
    let mut k: usize = 0;
    while k < pos.len()
        invariant
            k <= pos.len(),
            pos@.map_values(|p: usize| p as int) == lp,
            lp == label_row_list(rows@, groups@, rows@.len() as int),
            forall|j: int| 0 <= j < pos.len() ==> #[trigger] pos@[j] < rows.len(),
            names@.len() == ids@.len(),
            names@.len() == k,
            requests_view(names@, ids@) == label_requests(rows@, groups@).take(k as int),
        decreases pos.len() - k,
    {
        proof {
            lemma_row_list_bounds(rows@, groups@);
            assert(lp[k as int] == pos@[k as int] as int);
        }
        let q = pos[k];
        let id = match rows[q].label_index {
            Some(x) => Some(low32_of(x)),
            None => None,
        };
        let ghost before = requests_view(names@, ids@);
        let ghost old_names = names@;
        let ghost old_ids = ids@;
        assert(label_requests(rows@, groups@).len() == pos.len());
        assert(names@.len() == k);
        names.push(rows[q].label.clone());
        ids.push(id);
        proof {
            let want = label_requests(rows@, groups@);
            assert(names@ == old_names.push(rows@[q as int].label));
            assert(ids@ == old_ids.push(id));
            assert(pos@.map_values(|p: usize| p as int)[k as int] == lp[k as int]);
            assert(want[k as int] == (rows@[q as int].label@, id));
            assert forall|j: int| 0 <= j < k + 1 implies #[trigger] requests_view(names@, ids@)[j] == want.take(
                k + 1,
            )[j] by {
                if j < k {
                    assert(names@[j] == old_names[j] && ids@[j] == old_ids[j]);
                    assert(requests_view(names@, ids@)[j] == before[j]);
                    assert(before[j] == want.take(k as int)[j]);
                }
            }
            assert(requests_view(names@, ids@) =~= want.take(k + 1));
        }
        k = k + 1;
    }
    assert(label_requests(rows@, groups@).take(pos.len() as int) =~= label_requests(rows@, groups@));
    let ghost start = label_requests(rows@, groups@);
    let mut m: usize = 0;
    while m < metas.len()
        invariant
            m <= metas.len(),
            names@.len() == ids@.len(),
            requests_view(names@, ids@) == meta_requests(start, metas@, m as int),
        decreases metas.len() - m,
    {
        let id = match metas[m].id {
            Some(x) => Some(low32_of(x)),
            None => None,
        };
        push_request(&mut names, &mut ids, &metas[m].name, id);
        m = m + 1;
    }
    let ghost with_meta = meta_requests(start, metas@, metas@.len() as int);
    let mut l: usize = 0;
    while l < labels.len()
        invariant
            l <= labels.len(),
            names@.len() == ids@.len(),
            requests_view(names@, ids@) == list_requests(with_meta, labels@, l as int),
        decreases labels.len() - l,
    {
        push_request(&mut names, &mut ids, &labels[l], None);
        l = l + 1;
    }
    (names, ids)
}

/// Every position in the row lists is a row.
proof fn lemma_row_list_bounds(rows: Seq<SampleRow>, groups: Seq<String>)
    ensures
        forall|j: int|
            0 <= j < label_row_list(rows, groups, rows.len() as int).len() ==> 0 <= #[trigger] label_row_list(
                rows,
                groups,
                rows.len() as int,
            )[j] < rows.len(),
        forall|j: int|
            0 <= j < image_row_list(rows, groups, rows.len() as int).len() ==> 0 <= #[trigger] image_row_list(
                rows,
                groups,
                rows.len() as int,
            )[j] < rows.len(),
{
    lemma_row_lists_below(rows, groups, rows.len() as int);
}

proof fn lemma_row_lists_below(rows: Seq<SampleRow>, groups: Seq<String>, n: int)
    requires
        0 <= n <= rows.len(),
    ensures
        forall|j: int|
            0 <= j < label_row_list(rows, groups, n).len() ==> 0 <= #[trigger] label_row_list(rows, groups, n)[j] < n,
        forall|j: int|
            0 <= j < image_row_list(rows, groups, n).len() ==> 0 <= #[trigger] image_row_list(rows, groups, n)[j] < n,
        forall|j: int|
            0 <= j < annotation_row_list(rows, groups, n).len() ==> 0 <= #[trigger] annotation_row_list(
                rows,
                groups,
                n,
            )[j] < n,
    decreases n,
{
    if n > 0 {
        lemma_row_lists_below(rows, groups, n - 1);
        let l = label_row_list(rows, groups, n);
        let lp = label_row_list(rows, groups, n - 1);
        assert forall|j: int| 0 <= j < l.len() implies 0 <= #[trigger] l[j] < n by {
            if j < lp.len() {
                assert(l[j] == lp[j]);
            }
        }
        let i = image_row_list(rows, groups, n);
        let ip = image_row_list(rows, groups, n - 1);
        assert forall|j: int| 0 <= j < i.len() implies 0 <= #[trigger] i[j] < n by {
            if j < ip.len() {
                assert(i[j] == ip[j]);
            }
        }
        let a = annotation_row_list(rows, groups, n);
        let ap = annotation_row_list(rows, groups, n - 1);
        assert forall|j: int| 0 <= j < a.len() implies 0 <= #[trigger] a[j] < n by {
            if j < ap.len() {
                assert(a[j] == ap[j]);
            }
        }
    }
}

/// The ids the requests get.
fn assign_ids(asked: &Vec<Option<u64>>) -> (r: Vec<u64>)
    ensures
        r@ == assigned_ids(asked@),
{
    let mut r: Vec<u64> = Vec::new();
    let mut max: u64 = 0;
    let mut i: usize = 0;
    while i < asked.len()
        invariant
            i <= asked.len(),
            r@ == assigned_ids(asked@.take(i as int)),
            max == max_id(r@),
        decreases asked.len() - i,
    {
        assert(asked@.take(i + 1).drop_last() =~= asked@.take(i as int));
        let id = match asked[i] {
            Some(x) => x,
            None => {
                if r.len() == 0 {
                    1
                } else if max == u64::MAX {
                    u64::MAX
                } else {
                    max + 1
                }
            },
        };
        let ghost before = r@;
        r.push(id);
        assert(r@.drop_last() =~= before);
        if id > max {
            max = id;
        }
        i = i + 1;
    }
    assert(asked@.take(asked.len() as int) =~= asked@);
    r
}

/// The frequency the rows give a label.
fn frequency_of_label(rows: &Vec<SampleRow>, groups: &Vec<String>, name: &String) -> (r: Option<String>)
    ensures
        text_opt(r) == column_frequency(rows@, groups@, name@, 0),
{
    let mut cur: Option<String> = None;
    let mut j: usize = rows.len();
    let named = !name.as_str().is_empty();
    while j > 0
        invariant
            j <= rows.len(),
            named == (name@.len() > 0),
            text_opt(cur) == column_frequency(rows@, groups@, name@, j as int),
        decreases j,
    {
        j = j - 1;
        if named && is_row_kept(&rows[j], groups) && rows[j].label == *name {
            match &rows[j].category_frequency {
                Some(f) => {
                    cur = Some(f.clone());
                },
                None => {},
            }
        }
    }
    cur
}

/// Category `name` with id `id`, its fields set by the rows and the
/// metadata.
fn build_category(
    name: &String,
    id: u64,
    rows: &Vec<SampleRow>,
    groups: &Vec<String>,
    metas: &Vec<CategoryMeta>,
) -> (c: CocoCategory)
    ensures
        category_made_of(c, name@, id, rows@, groups@, metas@),
{
    let ghost col = column_frequency(rows@, groups@, name@, 0);
    let mut supercategory: Option<String> = None;
    let mut frequency: Option<String> = frequency_of_label(rows, groups, name);
    let mut synset: Option<String> = None;
    let mut synonyms: Option<Vec<String>> = None;
    let mut def: Option<String> = None;
    let mut m: usize = 0;
    while m < metas.len()
        invariant
            m <= metas.len(),
            text_opt(supercategory) == meta_field(metas@, m as int, name@, meta_supercategory(), None),
            text_opt(frequency) == meta_field(metas@, m as int, name@, meta_frequency(), col),
            text_opt(synset) == meta_field(metas@, m as int, name@, meta_synset(), None),
            texts_opt(synonyms) == meta_field(metas@, m as int, name@, meta_synonyms(), None),
            text_opt(def) == meta_field(metas@, m as int, name@, meta_def(), None),
        decreases metas.len() - m,
    {
        let meta = &metas[m];
        if meta.name == *name {
            if meta.supercategory.is_some() {
                supercategory = copy_text_opt(&meta.supercategory);
            }
            if meta.frequency.is_some() {
                frequency = copy_text_opt(&meta.frequency);
            }
            if meta.synset.is_some() {
                synset = copy_text_opt(&meta.synset);
            }
            if meta.synonyms.is_some() {
                synonyms = copy_texts_opt(&meta.synonyms);
            }
            if meta.def.is_some() {
                def = copy_text_opt(&meta.def);
            }
        }
        m = m + 1;
    }
    CocoCategory { id, name: name.clone(), supercategory, frequency, synset, synonyms, def }
}

/// Image `k`, made of its first row.
fn build_image(row: &SampleRow, k: usize) -> (img: CocoImage)
    requires
        k < u64::MAX,
    ensures
        image_made_of(img, k as int, *row),
{
    let (width, height) = match row.size {
        Some(s) => s,
        None => (0, 0),
    };
    CocoImage {
        id: k as u64 + 1,
        width,
        height,
        file_name: row.name.clone(),
        license: None,
        flickr_url: None,
        coco_url: None,
        date_captured: None,
        neg_category_ids: widen_opt(&row.neg_label_indices),
        not_exhaustive_category_ids: widen_opt(&row.not_exhaustive_label_indices),
    }
}

/// A copy of an optional segmentation.
fn copy_segmentation(s: &Option<CocoSegmentation>) -> (r: Option<CocoSegmentation>)
    ensures
        segmentation_view(r) == segmentation_view(*s),
{
    match s {
        Some(CocoSegmentation::Polygon(p)) => {
            let mut out: Vec<Vec<u64>> = Vec::new();
            let mut i: usize = 0;
            while i < p.len()
                invariant
                    i <= p.len(),
                    out@.len() == i,
                    forall|j: int| 0 <= j < i ==> #[trigger] out@[j]@ == p@[j]@,
                decreases p.len() - i,
            {
                let mut ring: Vec<u64> = Vec::new();
                let mut k: usize = 0;
                while k < p[i].len()
                    invariant
                        i < p.len(),
                        k <= p@[i as int].len(),
                        ring@ == p@[i as int]@.take(k as int),
                    decreases p@[i as int].len() - k,
                {
                    ring.push(p[i][k]);
                    assert(p@[i as int]@.take(k + 1) =~= p@[i as int]@.take(k as int).push(p@[i as int]@[k as int]));
                    k = k + 1;
                }
                assert(p@[i as int]@.take(p@[i as int].len() as int) =~= p@[i as int]@);
                out.push(ring);
                i = i + 1;
            }
            proof {
                assert(out@.map_values(|r: Vec<u64>| r@) =~= p@.map_values(|r: Vec<u64>| r@));
            }
            Some(CocoSegmentation::Polygon(out))
        },
        Some(CocoSegmentation::Rle(r)) => {
            let mut counts: Vec<u32> = Vec::new();
            let mut i: usize = 0;
            while i < r.counts.len()
                invariant
                    i <= r.counts.len(),
                    counts@ == r.counts@.take(i as int),
                decreases r.counts.len() - i,
            {
                counts.push(r.counts[i]);
                assert(r.counts@.take(i + 1) =~= r.counts@.take(i as int).push(r.counts@[i as int]));
                i = i + 1;
            }
            assert(r.counts@.take(r.counts.len() as int) =~= r.counts@);
            Some(CocoSegmentation::Rle(CocoRle { counts, size: r.size }))
        },
        Some(CocoSegmentation::CompressedRle(c)) => Some(
            CocoSegmentation::CompressedRle(CocoCompressedRle { counts: c.counts.clone(), size: c.size }),
        ),
        None => None,
    }
}

/// Annotation `m`, made of row `row`.
fn build_annotation(
    row: &SampleRow,
    m: usize,
    image_names: &Vec<String>,
    cat_names: &Vec<String>,
    cat_ids: &Vec<u64>,
    include_masks: bool,
) -> (a: CocoAnnotation)
    requires
        m < u64::MAX,
        cat_names.len() == cat_ids.len(),
    ensures
        annotation_from_row(
            a,
            m as int,
            *row,
            image_names@.map_values(|t: String| t@),
            requests_view_names(cat_names@),
            cat_ids@,
            include_masks,
        ),
{
    let image_id: u64 = match find_name(image_names, &row.name) {
        Some(k) => {
            assert(k < image_names.len());
            k as u64 + 1
        },
        None => 0,
    };
    let category_id: u64 = match find_name(cat_names, &row.label) {
        Some(c) => cat_ids[c],
        None => 0,
    };
    proof {
        assert(requests_view_names(cat_names@).map_values(|r: CategoryRequest| r.0) =~= cat_names@.map_values(
            |t: String| t@,
        ));
    }
    let score = match row.mask_score {
        Some(x) => Some(x),
        None => match row.polygon_score {
            Some(x) => Some(x),
            None => row.box2d_score,
        },
    };
    CocoAnnotation {
        id: m as u64 + 1,
        image_id,
        category_id,
        segmentation: if include_masks {
            copy_segmentation(&row.segmentation)
        } else {
            None
        },
        area: row.area,
        bbox: row.bbox,
        iscrowd: row.iscrowd,
        score,
    }
}

/// Requests that carry only names (the ids do not matter for lookups).
pub open spec fn requests_view_names(names: Seq<String>) -> Seq<CategoryRequest> {
    Seq::new(names.len(), |k: int| (names[k]@, None::<u64>))
}

/// The COCO dataset of an Arrow table: one image per sample name (ids
/// from 1 in order of first appearance, sized by that first row), one
/// category per label and per stored category (ids from the label index or
/// the stored id, else one past the largest so far), and one annotation
/// per row with a label (ids from 1 in row order); rows with an empty
/// label stand for an image without annotations and only carry its
/// negative and not-exhaustive label indices. Rows outside the requested
/// groups are left out.
pub fn coco_from_rows(
    rows: &Vec<SampleRow>,
    metas: &Vec<CategoryMeta>,
    labels: &Vec<String>,
    options: &ArrowToCocoOptions,
) -> (d: CocoDataset)
    ensures
        arrow_coco_outcome(rows@, metas@, labels@, *options, d),
{
    let groups = &options.groups;
    let ghost img = image_row_list(rows@, groups@, rows@.len() as int);
    let ipos = image_row_positions(rows, groups);
    proof {
        lemma_row_list_bounds(rows@, groups@);
    }
    let mut images: Vec<CocoImage> = Vec::new();
    let mut names_of_images: Vec<String> = Vec::new();
    let mut k: usize = 0;
    while k < ipos.len()
        invariant
            k <= ipos.len(),
            ipos@.map_values(|p: usize| p as int) == img,
            img == image_row_list(rows@, groups@, rows@.len() as int),
            forall|j: int| 0 <= j < img.len() ==> 0 <= #[trigger] img[j] < rows.len(),
            images@.len() == k,
            names_of_images@.len() == k,
            forall|j: int| 0 <= j < k ==> image_made_of(#[trigger] images@[j], j, rows@[img[j]]),
            forall|j: int| 0 <= j < k ==> #[trigger] names_of_images@[j]@ == rows@[img[j]].name@,
        decreases ipos.len() - k,
    {
        assert(ipos@.map_values(|p: usize| p as int)[k as int] == img[k as int]);
        let q = ipos[k];
        images.push(build_image(&rows[q], k));
        names_of_images.push(rows[q].name.clone());
        k = k + 1;
    }
    proof {
        assert(names_of_images@.map_values(|t: String| t@) =~= image_names(rows@, groups@));
    }
    let (cat_names, asked) = collect_requests(rows, groups, metas, labels);
    let ghost reqs = category_requests(rows@, groups@, metas@, labels@);
    let cat_ids = assign_ids(&asked);
    proof {
        assert(asked@ =~= reqs.map_values(|r: CategoryRequest| r.1));
        lemma_assigned_len(asked@);
    }
    let mut categories: Vec<CocoCategory> = Vec::new();
    let mut c: usize = 0;
    while c < cat_names.len()
        invariant
            c <= cat_names.len(),
            cat_names@.len() == asked@.len(),
            requests_view(cat_names@, asked@) == reqs,
            cat_ids@ == assigned_ids(reqs.map_values(|r: CategoryRequest| r.1)),
            cat_ids@.len() == cat_names@.len(),
            categories@.len() == c,
            forall|j: int|
                0 <= j < c ==> category_made_of(
                    #[trigger] categories@[j],
                    reqs[j].0,
                    cat_ids@[j],
                    rows@,
                    groups@,
                    metas@,
                ),
        decreases cat_names.len() - c,
    {
        proof {
            lemma_assigned_len(reqs.map_values(|r: CategoryRequest| r.1));
            assert(reqs[c as int].0 == cat_names@[c as int]@);
        }
        categories.push(build_category(&cat_names[c], cat_ids[c], rows, groups, metas));
        c = c + 1;
    }
    proof {
        assert(requests_view_names(cat_names@).map_values(|r: CategoryRequest| r.0) =~= reqs.map_values(
            |r: CategoryRequest| r.0,
        ));
    }
    let ghost anns_all = annotation_row_list(rows@, groups@, rows@.len() as int);
    let mut annotations: Vec<CocoAnnotation> = Vec::new();
    let mut i: usize = 0;
    while i < rows.len()
        invariant
            i <= rows.len(),
            cat_names@.len() == cat_ids@.len(),
            names_of_images@.map_values(|t: String| t@) == image_names(rows@, groups@),
            requests_view_names(cat_names@).map_values(|r: CategoryRequest| r.0) == reqs.map_values(
                |r: CategoryRequest| r.0,
            ),
            cat_ids@ == assigned_ids(reqs.map_values(|r: CategoryRequest| r.1)),
            annotations@.len() == annotation_row_list(rows@, groups@, i as int).len(),
            annotations@.len() <= i,
            forall|m: int|
                0 <= m < annotations@.len() ==> annotation_from_row(
                    #[trigger] annotations@[m],
                    m,
                    rows@[annotation_row_list(rows@, groups@, i as int)[m]],
                    image_names(rows@, groups@),
                    reqs,
                    cat_ids@,
                    options.include_masks,
                ),
        decreases rows.len() - i,
    {
        let ghost prev = annotation_row_list(rows@, groups@, i as int);
        if is_row_kept(&rows[i], groups) && !rows[i].label.as_str().is_empty() {
            let a = build_annotation(
                &rows[i],
                annotations.len(),
                &names_of_images,
                &cat_names,
                &cat_ids,
                options.include_masks,
            );
            annotations.push(a);
            proof {
                let now = annotation_row_list(rows@, groups@, i + 1);
                assert(now == prev.push(i as int));
                assert forall|m: int| 0 <= m < annotations@.len() implies annotation_from_row(
                    #[trigger] annotations@[m],
                    m,
                    rows@[now[m]],
                    image_names(rows@, groups@),
                    reqs,
                    cat_ids@,
                    options.include_masks,
                ) by {
                    if m < prev.len() {
                        assert(now[m] == prev[m]);
                    }
                }
            }
        }
        i = i + 1;
    }
    let info = match &options.info {
        Some(inf) => copy_info(inf),
        None => CocoInfo {
            description: None,
            url: None,
            version: None,
            year: None,
            contributor: None,
            date_created: None,
        },
    };
    CocoDataset { info, images, annotations, categories, licenses: Vec::new() }
}

/// Each request gets an id.
proof fn lemma_assigned_len(asked: Seq<Option<u64>>)
    ensures
        assigned_ids(asked).len() == asked.len(),
    decreases asked.len(),
{
    if asked.len() > 0 {
        lemma_assigned_len(asked.drop_last());
    }
}

/// A copy of an `info` section.
fn copy_info(i: &CocoInfo) -> (r: CocoInfo)
    ensures
        r == *i,
{
    CocoInfo {
        description: match &i.description {
            Some(t) => Some(t.clone()),
            None => None,
        },
        url: match &i.url {
            Some(t) => Some(t.clone()),
            None => None,
        },
        version: match &i.version {
            Some(t) => Some(t.clone()),
            None => None,
        },
        year: i.year,
        contributor: match &i.contributor {
            Some(t) => Some(t.clone()),
            None => None,
        },
        date_created: match &i.date_created {
            Some(t) => Some(t.clone()),
            None => None,
        },
    }
}

/// One image per sample name: the images the rows make have pairwise
/// different names, and every kept row's name is among them.
pub proof fn lemma_one_image_per_name(rows: Seq<SampleRow>, groups: Seq<String>)
    ensures
        forall|a: int, b: int|
            0 <= a < b < image_names(rows, groups).len() ==> #[trigger] image_names(rows, groups)[a]
                != #[trigger] image_names(rows, groups)[b],
        forall|i: int|
            0 <= i < rows.len() && row_kept(rows, groups, i) ==> image_names(rows, groups).contains(
                #[trigger] rows[i].name@,
            ),
{
    lemma_image_prefix(rows, groups, rows.len() as int);
    lemma_row_list_bounds(rows, groups);
    let img = image_row_list(rows, groups, rows.len() as int);
    let names = image_names(rows, groups);
    assert forall|i: int| 0 <= i < rows.len() && row_kept(rows, groups, i) implies names.contains(
        #[trigger] rows[i].name@,
    ) by {
        let k = choose|k: int| 0 <= k < img.len() && #[trigger] rows[img[k]].name@ == rows[i].name@;
        assert(names[k] == rows[img[k]].name@);
    }
}

proof fn lemma_image_prefix(rows: Seq<SampleRow>, groups: Seq<String>, n: int)
    requires
        0 <= n <= rows.len(),
    ensures
        forall|a: int, b: int|
            0 <= a < b < image_row_list(rows, groups, n).len() ==> rows[#[trigger] image_row_list(
                rows,
                groups,
                n,
            )[a]].name@ != rows[#[trigger] image_row_list(rows, groups, n)[b]].name@,
        forall|i: int|
            0 <= i < n && row_kept(rows, groups, i) ==> exists|k: int|
                0 <= k < image_row_list(rows, groups, n).len() && #[trigger] rows[image_row_list(
                    rows,
                    groups,
                    n,
                )[k]].name@ == rows[i].name@,
        forall|k: int|
            0 <= k < image_row_list(rows, groups, n).len() ==> 0 <= #[trigger] image_row_list(rows, groups, n)[k] < n
                && row_kept(rows, groups, image_row_list(rows, groups, n)[k]),
    decreases n,
{
    if n > 0 {
        lemma_image_prefix(rows, groups, n - 1);
        let p = image_row_list(rows, groups, n - 1);
        let l = image_row_list(rows, groups, n);
        let x = rows[n - 1].name@;
        if row_kept(rows, groups, n - 1) && !name_before(rows, groups, n - 1, x) {
            assert(l == p.push(n - 1));
            assert forall|a: int, b: int| 0 <= a < b < l.len() implies rows[#[trigger] l[a]].name@
                != rows[#[trigger] l[b]].name@ by {
                if b == l.len() - 1 {
                    assert(l[a] == p[a]);
                    if rows[p[a]].name@ == x {
                        assert(name_before(rows, groups, n - 1, x));
                    }
                } else {
                    assert(l[a] == p[a] && l[b] == p[b]);
                }
            }
            assert forall|i: int| 0 <= i < n && row_kept(rows, groups, i) implies exists|k: int|
                0 <= k < l.len() && #[trigger] rows[l[k]].name@ == rows[i].name@ by {
                if i < n - 1 {
                    let k = choose|k: int| 0 <= k < p.len() && #[trigger] rows[p[k]].name@ == rows[i].name@;
                    assert(l[k] == p[k]);
                } else {
                    assert(l[l.len() - 1] == n - 1);
                }
            }
            assert forall|k: int| 0 <= k < l.len() implies 0 <= #[trigger] l[k] < n && row_kept(rows, groups, l[k]) by {
                if k < p.len() {
                    assert(l[k] == p[k]);
                }
            }
        } else {
            assert(l == p);
            assert forall|i: int| 0 <= i < n && row_kept(rows, groups, i) implies exists|k: int|
                0 <= k < l.len() && #[trigger] rows[l[k]].name@ == rows[i].name@ by {
                if i == n - 1 {
                    let j = choose|j: int| 0 <= j < n - 1 && row_kept(rows, groups, j) && #[trigger] rows[j].name@ == x;
                    let k = choose|k: int| 0 <= k < p.len() && #[trigger] rows[p[k]].name@ == rows[j].name@;
                    assert(rows[l[k]].name@ == rows[i].name@);
                }
            }
        }
    }
}

/// The image size a kept row's box is scaled by: that of the first row of
/// its image (`(0, 0)` when that row has none); `(1, 1)` for a row that is
/// left out.
pub open spec fn row_scale(rows: Seq<SampleRow>, groups: Seq<String>, i: int) -> (u32, u32) {
    let img = image_row_list(rows, groups, rows.len() as int);
    match first_position(image_names(rows, groups), rows[i].name@) {
        Some(k) => match rows[img[k]].size {
            Some(s) => s,
            None => (0u32, 0u32),
        },
        None => (1u32, 1u32),
    }
}

/// The size of the image of each row (see [`row_scale`]).
pub fn row_image_sizes(rows: &Vec<SampleRow>, options: &ArrowToCocoOptions) -> (r: Vec<(u32, u32)>)
    ensures
        r@.len() == rows@.len(),
        forall|i: int| 0 <= i < rows@.len() ==> #[trigger] r@[i] == row_scale(rows@, options.groups@, i),
{
    let groups = &options.groups;
    let ghost img = image_row_list(rows@, groups@, rows@.len() as int);
    let ipos = image_row_positions(rows, groups);
    proof {
        lemma_row_list_bounds(rows@, groups@);
    }
    let mut names: Vec<String> = Vec::new();
    let mut k: usize = 0;
    while k < ipos.len()
        invariant
            k <= ipos.len(),
            ipos@.map_values(|p: usize| p as int) == img,
            img == image_row_list(rows@, groups@, rows@.len() as int),
            forall|j: int| 0 <= j < img.len() ==> 0 <= #[trigger] img[j] < rows.len(),
            names@.len() == k,
            forall|j: int| 0 <= j < k ==> #[trigger] names@[j]@ == rows@[img[j]].name@,
        decreases ipos.len() - k,
    {
        assert(ipos@.map_values(|p: usize| p as int)[k as int] == img[k as int]);
        names.push(rows[ipos[k]].name.clone());
        k = k + 1;
    }
    assert(names@.map_values(|t: String| t@) =~= image_names(rows@, groups@));
    let mut r: Vec<(u32, u32)> = Vec::new();
    let mut i: usize = 0;
    while i < rows.len()
        invariant
            i <= rows.len(),
            ipos@.map_values(|p: usize| p as int) == img,
            img == image_row_list(rows@, groups@, rows@.len() as int),
            forall|j: int| 0 <= j < img.len() ==> 0 <= #[trigger] img[j] < rows.len(),
            names@.map_values(|t: String| t@) == image_names(rows@, groups@),
            names@.len() == ipos@.len(),
            r@.len() == i,
            forall|j: int| 0 <= j < i ==> #[trigger] r@[j] == row_scale(rows@, groups@, j),
        decreases rows.len() - i,
    {
        let s = match find_name(&names, &rows[i].name) {
            Some(k) => {
                assert(ipos@.map_values(|p: usize| p as int)[k as int] == img[k as int]);
                match rows[ipos[k]].size {
                    Some(s) => s,
                    None => (0, 0),
                }
            },
            None => (1, 1),
        };
        r.push(s);
        i = i + 1;
    }
    r
}

// ---------------------------------------------------------------------------
// COCO to Arrow rows
// ---------------------------------------------------------------------------

/// The label indices of a list of category ids: the ids the dataset has a
/// category for, in order, kept to 32 bits.
pub open spec fn label_indices_of(d: CocoDataset, ids: Option<Vec<u64>>) -> Option<Seq<u32>> {
    match ids {
        Some(v) => Some(
            v@.filter(|id: u64| category_position(d.categories@, id) is Some).map_values(
                |id: u64| id as u32,
            ),
        ),
        None => None,
    }
}

/// Label indices widened to category ids.
pub open spec fn widen32(o: Option<Seq<u32>>) -> Option<Seq<u64>> {
    match o {
        Some(v) => Some(v.map_values(|x: u32| x as u64)),
        None => None,
    }
}

/// An optional list of label indices, as plain values.
pub open spec fn indices_opt(o: Option<Vec<u32>>) -> Option<Seq<u32>> {
    match o {
        Some(v) => Some(v@),
        None => None,
    }
}

/// The group text of a row: the group, or `""` without one.
pub open spec fn group_text(group: Option<Seq<char>>) -> Seq<char> {
    match group {
        Some(g) => g,
        None => Seq::empty(),
    }
}

/// What every row of `image` carries: its sample name, group, size and
/// negative and not-exhaustive label indices.
pub open spec fn row_of_image(row: SampleRow, d: CocoDataset, image: CocoImage, group: Option<Seq<char>>) -> bool {
    &&& row.name@ == sample_name(image.file_name@)
    &&& row.group@ == group_text(group)
    &&& row.size == Some((image.width, image.height))
    &&& indices_opt(row.neg_label_indices) == label_indices_of(d, image.neg_category_ids)
    &&& indices_opt(row.not_exhaustive_label_indices) == label_indices_of(
        d,
        image.not_exhaustive_category_ids,
    )
}

/// The row of annotation `a` of `image`: its category's name, index and
/// frequency, its box, area, crowd flag and (with masks) segmentation, and
/// its score under the kind of geometry it has.
pub open spec fn row_of_annotation(
    row: SampleRow,
    a: CocoAnnotation,
    d: CocoDataset,
    image: CocoImage,
    include_masks: bool,
    group: Option<Seq<char>>,
) -> bool {
    let c = d.categories@[category_position(d.categories@, a.category_id)->0];
    let seg = if include_masks {
        a.segmentation
    } else {
        None
    };
    &&& row_of_image(row, d, image, group)
    &&& row.label@ == c.name@
    &&& row.label_index == Some(a.category_id)
    &&& row.bbox == a.bbox
    &&& row.area == a.area
    &&& segmentation_view(row.segmentation) == segmentation_view(seg)
    &&& row.iscrowd == (if a.iscrowd != 0 {
        1u8
    } else {
        0u8
    })
    &&& text_opt(row.category_frequency) == text_opt(c.frequency)
    &&& row.mask_score == (if seg matches Some(CocoSegmentation::Rle(_)) || seg matches Some(
        CocoSegmentation::CompressedRle(_),
    ) {
        a.score
    } else {
        None
    })
    &&& row.polygon_score == (if seg matches Some(CocoSegmentation::Polygon(_)) {
        a.score
    } else {
        None
    })
    &&& row.box2d_score == (if seg is None {
        a.score
    } else {
        None
    })
}

/// The row that stands for `image` when it has no annotations: no label,
/// an empty box and no geometry.
pub open spec fn placeholder_row(row: SampleRow, d: CocoDataset, image: CocoImage, group: Option<Seq<char>>) -> bool {
    &&& row_of_image(row, d, image, group)
    &&& row.label@.len() == 0
    &&& row.label_index is None
    &&& row.bbox == [0u64, 0, 0, 0]
    &&& row.area == 0
    &&& row.segmentation is None
    &&& row.iscrowd == 0
    &&& row.category_frequency is None
    &&& row.mask_score is None
    &&& row.polygon_score is None
    &&& row.box2d_score is None
}

/// Whether `rows` are the rows of `image`: one per annotation whose
/// category the dataset has, in order; or, when there is none, a single
/// placeholder row if the image has negative or not-exhaustive categories,
/// and no row otherwise.
pub open spec fn rows_of_image(
    rows: Seq<SampleRow>,
    d: CocoDataset,
    image: CocoImage,
    include_masks: bool,
    group: Option<Seq<char>>,
) -> bool {
    let anns = labelled_annotations(d, image);
    if anns.len() > 0 {
        &&& rows.len() == anns.len()
        &&& forall|k: int|
            0 <= k < anns.len() ==> row_of_annotation(#[trigger] rows[k], anns[k], d, image, include_masks, group)
    } else if image.neg_category_ids is Some || image.not_exhaustive_category_ids is Some {
        rows.len() == 1 && placeholder_row(rows[0], d, image, group)
    } else {
        rows.len() == 0
    }
}

/// The label indices of a list of category ids.
fn label_indices(index: &CocoIndex, ids: &Option<Vec<u64>>) -> (r: Option<Vec<u32>>)
    ensures
        indices_opt(r) == label_indices_of(index@, *ids),
{
    match ids {
        Some(v) => {
            let ghost pred = |id: u64| category_position(index@.categories@, id) is Some;
            let mut out: Vec<u32> = Vec::new();
            let mut i: usize = 0;
            while i < v.len()
                invariant
                    i <= v.len(),
                    pred == (|id: u64| category_position(index@.categories@, id) is Some),
                    out@ == v@.take(i as int).filter(pred).map_values(|id: u64| id as u32),
                decreases v.len() - i,
            {
                proof {
                    reveal_with_fuel(Seq::<_>::filter, 1);
                    assert(v@.take(i + 1).drop_last() =~= v@.take(i as int));
                }
                let id = v[i];
                if index.label_index(id).is_some() {
                    let ghost before = out@;
                    out.push(id as u32);
                    assert(out@ =~= v@.take(i + 1).filter(pred).map_values(|id: u64| id as u32));
                } else {
                    assert(out@ =~= v@.take(i + 1).filter(pred).map_values(|id: u64| id as u32));
                }
                i = i + 1;
            }
            assert(v@.take(v.len() as int) =~= v@);
            Some(out)
        },
        None => None,
    }
}

/// A copy of a list of label indices.
fn copy_indices(o: &Option<Vec<u32>>) -> (r: Option<Vec<u32>>)
    ensures
        indices_opt(r) == indices_opt(*o),
{
    match o {
        Some(v) => {
            let mut out: Vec<u32> = Vec::new();
            let mut i: usize = 0;
            while i < v.len()
                invariant
                    i <= v.len(),
                    out@ == v@.take(i as int),
                decreases v.len() - i,
            {
                out.push(v[i]);
                assert(v@.take(i + 1) =~= v@.take(i as int).push(v@[i as int]));
                i = i + 1;
            }
            assert(v@.take(v.len() as int) =~= v@);
            Some(out)
        },
        None => None,
    }
}

/// The group text of an optional group.
fn group_string(group: Option<&str>) -> (r: String)
    ensures
        r@ == group_text(match group {
            Some(g) => Some(g@),
            None => None,
        }),
{
    match group {
        Some(g) => String::from_str(g),
        None => String::new(),
    }
}

/// The rows of a COCO image for the Arrow table (see [`rows_of_image`]).
/// A row whose segmentation then fails to convert for the table is passed
/// to [`drop_row_geometry`], which moves its score to the box.
pub fn image_rows(image: &CocoImage, index: &CocoIndex, include_masks: bool, group: Option<&str>) -> (r: Vec<SampleRow>)
    ensures
        rows_of_image(r@, index@, *image, include_masks, match group {
            Some(g) => Some(g@),
            None => None,
        }),
{
    let ghost g = match group {
        Some(g) => Some(g@),
        None => None::<Seq<char>>,
    };
    let name = sample_name_from_filename(image.file_name.as_str());
    let neg = label_indices(index, &image.neg_category_ids);
    let not_exhaustive = label_indices(index, &image.not_exhaustive_category_ids);
    let anns = index.annotations_for_image(image.id);
    let ghost all = anns@.map_values(|a: &CocoAnnotation| *a);
    let ghost keep = |a: CocoAnnotation| category_position(index@.categories@, a.category_id) is Some;
    let mut rows: Vec<SampleRow> = Vec::new();
    let mut i: usize = 0;
    while i < anns.len()
        invariant
            i <= anns.len(),
            all == anns@.map_values(|a: &CocoAnnotation| *a),
            all == index@.annotations@.filter(|a: CocoAnnotation| a.image_id == image.id),
            keep == (|a: CocoAnnotation| category_position(index@.categories@, a.category_id) is Some),
            name@ == sample_name(image.file_name@),
            g == (match group {
                Some(g) => Some(g@),
                None => None::<Seq<char>>,
            }),
            indices_opt(neg) == label_indices_of(index@, image.neg_category_ids),
            indices_opt(not_exhaustive) == label_indices_of(index@, image.not_exhaustive_category_ids),
            rows@.len() == all.take(i as int).filter(keep).len(),
            forall|k: int|
                0 <= k < rows@.len() ==> row_of_annotation(
                    #[trigger] rows@[k],
                    all.take(i as int).filter(keep)[k],
                    index@,
                    *image,
                    include_masks,
                    g,
                ),
        decreases anns.len() - i,
    {
        proof {
            reveal_with_fuel(Seq::<_>::filter, 1);
            assert(all.take(i + 1).drop_last() =~= all.take(i as int));
            assert(all[i as int] == *anns@[i as int]);
        }
        let a = anns[i];
        match index.category(a.category_id) {
            Some(c) => {
                let seg = if include_masks {
                    copy_segmentation(&a.segmentation)
                } else {
                    None
                };
                let (mask_score, polygon_score, box2d_score) = match &seg {
                    Some(CocoSegmentation::Polygon(_)) => (None, a.score, None),
                    Some(_) => (a.score, None, None),
                    None => (None, None, a.score),
                };
                let row = SampleRow {
                    name: name.clone(),
                    group: group_string(group),
                    label: c.name.clone(),
                    label_index: Some(a.category_id),
                    size: Some((image.width, image.height)),
                    bbox: a.bbox,
                    area: a.area,
                    segmentation: seg,
                    iscrowd: if a.iscrowd != 0 {
                        1
                    } else {
                        0
                    },
                    box2d_score,
                    polygon_score,
                    mask_score,
                    category_frequency: copy_text_opt(&c.frequency),
                    neg_label_indices: copy_indices(&neg),
                    not_exhaustive_label_indices: copy_indices(&not_exhaustive),
                };
                let ghost before = rows@;
                rows.push(row);
                proof {
                    let f = all.take(i + 1).filter(keep);
                    assert(f == all.take(i as int).filter(keep).push(all[i as int]));
                    assert forall|k: int| 0 <= k < rows@.len() implies row_of_annotation(
                        #[trigger] rows@[k],
                        f[k],
                        index@,
                        *image,
                        include_masks,
                        g,
                    ) by {
                        if k < before.len() {
                            assert(rows@[k] == before[k]);
                        }
                    }
                }
            },
            None => {
                assert(all.take(i + 1).filter(keep) == all.take(i as int).filter(keep));
            },
        }
        i = i + 1;
    }
    proof {
        assert(all.take(anns.len() as int) =~= all);
        assert(labelled_annotations(index@, *image) == all.filter(keep));
    }
    if rows.len() == 0 && (image.neg_category_ids.is_some() || image.not_exhaustive_category_ids.is_some()) {
        rows.push(
            SampleRow {
                name: name.clone(),
                group: group_string(group),
                label: String::new(),
                label_index: None,
                size: Some((image.width, image.height)),
                bbox: [0, 0, 0, 0],
                area: 0,
                segmentation: None,
                iscrowd: 0,
                box2d_score: None,
                polygon_score: None,
                mask_score: None,
                category_frequency: None,
                neg_label_indices: neg,
                not_exhaustive_label_indices: not_exhaustive,
            },
        );
    }
    rows
}

/// A row whose segmentation did not convert for the table: the
/// segmentation is dropped and the row's score moves to its box, as for an
/// annotation without geometry.
pub fn drop_row_geometry(row: &mut SampleRow)
    ensures
        final(row).segmentation is None,
        final(row).box2d_score == row_score(*old(row)),
        final(row).mask_score is None,
        final(row).polygon_score is None,
        final(row).name == old(row).name,
        final(row).group == old(row).group,
        final(row).label == old(row).label,
        final(row).label_index == old(row).label_index,
        final(row).size == old(row).size,
        final(row).bbox == old(row).bbox,
        final(row).area == old(row).area,
        final(row).iscrowd == old(row).iscrowd,
        final(row).category_frequency == old(row).category_frequency,
        final(row).neg_label_indices == old(row).neg_label_indices,
        final(row).not_exhaustive_label_indices == old(row).not_exhaustive_label_indices,
{
    let score = match row.mask_score {
        Some(x) => Some(x),
        None => match row.polygon_score {
            Some(x) => Some(x),
            None => row.box2d_score,
        },
    };
    row.segmentation = None;
    row.mask_score = None;
    row.polygon_score = None;
    row.box2d_score = score;
}

proof fn lemma_one_name_one_image(rows: Seq<SampleRow>, n: int)
    requires
        0 <= n <= rows.len(),
        forall|i: int| 0 <= i < rows.len() ==> #[trigger] rows[i].name@ == rows[0].name@,
    ensures
        image_row_list(rows, Seq::empty(), n) == (if n > 0 {
            seq![0int]
        } else {
            Seq::<int>::empty()
        }),
    decreases n,
{
    if n > 0 {
        lemma_one_name_one_image(rows, n - 1);
        if n > 1 {
            assert(row_kept(rows, Seq::empty(), 0));
            assert(rows[0].name@ == rows[n - 1].name@);
            assert(name_before(rows, Seq::empty(), n - 1, rows[n - 1].name@));
        } else {
            assert(image_row_list(rows, Seq::empty(), 0) =~= Seq::<int>::empty());
            assert(!name_before(rows, Seq::empty(), 0, rows[0].name@));
            assert(Seq::<int>::empty().push(0) =~= seq![0int]);
        }
    }
}

proof fn lemma_labelled_rows_all_annotate(rows: Seq<SampleRow>, n: int)
    requires
        0 <= n <= rows.len(),
        forall|i: int| 0 <= i < rows.len() ==> #[trigger] rows[i].label@.len() > 0,
    ensures
        annotation_row_list(rows, Seq::empty(), n) == Seq::new(n as nat, |i: int| i),
    decreases n,
{
    if n > 0 {
        lemma_labelled_rows_all_annotate(rows, n - 1);
        assert(rows[n - 1].label@.len() > 0);
        assert(Seq::new((n - 1) as nat, |i: int| i).push(n - 1) =~= Seq::new(n as nat, |i: int| i));
    } else {
        assert(Seq::new(0, |i: int| i) =~= Seq::<int>::empty());
    }
}

/// The conversions of a round trip: `rows` are the rows of `image`, and
/// `back` is what all of them (no group filter, no stored metadata) make.
pub open spec fn round_trip(
    rows: Seq<SampleRow>,
    d: CocoDataset,
    image: CocoImage,
    include_masks: bool,
    group: Option<Seq<char>>,
    options: ArrowToCocoOptions,
    back: CocoDataset,
) -> bool {
    &&& rows_of_image(rows, d, image, include_masks, group)
    &&& rows.len() > 0
    &&& options.groups@.len() == 0
    &&& options.include_masks == include_masks
    &&& arrow_coco_outcome(rows, Seq::empty(), Seq::empty(), options, back)
}

/// Whether every annotation of `image` of a known category has a category
/// with a non-empty name.
pub open spec fn labels_named(d: CocoDataset, image: CocoImage) -> bool {
    forall|k: int|
        0 <= k < labelled_annotations(d, image).len() ==> d.categories@[category_position(
            d.categories@,
            #[trigger] labelled_annotations(d, image)[k].category_id,
        )->0].name@.len() > 0
}

/// Annotation `a` came back from annotation `orig` at position `m`.
pub open spec fn annotation_came_back(a: CocoAnnotation, m: int, orig: CocoAnnotation, include_masks: bool) -> bool {
    &&& a.id == m + 1
    &&& a.image_id == 1
    &&& a.bbox == orig.bbox
    &&& a.area == orig.area
    &&& a.iscrowd == (if orig.iscrowd != 0 {
        1u8
    } else {
        0u8
    })
    &&& a.score == orig.score
    &&& segmentation_view(a.segmentation) == segmentation_view(
        if include_masks {
            orig.segmentation
        } else {
            None
        },
    )
}

proof fn lemma_round_trip_rows(
    rows: Seq<SampleRow>,
    d: CocoDataset,
    image: CocoImage,
    include_masks: bool,
    group: Option<Seq<char>>,
)
    requires
        rows_of_image(rows, d, image, include_masks, group),
        rows.len() > 0,
    ensures
        forall|i: int| 0 <= i < rows.len() ==> #[trigger] rows[i].name@ == rows[0].name@,
        row_of_image(rows[0], d, image, group),
        image_row_list(rows, Seq::empty(), rows.len() as int) == seq![0int],
{
    let anns = labelled_annotations(d, image);
    assert forall|i: int| 0 <= i < rows.len() implies #[trigger] rows[i].name@ == rows[0].name@ by {
        if anns.len() > 0 {
            assert(row_of_annotation(rows[i], anns[i], d, image, include_masks, group));
            assert(row_of_annotation(rows[0], anns[0], d, image, include_masks, group));
        }
    }
    if anns.len() > 0 {
        assert(row_of_annotation(rows[0], anns[0], d, image, include_masks, group));
    }
    lemma_one_name_one_image(rows, rows.len() as int);
}

proof fn lemma_round_trip_images(
    rows: Seq<SampleRow>,
    d: CocoDataset,
    image: CocoImage,
    include_masks: bool,
    group: Option<Seq<char>>,
    options: ArrowToCocoOptions,
    back: CocoDataset,
)
    requires
        round_trip(rows, d, image, include_masks, group, options, back),
    ensures
        back.images@.len() == 1,
        back.images@[0].id == 1,
        back.images@[0].file_name@ == sample_name(image.file_name@),
        back.images@[0].width == image.width,
        back.images@[0].height == image.height,
        ids_opt(back.images@[0].neg_category_ids) == widen32(label_indices_of(d, image.neg_category_ids)),
        ids_opt(back.images@[0].not_exhaustive_category_ids) == widen32(
            label_indices_of(d, image.not_exhaustive_category_ids),
        ),
{
    assert(options.groups@ =~= Seq::<String>::empty());
    lemma_round_trip_rows(rows, d, image, include_masks, group);
    assert(image_made_of(back.images@[0], 0, rows[0]));
}

proof fn lemma_annotation_from_its_row(
    a: CocoAnnotation,
    m: int,
    row: SampleRow,
    orig: CocoAnnotation,
    d: CocoDataset,
    image: CocoImage,
    include_masks: bool,
    group: Option<Seq<char>>,
    names: Seq<Seq<char>>,
    reqs: Seq<CategoryRequest>,
    ids: Seq<u64>,
)
    requires
        annotation_from_row(a, m, row, names, reqs, ids, include_masks),
        row_of_annotation(row, orig, d, image, include_masks, group),
        first_position(names, row.name@) == Some(0int),
    ensures
        annotation_came_back(a, m, orig, include_masks),
{
}

proof fn lemma_first_of_one(x: Seq<char>)
    ensures
        first_position(seq![x], x) == Some(0int),
{
    assert(seq![x].drop_last() =~= Seq::<Seq<char>>::empty());
    assert(first_position(Seq::<Seq<char>>::empty(), x) is None);
}

proof fn lemma_rows_come_back(
    rows: Seq<SampleRow>,
    anns: Seq<CocoAnnotation>,
    d: CocoDataset,
    image: CocoImage,
    include_masks: bool,
    group: Option<Seq<char>>,
    back_anns: Seq<CocoAnnotation>,
    names: Seq<Seq<char>>,
    reqs: Seq<CategoryRequest>,
    ids: Seq<u64>,
)
    requires
        rows.len() == anns.len(),
        rows.len() > 0,
        first_position(names, rows[0].name@) == Some(0int),
        forall|i: int| 0 <= i < rows.len() ==> #[trigger] rows[i].name@ == rows[0].name@,
        forall|k: int|
            0 <= k < anns.len() ==> row_of_annotation(#[trigger] rows[k], anns[k], d, image, include_masks, group),
        forall|m: int|
            0 <= m < rows.len() ==> annotation_from_row(
                #[trigger] back_anns[m],
                m,
                rows[m],
                names,
                reqs,
                ids,
                include_masks,
            ),
    ensures
        forall|m: int|
            0 <= m < anns.len() ==> annotation_came_back(#[trigger] back_anns[m], m, anns[m], include_masks),
{
    assert forall|m: int| 0 <= m < anns.len() implies annotation_came_back(
        #[trigger] back_anns[m],
        m,
        anns[m],
        include_masks,
    ) by {
        assert(rows[m].name@ == rows[0].name@);
        lemma_annotation_from_its_row(
            back_anns[m],
            m,
            rows[m],
            anns[m],
            d,
            image,
            include_masks,
            group,
            names,
            reqs,
            ids,
        );
    }
}

proof fn lemma_round_trip_annotations(
    rows: Seq<SampleRow>,
    d: CocoDataset,
    image: CocoImage,
    include_masks: bool,
    group: Option<Seq<char>>,
    options: ArrowToCocoOptions,
    back: CocoDataset,
)
    requires
        round_trip(rows, d, image, include_masks, group, options, back),
        labelled_annotations(d, image).len() > 0,
        labels_named(d, image),
    ensures
        back.annotations@.len() == labelled_annotations(d, image).len(),
        forall|m: int|
            0 <= m < labelled_annotations(d, image).len() ==> annotation_came_back(
                #[trigger] back.annotations@[m],
                m,
                labelled_annotations(d, image)[m],
                include_masks,
            ),
{
    let groups = options.groups@;
    assert(groups =~= Seq::<String>::empty());
    let anns = labelled_annotations(d, image);
    lemma_round_trip_rows(rows, d, image, include_masks, group);
    let names = image_names(rows, groups);
    assert(names =~= seq![rows[0].name@]);
    lemma_first_of_one(rows[0].name@);
    assert forall|i: int| 0 <= i < rows.len() implies #[trigger] rows[i].label@.len() > 0 by {
        assert(row_of_annotation(rows[i], anns[i], d, image, include_masks, group));
        assert(d.categories@[category_position(d.categories@, anns[i].category_id)->0].name@.len() > 0);
    }
    lemma_labelled_rows_all_annotate(rows, rows.len() as int);
    let al = annotation_row_list(rows, groups, rows.len() as int);
    let reqs = category_requests(rows, groups, Seq::empty(), Seq::empty());
    let ids = assigned_ids(reqs.map_values(|r: CategoryRequest| r.1));
    let back_anns = back.annotations@;
    assert forall|m: int| 0 <= m < rows.len() implies annotation_from_row(
        #[trigger] back_anns[m],
        m,
        rows[m],
        names,
        reqs,
        ids,
        include_masks,
    ) by {
        assert(al[m] == m);
    }
    lemma_rows_come_back(rows, anns, d, image, include_masks, group, back_anns, names, reqs, ids);
}

proof fn lemma_first_position_found(names: Seq<Seq<char>>, name: Seq<char>)
    ensures
        match first_position(names, name) {
            Some(k) => 0 <= k < names.len() && names[k] == name,
            None => forall|k: int| 0 <= k < names.len() ==> #[trigger] names[k] != name,
        },
    decreases names.len(),
{
    if names.len() > 0 {
        lemma_first_position_found(names.drop_last(), name);
        assert forall|k: int| 0 <= k < names.len() - 1 implies #[trigger] names[k] == names.drop_last()[k] by {}
    }
}

proof fn lemma_assigned_given(asked: Seq<Option<u64>>)
    requires
        forall|c: int| 0 <= c < asked.len() ==> #[trigger] asked[c] is Some,
    ensures
        assigned_ids(asked).len() == asked.len(),
        forall|c: int| 0 <= c < asked.len() ==> #[trigger] assigned_ids(asked)[c] == asked[c]->0,
    decreases asked.len(),
{
    if asked.len() > 0 {
        let p = asked.drop_last();
        assert forall|c: int| 0 <= c < p.len() implies #[trigger] p[c] is Some by {
            assert(p[c] == asked[c]);
        }
        lemma_assigned_given(p);
        assert(asked.last() is Some);
        assert forall|c: int| 0 <= c < asked.len() implies #[trigger] assigned_ids(asked)[c] == asked[c]->0 by {
            if c < asked.len() - 1 {
                assert(p[c] == asked[c]);
            }
        }
    }
}

proof fn lemma_label_list_covers(rows: Seq<SampleRow>, n: int)
    requires
        0 <= n <= rows.len(),
    ensures
        forall|i: int|
            0 <= i < n && rows[i].label@.len() > 0 ==> exists|k: int|
                0 <= k < label_row_list(rows, Seq::empty(), n).len() && #[trigger] rows[label_row_list(
                    rows,
                    Seq::empty(),
                    n,
                )[k]].label@ == #[trigger] rows[i].label@,
    decreases n,
{
    if n > 0 {
        let groups = Seq::<String>::empty();
        lemma_label_list_covers(rows, n - 1);
        let l = label_row_list(rows, groups, n);
        let lp = label_row_list(rows, groups, n - 1);
        assert forall|i: int| 0 <= i < n && rows[i].label@.len() > 0 implies exists|k: int|
            0 <= k < l.len() && #[trigger] rows[l[k]].label@ == #[trigger] rows[i].label@ by {
            if i < n - 1 {
                let k = choose|k: int| 0 <= k < lp.len() && #[trigger] rows[lp[k]].label@ == rows[i].label@;
                assert(l[k] == lp[k]);
            } else if label_before(rows, groups, n - 1, rows[i].label@) {
                let j = choose|j: int|
                    0 <= j < n - 1 && row_kept(rows, groups, j) && rows[j].label@.len() > 0
                        && #[trigger] rows[j].label@ == rows[i].label@;
                assert(rows[j].label@ == rows[j].label@);
                let k = choose|k: int| 0 <= k < lp.len() && #[trigger] rows[lp[k]].label@ == rows[j].label@;
                assert(l[k] == lp[k]);
            } else {
                assert(l[lp.len() as int] == n - 1);
            }
        }
    }
}

/// Whether no two categories of `d` share a name.
pub open spec fn category_names_distinct(d: CocoDataset) -> bool {
    forall|i: int, j: int|
        0 <= i < j < d.categories@.len() ==> #[trigger] d.categories@[i].name@ != #[trigger] d.categories@[j].name@
}

/// The category of annotation `orig` came back as the category of `a`:
/// `back` has a category of the same name whose id is `a`'s category id,
/// the low 32 bits of the id of `orig`'s category.
pub open spec fn category_came_back(a: CocoAnnotation, orig: CocoAnnotation, d: CocoDataset, back: CocoDataset) -> bool {
    &&& a.category_id == low32(orig.category_id)
    &&& exists|c: int|
        0 <= c < back.categories@.len() && #[trigger] back.categories@[c].id == a.category_id
            && back.categories@[c].name@ == d.categories@[category_position(
            d.categories@,
            orig.category_id,
        )->0].name@
}

proof fn lemma_label_request_of_row(rows: Seq<SampleRow>, m: int)
    requires
        0 <= m < rows.len(),
        rows[m].label@.len() > 0,
    ensures
        ({
            let ll = label_row_list(rows, Seq::empty(), rows.len() as int);
            let reqs = label_requests(rows, Seq::empty());
            let names = reqs.map_values(|r: CategoryRequest| r.0);
            &&& first_position(names, rows[m].label@) is Some
            &&& 0 <= first_position(names, rows[m].label@)->0 < reqs.len()
            &&& 0 <= ll[first_position(names, rows[m].label@)->0] < rows.len()
            &&& rows[ll[first_position(names, rows[m].label@)->0]].label@ == rows[m].label@
            &&& reqs[first_position(names, rows[m].label@)->0].1 == match rows[ll[first_position(
                names,
                rows[m].label@,
            )->0]].label_index {
                Some(x) => Some(low32(x)),
                None => None,
            }
        }),
{
    let groups = Seq::<String>::empty();
    lemma_label_list_covers(rows, rows.len() as int);
    lemma_row_list_bounds(rows, groups);
    let ll = label_row_list(rows, groups, rows.len() as int);
    let reqs = label_requests(rows, groups);
    let names = reqs.map_values(|r: CategoryRequest| r.0);
    let x = rows[m].label@;
    assert(rows[m].label@ == x);
    let k = choose|k: int| 0 <= k < ll.len() && #[trigger] rows[ll[k]].label@ == rows[m].label@;
    assert(names[k] == x);
    lemma_first_position_found(names, x);
    let c = first_position(names, x)->0;
    assert(names[c] == rows[ll[c]].label@);
}

proof fn lemma_first_with_id(cats: Seq<CocoCategory>, id: u64, i: int)
    requires
        0 <= i < cats.len(),
        cats[i].id == id,
    ensures
        exists|j: int|
            0 <= j < cats.len() && #[trigger] cats[j].id == id && forall|k: int| 0 <= k < j ==> cats[k].id != id,
    decreases i,
{
    if exists|k: int| 0 <= k < i && #[trigger] cats[k].id == id {
        let k = choose|k: int| 0 <= k < i && #[trigger] cats[k].id == id;
        lemma_first_with_id(cats, id, k);
    } else {
        assert(forall|k: int| 0 <= k < i ==> cats[k].id != id);
    }
}

/// A found category position holds a category of that id.
proof fn lemma_category_position_found(cats: Seq<CocoCategory>, id: u64)
    requires
        category_position(cats, id) is Some,
    ensures
        0 <= category_position(cats, id)->0 < cats.len(),
        cats[category_position(cats, id)->0].id == id,
{
    let i = choose|i: int| 0 <= i < cats.len() && #[trigger] cats[i].id == id;
    lemma_first_with_id(cats, id, i);
}

/// Row `row` carries the category of annotation `a`: its name as the
/// label and its id as the label index.
pub open spec fn row_names_category(row: SampleRow, a: CocoAnnotation, d: CocoDataset) -> bool {
    &&& row.label@ == d.categories@[category_position(d.categories@, a.category_id)->0].name@
    &&& row.label_index == Some(a.category_id)
}

proof fn lemma_same_label_same_category(rm: SampleRow, rq: SampleRow, am: CocoAnnotation, aq: CocoAnnotation, d: CocoDataset)
    requires
        row_names_category(rm, am, d),
        row_names_category(rq, aq, d),
        category_position(d.categories@, am.category_id) is Some,
        category_position(d.categories@, aq.category_id) is Some,
        category_names_distinct(d),
        rm.label@ == rq.label@,
    ensures
        am.category_id == aq.category_id,
{
    let cats = d.categories@;
    let pm = category_position(cats, am.category_id)->0;
    let pq = category_position(cats, aq.category_id)->0;
    lemma_category_position_found(cats, am.category_id);
    lemma_category_position_found(cats, aq.category_id);
    assert(pm == pq) by {
        if pm < pq {
            assert(cats[pm].name@ != cats[pq].name@);
        } else if pq < pm {
            assert(cats[pq].name@ != cats[pm].name@);
        }
    }
}

proof fn lemma_category_of_annotation(
    m: int,
    rows: Seq<SampleRow>,
    anns: Seq<CocoAnnotation>,
    d: CocoDataset,
    image: CocoImage,
    include_masks: bool,
    group: Option<Seq<char>>,
    back: CocoDataset,
    inames: Seq<Seq<char>>,
    ids: Seq<u64>,
)
    requires
        0 <= m < anns.len(),
        rows.len() == anns.len(),
        forall|k: int|
            0 <= k < anns.len() ==> row_names_category(#[trigger] rows[k], anns[k], d) && rows[k].label@.len() > 0,
        forall|k: int| 0 <= k < anns.len() ==> (category_position(d.categories@, #[trigger] anns[k].category_id) is Some),
        category_names_distinct(d),
        ids.len() == label_requests(rows, Seq::empty()).len(),
        forall|c: int|
            0 <= c < ids.len() ==> #[trigger] ids[c] == label_requests(rows, Seq::empty())[c].1->0,
        annotation_from_row(
            back.annotations@[m],
            m,
            rows[m],
            inames,
            label_requests(rows, Seq::empty()),
            ids,
            include_masks,
        ),
        back.categories@.len() == ids.len(),
        forall|c: int|
            0 <= c < ids.len() ==> category_made_of(
                #[trigger] back.categories@[c],
                label_requests(rows, Seq::empty())[c].0,
                ids[c],
                rows,
                Seq::empty(),
                Seq::empty(),
            ),
    ensures
        category_came_back(back.annotations@[m], anns[m], d, back),
{
    let groups = Seq::<String>::empty();
    let ll = label_row_list(rows, groups, rows.len() as int);
    let reqs = label_requests(rows, groups);
    let names = reqs.map_values(|r: CategoryRequest| r.0);
    assert(row_names_category(rows[m], anns[m], d));
    assert(category_position(d.categories@, anns[m].category_id) is Some);
    lemma_category_position_found(d.categories@, anns[m].category_id);
    assert(rows[m].label@.len() > 0);
    lemma_label_request_of_row(rows, m);
    let c = first_position(names, rows[m].label@)->0;
    let q = ll[c];
    assert(row_names_category(rows[q], anns[q], d));
    assert(category_position(d.categories@, anns[q].category_id) is Some);
    lemma_same_label_same_category(rows[m], rows[q], anns[m], anns[q], d);
    assert(ids[c] == reqs[c].1->0);
    assert(category_made_of(back.categories@[c], reqs[c].0, ids[c], rows, groups, Seq::empty()));
}

proof fn lemma_round_trip_categories(
    rows: Seq<SampleRow>,
    d: CocoDataset,
    image: CocoImage,
    include_masks: bool,
    group: Option<Seq<char>>,
    options: ArrowToCocoOptions,
    back: CocoDataset,
)
    requires
        round_trip(rows, d, image, include_masks, group, options, back),
        labelled_annotations(d, image).len() > 0,
        labels_named(d, image),
        category_names_distinct(d),
    ensures
        forall|m: int|
            0 <= m < labelled_annotations(d, image).len() ==> category_came_back(
                #[trigger] back.annotations@[m],
                labelled_annotations(d, image)[m],
                d,
                back,
            ),
{
    let groups = options.groups@;
    assert(groups =~= Seq::<String>::empty());
    let anns = labelled_annotations(d, image);
    lemma_round_trip_annotations(rows, d, image, include_masks, group, options, back);
    lemma_labelled_rows_all_annotate(rows, rows.len() as int);
    lemma_row_list_bounds(rows, groups);
    let al = annotation_row_list(rows, groups, rows.len() as int);
    let ll = label_row_list(rows, groups, rows.len() as int);
    let reqs = category_requests(rows, groups, Seq::empty(), Seq::empty());
    assert(reqs == label_requests(rows, groups));
    let asked = reqs.map_values(|r: CategoryRequest| r.1);
    let ids = assigned_ids(asked);
    let outer = d.annotations@.filter(|a: CocoAnnotation| a.image_id == image.id);
    let known = |a: CocoAnnotation| category_position(d.categories@, a.category_id) is Some;
    assert forall|k: int| 0 <= k < anns.len() implies (category_position(
        d.categories@,
        #[trigger] anns[k].category_id,
    ) is Some) by {
        outer.lemma_filter_pred(known, k);
    }
    assert forall|c: int| 0 <= c < asked.len() implies #[trigger] asked[c] is Some by {
        let q = ll[c];
        assert(row_of_annotation(rows[q], anns[q], d, image, include_masks, group));
    }
    lemma_assigned_given(asked);
    assert forall|c: int| 0 <= c < ids.len() implies #[trigger] ids[c] == reqs[c].1->0 by {
        assert(asked[c] == reqs[c].1);
    }
    assert forall|k: int| 0 <= k < anns.len() implies row_names_category(#[trigger] rows[k], anns[k], d)
        && rows[k].label@.len() > 0 by {
        assert(row_of_annotation(rows[k], anns[k], d, image, include_masks, group));
    }
    let inames = image_names(rows, groups);
    assert forall|m: int| 0 <= m < anns.len() implies annotation_from_row(
        #[trigger] back.annotations@[m],
        m,
        rows[m],
        inames,
        reqs,
        ids,
        include_masks,
    ) by {
        assert(al[m] == m);
    }
    assert forall|m: int| 0 <= m < anns.len() implies category_came_back(
        #[trigger] back.annotations@[m],
        anns[m],
        d,
        back,
    ) by {
        lemma_category_of_annotation(m, rows, anns, d, image, include_masks, group, back, inames, ids);
    }
}

/// COCO to rows and back keeps an image: converting the rows of one COCO
/// image (all groups, no stored metadata) gives back one image, named after
/// the image file's stem, of the image's size and with those of its
/// negative and not-exhaustive categories that the dataset has; an image
/// with only such categories gives back no annotation; and, when every
/// category of its annotations has a name, one annotation per annotation of
/// a known category, in order, on that image, with the same box, area,
/// crowd flag, score and (with masks) segmentation; and, when moreover no
/// two categories share a name, each annotation's category comes back with
/// its name, under the low 32 bits of its id.
pub proof fn lemma_image_round_trip(
    rows: Seq<SampleRow>,
    d: CocoDataset,
    image: CocoImage,
    include_masks: bool,
    group: Option<Seq<char>>,
    options: ArrowToCocoOptions,
    back: CocoDataset,
)
    requires
        round_trip(rows, d, image, include_masks, group, options, back),
    ensures
        back.images@.len() == 1,
        back.images@[0].id == 1,
        back.images@[0].file_name@ == sample_name(image.file_name@),
        back.images@[0].width == image.width,
        back.images@[0].height == image.height,
        ids_opt(back.images@[0].neg_category_ids) == widen32(label_indices_of(d, image.neg_category_ids)),
        ids_opt(back.images@[0].not_exhaustive_category_ids) == widen32(
            label_indices_of(d, image.not_exhaustive_category_ids),
        ),
        labelled_annotations(d, image).len() == 0 ==> back.annotations@.len() == 0,
        labels_named(d, image) ==> back.annotations@.len() == labelled_annotations(d, image).len(),
        labels_named(d, image) ==> forall|m: int|
            0 <= m < labelled_annotations(d, image).len() ==> annotation_came_back(
                #[trigger] back.annotations@[m],
                m,
                labelled_annotations(d, image)[m],
                include_masks,
            ),
        labels_named(d, image) && category_names_distinct(d) ==> forall|m: int|
            0 <= m < labelled_annotations(d, image).len() ==> category_came_back(
                #[trigger] back.annotations@[m],
                labelled_annotations(d, image)[m],
                d,
                back,
            ),
{
    lemma_round_trip_images(rows, d, image, include_masks, group, options, back);
    let groups = options.groups@;
    assert(groups =~= Seq::<String>::empty());
    if labelled_annotations(d, image).len() == 0 {
        assert(placeholder_row(rows[0], d, image, group));
        assert(annotation_row_list(rows, groups, 0) =~= Seq::<int>::empty());
        assert(annotation_row_list(rows, groups, 1) =~= Seq::<int>::empty());
    } else if labels_named(d, image) {
        lemma_round_trip_annotations(rows, d, image, include_masks, group, options, back);
        if category_names_distinct(d) {
            lemma_round_trip_categories(rows, d, image, include_masks, group, options, back);
        }
    }
}

/// Whether `m` is the metadata stored for category `c`: its name, id,
/// supercategory and LVIS fields.
pub open spec fn meta_of(m: CategoryMeta, c: CocoCategory) -> bool {
    &&& m.name@ == c.name@
    &&& m.id == Some(c.id)
    &&& text_opt(m.supercategory) == text_opt(c.supercategory)
    &&& text_opt(m.synset) == text_opt(c.synset)
    &&& text_opt(m.frequency) == text_opt(c.frequency)
    &&& texts_opt(m.synonyms) == texts_opt(c.synonyms)
    &&& text_opt(m.def) == text_opt(c.def)
}

/// Whether category `j` is the last of its name among the first `n`.
pub open spec fn last_of_name(cats: Seq<CocoCategory>, j: int, n: int) -> bool {
    &&& 0 <= j < n
    &&& forall|k: int| j < k < n ==> #[trigger] cats[k].name@ != cats[j].name@
}

/// Whether `metas` is the metadata of the first `n` categories: one entry
/// per name, that of the last category of the name.
pub open spec fn metadata_of(metas: Seq<CategoryMeta>, cats: Seq<CocoCategory>, n: int) -> bool {
    &&& forall|k1: int, k2: int|
        0 <= k1 < k2 < metas.len() ==> #[trigger] metas[k1].name@ != #[trigger] metas[k2].name@
    &&& forall|i: int|
        0 <= i < n ==> exists|k: int| 0 <= k < metas.len() && #[trigger] metas[k].name@ == #[trigger] cats[i].name@
    &&& forall|k: int|
        0 <= k < metas.len() ==> exists|j: int| #[trigger] last_of_name(cats, j, n) && meta_of(#[trigger] metas[k], cats[j])
}

/// The metadata stored for one category.
fn meta_for(c: &CocoCategory) -> (m: CategoryMeta)
    ensures
        meta_of(m, *c),
{
    CategoryMeta {
        name: c.name.clone(),
        id: Some(c.id),
        supercategory: copy_text_opt(&c.supercategory),
        synset: copy_text_opt(&c.synset),
        frequency: copy_text_opt(&c.frequency),
        synonyms: copy_texts_opt(&c.synonyms),
        def: copy_text_opt(&c.def),
    }
}

proof fn lemma_metadata_replace(old_r: Seq<CategoryMeta>, cats: Seq<CocoCategory>, i: int, p: int, m: CategoryMeta)
    requires
        0 <= i < cats.len(),
        0 <= p < old_r.len(),
        metadata_of(old_r, cats, i),
        old_r[p].name@ == cats[i].name@,
        meta_of(m, cats[i]),
    ensures
        metadata_of(old_r.update(p, m), cats, i + 1),
{
    let r = old_r.update(p, m);
    assert forall|k1: int, k2: int| 0 <= k1 < k2 < r.len() implies #[trigger] r[k1].name@ != #[trigger] r[k2].name@ by {
        assert(old_r[k1].name@ != old_r[k2].name@);
    }
    assert forall|j: int| 0 <= j < i + 1 implies exists|k: int|
        0 <= k < r.len() && #[trigger] r[k].name@ == #[trigger] cats[j].name@ by {
        if j < i {
            let k = choose|k: int| 0 <= k < old_r.len() && #[trigger] old_r[k].name@ == cats[j].name@;
            assert(r[k].name@ == old_r[k].name@);
        } else {
            assert(r[p].name@ == cats[j].name@);
        }
    }
    assert forall|k: int| 0 <= k < r.len() implies exists|j: int|
        #[trigger] last_of_name(cats, j, i + 1) && meta_of(#[trigger] r[k], cats[j]) by {
        if k == p {
            assert(last_of_name(cats, i, i + 1));
        } else {
            let j = choose|j: int| #[trigger] last_of_name(cats, j, i) && meta_of(old_r[k], cats[j]);
            assert(old_r[k].name@ != old_r[p].name@);
            assert(last_of_name(cats, j, i + 1));
        }
    }
}

proof fn lemma_metadata_push(old_r: Seq<CategoryMeta>, cats: Seq<CocoCategory>, i: int, m: CategoryMeta)
    requires
        0 <= i < cats.len(),
        metadata_of(old_r, cats, i),
        forall|q: int| 0 <= q < old_r.len() ==> old_r[q].name@ != cats[i].name@,
        meta_of(m, cats[i]),
    ensures
        metadata_of(old_r.push(m), cats, i + 1),
{
    let r = old_r.push(m);
    assert forall|k1: int, k2: int| 0 <= k1 < k2 < r.len() implies #[trigger] r[k1].name@ != #[trigger] r[k2].name@ by {
        if k2 < old_r.len() {
            assert(old_r[k1].name@ != old_r[k2].name@);
        } else {
            assert(old_r[k1].name@ != cats[i].name@);
        }
    }
    assert forall|j: int| 0 <= j < i + 1 implies exists|k: int|
        0 <= k < r.len() && #[trigger] r[k].name@ == #[trigger] cats[j].name@ by {
        if j < i {
            let k = choose|k: int| 0 <= k < old_r.len() && #[trigger] old_r[k].name@ == cats[j].name@;
            assert(r[k].name@ == old_r[k].name@);
        } else {
            assert(r[old_r.len() as int].name@ == cats[j].name@);
        }
    }
    assert forall|k: int| 0 <= k < r.len() implies exists|j: int|
        #[trigger] last_of_name(cats, j, i + 1) && meta_of(#[trigger] r[k], cats[j]) by {
        if k == old_r.len() {
            assert(last_of_name(cats, i, i + 1));
        } else {
            let j = choose|j: int| #[trigger] last_of_name(cats, j, i) && meta_of(old_r[k], cats[j]);
            assert(old_r[k].name@ != cats[i].name@);
            assert(last_of_name(cats, j, i + 1));
        }
    }
}

/// The category metadata stored with a table made of a dataset with these
/// categories: one entry per category name, that of the last category of
/// the name (as a map keyed by name keeps it), in no particular order.
pub fn category_metadata(categories: &Vec<CocoCategory>) -> (r: Vec<CategoryMeta>)
    ensures
        metadata_of(r@, categories@, categories.len() as int),
{
    let mut r: Vec<CategoryMeta> = Vec::new();
    let mut i: usize = 0;
    while i < categories.len()
        invariant
            i <= categories.len(),
            metadata_of(r@, categories@, i as int),
        decreases categories.len() - i,
    {
        let c = &categories[i];
        let mut p: usize = 0;
        while p < r.len() && r[p].name != c.name
            invariant
                p <= r.len(),
                forall|q: int| 0 <= q < p ==> r@[q].name@ != c.name@,
            decreases r.len() - p,
        {
            p = p + 1;
        }
        let ghost cats = categories@;
        let ghost old_r = r@;
        let m = meta_for(c);
        if p < r.len() {
            r.set(p, m);
            proof {
                lemma_metadata_replace(old_r, cats, i as int, p as int, m);
            }
        } else {
            r.push(m);
            proof {
                lemma_metadata_push(old_r, cats, i as int, m);
            }
        }
        i = i + 1;
    }
    r
}

/// Whether category `a` comes before category `b` when sorted by id, ties
/// kept in their order.
pub open spec fn id_order_before(cats: Seq<CocoCategory>, a: int, b: int) -> bool {
    cats[a].id < cats[b].id || (cats[a].id == cats[b].id && a < b)
}

/// Whether `order` lists the positions of all `n` categories sorted by id,
/// ties kept in their order.
pub open spec fn sorted_by_id(order: Seq<int>, cats: Seq<CocoCategory>, n: int) -> bool {
    &&& order.len() == n
    &&& forall|k: int| 0 <= k < order.len() ==> 0 <= #[trigger] order[k] < n
    &&& forall|k1: int, k2: int|
        0 <= k1 < k2 < order.len() ==> id_order_before(cats, #[trigger] order[k1], #[trigger] order[k2])
}

proof fn lemma_insert_in_id_order(o: Seq<int>, cats: Seq<CocoCategory>, i: int, p: int)
    requires
        0 <= i < cats.len(),
        0 <= p <= o.len(),
        sorted_by_id(o, cats, i),
        forall|q: int| 0 <= q < p ==> cats[#[trigger] o[q]].id <= cats[i].id,
        forall|q: int| p <= q < o.len() ==> cats[#[trigger] o[q]].id > cats[i].id,
    ensures
        sorted_by_id(o.insert(p, i), cats, i + 1),
{
    let n = o.insert(p, i);
    assert forall|k: int| 0 <= k < n.len() implies 0 <= #[trigger] n[k] < i + 1 by {
        if k < p {
            assert(n[k] == o[k]);
        } else if k > p {
            assert(n[k] == o[k - 1]);
        }
    }
    assert forall|k1: int, k2: int| 0 <= k1 < k2 < n.len() implies id_order_before(
        cats,
        #[trigger] n[k1],
        #[trigger] n[k2],
    ) by {
        if k2 < p {
            assert(n[k1] == o[k1] && n[k2] == o[k2]);
        } else if k2 == p {
            assert(n[k1] == o[k1]);
            assert(cats[o[k1]].id <= cats[i].id);
        } else if k1 < p {
            assert(n[k1] == o[k1] && n[k2] == o[k2 - 1]);
            assert(cats[o[k1]].id <= cats[i].id);
            assert(cats[o[k2 - 1]].id > cats[i].id);
        } else if k1 == p {
            assert(n[k2] == o[k2 - 1]);
            assert(cats[o[k2 - 1]].id > cats[i].id);
        } else {
            assert(n[k1] == o[k1 - 1] && n[k2] == o[k2 - 1]);
            assert(id_order_before(cats, o[k1 - 1], o[k2 - 1]));
        }
    }
}

/// The label list stored with a table made of a dataset with these
/// categories: their names, sorted by category id (categories of one id
/// in their order).
pub fn category_labels(categories: &Vec<CocoCategory>) -> (r: Vec<String>)
    ensures
        exists|order: Seq<int>|
            sorted_by_id(order, categories@, categories.len() as int) && r@.len() == order.len() && forall|k: int|
                0 <= k < order.len() ==> #[trigger] r@[k]@ == categories@[order[k]].name@,
{
    let ghost cats = categories@;
    let mut order: Vec<usize> = Vec::new();
    let mut i: usize = 0;
    assert(order@.map_values(|x: usize| x as int) =~= Seq::<int>::empty());
    while i < categories.len()
        invariant
            i <= categories.len(),
            cats == categories@,
            sorted_by_id(order@.map_values(|x: usize| x as int), cats, i as int),
        decreases categories.len() - i,
    {
        let ghost o = order@.map_values(|x: usize| x as int);
        let id = categories[i].id;
        let mut p: usize = 0;
        assert forall|q: int| 0 <= q < order@.len() implies #[trigger] order@[q] < i by {
            assert(o[q] == order@[q]);
        }
        while p < order.len() && categories[order[p]].id <= id
            invariant
                p <= order.len(),
                cats == categories@,
                o == order@.map_values(|x: usize| x as int),
                sorted_by_id(o, cats, i as int),
                i < categories.len(),
                id == cats[i as int].id,
                forall|q: int| 0 <= q < order@.len() ==> #[trigger] order@[q] < i,
                forall|q: int| 0 <= q < p ==> cats[#[trigger] o[q]].id <= id,
            decreases order.len() - p,
        {
            assert(o[p as int] == order@[p as int]);
            p = p + 1;
        }
        proof {
            assert forall|q: int| p <= q < o.len() implies cats[#[trigger] o[q]].id > id by {
                assert(o[p as int] == order@[p as int]);
                if q > p {
                    assert(id_order_before(cats, o[p as int], o[q]));
                }
            }
            lemma_insert_in_id_order(o, cats, i as int, p as int);
        }
        order.insert(p, i);
        proof {
            assert(order@.map_values(|x: usize| x as int) =~= o.insert(p as int, i as int));
        }
        i = i + 1;
    }
    let ghost o = order@.map_values(|x: usize| x as int);
    let mut r: Vec<String> = Vec::new();
    let mut k: usize = 0;
    while k < order.len()
        invariant
            k <= order.len(),
            cats == categories@,
            o == order@.map_values(|x: usize| x as int),
            sorted_by_id(o, cats, cats.len() as int),
            r@.len() == k,
            forall|q: int| 0 <= q < k ==> #[trigger] r@[q]@ == cats[o[q]].name@,
        decreases order.len() - k,
    {
        assert(o[k as int] == order@[k as int]);
        r.push(categories[order[k]].name.clone());
        k = k + 1;
    }
    r
}

} // verus!
