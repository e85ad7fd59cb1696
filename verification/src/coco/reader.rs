//! Reading options, filters, merging and validation of COCO datasets.

use vstd::prelude::*;
use crate::coco::types::{
    CocoAnnotation, CocoCategory, CocoDataset, CocoImage, CocoLicense, category_ids, image_ids,
    license_ids,
};
use crate::error::Error;
use crate::float_bits::{f64_bits_le_zero, f64_le_zero};
use crate::search::{contains_chars, contains_text, lowercase, to_lowercase};
use crate::text::{chars_of, decimal_text, ends_with_chars, ends_with_text, push_decimal};

verus! {

/// The annotations of `anns` whose image is one of `ids`.
pub fn keep_annotations_of_images(anns: Vec<CocoAnnotation>, ids: &Vec<u64>) -> (r: Vec<CocoAnnotation>)
    ensures
        r@ == anns@.filter(|a: CocoAnnotation| ids@.contains(a.image_id)),
{
    let ghost pred = |a: CocoAnnotation| ids@.contains(a.image_id);
    let ghost all = anns@;
    let mut r: Vec<CocoAnnotation> = Vec::new();
    for a in it: anns.into_iter()
        invariant
            it.seq() == all,
            pred == (|a: CocoAnnotation| ids@.contains(a.image_id)),
            r@ == all.take(it.index() as int).filter(pred),
    {
        reveal_with_fuel(Seq::<_>::filter, 1);
        let ghost i = it.index() as int;
        assert(a == all[i]);
        assert(all.take(i + 1).drop_last() =~= all.take(i));
        assert(all.take(i + 1).last() == a);
        assert(all.take(i + 1).filter(pred) == if pred(a) {
            all.take(i).filter(pred).push(a)
        } else {
            all.take(i).filter(pred)
        });
        if contains_u64(ids, a.image_id) {
            r.push(a);
        }
    }
    assert(all.take(all.len() as int) =~= all);
    r
}

/// Whether `x` occurs in `v`.
pub fn contains_u64(v: &Vec<u64>, x: u64) -> (b: bool)
    ensures
        b == v@.contains(x),
{
    let mut i: usize = 0;
    while i < v.len()
        invariant
            i <= v.len(),
            forall|j: int| 0 <= j < i ==> v@[j] != x,
        decreases v.len() - i,
    {
        if v[i] == x {
            return true;
        }
        i = i + 1;
    }
    false
}

/// The annotations of `anns` whose category is one of `ids`.
pub fn keep_annotations_of_categories(anns: Vec<CocoAnnotation>, ids: &Vec<u64>) -> (r: Vec<CocoAnnotation>)
    ensures
        r@ == anns@.filter(|a: CocoAnnotation| ids@.contains(a.category_id)),
{
    let ghost pred = |a: CocoAnnotation| ids@.contains(a.category_id);
    let ghost all = anns@;
    let mut r: Vec<CocoAnnotation> = Vec::new();
    for a in it: anns.into_iter()
        invariant
            it.seq() == all,
            pred == (|a: CocoAnnotation| ids@.contains(a.category_id)),
            r@ == all.take(it.index() as int).filter(pred),
    {
        reveal_with_fuel(Seq::<_>::filter, 1);
        let ghost i = it.index() as int;
        assert(a == all[i]);
        assert(all.take(i + 1).drop_last() =~= all.take(i));
        assert(all.take(i + 1).last() == a);
        if contains_u64(ids, a.category_id) {
            r.push(a);
        }
    }
    assert(all.take(all.len() as int) =~= all);
    r
}

/// Whether some string of `names` has the characters `name`.
pub open spec fn name_listed(names: Seq<String>, name: Seq<char>) -> bool {
    exists|j: int| 0 <= j < names.len() && #[trigger] names[j]@ == name
}

/// Decides [`name_listed`].
pub fn is_name_listed(names: &Vec<String>, name: &String) -> (b: bool)
    ensures
        b == name_listed(names@, name@),
{
    let mut i: usize = 0;
    while i < names.len()
        invariant
            i <= names.len(),
            forall|j: int| 0 <= j < i ==> #[trigger] names@[j]@ != name@,
        decreases names.len() - i,
    {
        if names[i] == *name {
            return true;
        }
        i = i + 1;
    }
    false
}

/// The categories of `cats` whose name is listed in `names`.
pub fn keep_categories_named(cats: Vec<CocoCategory>, names: &Vec<String>) -> (r: Vec<CocoCategory>)
    ensures
        r@ == cats@.filter(|c: CocoCategory| name_listed(names@, c.name@)),
{
    let ghost pred = |c: CocoCategory| name_listed(names@, c.name@);
    let ghost all = cats@;
    let mut r: Vec<CocoCategory> = Vec::new();
    for c in it: cats.into_iter()
        invariant
            it.seq() == all,
            pred == (|c: CocoCategory| name_listed(names@, c.name@)),
            r@ == all.take(it.index() as int).filter(pred),
    {
        reveal_with_fuel(Seq::<_>::filter, 1);
        let ghost i = it.index() as int;
        assert(c == all[i]);
        assert(all.take(i + 1).drop_last() =~= all.take(i));
        assert(all.take(i + 1).last() == c);
        if is_name_listed(names, &c.name) {
            r.push(c);
        }
    }
    assert(all.take(all.len() as int) =~= all);
    r
}

/// The ids of `images`, in order.
pub fn ids_of_images(images: &Vec<CocoImage>) -> (r: Vec<u64>)
    ensures
        r@ == image_ids(images@),
{
    let mut r: Vec<u64> = Vec::new();
    let mut i: usize = 0;
    while i < images.len()
        invariant
            i <= images.len(),
            r@ == image_ids(images@.take(i as int)),
        decreases images.len() - i,
    {
        r.push(images[i].id);
        assert(image_ids(images@.take(i + 1)) =~= image_ids(images@.take(i as int)).push(
            images@[i as int].id,
        ));
        i = i + 1;
    }
    assert(images@.take(images.len() as int) =~= images@);
    r
}

/// The ids of `cats`, in order.
pub fn ids_of_categories(cats: &Vec<CocoCategory>) -> (r: Vec<u64>)
    ensures
        r@ == category_ids(cats@),
{
    let mut r: Vec<u64> = Vec::new();
    let mut i: usize = 0;
    while i < cats.len()
        invariant
            i <= cats.len(),
            r@ == category_ids(cats@.take(i as int)),
        decreases cats.len() - i,
    {
        r.push(cats[i].id);
        assert(category_ids(cats@.take(i + 1)) =~= category_ids(cats@.take(i as int)).push(
            cats@[i as int].id,
        ));
        i = i + 1;
    }
    assert(cats@.take(cats.len() as int) =~= cats@);
    r
}

/// The ids of `licenses`, in order.
pub fn ids_of_licenses(licenses: &Vec<CocoLicense>) -> (r: Vec<u64>)
    ensures
        r@ == license_ids(licenses@),
{
    let mut r: Vec<u64> = Vec::new();
    let mut i: usize = 0;
    while i < licenses.len()
        invariant
            i <= licenses.len(),
            r@ == license_ids(licenses@.take(i as int)),
        decreases licenses.len() - i,
    {
        r.push(licenses[i].id);
        assert(license_ids(licenses@.take(i + 1)) =~= license_ids(licenses@.take(i as int)).push(
            licenses@[i as int].id,
        ));
        i = i + 1;
    }
    assert(licenses@.take(licenses.len() as int) =~= licenses@);
    r
}

/// Appends to `target` each image of `source`, in order, unless the
/// target already had one with its id (ids are collected from the target
/// before any is appended).
pub fn append_new_images(target: &mut Vec<CocoImage>, source: Vec<CocoImage>)
    ensures
        final(target)@ == merged_by_id(old(target)@, source@, image_key()),
{
    let ghost all = source@;
    let ghost start = target@;
    let ghost pred = |x: CocoImage| !start.map_values(image_key()).contains(image_key()(x));
    let existing = ids_of_images(target);
    proof {
        assert(existing@ =~= start.map_values(image_key()));
    }
    for item in it: source.into_iter()
        invariant
            it.seq() == all,
            existing@ == start.map_values(image_key()),
            pred == (|x: CocoImage| !start.map_values(image_key()).contains(image_key()(x))),
            target@ == start + all.take(it.index() as int).filter(pred),
    {
        reveal_with_fuel(Seq::<_>::filter, 1);
        let ghost i = it.index() as int;
        assert(item == all[i]);
        assert(all.take(i + 1).drop_last() =~= all.take(i));
        assert(all.take(i + 1).last() == item);
        if !contains_u64(&existing, item.id) {
            let ghost before = target@;
            target.push(item);
            assert(start + all.take(i + 1).filter(pred) =~= before.push(item));
        }
    }
    assert(all.take(all.len() as int) =~= all);
}


/// Appends to `target` each category of `source`, in order, unless the
/// target already had one with its id (ids are collected from the target
/// before any is appended).
pub fn append_new_categories(target: &mut Vec<CocoCategory>, source: Vec<CocoCategory>)
    ensures
        final(target)@ == merged_by_id(old(target)@, source@, category_key()),
{
    let ghost all = source@;
    let ghost start = target@;
    let ghost pred = |x: CocoCategory| !start.map_values(category_key()).contains(category_key()(x));
    let existing = ids_of_categories(target);
    proof {
        assert(existing@ =~= start.map_values(category_key()));
    }
    for item in it: source.into_iter()
        invariant
            it.seq() == all,
            existing@ == start.map_values(category_key()),
            pred == (|x: CocoCategory| !start.map_values(category_key()).contains(category_key()(x))),
            target@ == start + all.take(it.index() as int).filter(pred),
    {
        reveal_with_fuel(Seq::<_>::filter, 1);
        let ghost i = it.index() as int;
        assert(item == all[i]);
        assert(all.take(i + 1).drop_last() =~= all.take(i));
        assert(all.take(i + 1).last() == item);
        if !contains_u64(&existing, item.id) {
            let ghost before = target@;
            target.push(item);
            assert(start + all.take(i + 1).filter(pred) =~= before.push(item));
        }
    }
    assert(all.take(all.len() as int) =~= all);
}


/// Appends to `target` each license of `source`, in order, unless the
/// target already had one with its id (ids are collected from the target
/// before any is appended).
pub fn append_new_licenses(target: &mut Vec<CocoLicense>, source: Vec<CocoLicense>)
    ensures
        final(target)@ == merged_by_id(old(target)@, source@, license_key()),
{
    let ghost all = source@;
    let ghost start = target@;
    let ghost pred = |x: CocoLicense| !start.map_values(license_key()).contains(license_key()(x));
    let existing = ids_of_licenses(target);
    proof {
        assert(existing@ =~= start.map_values(license_key()));
    }
    for item in it: source.into_iter()
        invariant
            it.seq() == all,
            existing@ == start.map_values(license_key()),
            pred == (|x: CocoLicense| !start.map_values(license_key()).contains(license_key()(x))),
            target@ == start + all.take(it.index() as int).filter(pred),
    {
        reveal_with_fuel(Seq::<_>::filter, 1);
        let ghost i = it.index() as int;
        assert(item == all[i]);
        assert(all.take(i + 1).drop_last() =~= all.take(i));
        assert(all.take(i + 1).last() == item);
        if !contains_u64(&existing, item.id) {
            let ghost before = target@;
            target.push(item);
            assert(start + all.take(i + 1).filter(pred) =~= before.push(item));
        }
    }
    assert(all.take(all.len() as int) =~= all);
}


/// Appends all annotations of `source` to `target`.
pub fn append_annotations(target: &mut Vec<CocoAnnotation>, source: Vec<CocoAnnotation>)
    ensures
        final(target)@ == old(target)@ + source@,
{
    let ghost all = source@;
    let ghost start = target@;
    for a in it: source.into_iter()
        invariant
            it.seq() == all,
            target@ == start + all.take(it.index() as int),
    {
        let ghost i = it.index() as int;
        assert(a == all[i]);
        target.push(a);
        assert(start + all.take(i + 1) =~= (start + all.take(i)).push(a));
    }
    assert(all.take(all.len() as int) =~= all);
}

/// Options for COCO reading.
#[derive(Clone, Debug, Default)]
pub struct CocoReadOptions {
    /// If true, validate all annotations during reading.
    pub validate: bool,
    /// Maximum number of images to read (0 = unlimited).
    pub max_images: usize,
    /// Filter by category names (empty = all).
    pub category_filter: Vec<String>,
}

/// COCO reader: applies the validation and filters of its options to the
/// datasets it reads.
pub struct CocoReader {
    options: CocoReadOptions,
}

/// Whether the image limit of `options` truncates `images`.
pub open spec fn image_limit_applies(options: CocoReadOptions, images: Seq<CocoImage>) -> bool {
    options.max_images > 0 && images.len() > options.max_images
}

/// The images kept by the filters of `options`: the first `max_images`
/// when the limit applies, all of them otherwise.
pub open spec fn filtered_images(options: CocoReadOptions, d: CocoDataset) -> Seq<CocoImage> {
    if image_limit_applies(options, d.images@) {
        d.images@.take(options.max_images as int)
    } else {
        d.images@
    }
}

/// The categories kept by the filters of `options`: those whose name is in
/// the category filter, or all of them when the filter is empty.
pub open spec fn filtered_categories(options: CocoReadOptions, d: CocoDataset) -> Seq<CocoCategory> {
    if options.category_filter@.len() > 0 {
        d.categories@.filter(|c: CocoCategory| name_listed(options.category_filter@, c.name@))
    } else {
        d.categories@
    }
}

/// The annotations kept by the filters of `options`: those of a kept image
/// (when the image limit applies) and of a kept category (when the
/// category filter is not empty).
pub open spec fn filtered_annotations(options: CocoReadOptions, d: CocoDataset) -> Seq<CocoAnnotation> {
    let kept_images = image_ids(filtered_images(options, d));
    let by_image = if image_limit_applies(options, d.images@) {
        d.annotations@.filter(|a: CocoAnnotation| kept_images.contains(a.image_id))
    } else {
        d.annotations@
    };
    let kept_categories = category_ids(filtered_categories(options, d));
    if options.category_filter@.len() > 0 {
        by_image.filter(|a: CocoAnnotation| kept_categories.contains(a.category_id))
    } else {
        by_image
    }
}

impl CocoReader {
    /// Create a new COCO reader with default options.
    pub fn new() -> (r: Self)
        ensures
            !r.spec_options().validate,
            r.spec_options().max_images == 0,
            r.spec_options().category_filter@.len() == 0,
    {
        CocoReader {
            options: CocoReadOptions { validate: false, max_images: 0, category_filter: Vec::new() },
        }
    }

    /// Create a new COCO reader with custom options.
    pub fn with_options(options: CocoReadOptions) -> (r: Self)
        ensures
            r.spec_options() == options,
    {
        CocoReader { options }
    }

    /// The options of this reader.
    pub fn options(&self) -> (o: &CocoReadOptions)
        ensures
            *o == self.spec_options(),
    {
        &self.options
    }

    /// The options of this reader, for specifications.
    pub closed spec fn spec_options(&self) -> CocoReadOptions {
        self.options
    }

    /// Apply the image limit and the category filter of the options to
    /// `dataset`; `info` and `licenses` are kept as they are.
    pub fn apply_filters(&self, dataset: CocoDataset) -> (r: CocoDataset)
        ensures
            r.images@ == filtered_images(self.spec_options(), dataset),
            r.categories@ == filtered_categories(self.spec_options(), dataset),
            r.annotations@ == filtered_annotations(self.spec_options(), dataset),
            r.info == dataset.info,
            r.licenses == dataset.licenses,
    {
        let ghost d = dataset;
        let CocoDataset { info, mut images, mut annotations, mut categories, licenses } = dataset;
        if self.options.max_images > 0 && images.len() > self.options.max_images {
            images.truncate(self.options.max_images);
            let kept = ids_of_images(&images);
            annotations = keep_annotations_of_images(annotations, &kept);
        }
        assert(images@ == filtered_images(self.options, d));
        if self.options.category_filter.len() > 0 {
            categories = keep_categories_named(categories, &self.options.category_filter);
            let kept = ids_of_categories(&categories);
            annotations = keep_annotations_of_categories(annotations, &kept);
        }
        CocoDataset { info, images, annotations, categories, licenses }
    }
}

/// What is wrong with an annotation of a dataset.
#[derive(Clone, Copy, Debug, PartialEq, Eq, Structural)]
pub enum AnnotationFault {
    /// Its image id names no image of the dataset.
    MissingImage,
    /// Its category id names no category of the dataset.
    MissingCategory,
    /// Its bounding box width or height is not positive.
    InvalidBbox,
}

/// The first fault of annotation `a` within dataset `d`, in the order the
/// checks are made.
pub open spec fn annotation_fault(d: CocoDataset, a: CocoAnnotation) -> Option<AnnotationFault> {
    if !image_ids(d.images@).contains(a.image_id) {
        Some(AnnotationFault::MissingImage)
    } else if !category_ids(d.categories@).contains(a.category_id) {
        Some(AnnotationFault::MissingCategory)
    } else if f64_bits_le_zero(a.bbox[2]) || f64_bits_le_zero(a.bbox[3]) {
        Some(AnnotationFault::InvalidBbox)
    } else {
        None
    }
}

/// An annotation whose box has a width, or a height, that is zero,
/// negative or negative infinity is at fault: with its image and category
/// present, the fault is its box.
pub proof fn lemma_nonpositive_box_is_fault(d: CocoDataset, a: CocoAnnotation)
    ensures
        f64_bits_le_zero(a.bbox[2]) ==> annotation_fault(d, a) is Some,
        f64_bits_le_zero(a.bbox[3]) ==> annotation_fault(d, a) is Some,
        image_ids(d.images@).contains(a.image_id) && category_ids(d.categories@).contains(a.category_id) && (
        f64_bits_le_zero(a.bbox[2]) || f64_bits_le_zero(a.bbox[3])) ==> annotation_fault(d, a) == Some(
            AnnotationFault::InvalidBbox,
        ),
        !f64_bits_le_zero(a.bbox[2]) && !f64_bits_le_zero(a.bbox[3]) && image_ids(d.images@).contains(a.image_id)
            && category_ids(d.categories@).contains(a.category_id) ==> annotation_fault(d, a) is None,
{
}

/// The error message for fault `f` of annotation `a`.
pub open spec fn fault_message(a: CocoAnnotation, f: AnnotationFault) -> Seq<char> {
    match f {
        AnnotationFault::MissingImage => "Annotation "@ + decimal_text(a.id as nat)
            + " references non-existent image_id "@ + decimal_text(a.image_id as nat),
        AnnotationFault::MissingCategory => "Annotation "@ + decimal_text(a.id as nat)
            + " references non-existent category_id "@ + decimal_text(a.category_id as nat),
        AnnotationFault::InvalidBbox => "Annotation "@ + decimal_text(a.id as nat)
            + " has invalid bbox dimensions"@,
    }
}

/// Whether no annotation of `d` has a fault.
pub open spec fn dataset_is_consistent(d: CocoDataset) -> bool {
    forall|i: int|
        0 <= i < d.annotations@.len() ==> annotation_fault(d, #[trigger] d.annotations@[i]) is None
}

/// Whether `i` is the first annotation of `d` with a fault.
pub open spec fn is_first_fault(d: CocoDataset, i: int) -> bool {
    &&& 0 <= i < d.annotations@.len()
    &&& annotation_fault(d, d.annotations@[i]) is Some
    &&& forall|j: int| 0 <= j < i ==> annotation_fault(d, #[trigger] d.annotations@[j]) is None
}

/// Validate a COCO dataset for consistency: every annotation must name an
/// existing image and category and have a positive width and height. The
/// first annotation that fails is reported.
pub fn validate_dataset(dataset: &CocoDataset) -> (r: Result<(), Error>)
    ensures
        r is Ok <==> dataset_is_consistent(*dataset),
        forall|i: int|
            0 <= i < dataset.annotations@.len() && f64_bits_le_zero(#[trigger] dataset.annotations@[i].bbox[2])
                ==> r is Err,
        forall|i: int|
            0 <= i < dataset.annotations@.len() && f64_bits_le_zero(#[trigger] dataset.annotations@[i].bbox[3])
                ==> r is Err,
        r is Err ==> exists|i: int|
            is_first_fault(*dataset, i) && (r matches Err(Error::CocoError(m)) && m@
                == fault_message(
                dataset.annotations@[i],
                annotation_fault(*dataset, dataset.annotations@[i])->0,
            )),
{
    let image_ids_v = ids_of_images(&dataset.images);
    let category_ids_v = ids_of_categories(&dataset.categories);
    let mut i: usize = 0;
    while i < dataset.annotations.len()
        invariant
            i <= dataset.annotations.len(),
            image_ids_v@ == image_ids(dataset.images@),
            category_ids_v@ == category_ids(dataset.categories@),
            forall|j: int| 0 <= j < i ==> annotation_fault(*dataset, #[trigger] dataset.annotations@[j]) is None,
        decreases dataset.annotations.len() - i,
    {
        let ann = &dataset.annotations[i];
        let fault = if !contains_u64(&image_ids_v, ann.image_id) {
            Some(AnnotationFault::MissingImage)
        } else if !contains_u64(&category_ids_v, ann.category_id) {
            Some(AnnotationFault::MissingCategory)
        } else if f64_le_zero(ann.bbox[2]) || f64_le_zero(ann.bbox[3]) {
            Some(AnnotationFault::InvalidBbox)
        } else {
            None
        };
        assert(fault == annotation_fault(*dataset, dataset.annotations@[i as int]));
        match fault {
            Some(f) => {
                let mut m = String::from_str("Annotation ");
                push_decimal(&mut m, ann.id);
                match f {
                    AnnotationFault::MissingImage => {
                        m.append(" references non-existent image_id ");
                        push_decimal(&mut m, ann.image_id);
                    },
                    AnnotationFault::MissingCategory => {
                        m.append(" references non-existent category_id ");
                        push_decimal(&mut m, ann.category_id);
                    },
                    AnnotationFault::InvalidBbox => {
                        m.append(" has invalid bbox dimensions");
                    },
                }
                assert(is_first_fault(*dataset, i as int));
                return Err(Error::CocoError(m));
            },
            None => {},
        }
        i = i + 1;
    }
    Ok(())
}

/// Merge `source` into `target` as the ZIP reader does: `target` takes the
/// source's `info` when it has no description; images, categories and
/// licenses are appended unless their id is already present in `target`;
/// annotations are always appended.
pub fn merge_datasets(target: &mut CocoDataset, source: CocoDataset)
    ensures
        final(target).info == (if old(target).info.description is None {
            source.info
        } else {
            old(target).info
        }),
        final(target).images@ == merged_by_id(old(target).images@, source.images@, image_key()),
        final(target).categories@ == merged_by_id(
            old(target).categories@,
            source.categories@,
            category_key(),
        ),
        final(target).annotations@ == old(target).annotations@ + source.annotations@,
        final(target).licenses@ == merged_by_id(old(target).licenses@, source.licenses@, license_key()),
{
    let CocoDataset { info, images, annotations, categories, licenses } = source;
    if target.info.description.is_none() {
        target.info = info;
    }
    append_new_images(&mut target.images, images);
    append_new_categories(&mut target.categories, categories);
    append_annotations(&mut target.annotations, annotations);
    append_new_licenses(&mut target.licenses, licenses);
}

/// Appending `s` to `t` by id: the items of `s` whose id `t` does not
/// have, in order.
pub open spec fn merged_by_id<T>(t: Seq<T>, s: Seq<T>, id: spec_fn(T) -> u64) -> Seq<T> {
    t + s.filter(|x: T| !t.map_values(id).contains(id(x)))
}

/// Whether no two items of `s` share an id.
pub open spec fn ids_distinct_by<T>(s: Seq<T>, id: spec_fn(T) -> u64) -> bool {
    forall|i: int, j: int| 0 <= i < j < s.len() ==> id(#[trigger] s[i]) != id(#[trigger] s[j])
}

/// The id of an image.
pub open spec fn image_key() -> spec_fn(CocoImage) -> u64 {
    |i: CocoImage| i.id
}

/// The id of a category.
pub open spec fn category_key() -> spec_fn(CocoCategory) -> u64 {
    |c: CocoCategory| c.id
}

/// The id of a license.
pub open spec fn license_key() -> spec_fn(CocoLicense) -> u64 {
    |l: CocoLicense| l.id
}

/// Filtering keeps only items of the sequence, and keeps distinct ids
/// distinct.
proof fn lemma_filter_from<T>(s: Seq<T>, p: spec_fn(T) -> bool, id: spec_fn(T) -> u64)
    ensures
        forall|k: int|
            0 <= k < s.filter(p).len() ==> exists|j: int| 0 <= j < s.len() && s[j] == #[trigger] s.filter(p)[k],
        ids_distinct_by(s, id) ==> ids_distinct_by(s.filter(p), id),
    decreases s.len(),
{
    reveal_with_fuel(Seq::<_>::filter, 1);
    if s.len() > 0 {
        let rest = s.drop_last();
        let x = s.last();
        lemma_filter_from(rest, p, id);
        let fr = rest.filter(p);
        let f = s.filter(p);
        assert forall|k: int| 0 <= k < f.len() implies exists|j: int| 0 <= j < s.len() && s[j] == #[trigger] f[k] by {
            if k < fr.len() {
                assert(f[k] == fr[k]);
                let j = choose|j: int| 0 <= j < rest.len() && rest[j] == #[trigger] fr[k];
                assert(s[j] == rest[j]);
            } else {
                assert(f[k] == x);
                assert(s[s.len() - 1] == x);
            }
        }
        if ids_distinct_by(s, id) {
            assert forall|i: int, j: int| 0 <= i < j < rest.len() implies id(#[trigger] rest[i]) != id(
                #[trigger] rest[j],
            ) by {
                assert(rest[i] == s[i] && rest[j] == s[j]);
            }
            assert forall|i: int, j: int| 0 <= i < j < f.len() implies id(#[trigger] f[i]) != id(#[trigger] f[j]) by {
                if j < fr.len() {
                    assert(f[i] == fr[i] && f[j] == fr[j]);
                } else {
                    assert(f[i] == fr[i]);
                    assert(f[j] == x);
                    let m = choose|m: int| 0 <= m < rest.len() && rest[m] == #[trigger] fr[i];
                    assert(s[m] == rest[m] && s[s.len() - 1] == x);
                }
            }
        }
    }
}

/// Merging by id gives exactly the ids of both sides, and keeps ids
/// distinct when each side has distinct ids.
pub proof fn lemma_merged_by_id<T>(t: Seq<T>, s: Seq<T>, id: spec_fn(T) -> u64)
    ensures
        ids_distinct_by(t, id) && ids_distinct_by(s, id) ==> ids_distinct_by(merged_by_id(t, s, id), id),
        merged_by_id(t, s, id).map_values(id).to_set() == t.map_values(id).to_set().union(
            s.map_values(id).to_set(),
        ),
{
    let tid = t.map_values(id);
    let p = |x: T| !tid.contains(id(x));
    let f = s.filter(p);
    let m = merged_by_id(t, s, id);
    assert(m == t + f);
    lemma_filter_from(s, p, id);
    assert forall|k: int| 0 <= k < f.len() implies p(#[trigger] f[k]) by {
        s.lemma_filter_pred(p, k);
    }
    if ids_distinct_by(t, id) && ids_distinct_by(s, id) {
        assert forall|i: int, j: int| 0 <= i < j < m.len() implies id(#[trigger] m[i]) != id(#[trigger] m[j]) by {
            if j < t.len() {
                assert(m[i] == t[i] && m[j] == t[j]);
            } else if i < t.len() {
                assert(m[i] == t[i] && m[j] == f[j - t.len()]);
                assert(p(f[j - t.len()]));
                assert(tid[i] == id(t[i]));
            } else {
                assert(m[i] == f[i - t.len()] && m[j] == f[j - t.len()]);
            }
        }
    }
    assert forall|v: u64| m.map_values(id).to_set().contains(v) <==> t.map_values(id).to_set().union(
        s.map_values(id).to_set(),
    ).contains(v) by {
        if m.map_values(id).to_set().contains(v) {
            let k = choose|k: int| 0 <= k < m.len() && m.map_values(id)[k] == v;
            if k < t.len() {
                assert(m[k] == t[k]);
                assert(tid[k] == v);
            } else {
                let j = choose|j: int| 0 <= j < s.len() && s[j] == #[trigger] f[k - t.len()];
                assert(m[k] == f[k - t.len()]);
                assert(s.map_values(id)[j] == v);
            }
        }
        if s.map_values(id).to_set().contains(v) && !tid.to_set().contains(v) {
            let j = choose|j: int| 0 <= j < s.len() && s.map_values(id)[j] == v;
            assert(!tid.contains(id(s[j])));
            s.lemma_filter_contains(p, j);
            let k = choose|k: int| 0 <= k < f.len() && f[k] == s[j];
            assert(m[t.len() + k] == f[k]);
            assert(m.map_values(id)[t.len() + k] == v);
        }
        if tid.to_set().contains(v) {
            let k = choose|k: int| 0 <= k < t.len() && tid[k] == v;
            assert(m[k] == t[k]);
            assert(m.map_values(id)[k] == v);
        }
    }
    assert(m.map_values(id).to_set() =~= t.map_values(id).to_set().union(s.map_values(id).to_set()));
}

/// Whether no two images share an id.
pub open spec fn image_ids_distinct(images: Seq<CocoImage>) -> bool {
    forall|i: int, j: int| 0 <= i < j < images.len() ==> #[trigger] images[i].id != #[trigger] images[j].id
}

/// Merging never introduces a repeated image id: when the target's image
/// ids and the source's image ids are each without repeats, so are the
/// merged images.
pub proof fn lemma_merge_keeps_image_ids_distinct(target: Seq<CocoImage>, source: Seq<CocoImage>)
    requires
        image_ids_distinct(target),
        image_ids_distinct(source),
    ensures
        image_ids_distinct(merged_by_id(target, source, image_key())),
{
    assert forall|i: int, j: int| 0 <= i < j < target.len() implies image_key()(#[trigger] target[i])
        != image_key()(#[trigger] target[j]) by {}
    assert forall|i: int, j: int| 0 <= i < j < source.len() implies image_key()(#[trigger] source[i])
        != image_key()(#[trigger] source[j]) by {}
    lemma_merged_by_id(target, source, image_key());
    let m = merged_by_id(target, source, image_key());
    assert forall|i: int, j: int| 0 <= i < j < m.len() implies #[trigger] m[i].id != #[trigger] m[j].id by {
        assert(image_key()(m[i]) != image_key()(m[j]));
    }
}

/// Filtering a sequence all of whose items pass leaves it as it is.
proof fn lemma_filter_all_pass<A>(s: Seq<A>, pred: spec_fn(A) -> bool)
    requires
        forall|i: int| 0 <= i < s.len() ==> pred(#[trigger] s[i]),
    ensures
        s.filter(pred) == s,
    decreases s.len(),
{
    reveal_with_fuel(Seq::<_>::filter, 1);
    if s.len() > 0 {
        let rest = s.drop_last();
        assert forall|i: int| 0 <= i < rest.len() implies pred(#[trigger] rest[i]) by {
            assert(rest[i] == s[i]);
        }
        lemma_filter_all_pass(rest, pred);
        assert(pred(s.last()));
        assert(s.filter(pred) =~= rest.push(s.last()));
        assert(rest.push(s.last()) =~= s);
    } else {
        assert(s.filter(pred) =~= s);
    }
}

/// Filtering is idempotent: applying the filters of a reader to a dataset
/// that they have already filtered changes nothing.
pub proof fn lemma_apply_filters_idempotent(options: CocoReadOptions, d: CocoDataset, once: CocoDataset)
    requires
        once.images@ == filtered_images(options, d),
        once.categories@ == filtered_categories(options, d),
        once.annotations@ == filtered_annotations(options, d),
    ensures
        filtered_images(options, once) == once.images@,
        filtered_categories(options, once) == once.categories@,
        filtered_annotations(options, once) == once.annotations@,
{
    let catp = |c: CocoCategory| name_listed(options.category_filter@, c.name@);
    if options.category_filter@.len() > 0 {
        assert forall|i: int| 0 <= i < once.categories@.len() implies catp(#[trigger] once.categories@[i]) by {
            d.categories@.lemma_filter_pred(catp, i);
        }
        lemma_filter_all_pass(once.categories@, catp);
    }
    assert(filtered_categories(options, once) == once.categories@);
    assert(!image_limit_applies(options, once.images@));
    assert(filtered_images(options, once) == filtered_images(options, d));
    let kept_images = image_ids(filtered_images(options, d));
    let imgp = |a: CocoAnnotation| kept_images.contains(a.image_id);
    let by_image = if image_limit_applies(options, d.images@) {
        d.annotations@.filter(imgp)
    } else {
        d.annotations@
    };
    let kept_categories = category_ids(filtered_categories(options, d));
    let annp = |a: CocoAnnotation| kept_categories.contains(a.category_id);
    assert(image_ids(filtered_images(options, once)) == kept_images);
    assert(category_ids(filtered_categories(options, once)) == kept_categories);
    if options.category_filter@.len() > 0 {
        assert forall|i: int| 0 <= i < once.annotations@.len() implies annp(#[trigger] once.annotations@[i]) by {
            by_image.lemma_filter_pred(annp, i);
        }
        lemma_filter_all_pass(once.annotations@, annp);
        assert(once.annotations@.filter(annp) == once.annotations@);
    }
    assert(filtered_annotations(options, once) == once.annotations@);
}

/// An image limit keeps at most that many images, and when it truncates
/// the images, every kept annotation belongs to a kept image.
pub proof fn lemma_image_limit(options: CocoReadOptions, d: CocoDataset)
    requires
        options.max_images > 0,
    ensures
        filtered_images(options, d).len() <= options.max_images,
        image_limit_applies(options, d.images@) ==> forall|k: int|
            0 <= k < filtered_annotations(options, d).len() ==> image_ids(filtered_images(options, d)).contains(
                #[trigger] filtered_annotations(options, d)[k].image_id,
            ),
{
    if image_limit_applies(options, d.images@) {
        let kept = image_ids(filtered_images(options, d));
        let p1 = |a: CocoAnnotation| kept.contains(a.image_id);
        let by_image = d.annotations@.filter(p1);
        let kept_categories = category_ids(filtered_categories(options, d));
        let p2 = |a: CocoAnnotation| kept_categories.contains(a.category_id);
        assert forall|k: int| 0 <= k < filtered_annotations(options, d).len() implies kept.contains(
            #[trigger] filtered_annotations(options, d)[k].image_id,
        ) by {
            let f = filtered_annotations(options, d);
            if options.category_filter@.len() > 0 {
                assert(f == by_image.filter(p2));
                by_image.lemma_filter_pred(p2, k);
                assert(by_image.filter(p2).contains(f[k]));
                by_image.lemma_filter_contains_rev(p2, f[k]);
                let m = choose|m: int| 0 <= m < by_image.len() && by_image[m] == f[k];
                d.annotations@.lemma_filter_pred(p1, m);
            } else {
                assert(f == by_image);
                d.annotations@.lemma_filter_pred(p1, k);
            }
        }
    }
}

/// Whether `e` reports the first faulty annotation of `d`.
pub open spec fn reports_first_fault(d: CocoDataset, e: Error) -> bool {
    exists|i: int|
        is_first_fault(d, i) && (e matches Error::CocoError(m) && m@ == fault_message(
            d.annotations@[i],
            annotation_fault(d, d.annotations@[i])->0,
        ))
}

impl CocoReader {
    /// Finish reading a parsed dataset (the last steps of `read_json` and
    /// `read_annotations_zip`): validate it when the options ask for it,
    /// then apply the filters.
    pub fn finish_reading(&self, dataset: CocoDataset) -> (r: Result<CocoDataset, Error>)
        ensures
            self.spec_options().validate && !dataset_is_consistent(dataset) ==> (r matches Err(e)
                && reports_first_fault(dataset, e)),
            !(self.spec_options().validate && !dataset_is_consistent(dataset)) ==> (r matches Ok(f) && {
                &&& f.images@ == filtered_images(self.spec_options(), dataset)
                &&& f.categories@ == filtered_categories(self.spec_options(), dataset)
                &&& f.annotations@ == filtered_annotations(self.spec_options(), dataset)
                &&& f.info == dataset.info
                &&& f.licenses == dataset.licenses
            }),
    {
        if self.options.validate {
            match validate_dataset(&dataset) {
                Ok(()) => {},
                Err(e) => {
                    return Err(e);
                },
            }
        }
        Ok(self.apply_filters(dataset))
    }
}

/// Whether a file name names an image: it ends in `.jpg`, `.jpeg` or
/// `.png`, in any case.
pub open spec fn is_image_name(name: Seq<char>) -> bool {
    let l = lowercase(name);
    ends_with_text(l, ".jpg"@) || ends_with_text(l, ".jpeg"@) || ends_with_text(l, ".png"@)
}

/// Whether an archive entry holds COCO instance annotations: a `.json`
/// file with `instances` in its name.
pub open spec fn is_annotation_entry_name(name: Seq<char>) -> bool {
    ends_with_text(name, ".json"@) && contains_text(name, "instances"@)
}

/// Decide whether a file name names an image (used when listing the
/// images of a folder or archive).
pub fn is_image_file_name(name: &str) -> (b: bool)
    ensures
        b == is_image_name(name@),
{
    let l = chars_of(to_lowercase(name).as_str());
    ends_with_chars(&l, &chars_of(".jpg")) || ends_with_chars(&l, &chars_of(".jpeg"))
        || ends_with_chars(&l, &chars_of(".png"))
}

/// Decide whether an archive entry holds COCO instance annotations.
pub fn is_annotation_entry(name: &str) -> (b: bool)
    ensures
        b == is_annotation_entry_name(name@),
{
    let n = chars_of(name);
    ends_with_chars(&n, &chars_of(".json")) && contains_chars(&n, &chars_of("instances"))
}

} // verus!
