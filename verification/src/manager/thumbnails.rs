//! Thumbnails of images: their sizes and names, which images need them, and
//! recording them.
use vstd::prelude::*;
use crate::strmap::{StrMap, keys_distinct, lemma_map_of_index};
use crate::text::push_str;
use crate::datamodel::datamodel::{
    Dependencies, DependencyType, ImageMetadata, ImageVariant, Resource, Resources, ResourceData,
    ResourceProvider, ThumbnailSize, ThumbnailVariants, BySize, contains_id, size_label,
};
use crate::manager::config::{path_join, path_join_spec};
use crate::datamodel::datamodel::{names_file, file_name, last_dot, find_last_dot, path_file_name};
use crate::text::char_range;

verus! {

/// The number of thumbnail sizes each image gets.
pub const NUMBER_OF_THUMBNAILS: usize = 4;

/// The edge, in pixels, of the box a thumbnail of each size fits in.
pub open spec fn image_size_spec(size: ThumbnailSize) -> u32 {
    match size {
        ThumbnailSize::Small => 256,
        ThumbnailSize::Medium => 512,
        ThumbnailSize::Large => 2048,
        ThumbnailSize::Huge => 3000,
    }
}

/// The edge, in pixels, of the box a thumbnail of `size` fits in.
pub fn get_image_size(size: &ThumbnailSize) -> (r: u32)
    ensures
        r == image_size_spec(*size),
{
    match size {
        ThumbnailSize::Small => 256,
        ThumbnailSize::Medium => 512,
        ThumbnailSize::Large => 2048,
        ThumbnailSize::Huge => 3000,
    }
}

/// Whether the image already has a thumbnail of `size`.
pub fn has_thumbnail(image: &Resource, size: &ThumbnailSize) -> (b: bool)
    requires
        image.resource_data is Image,
    ensures
        b == image.resource_data->Image_0.variants.entry(*size) is Some,
{
    match &image.resource_data {
        ResourceData::Image(i) => i.variants.contains_key(size),
        _ => false,
    }
}

/// The id of the thumbnail of size `size` of the image with id `id`.
pub open spec fn thumbnail_id_spec(id: Seq<char>, size: ThumbnailSize) -> Seq<char> {
    id + "-thumbnail-"@ + size_label(size)
}

/// The id of the thumbnail of size `size` of `image`.
pub fn thumbnail_id(image: &Resource, size: &ThumbnailSize) -> (r: String)
    ensures
        r@ == thumbnail_id_spec(image.id@, *size),
{
    let mut s = String::new();
    push_str(&mut s, image.id.as_str());
    push_str(&mut s, "-thumbnail-");
    let l = size.label();
    push_str(&mut s, l.as_str());
    s
}

/// The file stem of a path as `std::path::Path::file_stem` documents it:
/// none without a file name; the whole file name when it has no `.` but
/// perhaps a first one; else what comes before the file name's last `.`.
pub open spec fn std_path_file_stem(p: Seq<char>) -> Option<Seq<char>> {
    if !names_file(p) {
        None
    } else {
        let n = file_name(p);
        let d = last_dot(n);
        if d <= 0 { Some(n) } else { Some(n.take(d)) }
    }
}

/// The file stem of a path given as text, as `std::path::Path::file_stem`
/// finds it.
pub(crate) fn path_file_stem(p: &str) -> (r: Option<String>)
    ensures
        match r {
            Some(s) => std_path_file_stem(p@) == Some(s@),
            None => std_path_file_stem(p@) is None,
        },
{
    let name = match path_file_name(p) {
        Some(n) => n,
        None => return None,
    };
    match find_last_dot(&name) {
        Some(d) => if d == 0 {
            Some(name)
        } else {
            Some(char_range(name.as_str(), 0, d))
        },
        None => Some(name),
    }
}

/// The file name of a thumbnail: the image's file stem, `-thumbnail-`, the
/// size and `.jpg`.
pub open spec fn thumbnail_file_name(stem: Seq<char>, size: ThumbnailSize) -> Seq<char> {
    stem + "-thumbnail-"@ + size_label(size) + ".jpg"@
}

/// `t` records the thumbnail of `image` at `size` with the given
/// dimensions: its id, its file under `resources/thumbnails` of `root` named
/// after the image's file stem, the image's content hash, and a direct
/// dependency on the image.
pub open spec fn thumbnail_record(t: Resource, root: Seq<char>, image: Resource, size: ThumbnailSize, width: u32, height: u32) -> bool {
    &&& t.id@ == thumbnail_id_spec(image.id@, size)
    &&& t.path@ == path_join_spec(path_join_spec(root, "resources/thumbnails"@),
        thumbnail_file_name(std_path_file_stem(image.path@)->Some_0, size))
    &&& t.resource_data == ResourceData::Thumbnail(ImageVariant { size, width, height })
    &&& t.content_hash@ == image.content_hash@
    &&& t.resource_provider@ matches crate::datamodel::datamodel::ProviderView::Generated(d)
    &&& d.dep_type == DependencyType::Direct
    &&& d.map() == Map::<Seq<char>, Seq<char>>::empty().insert(image.id@, image.content_hash@)
}

/// The thumbnail resource of `image` at `size`, with the dimensions the
/// scaled image got, stored under `resources/thumbnails` of `root` and
/// depending directly on the image. `None` when the image path has no file
/// stem to name the thumbnail after.
pub fn thumbnail_resource(root: &str, image: &Resource, size: &ThumbnailSize, width: u32, height: u32)
    -> (r: Option<Resource>)
    ensures
        std_path_file_stem(image.path@) is None <==> r is None,
        r matches Some(t) ==> thumbnail_record(t, root@, *image, *size, width, height),
{
    let stem = match path_file_stem(image.path.as_str()) {
        Some(s) => s,
        None => return None,
    };
    let mut deps = Dependencies::new_default();
    proof {
        assert(deps@.map() =~= Map::<Seq<char>, Seq<char>>::empty());
    }
    deps.add_dependency(image);
    let id = thumbnail_id(image, size);
    let mut filename = String::new();
    push_str(&mut filename, stem.as_str());
    push_str(&mut filename, "-thumbnail-");
    let l = size.label();
    push_str(&mut filename, l.as_str());
    push_str(&mut filename, ".jpg");
    let folder = path_join(root, "resources/thumbnails");
    let path = path_join(folder.as_str(), filename.as_str());
    let data = ResourceData::Thumbnail(ImageVariant { size: *size, width, height });
    let r = Resource::new(path.as_str(), data, id.as_str(), image.content_hash.as_str(), ResourceProvider::Generated(deps));
    Some(r)
}

/// Bytes held in an optional vector, as a sequence.
pub open spec fn opt_bytes(o: Option<Vec<u8>>) -> Option<Seq<u8>> {
    match o {
        Some(v) => Some(v@),
        None => None,
    }
}

/// What `img_parts::jpeg::Jpeg::from_bytes` followed by `icc_profile` finds
/// in a file's bytes: `None` when they are no JPEG it can read, else the ICC
/// profile if there is one.
pub uninterp spec fn jpeg_icc_profile(bytes: Seq<u8>) -> Option<Option<Seq<u8>>>;

/// What `image::load_from_memory`, `DynamicImage::resize` to fit an
/// `edge` by `edge` box with the Lanczos filter and `write_to` as a JPEG of
/// quality 80 make of a file's bytes: `None` when they do not decode,
/// `Some(None)` when the encoder refuses, else the JPEG bytes with the
/// scaled image's width and height.
pub uninterp spec fn resized_jpeg(src: Seq<u8>, edge: u32) -> Option<Option<(Seq<u8>, u32, u32)>>;

/// What `img_parts::jpeg::Jpeg::from_bytes`, `set_icc_profile` and the
/// encoder make of JPEG bytes and an ICC profile: the bytes with the profile
/// set, or `None` when the bytes are no JPEG it can read.
pub uninterp spec fn with_icc_profile(jpeg: Seq<u8>, icc: Option<Seq<u8>>) -> Option<Seq<u8>>;

/// `img_parts::jpeg::Jpeg::from_bytes` and `ImageICC::icc_profile`.
#[verifier::external_body]
fn read_icc_profile(bytes: &[u8]) -> (r: Option<Option<Vec<u8>>>)
    ensures
        match r {
            Some(p) => jpeg_icc_profile(bytes@) == Some(opt_bytes(p)),
            None => jpeg_icc_profile(bytes@) is None,
        },
{
    match img_parts::jpeg::Jpeg::from_bytes(img_parts::Bytes::copy_from_slice(bytes)) {
        Ok(jpeg) => Some(img_parts::ImageICC::icc_profile(&jpeg).map(|p| p.to_vec())),
        Err(_) => None,
    }
}

/// `image::load_from_memory`, `DynamicImage::resize` with
/// `FilterType::Lanczos3`, and `write_to` with `ImageOutputFormat::Jpeg(80)`.
#[verifier::external_body]
fn resize_to_jpeg(src: &[u8], edge: u32) -> (r: Option<Option<(Vec<u8>, u32, u32)>>)
    ensures
        match r {
            None => resized_jpeg(src@, edge) is None,
            Some(None) => resized_jpeg(src@, edge) == Some(None::<(Seq<u8>, u32, u32)>),
            Some(Some(t)) => resized_jpeg(src@, edge) == Some(Some((t.0@, t.1, t.2))),
        },
{
    match image::load_from_memory(src) {
        Ok(img) => {
            let small = img.resize(edge, edge, image::imageops::FilterType::Lanczos3);
            let mut out = std::io::Cursor::new(Vec::new());
            match small.write_to(&mut out, image::ImageOutputFormat::Jpeg(80)) {
                Ok(()) => Some(Some((out.into_inner(), image::GenericImageView::width(&small),
                    image::GenericImageView::height(&small)))),
                Err(_) => Some(None),
            }
        },
        Err(_) => None,
    }
}

/// `img_parts::jpeg::Jpeg::from_bytes`, `ImageICC::set_icc_profile` and
/// `ImageEncoder::bytes`.
#[verifier::external_body]
fn embed_icc_profile(jpeg: &[u8], icc: &Option<Vec<u8>>) -> (r: Option<Vec<u8>>)
    ensures
        match r {
            Some(b) => with_icc_profile(jpeg@, opt_bytes(*icc)) == Some(b@),
            None => with_icc_profile(jpeg@, opt_bytes(*icc)) is None,
        },
{
    match img_parts::jpeg::Jpeg::from_bytes(img_parts::Bytes::copy_from_slice(jpeg)) {
        Ok(mut j) => {
            img_parts::ImageICC::set_icc_profile(&mut j, icc.as_ref().map(|p| img_parts::Bytes::copy_from_slice(p)));
            Some(j.encoder().bytes().to_vec())
        },
        Err(_) => None,
    }
}

/// What making one thumbnail from an image file's bytes comes to.
#[derive(Debug)]
pub enum ThumbnailOutcome {
    /// The file is no JPEG whose ICC profile can be read.
    NotJpeg,
    /// The file does not decode as an image; no thumbnail is made of it.
    Undecodable,
    /// The image path has no file stem to name the thumbnail after.
    Unnamed,
    /// The scaled image could not be written as a JPEG.
    EncodingFailed,
    /// The resource recording the thumbnail, and the bytes of its file.
    Made(Resource, Vec<u8>),
}

/// The thumbnail of `image` at `size`, made from the image file's bytes
/// `src`: the image scaled to fit the size's box, written as a JPEG that
/// carries the source's ICC profile, and the resource that records it under
/// `root` with the scaled dimensions. The steps are taken in this order: the
/// ICC profile is read, the image decoded and scaled, the file stem found,
/// and the JPEG written.
pub fn make_thumbnail(root: &str, image: &Resource, size: &ThumbnailSize, src: &Vec<u8>) -> (r: ThumbnailOutcome)
    ensures
        match jpeg_icc_profile(src@) {
            None => r is NotJpeg,
            Some(icc) => match resized_jpeg(src@, image_size_spec(*size)) {
                None => r is Undecodable,
                Some(made) => match std_path_file_stem(image.path@) {
                    None => r is Unnamed,
                    Some(_) => match made {
                        None => r is EncodingFailed,
                        Some(scaled) => match with_icc_profile(scaled.0, icc) {
                            None => r is EncodingFailed,
                            Some(out) => r matches ThumbnailOutcome::Made(t, bytes) && bytes@ == out
                                && thumbnail_record(t, root@, *image, *size, scaled.1, scaled.2),
                        },
                    },
                },
            },
        },
{
    let icc = match read_icc_profile(src.as_slice()) {
        Some(p) => p,
        None => return ThumbnailOutcome::NotJpeg,
    };
    let edge = get_image_size(size);
    let made = match resize_to_jpeg(src.as_slice(), edge) {
        Some(m) => m,
        None => return ThumbnailOutcome::Undecodable,
    };
    match path_file_stem(image.path.as_str()) {
        Some(_) => {},
        None => return ThumbnailOutcome::Unnamed,
    }
    let (jpeg, width, height) = match made {
        Some(t) => t,
        None => return ThumbnailOutcome::EncodingFailed,
    };
    let out = match embed_icc_profile(jpeg.as_slice(), &icc) {
        Some(b) => b,
        None => return ThumbnailOutcome::EncodingFailed,
    };
    match thumbnail_resource(root, image, size, width, height) {
        Some(t) => ThumbnailOutcome::Made(t, out),
        None => ThumbnailOutcome::Unnamed,
    }
}

/// The thumbnails of `v` whose ids are in `valid`.
pub open spec fn pruned_variants(v: ThumbnailVariants, valid: Set<Seq<char>>) -> ThumbnailVariants {
    BySize {
        small: match v.small { Some(id) => if valid.contains(id@) { Some(id) } else { None }, None => None },
        medium: match v.medium { Some(id) => if valid.contains(id@) { Some(id) } else { None }, None => None },
        large: match v.large { Some(id) => if valid.contains(id@) { Some(id) } else { None }, None => None },
        huge: match v.huge { Some(id) => if valid.contains(id@) { Some(id) } else { None }, None => None },
    }
}

/// A resource with, if it is an image, its thumbnails not in `valid`
/// forgotten.
pub open spec fn pruned_resource(r: Resource, valid: Set<Seq<char>>) -> Resource {
    match r.resource_data {
        ResourceData::Image(m) => Resource {
            resource_data: ResourceData::Image(ImageMetadata { variants: pruned_variants(m.variants, valid), ..m }),
            ..r
        },
        _ => r,
    }
}

/// The keys of the map, in order.
pub fn keys_of<V>(m: &StrMap<V>) -> (r: Vec<String>)
    ensures
        r@.len() == m.items().len(),
        forall|i: int| 0 <= i < r@.len() ==> #[trigger] r@[i]@ == m.items()[i].0,
        forall|k: Seq<char>| contains_id(r@, k) <==> m@.dom().contains(k),
        keys_distinct(m.items()),
{
    let n = m.len();
    let ghost items = m.items();
    let mut r: Vec<String> = Vec::new();
    let mut i: usize = 0;
    while i < n
        invariant
            i <= n == items.len(),
            items == m.items(),
            keys_distinct(items),
            r@.len() == i,
            forall|j: int| 0 <= j < i ==> #[trigger] r@[j]@ == items[j].0,
        decreases n - i,
    {
        r.push(m.key_at(i).clone());
        i = i + 1;
    }
    proof {
        assert forall|k: Seq<char>| contains_id(r@, k) <==> m@.dom().contains(k) by {
            if contains_id(r@, k) {
                let j = choose|j: int| 0 <= j < r@.len() && r@[j]@ == k;
                lemma_map_of_index(items, j);
            }
            if m@.dom().contains(k) {
                let j = choose|j: int| 0 <= j < items.len() && items[j].0 == k;
                assert(r@[j]@ == k);
            }
        }
    }
    r
}

/// Every image forgets the thumbnails that are no longer resources.
pub fn prune_images(resources: &mut Resources)
    ensures
        final(resources).resources@.dom() == old(resources).resources@.dom(),
        forall|k: Seq<char>| #[trigger] final(resources).resources@.dom().contains(k)
            ==> final(resources).resources@[k] == pruned_resource(old(resources).resources@[k],
                old(resources).resources@.dom()),
{
    let ghost items = resources.resources.items();
    let keys = keys_of(&resources.resources);
    let valid_ids = keys_of(&resources.resources);
    let ghost m0 = resources.resources@;
    let ghost valid = m0.dom();
    let mut i: usize = 0;
    while i < keys.len()
        invariant
            i <= keys@.len() == items.len(),
            keys_distinct(items),
            forall|j: int| 0 <= j < keys@.len() ==> #[trigger] keys@[j]@ == items[j].0,
            forall|k: Seq<char>| contains_id(valid_ids@, k) <==> valid.contains(k),
            valid == m0.dom(),
            m0 == crate::strmap::map_of(items),
            m0 == old(resources).resources@,
            resources.resources@.dom() == m0.dom(),
            forall|k: Seq<char>| #[trigger] resources.resources@.dom().contains(k) ==> resources.resources@[k] == (
                if (exists|j: int| 0 <= j < i && keys@[j]@ == k) { pruned_resource(m0[k], valid) } else { m0[k] }),
        decreases keys@.len() - i,
    {
        let k = &keys[i];
        let ghost before = resources.resources@;
        proof {
            lemma_map_of_index(items, i as int);
            assert(m0.dom().contains(k@));
            assert(!(exists|j: int| 0 <= j < i && keys@[j]@ == k@)) by {
                if exists|j: int| 0 <= j < i && keys@[j]@ == k@ {
                    let j = choose|j: int| 0 <= j < i && keys@[j]@ == k@;
                    assert(items[j].0 == items[i as int].0);
                }
            }
        }
        match resources.resources.remove(k.as_str()) {
            Some(mut r) => {
                let ghost r0 = r;
                match &mut r.resource_data {
                    ResourceData::Image(m) => {
                        m.prune(&valid_ids);
                    },
                    _ => {},
                }
                proof {
                    assert(r0 == m0[k@]);
                    if r0.resource_data is Image {
                        let m1 = r.resource_data->Image_0;
                        let p = pruned_variants(r0.resource_data->Image_0.variants, valid);
                        assert(m1.variants.entry(ThumbnailSize::Small) == p.small);
                        assert(m1.variants.entry(ThumbnailSize::Medium) == p.medium);
                        assert(m1.variants.entry(ThumbnailSize::Large) == p.large);
                        assert(m1.variants.entry(ThumbnailSize::Huge) == p.huge);
                        assert(m1.variants == p);
                    }
                    assert(r == pruned_resource(r0, valid));
                }
                let _ = resources.resources.insert(k.clone(), r);
            },
            None => {},
        }
        proof {
            assert(resources.resources@.dom() =~= m0.dom());
            assert forall|k2: Seq<char>| #[trigger] resources.resources@.dom().contains(k2) implies resources.resources@[k2] == (
                if (exists|j: int| 0 <= j < i + 1 && keys@[j]@ == k2) { pruned_resource(m0[k2], valid) } else { m0[k2] }) by {
                if k2 == k@ {
                    assert(keys@[i as int]@ == k2);
                } else {
                    assert(before.dom().contains(k2));
                    if exists|j: int| 0 <= j < i + 1 && keys@[j]@ == k2 {
                        let j = choose|j: int| 0 <= j < i + 1 && keys@[j]@ == k2;
                        assert(j < i);
                    }
                }
            }
        }
        i = i + 1;
    }
    proof {
        assert forall|k: Seq<char>| #[trigger] resources.resources@.dom().contains(k) implies
            (exists|j: int| 0 <= j < keys@.len() && keys@[j]@ == k) by {
            let j = choose|j: int| 0 <= j < items.len() && items[j].0 == k;
            assert(keys@[j]@ == k);
        }
    }
}

/// An image lacks thumbnails: it has fewer than one of each size.
pub open spec fn lacks_thumbnails(r: Resource) -> bool {
    r.resource_data matches ResourceData::Image(m) && m.variants.count() != NUMBER_OF_THUMBNAILS
}

/// The ids of the images that lack thumbnails, in order.
pub open spec fn lacking_ids(items: Seq<(Seq<char>, Resource)>) -> Seq<Seq<char>>
    decreases items.len(),
{
    if items.len() == 0 {
        Seq::empty()
    } else if lacks_thumbnails(items.last().1) {
        lacking_ids(items.drop_last()).push(items.last().0)
    } else {
        lacking_ids(items.drop_last())
    }
}

/// The ids of the images that lack thumbnails, in order.
pub fn images_needing_thumbnails(resources: &Resources) -> (r: Vec<String>)
    ensures
        r@.map_values(|s: String| s@) == lacking_ids(resources.resources.items()),
{
    let ghost items = resources.resources.items();
    let n = resources.resources.len();
    let mut r: Vec<String> = Vec::new();
    let mut i: usize = 0;
    assert(items.take(0) =~= Seq::<(Seq<char>, Resource)>::empty());
    assert(r@.map_values(|s: String| s@) =~= Seq::<Seq<char>>::empty());
    while i < n
        invariant
            i <= n == items.len(),
            items == resources.resources.items(),
            r@.map_values(|s: String| s@) == lacking_ids(items.take(i as int)),
        decreases n - i,
    {
        let x = resources.resources.value_at(i);
        proof { assert(items.take(i + 1).drop_last() =~= items.take(i as int)); }
        let lacks = match &x.resource_data {
            ResourceData::Image(m) => m.variants.len() != NUMBER_OF_THUMBNAILS,
            _ => false,
        };
        if lacks {
            r.push(resources.resources.key_at(i).clone());
            assert(r@.map_values(|s: String| s@) =~= lacking_ids(items.take(i as int)).push(items[i as int].0));
        }
        i = i + 1;
    }
    assert(items.take(n as int) =~= items);
    r
}

/// The sizes, from small to huge, that the image has no thumbnail of.
pub open spec fn missing_sizes_spec(v: ThumbnailVariants) -> Seq<ThumbnailSize> {
    seq![ThumbnailSize::Small, ThumbnailSize::Medium, ThumbnailSize::Large, ThumbnailSize::Huge].filter(
        |s: ThumbnailSize| v.entry(s) is None)
}

/// The sizes, from small to huge, that the image has no thumbnail of.
pub fn missing_sizes(image: &Resource) -> (r: Vec<ThumbnailSize>)
    requires
        image.resource_data is Image,
    ensures
        r@ == missing_sizes_spec(image.resource_data->Image_0.variants),
{
    let all = [ThumbnailSize::Small, ThumbnailSize::Medium, ThumbnailSize::Large, ThumbnailSize::Huge];
    let ghost sizes = seq![ThumbnailSize::Small, ThumbnailSize::Medium, ThumbnailSize::Large, ThumbnailSize::Huge];
    let ghost v = image.resource_data->Image_0.variants;
    let ghost keep = |s: ThumbnailSize| v.entry(s) is None;
    let mut r: Vec<ThumbnailSize> = Vec::new();
    let mut i: usize = 0;
    assert(all@ =~= sizes);
    assert(sizes.take(0).filter(keep) =~= Seq::<ThumbnailSize>::empty());
    while i < 4
        invariant
            i <= 4,
            all@ == sizes,
            sizes == seq![ThumbnailSize::Small, ThumbnailSize::Medium, ThumbnailSize::Large, ThumbnailSize::Huge],
            image.resource_data is Image,
            v == image.resource_data->Image_0.variants,
            keep == (|s: ThumbnailSize| v.entry(s) is None),
            r@ == sizes.take(i as int).filter(keep),
        decreases 4 - i,
    {
        let s = all[i];
        proof {
            assert(sizes.take(i + 1) =~= sizes.take(i as int).push(s));
            sizes.take(i as int).lemma_filter_push(s, keep);
        }
        if !has_thumbnail(image, &s) {
            r.push(s);
        }
        i = i + 1;
    }
    assert(sizes.take(4) =~= sizes);
    r
}

/// Records a new thumbnail: the image notes the thumbnail's id for its size
/// and the thumbnail joins the resources.
pub fn record_thumbnail(resources: &mut Resources, image_id: &str, size: ThumbnailSize, thumbnail: Resource)
    requires
        old(resources).resources@.dom().contains(image_id@),
        old(resources).resources@[image_id@].resource_data is Image,
        thumbnail.id@ != image_id@,
    ensures
        final(resources).resources@ == old(resources).resources@.insert(image_id@, Resource {
            resource_data: ResourceData::Image(ImageMetadata {
                variants: BySize {
                    small: if size == ThumbnailSize::Small { Some(thumbnail.id) } else {
                        old(resources).resources@[image_id@].resource_data->Image_0.variants.small },
                    medium: if size == ThumbnailSize::Medium { Some(thumbnail.id) } else {
                        old(resources).resources@[image_id@].resource_data->Image_0.variants.medium },
                    large: if size == ThumbnailSize::Large { Some(thumbnail.id) } else {
                        old(resources).resources@[image_id@].resource_data->Image_0.variants.large },
                    huge: if size == ThumbnailSize::Huge { Some(thumbnail.id) } else {
                        old(resources).resources@[image_id@].resource_data->Image_0.variants.huge },
                },
                ..old(resources).resources@[image_id@].resource_data->Image_0
            }),
            ..old(resources).resources@[image_id@]
        }).insert(thumbnail.id@, thumbnail),
{
    let ghost m0 = resources.resources@;
    match resources.resources.remove(image_id) {
        Some(mut image) => {
            let ghost i0 = image;
            match &mut image.resource_data {
                ResourceData::Image(m) => {
                    m.variants.insert(size, thumbnail.id.clone());
                },
                _ => {},
            }
            proof {
                let v0 = i0.resource_data->Image_0.variants;
                let v1 = image.resource_data->Image_0.variants;
                assert(v1.small == (if size == ThumbnailSize::Small { Some(thumbnail.id) } else { v0.small })) by {
                    assert(v1.entry(ThumbnailSize::Small) == v1.small);
                }
                assert(v1.medium == (if size == ThumbnailSize::Medium { Some(thumbnail.id) } else { v0.medium })) by {
                    assert(v1.entry(ThumbnailSize::Medium) == v1.medium);
                }
                assert(v1.large == (if size == ThumbnailSize::Large { Some(thumbnail.id) } else { v0.large })) by {
                    assert(v1.entry(ThumbnailSize::Large) == v1.large);
                }
                assert(v1.huge == (if size == ThumbnailSize::Huge { Some(thumbnail.id) } else { v0.huge })) by {
                    assert(v1.entry(ThumbnailSize::Huge) == v1.huge);
                }
            }
            let _ = resources.resources.insert(image_id.to_string(), image);
            let tid = thumbnail.id.clone();
            let _ = resources.resources.insert(tid, thumbnail);
            proof {
                assert(resources.resources@ =~= m0.insert(image_id@, image).insert(thumbnail.id@, thumbnail));
            }
        },
        None => {},
    }
}

/// An image needs thumbnails exactly when some size has none: the sizes
/// that `missing_sizes` lists are empty just when all four are recorded.
pub proof fn law_lacking_iff_sizes_missing(v: ThumbnailVariants)
    ensures
        (v.count() != NUMBER_OF_THUMBNAILS) <==> missing_sizes_spec(v).len() > 0,
        forall|s: ThumbnailSize| #[trigger] missing_sizes_spec(v).contains(s) <==> v.entry(s) is None,
{
    let all = seq![ThumbnailSize::Small, ThumbnailSize::Medium, ThumbnailSize::Large, ThumbnailSize::Huge];
    let keep = |s: ThumbnailSize| v.entry(s) is None;
    assert forall|s: ThumbnailSize| #[trigger] missing_sizes_spec(v).contains(s) <==> v.entry(s) is None by {
        if missing_sizes_spec(v).contains(s) {
            let j = choose|j: int| 0 <= j < all.filter(keep).len() && all.filter(keep)[j] == s;
            all.lemma_filter_pred(keep, j);
        }
        if v.entry(s) is None {
            let i: int = match s {
                ThumbnailSize::Small => 0,
                ThumbnailSize::Medium => 1,
                ThumbnailSize::Large => 2,
                ThumbnailSize::Huge => 3,
            };
            assert(all[i] == s);
            all.lemma_filter_contains(keep, i);
        }
    }
    if v.count() != NUMBER_OF_THUMBNAILS {
        let s = if v.small is None { ThumbnailSize::Small } else if v.medium is None { ThumbnailSize::Medium }
            else if v.large is None { ThumbnailSize::Large } else { ThumbnailSize::Huge };
        assert(missing_sizes_spec(v).contains(s));
    } else {
        if missing_sizes_spec(v).len() > 0 {
            assert(missing_sizes_spec(v).contains(missing_sizes_spec(v)[0]));
        }
    }
}

/// After pruning, every thumbnail an image still records is a resource of
/// the inventory.
pub proof fn law_pruned_thumbnails_exist(m: Map<Seq<char>, Resource>, k: Seq<char>)
    requires
        m.dom().contains(k),
    ensures
        pruned_resource(m[k], m.dom()).resource_data matches ResourceData::Image(meta) ==> forall|s: ThumbnailSize|
            #[trigger] meta.variants.entry(s) matches Some(id) ==> m.dom().contains(id@),
{
}

} // verus!
