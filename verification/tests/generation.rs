use content_managment::datamodel::datamodel::{
    BySize, Dependencies, ImageMetadata, ImageVariant, Resource, ResourceData, ResourceProvider, Resources,
    SiteDataConfig, ThumbnailSize, Timestamp,
};
use content_managment::datamodel::print::{Price, PrintDefinition, PrintRaw, Variant};
use content_managment::manager::categories::{
    compute_categories, item_path, xmp_key, Category, CategoryFilter, FilterMode, ImageXmp, PropertyValues,
    DC_NAMESPACE,
};
use content_managment::manager::image::{
    average_colour, colour_of_rows, hex_colour, image_date, image_metadata, parse_xmp_date, FileCreated, XmpFields,
};
use content_managment::manager::print::compile_print_file;
use content_managment::manager::templates::{
    image_resources, resource_to_print_url, resource_to_url, sort_by_categories, sort_by_years, templates_to_render,
};
use content_managment::manager::thumbnails::{
    get_image_size, has_thumbnail, images_needing_thumbnails, make_thumbnail, missing_sizes, prune_images,
    record_thumbnail, thumbnail_id, thumbnail_resource, ThumbnailOutcome, NUMBER_OF_THUMBNAILS,
};
use content_managment::strmap::StrMap;
use image::GenericImageView;

fn s(t: &str) -> String {
    t.to_string()
}

fn image_named(id: &str, name: &str, path: &str) -> Resource {
    let m = ImageMetadata { name: s(name), date: Timestamp { secs: 0, nanos: 0 }, colour: s("000000"), variants: BySize::new() };
    Resource::new(path, ResourceData::Image(m), id, "h", ResourceProvider::Dropbox)
}

fn inventory(v: Vec<Resource>) -> Resources {
    let mut m = StrMap::new();
    for r in v {
        m.insert(r.id.clone(), r);
    }
    Resources { resources: m }
}

fn image_meta(r: &Resource) -> &ImageMetadata {
    match &r.resource_data {
        ResourceData::Image(m) => m,
        _ => panic!("not an image"),
    }
}

#[test]
fn store_and_file_addresses_are_url_encoded() {
    let r = image_named("i", "Sunset över sjön", "resources/images/s.jpg");
    assert_eq!(resource_to_print_url(&r), "/store/print/Sunset%20%C3%B6ver%20sj%C3%B6n");
    assert_eq!(resource_to_url(&vec![s("resources"), s("images"), s("a b.jpg")]), "/resources/images/a%20b.jpg");
    assert_eq!(resource_to_url(&vec![]), "");
}

#[test]
fn templates_to_render_skips_includes_and_recorded_ones() {
    let mut recorded = image_named("tera-template:about.html", "x", "resources/images/x.jpg");
    recorded.id = s("tera-template:about.html");
    let res = inventory(vec![recorded]);
    let names = vec![s("index.html"), s("base.jinja2"), s("about.html"), s("gallery.html")];
    assert_eq!(templates_to_render(&names, &res), vec![s("index.html"), s("gallery.html")]);
}

#[test]
fn images_and_categories_for_templates() {
    let a = image_named("a", "A", "resources/images/a.jpg");
    let b = image_named("b", "B", "resources/images/b.jpg");
    let d = Resource::new("resources/data/p.json", ResourceData::Sitedata(SiteDataConfig { filename: s("p.json") }),
        "d", "h", ResourceProvider::Dropbox);
    let res = inventory(vec![a, d, b]);
    let imgs = image_resources(&res);
    let found: Vec<String> = imgs.iter().map(|r| r.id.clone()).collect();
    assert_eq!(found, vec![s("a"), s("b")]);

    let mut cats = StrMap::new();
    cats.insert(s("nature"), vec![s("b"), s("missing"), s("a")]);
    cats.insert(s("empty"), vec![s("missing")]);
    let by = sort_by_categories(&res, &cats);
    assert_eq!(by.len(), 1);
    let nature: Vec<String> = by.get("nature").unwrap().iter().map(|r| r.id.clone()).collect();
    assert_eq!(nature, vec![s("b"), s("a")]);
    assert!(by.get("empty").is_none());
}

#[test]
fn thumbnail_sizes_and_names() {
    assert_eq!(get_image_size(&ThumbnailSize::Small), 256);
    assert_eq!(get_image_size(&ThumbnailSize::Medium), 512);
    assert_eq!(get_image_size(&ThumbnailSize::Large), 2048);
    assert_eq!(get_image_size(&ThumbnailSize::Huge), 3000);
    assert_eq!(NUMBER_OF_THUMBNAILS, 4);
    let img = image_named("img", "Photo", "resources/images/My Photo.jpg");
    assert_eq!(thumbnail_id(&img, &ThumbnailSize::Huge), "img-thumbnail-huge");
    let t = thumbnail_resource("/g", &img, &ThumbnailSize::Small, 100, 80).unwrap();
    assert_eq!(t.id, "img-thumbnail-small");
    assert_eq!(t.path, "/g/resources/thumbnails/My Photo-thumbnail-small.jpg");
    assert_eq!(t.content_hash, "h");
    match &t.resource_data {
        ResourceData::Thumbnail(v) => {
            assert_eq!(*v, ImageVariant { size: ThumbnailSize::Small, width: 100, height: 80 });
        },
        _ => panic!("not a thumbnail"),
    }
    match &t.resource_provider {
        ResourceProvider::Generated(d) => assert!(d.depends_on(&img)),
        _ => panic!("not generated"),
    }
    let rootless = image_named("r", "R", "/");
    assert!(thumbnail_resource("/g", &rootless, &ThumbnailSize::Small, 1, 1).is_none());
    let dotted = image_named("d", "D", "resources/images/a.b.jpg");
    assert_eq!(thumbnail_resource("/g", &dotted, &ThumbnailSize::Small, 1, 1).unwrap().path,
        "/g/resources/thumbnails/a.b-thumbnail-small.jpg");
    let hidden = image_named("h", "H", "resources/images/.hidden");
    assert_eq!(thumbnail_resource("/g", &hidden, &ThumbnailSize::Small, 1, 1).unwrap().path,
        "/g/resources/thumbnails/.hidden-thumbnail-small.jpg");
    let bare = image_named("b", "B", "resources/images/bare");
    assert_eq!(thumbnail_resource("/g", &bare, &ThumbnailSize::Small, 1, 1).unwrap().path,
        "/g/resources/thumbnails/bare-thumbnail-small.jpg");
}

#[test]
fn thumbnails_are_recorded_pruned_and_missing() {
    let img = image_named("img", "Photo", "resources/images/p.jpg");
    let mut res = inventory(vec![img]);
    assert_eq!(images_needing_thumbnails(&res), vec![s("img")]);
    let t = thumbnail_resource("/g", res.resources.get("img").unwrap(), &ThumbnailSize::Medium, 10, 10).unwrap();
    record_thumbnail(&mut res, "img", ThumbnailSize::Medium, t);
    let stored = res.resources.get("img").unwrap();
    assert!(has_thumbnail(stored, &ThumbnailSize::Medium));
    assert!(!has_thumbnail(stored, &ThumbnailSize::Small));
    assert_eq!(missing_sizes(stored), vec![ThumbnailSize::Small, ThumbnailSize::Large, ThumbnailSize::Huge]);
    assert_eq!(image_meta(stored).variants.medium, Some(s("img-thumbnail-medium")));
    assert!(res.resources.contains_key("img-thumbnail-medium"));

    let mut dangling = res.resources.remove("img").unwrap();
    match &mut dangling.resource_data {
        ResourceData::Image(m) => m.variants.insert(ThumbnailSize::Small, s("gone")),
        _ => panic!("not an image"),
    }
    res.resources.insert(s("img"), dangling);
    prune_images(&mut res);
    let pruned = res.resources.get("img").unwrap();
    assert_eq!(image_meta(pruned).variants.small, None);
    assert_eq!(image_meta(pruned).variants.medium, Some(s("img-thumbnail-medium")));
}

#[test]
fn xmp_dates_in_known_formats() {
    let t = parse_xmp_date("2021-05-03T10:20:30Z").unwrap();
    assert_eq!(t, Timestamp { secs: 1620037230, nanos: 0 });
    assert_eq!(parse_xmp_date("2021-05-03T12:20:30+02:00").unwrap(), t);
    assert_eq!(parse_xmp_date("2021-05-03T10:20:30").unwrap(), t);
    assert_eq!(parse_xmp_date("2021-05-03T10:20:30.5").unwrap(), Timestamp { secs: 1620037230, nanos: 500000000 });
    assert!(parse_xmp_date("yesterday").is_none());
}

#[test]
fn image_dates_and_their_errors() {
    let none = XmpFields { title: None, date_digitized: None, date_original: None };
    let created = Timestamp { secs: 5, nanos: 6 };
    assert_eq!(image_date("p.jpg", &none, &FileCreated::At(created)).unwrap(), created);
    assert_eq!(image_date("p.jpg", &none, &FileCreated::Unreadable).err().unwrap().error,
        Some(s("Failed to open file p.jpg to read timestamp")));
    assert_eq!(image_date("p.jpg", &none, &FileCreated::Unknown).err().unwrap().error,
        Some(s("Failed to find image timestamp")));
    let both = XmpFields { title: None, date_digitized: Some(s("2021-05-03T10:20:30Z")), date_original: Some(s("bad")) };
    assert_eq!(image_date("p.jpg", &both, &FileCreated::Unknown).unwrap().secs, 1620037230);
    let orig = XmpFields { title: None, date_digitized: None, date_original: Some(s("bad")) };
    assert_eq!(image_date("p.jpg", &orig, &FileCreated::At(created)).err().unwrap().error,
        Some(s("Failed to parse p.jpg XMP timestamp (bad)")));
}

#[test]
fn average_colour_averages_row_averages() {
    let rows = vec![vec![(10u8, 20u8, 30u8), (20, 40, 60)], vec![(0, 0, 0), (1, 1, 1)]];
    assert_eq!(average_colour(&rows), (7, 15, 22));
    assert_eq!(hex_colour(7, 15, 22), "070f16");
    assert_eq!(hex_colour(255, 0, 171), "ff00ab");
}

fn jpeg_of(width: u32, height: u32, colour: [u8; 3]) -> Vec<u8> {
    let img = image::RgbImage::from_pixel(width, height, image::Rgb(colour));
    let mut out = std::io::Cursor::new(Vec::new());
    image::DynamicImage::ImageRgb8(img).write_to(&mut out, image::ImageOutputFormat::Jpeg(100)).unwrap();
    out.into_inner()
}

#[test]
fn colour_of_rows_is_black_without_pixels() {
    let rows = vec![vec![(10u8, 20u8, 30u8), (20, 40, 60)], vec![(0, 0, 0), (1, 1, 1)]];
    assert_eq!(colour_of_rows(&rows), "070f16");
    assert_eq!(colour_of_rows(&vec![vec![], vec![]]), "000000");
}

#[test]
fn image_metadata_from_its_parts() {
    let xmp = XmpFields { title: Some(s("Harbour")), date_digitized: Some(s("2021-05-03T10:20:30Z")), date_original: None };
    let m = image_metadata("h.jpg", "/g/h.jpg", Some(xmp), &FileCreated::Unknown, Ok(jpeg_of(4, 3, [255, 255, 255])))
        .unwrap().unwrap();
    assert_eq!(m.name, "Harbour");
    assert_eq!(m.date.secs, 1620037230);
    assert_eq!(m.colour, "ffffff");
    assert_eq!(m.variants.len(), 0);
    let untitled = XmpFields { title: None, date_digitized: None, date_original: None };
    let m2 = image_metadata("h.jpg", "/g/h.jpg", Some(untitled), &FileCreated::At(Timestamp { secs: 1, nanos: 0 }),
        Ok(jpeg_of(2, 2, [0, 0, 0]))).unwrap().unwrap();
    assert_eq!(m2.name, "h.jpg");
    assert_eq!(m2.colour, "000000");
    let e = image_metadata("h.jpg", "/g/h.jpg", None, &FileCreated::Unknown, Ok(jpeg_of(1, 1, [0, 0, 0])));
    assert_eq!(e.unwrap().err().unwrap().error, Some(s("No XMP in file /g/h.jpg!")));
    let untitled2 = XmpFields { title: None, date_digitized: None, date_original: None };
    let e2 = image_metadata("h.jpg", "/g/h.jpg", Some(untitled2), &FileCreated::At(Timestamp { secs: 1, nanos: 0 }),
        Err(s("read failed")));
    assert_eq!(e2.unwrap().err().unwrap().error, Some(s("read failed")));
    let untitled3 = XmpFields { title: None, date_digitized: None, date_original: None };
    let e3 = image_metadata("h.jpg", "/g/h.jpg", Some(untitled3), &FileCreated::At(Timestamp { secs: 1, nanos: 0 }),
        Ok(vec![1, 2, 3]));
    let message = e3.unwrap().err().unwrap().error.unwrap();
    assert!(!message.is_empty());
}

#[test]
fn site_data_needs_a_readable_file() {
    let ok = SiteDataConfig::new("print.json", "/g/resources/data/print.json", true).unwrap();
    assert_eq!(ok.filename, "print.json");
    let err = SiteDataConfig::new("print.json", "/g/resources/data/print.json", false).err().unwrap();
    assert_eq!(err.error, "Failed to open resource file /g/resources/data/print.json!");
}

fn filter(path: &str, value: &str) -> CategoryFilter {
    CategoryFilter { namespace: None, path: s(path), value: s(value), trace: false }
}

fn xmp_image(id: &str, subject: Option<&str>, items: &[&str]) -> ImageXmp {
    let mut t = StrMap::new();
    t.insert(xmp_key(DC_NAMESPACE, "dc:subject"), PropertyValues {
        value: subject.map(|v| s(v)),
        items: items.iter().map(|v| s(v)).collect(),
    });
    ImageXmp { id: s(id), properties: Some(t) }
}

#[test]
fn category_filters_and_their_combinations() {
    assert_eq!(item_path("dc:subject", 3), "dc:subject[3]");
    assert_eq!(xmp_key("ns", "p"), "ns\np");
    let images = vec![
        xmp_image("a", Some("sea"), &["boat"]),
        xmp_image("b", Some(""), &["sea", "city"]),
        xmp_image("c", None, &["sea"]),
        ImageXmp { id: s("d"), properties: None },
    ];
    let mut sea = filter("dc:subject", "sea").eval(&images);
    sea.sort();
    assert_eq!(sea, vec![s("a"), s("b")]);
    let both = Category { mode: FilterMode::And, filters: vec![filter("dc:subject", "sea"), filter("dc:subject", "city")], exclusion: None };
    assert_eq!(both.eval(&images), vec![s("b")]);
    let either = Category { mode: FilterMode::Or, filters: vec![filter("dc:subject", "boat"), filter("dc:subject", "city")],
        exclusion: Some(vec![filter("dc:subject", "sea")]) };
    assert!(either.eval(&images).is_empty());
    let none = Category { mode: FilterMode::And, filters: vec![], exclusion: None };
    assert!(none.eval(&images).is_empty());
    let mut config = StrMap::new();
    config.insert(s("water"), vec![Category { mode: FilterMode::Or, filters: vec![filter("dc:subject", "boat")], exclusion: Some(vec![]) }, both]);
    let out = compute_categories(&config, &images);
    let mut water = out.get("water").unwrap().clone();
    water.sort();
    assert_eq!(water, vec![s("a"), s("b")]);
}

#[test]
fn print_configuration_compiles_what_it_can() {
    let img = image_named("img-1", "Harbour", "resources/images/harbour.jpg");
    let res = inventory(vec![img]);
    let mut variants = StrMap::new();
    variants.insert(s("A4"), Variant { price: Price { value: 100, cur: s("SEK") }, width: 21, height: 30 });
    let mut prints = StrMap::new();
    prints.insert(s("sea"), vec![
        PrintRaw { name: s("harbour.jpg"), variants: vec![s("A4")], description: vec![s("d1.txt"), s("d2.txt")], brief: s("b") },
        PrintRaw { name: s("harbour.jpg"), variants: vec![s("A3")], description: vec![], brief: s("b") },
        PrintRaw { name: s("missing.jpg"), variants: vec![s("A4")], description: vec![], brief: s("b") },
        PrintRaw { name: s("harbour.jpg"), variants: vec![], description: vec![s("nope.txt")], brief: s("b") },
    ]);
    prints.insert(s("empty"), vec![PrintRaw { name: s("x.jpg"), variants: vec![], description: vec![], brief: s("") }]);
    let input = PrintDefinition { variants, prints };
    let mut texts = StrMap::new();
    texts.insert(s("d1.txt"), s("one "));
    texts.insert(s("d2.txt"), s("two"));
    let out = compile_print_file(&res, &input, &texts);
    assert_eq!(out.variants.len(), 1);
    assert_eq!(out.prints.len(), 1);
    let sea = out.prints.get("sea").unwrap();
    assert_eq!(sea.len(), 1);
    assert_eq!(sea[0].id, "img-1");
    assert_eq!(sea[0].description, "one two");
    assert_eq!(sea[0].variants, vec![s("A4")]);
    assert!(out.prints.get("empty").is_none());
}

#[test]
fn unused_dependencies_type_is_constructible() {
    let d = Dependencies::new_default();
    assert_eq!(d.get_dependencies().len(), 0);
}

fn dated(id: &str, secs: i64) -> Resource {
    let m = ImageMetadata { name: s(id), date: Timestamp { secs, nanos: 0 }, colour: s("000000"), variants: BySize::new() };
    Resource::new(&format!("resources/images/{}.jpg", id), ResourceData::Image(m), id, "h", ResourceProvider::Dropbox)
}

#[test]
fn images_grouped_by_year_latest_first() {
    let res = inventory(vec![dated("a", 1620037230), dated("b", 1577836800), dated("c", 1609459200), dated("d", 1620037231)]);
    let groups = sort_by_years(&res);
    let view: Vec<(i32, Vec<String>)> = groups.iter().map(|(y, rs)| (*y, rs.iter().map(|r| r.id.clone()).collect())).collect();
    assert_eq!(view, vec![(2021, vec![s("c"), s("a"), s("d")]), (2020, vec![s("b")])]);
    let empty = inventory(vec![]);
    assert!(sort_by_years(&empty).is_empty());
}

#[test]
fn images_need_thumbnails_until_every_size_is_recorded() {
    let img = image_named("img", "Photo", "resources/images/p.jpg");
    let mut res = inventory(vec![img]);
    for size in [ThumbnailSize::Small, ThumbnailSize::Medium, ThumbnailSize::Large, ThumbnailSize::Huge] {
        assert_eq!(images_needing_thumbnails(&res), vec![s("img")]);
        assert!(missing_sizes(res.resources.get("img").unwrap()).contains(&size));
        let t = thumbnail_resource("/g", res.resources.get("img").unwrap(), &size, 10, 10).unwrap();
        record_thumbnail(&mut res, "img", size, t);
        assert!(!missing_sizes(res.resources.get("img").unwrap()).contains(&size));
    }
    assert!(missing_sizes(res.resources.get("img").unwrap()).is_empty());
    assert!(images_needing_thumbnails(&res).is_empty());
}

#[test]
fn thumbnails_are_made_from_the_image_file() {
    let img = image_named("img", "Photo", "resources/images/p.jpg");
    let src = jpeg_of(40, 20, [200, 100, 50]);
    match make_thumbnail("/g", &img, &ThumbnailSize::Small, &src) {
        ThumbnailOutcome::Made(t, bytes) => {
            assert_eq!(t.id, "img-thumbnail-small");
            assert_eq!(t.path, "/g/resources/thumbnails/p-thumbnail-small.jpg");
            match &t.resource_data {
                ResourceData::Thumbnail(v) => {
                    assert_eq!(*v, ImageVariant { size: ThumbnailSize::Small, width: 256, height: 128 });
                }
                _ => panic!("not a thumbnail"),
            }
            let decoded = image::load_from_memory(&bytes).unwrap();
            assert_eq!((decoded.width(), decoded.height()), (256, 128));
        }
        other => panic!("no thumbnail: {:?}", other),
    }
    assert!(matches!(make_thumbnail("/g", &img, &ThumbnailSize::Small, &vec![1, 2, 3]), ThumbnailOutcome::NotJpeg));
    let rootless = image_named("r", "R", "/");
    assert!(matches!(make_thumbnail("/g", &rootless, &ThumbnailSize::Small, &src), ThumbnailOutcome::Unnamed));
}
