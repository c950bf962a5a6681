use content_managment::datamodel::api::{CheckoutCart, CheckoutItem, CheckoutVariant, InfoVariant};
use content_managment::datamodel::datamodel::{
    BySize, Dependencies, GeneratedDataDesc, ImageMetadata, ImageVariant, Resource, ResourceData, ResourceProvider,
    Resources, ThumbnailSize, Timestamp,
};
use content_managment::datamodel::print::{Price, PrintCompiled, PrintDefinition, Variant};
use content_managment::server::fetch::{find_generated, State};
use content_managment::server::handlers::{print_info, print_is_servable, print_response, version_mismatch};
use content_managment::server::refresh::{manifest_url, resource_eq, FetchError};
use content_managment::server::store::{validate_cart, StripeSession};
use content_managment::server::checkout::checkout_body;
use content_managment::server::util::{find_print, get_thumbnails, get_variants};
use content_managment::strmap::StrMap;

fn s(t: &str) -> String {
    t.to_string()
}

fn gallery() -> Resources {
    let mut variants = BySize::new();
    variants.insert(ThumbnailSize::Large, s("img-1-thumbnail-large"));
    let m = ImageMetadata { name: s("Harbour"), date: Timestamp { secs: 0, nanos: 0 }, colour: s("102030"), variants };
    let img = Resource::new("resources/images/harbour.jpg", ResourceData::Image(m), "img-1", "h1", ResourceProvider::Dropbox);
    let mut deps = Dependencies::new_default();
    deps.add_dependency(&img);
    let thumb = Resource::new(
        "resources/thumbnails/harbour thumbnail-large.jpg",
        ResourceData::Thumbnail(ImageVariant { size: ThumbnailSize::Large, width: 2048, height: 1365 }),
        "img-1-thumbnail-large",
        "h1",
        ResourceProvider::Generated(deps),
    );
    let prints = Resource::new(
        "resources/data/computed_print.json",
        ResourceData::GeneratedData(GeneratedDataDesc { name: s("prints") }),
        "generated_data_resource:prints",
        "hp",
        ResourceProvider::Dropbox,
    );
    let mut m = StrMap::new();
    m.insert(s("img-1"), img);
    m.insert(s("img-1-thumbnail-large"), thumb);
    m.insert(s("generated_data_resource:prints"), prints);
    Resources { resources: m }
}

fn offers() -> PrintDefinition<PrintCompiled> {
    let mut variants = StrMap::new();
    variants.insert(s("A4"), Variant { price: Price { value: 450, cur: s("sek") }, width: 21, height: 30 });
    variants.insert(s("A3"), Variant { price: Price { value: 650, cur: s("sek") }, width: 30, height: 42 });
    let mut prints = StrMap::new();
    prints.insert(s("sea"), vec![PrintCompiled {
        name: s("harbour.jpg"),
        variants: vec![s("A4"), s("A3")],
        description: s("A harbour."),
        id: s("img-1"),
        brief: s("Harbour"),
    }]);
    PrintDefinition { variants, prints }
}

fn loaded_state() -> State {
    loaded_from(gallery())
}

fn loaded_from(res: Resources) -> State {
    let empty = State::new();
    let (mut st, req) = State::from_manifest(&empty, res, Some(s("etag-1")), "https://g.example");
    let req = req.unwrap();
    assert_eq!(req.url, "https://g.example/resources/data/computed_print.json");
    assert_eq!(req.etag, None);
    let p = offers();
    assert!(st.prints_fit(&p));
    st.install_prints(p, Some(s("etag-p")));
    st
}

#[test]
fn state_starts_empty() {
    let st = State::new();
    assert_eq!(st.resources().resources.len(), 0);
    assert_eq!(st.prints().prints.len(), 0);
    assert!(st.lookup_id("Harbour").is_none());
    assert_eq!(st.resources_etag(), None);
}

#[test]
fn refresh_installs_prints_and_names() {
    let g = gallery();
    let st = loaded_from(Resources { resources: g.resources.clone() });
    assert_eq!(st.resources_etag(), Some(s("etag-1")));
    assert_eq!(st.lookup_id("Harbour"), Some(&s("img-1")));
    assert!(st.lookup_id("Nothing").is_none());
    let id = st.lookup_id("Harbour").unwrap().clone();
    assert!(find_print(&id, st.prints()).is_some());
    match &st.resources().resources.get(&id).unwrap().resource_data {
        ResourceData::Image(m) => assert_eq!(m.name, "Harbour"),
        _ => panic!("not an image"),
    }
    let (again, req) = State::from_manifest(&st, Resources { resources: g.resources.clone() }, Some(s("etag-2")), "https://g.example");
    let req = req.unwrap();
    assert_eq!(req.etag, Some(s("etag-p")));
    assert_eq!(again.prints().prints.len(), 1);
    assert!(again.lookup_id("Harbour").is_none());
    let mut bad = offers();
    bad.prints.insert(s("other"), vec![PrintCompiled {
        name: s("x"), variants: vec![], description: s(""), id: s("img-1-thumbnail-large"), brief: s(""),
    }]);
    assert!(!st.prints_fit(&bad));
}

#[test]
fn refresh_without_prints_asks_for_nothing() {
    let mut res = gallery();
    res.resources.remove("generated_data_resource:prints");
    let (st, req) = State::from_manifest(&State::new(), res, None, "https://g.example");
    assert!(req.is_none());
    assert_eq!(st.prints().prints.len(), 0);
    assert_eq!(manifest_url("https://g.example"), "https://g.example/manifest.yaml");
}

#[test]
fn resources_compare_field_by_field() {
    let a = gallery();
    let b = gallery();
    let x = a.resources.get("img-1").unwrap();
    let mut y = b.resources.get("img-1").unwrap().clone();
    y.date_created = x.date_created;
    assert!(resource_eq(x, &y));
    y.content_hash = s("other");
    assert!(!resource_eq(x, &y));
    let t1 = a.resources.get("img-1-thumbnail-large").unwrap();
    let mut t2 = t1.clone();
    assert!(resource_eq(t1, &t2));
    t2.resource_provider = ResourceProvider::Dropbox;
    assert!(!resource_eq(t1, &t2));
    assert!(find_generated(&a, "prints").is_some());
    assert!(find_generated(&a, "categories").is_none());
}

#[test]
fn prints_are_found_with_their_variants_and_thumbnails() {
    let st = loaded_state();
    let p = find_print("img-1", st.prints()).unwrap();
    assert_eq!(p.brief, "Harbour");
    assert!(find_print("img-2", st.prints()).is_none());
    let v = get_variants(&p, st.prints());
    assert_eq!(v.len(), 2);
    assert_eq!(v.get("A3").unwrap().width, 30);
    let img = st.resources().resources.get("img-1").unwrap();
    let t = get_thumbnails(img, st.resources());
    assert_eq!(t.large.as_ref().unwrap().id, "img-1-thumbnail-large");
    assert!(t.small.is_none());
    assert!(print_is_servable(&p, &st));
    let api = print_response(&p, &st);
    assert_eq!(api.description, "A harbour.");
    assert_eq!(api.image.id, "img-1");
    assert_eq!(api.variants.len(), 2);
    assert!(api.thumbnails.large.is_some());
    let mut unknown = p.clone();
    unknown.variants.push(s("A0"));
    assert!(!print_is_servable(&unknown, &st));
}

#[test]
fn print_info_reports_found_and_failed_ids() {
    let st = loaded_state();
    let r = print_info(&vec![s("img-1"), s("nope"), s("nope")], &st);
    assert_eq!(r.failed, vec![s("nope"), s("nope")]);
    assert_eq!(r.success.len(), 1);
    let item = r.success.get("img-1").unwrap();
    assert_eq!(item.name, "Harbour");
    assert_eq!(*item.variants.get("A4").unwrap(), InfoVariant { width: 21, height: 30, price: 450 });
}

#[test]
fn carts_of_another_version_are_refused() {
    assert_eq!(version_mismatch(1, 1), None);
    assert_eq!(version_mismatch(0, 1), Some(s("INVALID API VERSION\nSupported version: 1")));
}

fn cart(ident: &str, id: &str, name: &str, height: u32, width: u32, signature: u8) -> CheckoutCart {
    let mut items = StrMap::new();
    items.insert(s(ident), CheckoutItem {
        id: s(id),
        quantity: 2,
        variant: CheckoutVariant { height, width, signature, name: s(name) },
    });
    CheckoutCart { items, version: 1 }
}

#[test]
fn valid_carts_become_line_items() {
    let st = loaded_state();
    let lines = validate_cart(&st, cart("img-130h21w1s", "img-1", "A4", 30, 21, 1), "https://g.example").unwrap();
    assert_eq!(lines.len(), 1);
    let l = &lines[0];
    assert_eq!(l.quantity, 2);
    assert_eq!(l.price_data.currency, "sek");
    assert_eq!(l.price_data.unit_amount, 45000);
    assert_eq!(l.price_data.product_data.name, "Harbour");
    assert_eq!(l.price_data.product_data.description, "21cm x 30cm - Signature rear");
    assert_eq!(l.price_data.product_data.images,
        vec![s("https://g.example/resources/thumbnails/harbour%20thumbnail-large.jpg")]);
}

#[test]
fn invalid_carts_are_refused() {
    let st = loaded_state();
    assert!(validate_cart(&st, cart("img-130h21w3s", "img-1", "A4", 30, 21, 3), "g").is_none());
    assert!(validate_cart(&st, cart("wrong", "img-1", "A4", 30, 21, 0), "g").is_none());
    assert!(validate_cart(&st, cart("img-130h21w0s", "img-1", "A4", 31, 21, 0), "g").is_none());
    assert!(validate_cart(&st, cart("x", "img-9", "A4", 30, 21, 0), "g").is_none());
    assert!(validate_cart(&st, cart("x", "img-1", "A2", 30, 21, 0), "g").is_none());
}

#[test]
fn checkout_replies_and_fetch_errors() {
    let ok = StripeSession { id: s("cs_1"), object: s("checkout.session"), url: s("https://pay") };
    assert_eq!(ok.checkout_url(), Some(s("https://pay")));
    let other = StripeSession { id: s("x"), object: s("error"), url: s("u") };
    assert_eq!(other.checkout_url(), None);
    let e = FetchError::server_status("404 Not Found", "https://g/manifest.yaml");
    assert_eq!(e.describe(), "Server returned 404 Not Found for path \"https://g/manifest.yaml\"");
    assert_eq!(FetchError::error(s("boom")).describe(), "boom");
}

#[test]
fn checkout_request_body_is_form_encoded_in_key_order() {
    let st = loaded_state();
    let lines = validate_cart(&st, cart("img-130h21w1s", "img-1", "A4", 30, 21, 1), "https://g.example").unwrap();
    let body = checkout_body(&lines, "https://g.example").unwrap();
    let expected = "allow_promotion_codes=true&cancel_url=https%3A%2F%2Fg.example%2Fstore%2Fcancel&line_items%5B0%5D%5Bprice_data%5D%5Bcurrency%5D=sek&line_items%5B0%5D%5Bprice_data%5D%5Bproduct_data%5D%5Bdescription%5D=21cm+x+30cm+-+Signature+rear&line_items%5B0%5D%5Bprice_data%5D%5Bproduct_data%5D%5Bimages%5D%5B0%5D=https%3A%2F%2Fg.example%2Fresources%2Fthumbnails%2Fharbour%2520thumbnail-large.jpg&line_items%5B0%5D%5Bprice_data%5D%5Bproduct_data%5D%5Bname%5D=Harbour&line_items%5B0%5D%5Bprice_data%5D%5Bunit_amount%5D=45000&line_items%5B0%5D%5Bquantity%5D=2&mode=payment&phone_number_collection%5Benabled%5D=true&shipping_address_collection%5Ballowed_countries%5D%5B0%5D=AT&shipping_address_collection%5Ballowed_countries%5D%5B1%5D=BE&shipping_address_collection%5Ballowed_countries%5D%5B2%5D=BG&shipping_address_collection%5Ballowed_countries%5D%5B3%5D=HR&shipping_address_collection%5Ballowed_countries%5D%5B4%5D=CY&shipping_address_collection%5Ballowed_countries%5D%5B5%5D=CZ&shipping_address_collection%5Ballowed_countries%5D%5B6%5D=DK&shipping_address_collection%5Ballowed_countries%5D%5B7%5D=EE&shipping_address_collection%5Ballowed_countries%5D%5B8%5D=FI&shipping_address_collection%5Ballowed_countries%5D%5B9%5D=FR&shipping_address_collection%5Ballowed_countries%5D%5B10%5D=DE&shipping_address_collection%5Ballowed_countries%5D%5B11%5D=GR&shipping_address_collection%5Ballowed_countries%5D%5B12%5D=HU&shipping_address_collection%5Ballowed_countries%5D%5B13%5D=IE&shipping_address_collection%5Ballowed_countries%5D%5B14%5D=IT&shipping_address_collection%5Ballowed_countries%5D%5B15%5D=LV&shipping_address_collection%5Ballowed_countries%5D%5B16%5D=LT&shipping_address_collection%5Ballowed_countries%5D%5B17%5D=LU&shipping_address_collection%5Ballowed_countries%5D%5B18%5D=MT&shipping_address_collection%5Ballowed_countries%5D%5B19%5D=NL&shipping_address_collection%5Ballowed_countries%5D%5B20%5D=PL&shipping_address_collection%5Ballowed_countries%5D%5B21%5D=PT&shipping_address_collection%5Ballowed_countries%5D%5B22%5D=RO&shipping_address_collection%5Ballowed_countries%5D%5B23%5D=SK&shipping_address_collection%5Ballowed_countries%5D%5B24%5D=SI&shipping_address_collection%5Ballowed_countries%5D%5B25%5D=ES&shipping_address_collection%5Ballowed_countries%5D%5B26%5D=SE&shipping_address_collection%5Ballowed_countries%5D%5B27%5D=GB&shipping_address_collection%5Ballowed_countries%5D%5B28%5D=NO&shipping_address_collection%5Ballowed_countries%5D%5B29%5D=CA&shipping_address_collection%5Ballowed_countries%5D%5B30%5D=US&shipping_options%5B0%5D%5Bshipping_rate_data%5D%5Bdelivery_estimate%5D%5Bmaximum%5D%5Bunit%5D=business_day&shipping_options%5B0%5D%5Bshipping_rate_data%5D%5Bdelivery_estimate%5D%5Bmaximum%5D%5Bvalue%5D=7&shipping_options%5B0%5D%5Bshipping_rate_data%5D%5Bdelivery_estimate%5D%5Bminimum%5D%5Bunit%5D=business_day&shipping_options%5B0%5D%5Bshipping_rate_data%5D%5Bdelivery_estimate%5D%5Bminimum%5D%5Bvalue%5D=1&shipping_options%5B0%5D%5Bshipping_rate_data%5D%5Bdisplay_name%5D=PostNord&shipping_options%5B0%5D%5Bshipping_rate_data%5D%5Bfixed_amount%5D%5Bamount%5D=0&shipping_options%5B0%5D%5Bshipping_rate_data%5D%5Bfixed_amount%5D%5Bcurrency%5D=Sek&shipping_options%5B0%5D%5Bshipping_rate_data%5D%5Btype%5D=fixed_amount&success_url=https%3A%2F%2Fg.example%2Fstore%2Fsuccess";
    assert_eq!(body, expected);
}
