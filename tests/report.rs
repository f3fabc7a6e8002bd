use screeps_res::catalog::{catalog, res_color_map};
use screeps_res::color::Rgb;
use screeps_res::report::{draw_res, draw_res_text, draw_text, image_path, report_layout, TextItem};
use screeps_res::totals::ResourceTotals;

fn s(x: &str) -> String {
    x.to_string()
}

#[test]
fn color_table_has_every_entry() {
    let m = res_color_map();
    assert_eq!(m.len(), 90);
    assert!(m.iter().any(|(k, v)| *k == "energy" && *v == "rgb(255,242,0)"));
    assert!(m.iter().any(|(k, v)| *k == "ghodium" && *v == "rgb(255,255,255)"));
}

#[test]
fn catalog_layout_groups() {
    let c = catalog();
    assert_eq!(c.len(), 5);
    assert_eq!(c[0].header, "baseRes");
    assert_eq!(c[0].rows[0].len(), 9);
    assert_eq!(c[2].rows[0], vec!["power", "ops"]);
    assert_eq!(c[3].rows.len(), 5);
    assert_eq!(c[4].rows.len(), 6);
    assert_eq!(c[4].rows[5][6], "ghodium");
}

#[test]
fn draw_res_places_name_and_quantity() {
    let table = res_color_map();
    let mut items: Vec<TextItem> = Vec::new();
    draw_res(&mut items, &table, "energy", 1234, 30, 30);
    assert_eq!(items.len(), 2);
    assert_eq!(items[0].text, "energy");
    assert_eq!((items[0].x, items[0].y, items[0].size), (30, 30, 14));
    assert_eq!(items[0].color, Rgb { r: 255, g: 242, b: 0 });
    assert_eq!(items[1].text, "1,234");
    assert_eq!((items[1].x, items[1].y), (30, 44));
    assert_eq!(items[1].color, Rgb { r: 255, g: 242, b: 0 });
}

#[test]
fn unknown_resource_is_gray() {
    let table = res_color_map();
    let mut items: Vec<TextItem> = Vec::new();
    draw_res(&mut items, &table, "unobtainium", 0, 130, 80);
    assert_eq!(items[0].color, Rgb { r: 136, g: 136, b: 136 });
    assert_eq!(items[1].text, "0");
}

#[test]
fn unreadable_color_text_is_white() {
    let mut items: Vec<TextItem> = Vec::new();
    draw_text(&mut items, "hi", 1, 2, 20, "rgba(0,0,0,0)");
    draw_res_text(&mut items, "baseRes", 10, 15, "#ccc");
    assert_eq!(items[0].color, Rgb { r: 255, g: 255, b: 255 });
    assert_eq!(items[0].size, 20);
    assert_eq!(items[1].color, Rgb { r: 204, g: 204, b: 204 });
    assert_eq!(items[1].size, 14);
}

#[test]
fn full_layout() {
    let mut t = ResourceTotals::new();
    t.add(&s("energy"), 150);
    t.add(&s("U"), 10);
    let r = report_layout(&t, &s("alice"), &s("all"), &s("2024/01/02 03:04:05"));
    assert_eq!((r.width, r.height), (930, 540));
    assert_eq!(r.background, Rgb { r: 43, g: 43, b: 43 });
    // headers: 5; cells: 9 + 9 + 2 + 31 + 39 = 90, two lines each; footer: 2
    assert_eq!(r.items.len(), 5 + 180 + 2);
    assert_eq!(r.items[0].text, "baseRes");
    assert_eq!((r.items[0].x, r.items[0].y), (10, 15));
    assert_eq!(r.items[1].text, "energy");
    assert_eq!(r.items[2].text, "150");
    assert_eq!(r.items[3].text, "U");
    assert_eq!((r.items[3].x, r.items[3].y), (130, 30));
    assert_eq!(r.items[4].text, "10");
    assert_eq!(r.items[6].text, "0");
    let lab = r.items.iter().position(|i| i.text == "labRes").unwrap();
    assert_eq!((r.items[lab].x, r.items[lab].y), (10, 335));
    assert_eq!((r.items[lab + 1].x, r.items[lab + 1].y), (30, 350));
    let goods = r.items.iter().position(|i| i.text == "goods").unwrap();
    assert_eq!(r.items[goods].y, 165);
    let n = r.items.len();
    assert_eq!(r.items[n - 2].text, "2024/01/02 03:04:05");
    assert_eq!((r.items[n - 2].x, r.items[n - 2].y), (780, 400));
    assert_eq!(r.items[n - 1].text, "alice all shard");
    assert_eq!(r.items[n - 1].color, Rgb { r: 136, g: 136, b: 136 });
}

#[test]
fn footer_names_single_shard() {
    let t = ResourceTotals::new();
    let r = report_layout(&t, &s("bob"), &s("shard2"), &s("now"));
    assert_eq!(r.items[r.items.len() - 1].text, "bob shard2");
}

#[test]
fn image_path_embeds_filter() {
    assert_eq!(image_path(&s("alice"), &s("all")), "data/alice_all.png");
    assert_eq!(image_path(&s("bob"), &s("shard0")), "data/bob_shard0.png");
}
