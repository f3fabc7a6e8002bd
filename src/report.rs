use vstd::prelude::*;
use crate::aggregate::is_all;
use crate::catalog::{catalog, color_table, is_catalog, res_color_map, CatalogGroup};
use crate::color::{color_spec, parse_color, trimmed, Rgb};
use crate::format::{format_number, formatted};
use crate::text::str_eq;
use crate::totals::{get0, ResourceTotals};

verus! {

/// One line of text placed on the report canvas.
pub struct TextItem {
    pub text: String,
    pub x: u32,
    pub y: u32,
    pub size: u32,
    pub color: Rgb,
}

pub open spec fn item_view(t: TextItem) -> (Seq<char>, int, int, int, Rgb) {
    (t.text@, t.x as int, t.y as int, t.size as int, t.color)
}

pub open spec fn items_view(v: Seq<TextItem>) -> Seq<(Seq<char>, int, int, int, Rgb)> {
    v.map_values(|t: TextItem| item_view(t))
}

pub open spec fn white() -> Rgb {
    Rgb { r: 255, g: 255, b: 255 }
}

/// The neutral gray of resources without a table entry, and of the footer.
pub open spec fn gray() -> Rgb {
    Rgb { r: 136, g: 136, b: 136 }
}

/// The color a color text stands for, white where it cannot be read.
pub open spec fn text_color(c: Seq<char>) -> Rgb {
    match color_spec(trimmed(c)) {
        Ok(rgb) => rgb,
        Err(_) => white(),
    }
}

/// The color text of the first table entry for `name`.
pub open spec fn table_lookup(t: Seq<(&'static str, &'static str)>, name: Seq<char>) -> Option<Seq<char>>
    decreases t.len(),
{
    if t.len() == 0 {
        None
    } else if t[0].0@ == name {
        Some(t[0].1@)
    } else {
        table_lookup(t.drop_first(), name)
    }
}

/// The display color of a resource: its table entry read as a color, gray without one.
pub open spec fn resource_color(t: Seq<(&'static str, &'static str)>, name: Seq<char>) -> Rgb {
    match table_lookup(t, name) {
        Some(c) => text_color(c),
        None => gray(),
    }
}

/// Both lines of one resource cell: its identifier, and below it its quantity.
pub open spec fn cell_items(
    t: Seq<(&'static str, &'static str)>,
    name: Seq<char>,
    qty: int,
    x: int,
    y: int,
) -> Seq<(Seq<char>, int, int, int, Rgb)> {
    seq![
        (name, x, y, 14, resource_color(t, name)),
        (formatted(qty), x, y + 14, 14, resource_color(t, name)),
    ]
}

fn white_rgb() -> (r: Rgb)
    ensures
        r == white(),
{
    Rgb { r: 255, g: 255, b: 255 }
}

fn gray_rgb() -> (r: Rgb)
    ensures
        r == gray(),
{
    Rgb { r: 136, g: 136, b: 136 }
}

fn lookup_color(table: &Vec<(&'static str, &'static str)>, name: &str) -> (r: Option<&'static str>)
    ensures
        r is None <==> table_lookup(table@, name@) is None,
        r is Some ==> table_lookup(table@, name@) == Some(r->Some_0@),
{
    let mut i: usize = 0;
    assert(table@.skip(0) =~= table@);
    while i < table.len()
        invariant
            i <= table@.len(),
            table_lookup(table@, name@) == table_lookup(table@.skip(i as int), name@),
        decreases table@.len() - i,
    {
        let ghost rest = table@.skip(i as int);
        assert(rest[0] == table@[i as int]);
        assert(rest.drop_first() =~= table@.skip(i + 1));
        if str_eq(table[i].0, name) {
            return Some(table[i].1);
        }
        i = i + 1;
    }
    assert(table@.skip(i as int).len() == 0);
    None
}

/// Places `text` at `(x, y)` in `size`, colored by the color text `color` (white where that
/// cannot be read).
pub fn draw_text(items: &mut Vec<TextItem>, text: &str, x: u32, y: u32, size: u32, color: &str)
    ensures
        items_view(final(items)@) == items_view(old(items)@).push(
            (text@, x as int, y as int, size as int, text_color(color@)),
        ),
{
    let c = match parse_color(color) {
        Ok(c) => c,
        Err(_) => white_rgb(),
    };
    let t = TextItem { text: String::from_str(text), x, y, size, color: c };
    items.push(t);
    assert(items_view(items@) =~= items_view(old(items)@).push(item_view(t)));
}

/// Places a resource label: `draw_text` in the size of resource labels.
pub fn draw_res_text(items: &mut Vec<TextItem>, res_type: &str, x: u32, y: u32, color: &str)
    ensures
        items_view(final(items)@) == items_view(old(items)@).push(
            (res_type@, x as int, y as int, 14, text_color(color@)),
        ),
{
    draw_text(items, res_type, x, y, 14, color)
}

fn push_item(items: &mut Vec<TextItem>, text: String, x: u32, y: u32, color: Rgb)
    ensures
        items_view(final(items)@) == items_view(old(items)@).push(
            (text@, x as int, y as int, 14, color),
        ),
{
    let t = TextItem { text, x, y, size: 14, color };
    items.push(t);
    assert(items_view(items@) =~= items_view(old(items)@).push(item_view(t)));
}

/// Places one resource cell at `(x, y)`: the identifier and, a line below, its formatted
/// quantity, both in the resource's display color.
pub fn draw_res(
    items: &mut Vec<TextItem>,
    res_color_map: &Vec<(&'static str, &'static str)>,
    name: &str,
    number: i64,
    x: u32,
    y: u32,
)
    requires
        y <= u32::MAX - 14,
    ensures
        items_view(final(items)@) == items_view(old(items)@) + cell_items(
            res_color_map@,
            name@,
            number as int,
            x as int,
            y as int,
        ),
{
    let c = match lookup_color(res_color_map, name) {
        Some(text) => match parse_color(text) {
            Ok(c) => c,
            Err(_) => white_rgb(),
        },
        None => gray_rgb(),
    };
    push_item(items, String::from_str(name), x, y, c);
    push_item(items, format_number(number), x, y + 14, c);
    assert(items_view(final(items)@) =~= items_view(old(items)@) + cell_items(
        res_color_map@,
        name@,
        number as int,
        x as int,
        y as int,
    ));
}

/// The cells of the first `n` identifiers of one row at height `y`, 100 apart from x = 30.
pub open spec fn row_items(
    t: Seq<(&'static str, &'static str)>,
    totals: Map<Seq<char>, int>,
    row: Seq<&'static str>,
    n: int,
    y: int,
) -> Seq<(Seq<char>, int, int, int, Rgb)>
    decreases n,
{
    if n <= 0 {
        Seq::empty()
    } else {
        row_items(t, totals, row, n - 1, y) + cell_items(
            t,
            row[n - 1]@,
            get0(totals, row[n - 1]@),
            30 + 100 * (n - 1),
            y,
        )
    }
}

/// The first `n` rows of a category whose header stands at height `y0`; rows are 30 apart,
/// the first 15 below the header.
pub open spec fn rows_items(
    t: Seq<(&'static str, &'static str)>,
    totals: Map<Seq<char>, int>,
    rows: Seq<Vec<&'static str>>,
    n: int,
    y0: int,
) -> Seq<(Seq<char>, int, int, int, Rgb)>
    decreases n,
{
    if n <= 0 {
        Seq::empty()
    } else {
        rows_items(t, totals, rows, n - 1, y0) + row_items(
            t,
            totals,
            rows[n - 1]@,
            rows[n - 1]@.len() as int,
            y0 + 15 + 30 * (n - 1),
        )
    }
}

/// Height of the header of category `g`: the first at 15, each next 20 below the last row
/// of the one before.
pub open spec fn header_y(groups: Seq<CatalogGroup>, g: int) -> int
    decreases g,
{
    if g <= 0 {
        15
    } else {
        header_y(groups, g - 1) + 20 + 30 * groups[g - 1].rows@.len()
    }
}

/// The headers and cells of the first `g` categories.
pub open spec fn groups_items(
    t: Seq<(&'static str, &'static str)>,
    totals: Map<Seq<char>, int>,
    groups: Seq<CatalogGroup>,
    g: int,
) -> Seq<(Seq<char>, int, int, int, Rgb)>
    decreases g,
{
    if g <= 0 {
        Seq::empty()
    } else {
        let grp = groups[g - 1];
        let y = header_y(groups, g - 1);
        groups_items(t, totals, groups, g - 1) + seq![(grp.header@, 10, y, 14, white())]
            + rows_items(t, totals, grp.rows@, grp.rows@.len() as int, y)
    }
}

/// Sizes that keep every coordinate of the layout small.
pub open spec fn layout_bounded(groups: Seq<CatalogGroup>) -> bool {
    &&& groups.len() <= 100
    &&& forall|g: int| 0 <= g < groups.len() ==> (#[trigger] groups[g]).rows@.len() <= 100
    &&& forall|g: int, r: int| 0 <= g < groups.len() && 0 <= r < groups[g].rows@.len() ==>
        (#[trigger] groups[g].rows@[r])@.len() <= 100
}

proof fn lemma_header_y_bound(groups: Seq<CatalogGroup>, g: int)
    requires
        layout_bounded(groups),
        0 <= g <= groups.len(),
    ensures
        15 <= header_y(groups, g) <= 15 + 3020 * g,
    decreases g,
{
    if g > 0 {
        lemma_header_y_bound(groups, g - 1);
        assert(groups[g - 1].rows@.len() <= 100);
    }
}

/// Places the cells of one row at height `y`.
fn draw_row(
    items: &mut Vec<TextItem>,
    table: &Vec<(&'static str, &'static str)>,
    totals: &ResourceTotals,
    row: &Vec<&'static str>,
    y: u32,
)
    requires
        totals.wf(),
        row@.len() <= 100,
        y <= 1000000,
    ensures
        items_view(final(items)@) == items_view(old(items)@) + row_items(
            table@,
            totals@,
            row@,
            row@.len() as int,
            y as int,
        ),
{
    let mut i: usize = 0;
    assert(items_view(items@) =~= items_view(old(items)@) + row_items(table@, totals@, row@, 0, y as int));
    while i < row.len()
        invariant
            i <= row@.len(),
            row@.len() <= 100,
            y <= 1000000,
            totals.wf(),
            items_view(items@) == items_view(old(items)@) + row_items(table@, totals@, row@, i as int, y as int),
        decreases row@.len() - i,
    {
        let name = row[i];
        let key = String::from_str(name);
        let qty = totals.get(&key);
        draw_res(items, table, name, qty, 30 + 100 * (i as u32), y);
        assert(items_view(items@) =~= items_view(old(items)@) + row_items(table@, totals@, row@, i + 1, y as int));
        i = i + 1;
    }
}

/// Places every category of `groups` in order: a header, then its rows.
pub fn draw_groups(
    items: &mut Vec<TextItem>,
    table: &Vec<(&'static str, &'static str)>,
    totals: &ResourceTotals,
    groups: &Vec<CatalogGroup>,
)
    requires
        totals.wf(),
        layout_bounded(groups@),
    ensures
        items_view(final(items)@) == items_view(old(items)@) + groups_items(
            table@,
            totals@,
            groups@,
            groups@.len() as int,
        ),
{
    let mut g: usize = 0;
    let mut y: u32 = 15;
    assert(items_view(items@) =~= items_view(old(items)@) + groups_items(table@, totals@, groups@, 0));
    while g < groups.len()
        invariant
            g <= groups@.len(),
            totals.wf(),
            layout_bounded(groups@),
            y as int == header_y(groups@, g as int),
            items_view(items@) == items_view(old(items)@) + groups_items(table@, totals@, groups@, g as int),
        decreases groups@.len() - g,
    {
        proof {
            lemma_header_y_bound(groups@, g as int);
            lemma_header_y_bound(groups@, g + 1);
        }
        let grp = &groups[g];
        let white = white_rgb();
        push_item(items, String::from_str(grp.header), 10, y, white);
        let ghost after_header = items_view(items@);
        let mut r: usize = 0;
        assert(grp.rows@.len() <= 100);
        while r < grp.rows.len()
            invariant
                r <= grp.rows@.len(),
                grp.rows@.len() <= 100,
                totals.wf(),
                layout_bounded(groups@),
                g < groups@.len(),
                grp == groups@[g as int],
                y <= 15 + 3020 * 100,
                items_view(items@) == after_header + rows_items(table@, totals@, grp.rows@, r as int, y as int),
            decreases grp.rows@.len() - r,
        {
            assert(grp.rows@[r as int]@.len() <= 100);
            draw_row(items, table, totals, &grp.rows[r], y + 15 + 30 * (r as u32));
            assert(items_view(items@) =~= after_header + rows_items(table@, totals@, grp.rows@, r + 1, y as int));
            r = r + 1;
        }
        assert(items_view(items@) =~= items_view(old(items)@) + groups_items(table@, totals@, groups@, g + 1));
        y = y + 20 + 30 * (grp.rows.len() as u32);
        g = g + 1;
    }
}

/// Relies on `chrono::Local::now` and its `format`: the local time now as
/// `YYYY/MM/DD HH:MM:SS`. Nothing is stated of it, as it depends on the clock.
#[verifier::external_body]
fn local_timestamp() -> String {
    chrono::Local::now().format("%Y/%m/%d %H:%M:%S").to_string()
}

/// The rendered report: a canvas size, its background and the text placed on it.
pub struct ReportLayout {
    pub width: u32,
    pub height: u32,
    pub background: Rgb,
    pub items: Vec<TextItem>,
}

/// How the footer names the queried shards.
pub open spec fn scope_label(shard: Seq<char>) -> Seq<char> {
    if is_all(shard) {
        seq!['a', 'l', 'l', ' ', 's', 'h', 'a', 'r', 'd']
    } else {
        shard
    }
}

/// The footer: the time, then the player and the shard scope.
pub open spec fn footer_items(timestamp: Seq<char>, username: Seq<char>, shard: Seq<char>) -> Seq<
    (Seq<char>, int, int, int, Rgb),
> {
    seq![
        (timestamp, 780, 400, 14, gray()),
        (username + seq![' '] + scope_label(shard), 780, 420, 14, gray()),
    ]
}

/// Lays out the report of `totals` for `username` and the shard filter `target_shard`,
/// stamped with `timestamp`: a 930 by 540 canvas on a dark background, every category of the
/// catalog with one cell per resource (0 where none was recorded), and the footer.
pub fn report_layout(
    totals: &ResourceTotals,
    username: &String,
    target_shard: &String,
    timestamp: &String,
) -> (r: ReportLayout)
    requires
        totals.wf(),
    ensures
        r.width == 930,
        r.height == 540,
        r.background == (Rgb { r: 43, g: 43, b: 43 }),
        exists|groups: Seq<CatalogGroup>|
            is_catalog(groups) && items_view(r.items@) == groups_items(
                color_table(),
                totals@,
                groups,
                groups.len() as int,
            ) + footer_items(timestamp@, username@, target_shard@),
{
    let groups = catalog();
    let table = res_color_map();
    let mut items: Vec<TextItem> = Vec::new();
    assert(layout_bounded(groups@));
    draw_groups(&mut items, &table, totals, &groups);
    let ghost body = items_view(items@);
    assert(body == groups_items(color_table(), totals@, groups@, groups@.len() as int));
    push_item(&mut items, timestamp.clone(), 780, 400, gray_rgb());
    let all = String::from_str("all");
    proof {
        reveal_strlit("all");
        reveal_strlit("all shard");
    }
    let mut line = username.clone();
    line.append(" ");
    proof {
        reveal_strlit(" ");
    }
    if *target_shard == all {
        line.append("all shard");
    } else {
        line.append(target_shard.as_str());
    }
    assert(all@ == seq!['a', 'l', 'l']);
    assert(" "@ == seq![' ']);
    assert("all shard"@ == seq!['a', 'l', 'l', ' ', 's', 'h', 'a', 'r', 'd']);
    assert(line@ =~= username@ + seq![' '] + scope_label(target_shard@));
    push_item(&mut items, line, 780, 420, gray_rgb());
    assert(items_view(items@) =~= body + footer_items(timestamp@, username@, target_shard@));
    ReportLayout { width: 930, height: 540, background: Rgb { r: 43, g: 43, b: 43 }, items }
}

/// Lays out the report of `totals`, stamped with the local time now.
pub fn report_layout_now(totals: &ResourceTotals, username: &String, target_shard: &String) -> (r:
    ReportLayout)
    requires
        totals.wf(),
    ensures
        r.width == 930,
        r.height == 540,
        exists|groups: Seq<CatalogGroup>, stamp: Seq<char>|
            is_catalog(groups) && items_view(r.items@) == groups_items(
                color_table(),
                totals@,
                groups,
                groups.len() as int,
            ) + footer_items(stamp, username@, target_shard@),
{
    let stamp = local_timestamp();
    report_layout(totals, username, target_shard, &stamp)
}

/// Where the report image of `username` for the shard filter `target_shard` is kept:
/// `data/<username>_<target_shard>.png`, the filter written as given.
pub fn image_path(username: &String, target_shard: &String) -> (r: String)
    ensures
        r@ == seq!['d', 'a', 't', 'a', '/'] + username@ + seq!['_'] + target_shard@ + seq![
            '.',
            'p',
            'n',
            'g',
        ],
{
    proof {
        reveal_strlit("data/");
        reveal_strlit("_");
        reveal_strlit(".png");
    }
    let mut p = String::from_str("data/");
    p.append(username.as_str());
    p.append("_");
    p.append(target_shard.as_str());
    p.append(".png");
    p
}

} // verus!
