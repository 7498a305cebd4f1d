use disktree::appearance::{is_dark, mac_theme, Appearance, BaseTheme};
use disktree::mosaic::{
    categories, category_index, label_rank, label_style, ring_order, shade, tile_paint,
    Category, Filtered, Label, LabelTone, Mosaic, Ring, Shade, TileDeco,
};

fn tile() -> TileDeco<(f32, f32, f32, f32)> {
    TileDeco {
        rect: (0.0, 0.0, 10.0, 10.0),
        depth: 0,
        category: Category::Git,
        age_bucket: None,
        reclaimable: true,
        filtered: Filtered::Shown,
        unreadable: false,
        marked: false,
        covered: false,
        hovered: false,
        selected: false,
    }
}

#[test]
fn category_rows_follow_the_category_list() {
    for (i, c) in categories().iter().enumerate() {
        assert_eq!(category_index(*c), i);
    }
    assert_eq!(category_index(Category::Code), 0);
    assert_eq!(category_index(Category::Other), 8);
}

#[test]
fn marked_tiles_and_their_contents_share_the_marked_fill() {
    let mut t = tile();
    t.marked = true;
    assert_eq!(shade(&t, 4), Shade::Marked);
    let mut t = tile();
    t.covered = true;
    t.age_bucket = Some(2);
    assert_eq!(shade(&t, 4), Shade::Marked);
}

#[test]
fn fills_clamp_depth_and_age() {
    let mut t = tile();
    t.depth = 9;
    t.filtered = Filtered::Holds;
    assert_eq!(shade(&t, 4), Shade::Kind { index: 4, depth: 4, filtered: Filtered::Holds });
    t.age_bucket = Some(10);
    t.depth = 2;
    assert_eq!(shade(&t, 4), Shade::Age { bucket: 3, depth: 2, filtered: Filtered::Holds });
}

#[test]
fn hatches_strips_and_rings() {
    let p = tile_paint(&tile(), 4);
    assert!(p.hatched && p.strip && !p.unreadable_mark);
    assert_eq!(p.ring, None);
    let mut t = tile();
    t.marked = true;
    t.hovered = true;
    t.depth = 1;
    let p = tile_paint(&t, 4);
    assert!(!p.hatched && !p.strip);
    assert_eq!(p.ring, Some(Ring::Hover));
    t.selected = true;
    assert_eq!(tile_paint(&t, 4).ring, Some(Ring::Selection));
    let mut t = tile();
    t.filtered = Filtered::Out;
    t.unreadable = true;
    let p = tile_paint(&t, 4);
    assert!(!p.hatched && !p.strip && p.unreadable_mark);
    let mut t = tile();
    t.marked = true;
    assert_eq!(tile_paint(&t, 4).ring, Some(Ring::Mark));
}

#[test]
fn labels_are_set_by_mark_filter_and_level() {
    let mut l = Label {
        rect: (),
        header: Some(()),
        text: "src".to_string(),
        size_text: "1 GB".to_string(),
        marked: false,
        dim: false,
        depth: 0,
    };
    let s = label_style(&l);
    assert_eq!(s.tone, LabelTone::First);
    assert!(s.bold && s.size_at_band_end);
    l.depth = 2;
    let s = label_style(&l);
    assert_eq!(s.tone, LabelTone::Deeper);
    assert!(!s.bold && !s.size_at_band_end);
    l.dim = true;
    assert_eq!(label_style(&l).tone, LabelTone::Dim);
    l.marked = true;
    assert_eq!(label_style(&l).tone, LabelTone::Marked);
    l.header = None;
    l.depth = 0;
    assert!(!label_style(&l).bold);
    assert_eq!((label_rank(0), label_rank(7)), (0, 1));
}

#[test]
fn a_default_mosaic_is_empty() {
    let m: Mosaic<(), ()> = Mosaic::default();
    assert!(m.tiles.is_empty() && m.labels.is_empty());
}

#[test]
fn the_system_appearance_picks_the_theme() {
    assert!(is_dark(Appearance::Dark) && is_dark(Appearance::VibrantDark));
    assert!(!is_dark(Appearance::Light) && !is_dark(Appearance::VibrantLight));
    let dark = mac_theme(Appearance::VibrantDark);
    assert_eq!((dark.dark, dark.base), (true, BaseTheme::TokyoNight));
    assert_eq!(dark.palette.background, 0x1c1c1e);
    assert_eq!(dark.palette.success, 0x55bd70);
    let light = mac_theme(Appearance::Light);
    assert_eq!((light.dark, light.base), (false, BaseTheme::FlexokiLight));
    assert_eq!(light.palette.accent, 0x006cdb);
    assert_eq!(light.palette.warning, 0x8e5e0d);
}

#[test]
fn an_empty_age_table_only_matters_in_age_mode() {
    assert_eq!(shade(&tile(), 0), Shade::Kind { index: 4, depth: 0, filtered: Filtered::Shown });
    let mut t = tile();
    t.age_bucket = Some(1);
    t.marked = true;
    assert_eq!(shade(&t, 0), Shade::Marked);
    assert_eq!(tile_paint(&t, 0).shade, Shade::Marked);
}

#[test]
fn rings_are_drawn_by_rank_then_tile_order() {
    let rings = vec![
        Some(Ring::Selection),
        None,
        Some(Ring::Mark),
        Some(Ring::Hover),
        Some(Ring::Mark),
        None,
    ];
    assert_eq!(ring_order(&rings), vec![2, 4, 3, 0]);
    assert!(ring_order(&vec![None, None]).is_empty());
}
