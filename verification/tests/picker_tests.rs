use asset_cache::picker::{icon_stem, GraphicPicker};
use asset_cache::tabs::{MapTab, Started};

#[test]
fn icon_stem_drops_the_extension() {
    assert_eq!(icon_stem(&String::from("sword.png")), String::from("sword"));
    assert_eq!(
        icon_stem(&String::from("archive.tar.gz")),
        String::from("archive")
    );
    assert_eq!(icon_stem(&String::from("plain")), String::from("plain"));
    assert_eq!(icon_stem(&String::from(".hidden")), String::from(""));
    assert_eq!(icon_stem(&String::from("")), String::from(""));
}

#[test]
fn picker_selection_ignores_out_of_range_positions() {
    let icons = vec![String::from("sword"), String::from("shield")];
    let mut picker = GraphicPicker::new(icons);
    assert_eq!(picker.selected_icon, 0);

    picker.set_active_icon(1);
    assert_eq!(picker.selected_icon, 1);
    assert_eq!(picker.selected_name().unwrap(), &String::from("shield"));

    picker.set_active_icon(5);
    assert_eq!(picker.selected_icon, 1);
}

#[test]
fn empty_picker_has_no_selection() {
    let picker = GraphicPicker::new(Vec::new());
    assert!(picker.selected_name().is_none());
}

#[test]
fn map_tab_starts_on_the_first_layer() {
    let tab = MapTab::new(4, String::from("Verdant Cave"));
    assert_eq!(tab.id, 4);
    assert_eq!(tab.name, String::from("Verdant Cave"));
    assert_eq!(tab.selected_layer, 0);
    assert_eq!(tab.tilemap.selected_tile, 0);
}

#[test]
fn started_tab_is_constructible() {
    let _tab = Started::new();
}
